//! What a voice's filter does.

use vstd::prelude::*;

verus! {

/// The shape of a voice's filter.
#[derive(Debug, Clone, Copy, PartialEq, Eq, Structural)]
pub enum FilterMode {
    Off,
    Lpf,
    Hpf,
}

impl Default for FilterMode {
    fn default() -> (r: Self)
        ensures
            r == FilterMode::Off,
    {
        FilterMode::Off
    }
}

} // verus!
