//! Where the shared effects read and write: the lengths of the reverb's delay
//! lines, and the head that goes round each of them.

use vstd::prelude::*;

verus! {

/// Delay-line lengths of the four combs, in samples at 44.1 kHz.
pub const COMB_TUNING: [usize; 4] = [1116, 1188, 1277, 1356];

/// Delay-line lengths of the two all-passes, in samples at 44.1 kHz.
pub const ALLPASS_TUNING: [usize; 2] = [556, 441];

/// Samples the right channel's delays are offset by, so the two sides do not
/// produce identical tails and collapse the image to the middle.
pub const STEREO_SPREAD: usize = 23;

/// A delay line's length at a sample rate, from its length at 44.1 kHz.
pub fn scaled_length(tuning: usize, sample_rate: u32, offset: usize) -> (r: usize)
    requires
        tuning * sample_rate <= usize::MAX,
        tuning * sample_rate / 44_100 + offset <= usize::MAX,
    ensures
        r == tuning * sample_rate / 44_100 + offset,
{
    (tuning * sample_rate as usize) / 44_100 + offset
}

/// The head of a delay line, which reads and writes where it stands.
#[derive(Debug, Clone, Copy, PartialEq, Eq, Structural)]
pub struct Head {
    len: usize,
    pos: usize,
}

impl Head {
    /// How many samples the line holds.
    pub closed spec fn span(&self) -> int {
        self.len as int
    }

    /// Where the head stands.
    pub closed spec fn at(&self) -> int {
        self.pos as int
    }

    /// The head stands on the line, which is not empty.
    pub open spec fn wf(&self) -> bool {
        0 <= self.at() < self.span() <= usize::MAX
    }

    /// A head at the start of a line of at least one sample.
    pub fn new(len: usize) -> (r: Self)
        ensures
            r.wf(),
            r.span() == (if len == 0 {
                1
            } else {
                len as int
            }),
            r.at() == 0,
    {
        Head { len: if len == 0 { 1 } else { len }, pos: 0 }
    }

    pub fn pos(&self) -> (r: usize)
        ensures
            r == self.at(),
    {
        self.pos
    }

    pub fn len(&self) -> (r: usize)
        ensures
            r == self.span(),
    {
        self.len
    }

    /// Back to the start, as a line that is cleared needs.
    pub fn reset(&mut self)
        requires
            old(self).wf(),
        ensures
            final(self).wf(),
            final(self).span() == old(self).span(),
            final(self).at() == 0,
    {
        self.pos = 0;
    }

    /// One sample on; after the last comes the first.
    pub fn advance(&mut self)
        requires
            old(self).wf(),
        ensures
            final(self).wf(),
            final(self).span() == old(self).span(),
            final(self).at() == (old(self).at() + 1) % old(self).span(),
    {
        self.pos = self.pos + 1;
        if self.pos >= self.len {
            self.pos = 0;
            proof {
                vstd::arithmetic::div_mod::lemma_mod_self_0(self.len as int);
            }
        } else {
            proof {
                vstd::arithmetic::div_mod::lemma_small_mod(self.pos as nat, self.len as nat);
            }
        }
    }

    /// The two neighbouring samples that lie `back` behind the head, between
    /// which a moving delay is interpolated: the nearer first.
    pub fn taps(&self, back: usize) -> (r: (usize, usize))
        requires
            self.wf(),
            back < self.span(),
        ensures
            r.0 == (self.at() - back) % self.span(),
            r.1 == (self.at() - back - 1) % self.span(),
            r.0 < self.span() && r.1 < self.span(),
    {
        let i: usize = if self.pos >= back { self.pos - back } else { self.pos + (self.len - back) };
        let j: usize = if i > 0 { i - 1 } else { self.len - 1 };
        proof {
            let n = self.len as int;
            let d = self.pos - back;
            if d >= 0 {
                vstd::arithmetic::div_mod::lemma_small_mod(d as nat, n as nat);
            } else {
                vstd::arithmetic::div_mod::lemma_small_mod((d + n) as nat, n as nat);
                vstd::arithmetic::div_mod::lemma_mod_add_multiples_vanish(d, n);
            }
            let e = d - 1;
            if e >= 0 {
                vstd::arithmetic::div_mod::lemma_small_mod(e as nat, n as nat);
            } else {
                vstd::arithmetic::div_mod::lemma_small_mod((e + n) as nat, n as nat);
                vstd::arithmetic::div_mod::lemma_mod_add_multiples_vanish(e, n);
            }
        }
        (i, j)
    }
}

} // verus!
