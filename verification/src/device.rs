//! The console's input: buttons, one analog stick, and touch points.

use vstd::prelude::*;

verus! {

pub const BTN_LEFT: u8 = 1;

pub const BTN_RIGHT: u8 = 2;

pub const BTN_UP: u8 = 4;

pub const BTN_DOWN: u8 = 8;

pub const BTN_A: u8 = 16;

pub const BTN_B: u8 = 32;

pub const BTN_START: u8 = 64;

pub const BTN_SELECT: u8 = 128;

/// Touch points the console follows at once.
pub const MAX_TOUCHES: usize = 4;

/// The stick's deflection at full throw.
pub const STICK_FULL: i16 = 256;

/// One touch point, in screen pixels.
#[derive(Debug, Clone, Copy, PartialEq, Eq, Structural)]
pub struct Touch {
    pub x: u16,
    pub y: u16,
    pub down: bool,
}

impl Default for Touch {
    fn default() -> (r: Self)
        ensures
            r == (Touch { x: 0, y: 0, down: false }),
    {
        Touch { x: 0, y: 0, down: false }
    }
}

/// What a player holds and touches in one frame.
#[derive(Debug, Clone, Copy, PartialEq, Eq)]
pub struct Input {
    /// The `BTN_*` bits that are held.
    pub buttons: u8,
    pub stick_x: i16,
    pub stick_y: i16,
    pub touches: [Touch; MAX_TOUCHES],
}

/// No finger anywhere.
pub open spec fn no_touches() -> Seq<Touch> {
    seq![
        Touch { x: 0, y: 0, down: false },
        Touch { x: 0, y: 0, down: false },
        Touch { x: 0, y: 0, down: false },
        Touch { x: 0, y: 0, down: false },
    ]
}

/// What an [`Input`] holds.
pub struct InputModel {
    pub buttons: u8,
    pub stick_x: i16,
    pub stick_y: i16,
    pub touches: Seq<Touch>,
}

impl View for Input {
    type V = InputModel;

    open spec fn view(&self) -> InputModel {
        InputModel {
            buttons: self.buttons,
            stick_x: self.stick_x,
            stick_y: self.stick_y,
            touches: self.touches@,
        }
    }
}

/// Buttons alone: the stick at rest, and no finger anywhere.
pub open spec fn only_buttons(buttons: u8) -> InputModel {
    InputModel { buttons, stick_x: 0, stick_y: 0, touches: no_touches() }
}

impl Default for Input {
    fn default() -> (r: Self)
        ensures
            r@ == only_buttons(0),
    {
        Input::of_buttons(0)
    }
}

impl Input {
    /// The input of a player who only presses buttons.
    pub fn of_buttons(buttons: u8) -> (r: Self)
        ensures
            r@ == only_buttons(buttons),
    {
        let none = Touch { x: 0, y: 0, down: false };
        let r = Input { buttons, stick_x: 0, stick_y: 0, touches: [none, none, none, none] };
        assert(r@.touches =~= no_touches());
        r
    }
}

} // verus!
