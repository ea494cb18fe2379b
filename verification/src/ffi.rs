//! What a host in another language hands the console: its input in flat
//! arrays, and the sizes of the buffers it owns.

use crate::device::{Input, InputModel, Touch};
use crate::text::chars_of;
use vstd::prelude::*;

verus! {

/// One touch point, in console pixels.
#[derive(Debug, Clone, Copy, PartialEq, Eq, Structural)]
pub struct KesselTouch {
    pub x: u16,
    pub y: u16,
    pub down: bool,
}

impl Default for KesselTouch {
    fn default() -> (r: Self)
        ensures
            r == (KesselTouch { x: 0, y: 0, down: false }),
    {
        KesselTouch { x: 0, y: 0, down: false }
    }
}

/// How many touch slots [`KesselInput`] carries.
pub const KESSEL_MAX_TOUCHES: usize = 4;

/// The screen of a console without a ROM.
pub const CLASSIC_DIM: u32 = 128;

/// The lowest sample rate a synth is given.
pub const MIN_SAMPLE_RATE: u32 = 8_000;

/// Everything a host hands the console for one frame.
#[derive(Debug, Clone, Copy)]
pub struct KesselInput {
    /// The button bits that are held.
    pub buttons: u8,
    /// Analog stick: ±256 is full deflection, 0 centred.
    pub stick_x: i16,
    pub stick_y: i16,
    /// Touch points by slot. A slot is a finger's identity for its whole life.
    pub touches: [KesselTouch; KESSEL_MAX_TOUCHES],
}

impl Default for KesselInput {
    /// Nothing is held, and the stick is centred.
    fn default() -> (r: Self)
        ensures
            r.buttons == 0 && r.stick_x == 0 && r.stick_y == 0,
            r.touches@ == Seq::new(
                KESSEL_MAX_TOUCHES as nat,
                |i: int| KesselTouch { x: 0, y: 0, down: false },
            ),
    {
        let t = KesselTouch { x: 0, y: 0, down: false };
        let r = KesselInput { buttons: 0, stick_x: 0, stick_y: 0, touches: [t, t, t, t] };
        assert(r.touches@ =~= Seq::new(KESSEL_MAX_TOUCHES as nat, |i: int| t));
        r
    }
}

/// A touch point as the console has it.
pub open spec fn touch_of(t: KesselTouch) -> Touch {
    Touch { x: t.x, y: t.y, down: t.down }
}

fn to_touch(t: KesselTouch) -> (r: Touch)
    ensures
        r == touch_of(t),
{
    Touch { x: t.x, y: t.y, down: t.down }
}

impl KesselInput {
    /// The input as the console has it.
    pub open spec fn model(self) -> InputModel {
        InputModel {
            buttons: self.buttons,
            stick_x: self.stick_x,
            stick_y: self.stick_y,
            touches: self.touches@.map_values(|t: KesselTouch| touch_of(t)),
        }
    }

    /// The input as the console takes it: every slot in its place.
    pub fn to_input(&self) -> (r: Input)
        ensures
            r@ == self.model(),
    {
        let t = &self.touches;
        let r = Input {
            buttons: self.buttons,
            stick_x: self.stick_x,
            stick_y: self.stick_y,
            touches: [to_touch(t[0]), to_touch(t[1]), to_touch(t[2]), to_touch(t[3])],
        };
        assert(r@.touches =~= self.model().touches);
        r
    }

    /// The input of a frame, from what a JVM hands over: `touches` is a flat
    /// run of `x, y, down` for each slot. A short run leaves the remaining
    /// slots empty.
    pub fn from_host(buttons: i32, stick_x: i32, stick_y: i32, touches: &[i32]) -> (r: Self)
        ensures
            r.buttons == buttons as int % 256,
            r.stick_x == low_half(stick_x),
            r.stick_y == low_half(stick_y),
            forall|slot: int|
                0 <= slot < KESSEL_MAX_TOUCHES ==> #[trigger] r.touches@[slot] == slot_of(
                    touches@,
                    slot,
                ),
    {
        let b: u8 = ((buttons as i64 + 0x1_0000_0000) % 256) as u8;
        KesselInput {
            buttons: b,
            stick_x: take_half(stick_x),
            stick_y: take_half(stick_y),
            touches: [
                read_slot(touches, 0),
                read_slot(touches, 1),
                read_slot(touches, 2),
                read_slot(touches, 3),
            ],
        }
    }
}

/// The low 16 bits of a number, as a signed number.
pub open spec fn low_half(x: i32) -> int {
    let n = x as int % 0x1_0000;
    if n >= 0x8000 {
        n - 0x1_0000
    } else {
        n
    }
}

fn take_half(x: i32) -> (r: i16)
    ensures
        r == low_half(x),
{
    let n: i64 = (x as i64 + 0x1_0000_0000) % 0x1_0000;
    if n >= 0x8000 {
        (n - 0x1_0000) as i16
    } else {
        n as i16
    }
}

/// A coordinate brought into the range of a screen's.
pub open spec fn clamped(v: i32) -> u16 {
    if v < 0 {
        0
    } else if v > 0xFFFF {
        0xFFFF
    } else {
        v as u16
    }
}

fn clamp(v: i32) -> (r: u16)
    ensures
        r == clamped(v),
{
    if v < 0 {
        0
    } else if v > 0xFFFF {
        0xFFFF
    } else {
        v as u16
    }
}

/// The touch point in a slot of a flat run; none where the run ends before it.
pub open spec fn slot_of(raw: Seq<i32>, slot: int) -> KesselTouch {
    let at = slot * 3;
    if at + 2 < raw.len() {
        KesselTouch { x: clamped(raw[at]), y: clamped(raw[at + 1]), down: raw[at + 2] != 0 }
    } else {
        KesselTouch { x: 0, y: 0, down: false }
    }
}

fn read_slot(raw: &[i32], slot: usize) -> (r: KesselTouch)
    requires
        slot < KESSEL_MAX_TOUCHES,
    ensures
        r == slot_of(raw@, slot as int),
{
    let at: usize = slot * 3;
    if at + 2 < raw.len() {
        KesselTouch { x: clamp(raw[at]), y: clamp(raw[at + 1]), down: raw[at + 2] != 0 }
    } else {
        KesselTouch { x: 0, y: 0, down: false }
    }
}

/// The rate a synth runs at, of the rate a host asks for.
pub fn audio_rate(asked: u32) -> (r: u32)
    ensures
        r == (if asked < MIN_SAMPLE_RATE {
            MIN_SAMPLE_RATE
        } else {
            asked
        }),
{
    if asked < MIN_SAMPLE_RATE {
        MIN_SAMPLE_RATE
    } else {
        asked
    }
}

/// How many stereo frames to render into a host's buffer of `capacity` bytes:
/// as many as it asks for, or none where they do not fit.
pub fn renderable_frames(frames: i32, capacity: usize) -> (r: u32)
    ensures
        r == (if frames > 0 && capacity >= frames * 8 {
            frames as int
        } else {
            0
        }),
{
    if frames <= 0 {
        return 0;
    }
    let need: u64 = frames as u64 * 8;
    if (capacity as u64) < need {
        0
    } else {
        frames as u32
    }
}

/// Whether a host's buffer holds a whole picture.
pub fn holds_picture(capacity: usize, dim: u32) -> (r: bool)
    ensures
        r == (capacity >= dim * dim * 4),
{
    assert(0 <= dim * dim <= 0xFFFF_FFFF * 0xFFFF_FFFF) by (nonlinear_arith)
        requires
            0 <= dim <= 0xFFFF_FFFF,
    ;
    let need: u128 = dim as u128 * dim as u128 * 4;
    capacity as u128 >= need
}

/// Where a text first holds a NUL, from position `i` on, or its end.
pub open spec fn nul_at(s: Seq<char>, i: int) -> int
    decreases s.len() - i,
{
    if 0 <= i < s.len() && s[i] as u32 != 0 {
        nul_at(s, i + 1)
    } else {
        i
    }
}

/// A text cut at its first NUL, which cannot survive the C ABI: a message that
/// is cut stays readable.
pub fn cut_at_nul(s: &str) -> (r: String)
    ensures
        r@ == s@.take(nul_at(s@, 0)),
{
    let chars = chars_of(s);
    let mut r = String::new();
    let mut i: usize = 0;
    while i < chars.len() && chars[i] as u32 != 0
        invariant
            i <= chars@.len(),
            chars@ == s@,
            nul_at(s@, 0) == nul_at(s@, i as int),
            r@ == s@.take(i as int),
        decreases chars@.len() - i,
    {
        r.push(chars[i]);
        i += 1;
        assert(r@ =~= s@.take(i as int));
    }
    r
}

} // verus!
