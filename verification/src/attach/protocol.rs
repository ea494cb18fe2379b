//! The wire protocol between a running session and an attached player.
//!
//! It carries a stream of full framebuffers, sixty a second. It is
//! request/response and strictly client-driven: the server never advances the
//! machine on its own.
//!
//! ```text
//! HELLO  →  [0x00]
//!        ←  [version u8][busy u8][dim u16 LE][controls_len u16 LE][controls_json …]
//!
//! TICK   →  [0x01][buttons u8][stick_x i16 LE][stick_y i16 LE]
//!               [touches u8][ (x u16 LE, y u16 LE, down u8) × MAX_TOUCHES ]
//!        ←  [flags u8][dim u16 LE][rgba dim*dim*4]
//! ```
//!
//! Each TICK response carries its own `dim` rather than relying on HELLO's: a
//! ROM with a different screen mode can be loaded at any moment, and a length
//! the reader only *assumed* would desynchronise the stream for good.

use crate::bytes::{
    i16_bytes, i16_value, law_i16_value_inverts_i16_bytes, law_le_value_inverts_le_bytes,
    le_bytes, le_value, lemma_byte_ranges, push_all, push_i16, push_le, read_i16, read_le,
};
use crate::device::{Input, InputModel, Touch, MAX_TOUCHES};
use crate::text::{decimal, lossy_text, push_decimal, text_of};
use vstd::prelude::*;
use vstd::slice::slice_subrange;
use vstd::string::{StringExecFns, StringSliceAdditionalSpecFns};
use vstd::utf8::encode_utf8;

verus! {

/// Bumped on any incompatible change. A mismatched player is refused with a
/// clear message rather than left to misparse a frame stream.
///
/// 2: TICK carries the analog stick and touch points, not just buttons.
pub const PROTOCOL_VERSION: u8 = 2;

pub const MSG_HELLO: u8 = 0;

pub const MSG_TICK: u8 = 1;

/// Largest screen edge a frame may claim: a sanity bound on a length read off a
/// socket, not a machine limit.
pub const MAX_DIM: usize = 1024;

pub const FLAG_HAS_ROM: u8 = 1;

pub const FLAG_PAUSED: u8 = 2;

pub const FLAG_HALTED: u8 = 4;

/// Bytes of a TICK request after the message byte.
pub const TICK_BODY: usize = 26;

/// Bytes of a HELLO reply before the controls.
pub const HELLO_HEAD: usize = 6;

/// Bytes of a TICK reply before the pixels.
pub const FRAME_HEAD: usize = 3;

/// Why bytes are no message.
#[derive(Debug, Clone, Copy, PartialEq, Eq, Structural)]
pub enum WireError {
    /// The stream ended before the message did.
    Short,
    /// A tick for another number of touch slots: the sender speaks a protocol
    /// that this version does not.
    TouchSlots { claimed: u8 },
    /// A frame larger than any screen.
    Dim { claimed: u16 },
}

impl WireError {
    /// What to tell a user.
    pub open spec fn text(self) -> Seq<char> {
        match self {
            WireError::Short => "failed to fill whole buffer"@,
            WireError::TouchSlots { claimed } => "tick claims "@ + decimal(claimed as nat)
                + " touch slots, this build has "@ + decimal(MAX_TOUCHES as nat),
            WireError::Dim { claimed } => "frame dim "@ + decimal(claimed as nat)
                + " exceeds the "@ + decimal(MAX_DIM as nat) + " maximum"@,
        }
    }

    pub fn message(&self) -> (r: String)
        ensures
            r@ == self.text(),
    {
        let mut s = String::new();
        match self {
            WireError::Short => {
                s.append("failed to fill whole buffer");
            },
            WireError::TouchSlots { claimed } => {
                s.append("tick claims ");
                push_decimal(&mut s, *claimed as u64);
                s.append(" touch slots, this build has ");
                push_decimal(&mut s, MAX_TOUCHES as u64);
            },
            WireError::Dim { claimed } => {
                s.append("frame dim ");
                push_decimal(&mut s, *claimed as u64);
                s.append(" exceeds the ");
                push_decimal(&mut s, MAX_DIM as u64);
                s.append(" maximum");
            },
        }
        assert(s@ =~= self.text());
        s
    }
}

/// A TICK request: buttons, stick, and every touch slot.
#[derive(Debug, Clone, Copy, PartialEq, Eq)]
pub struct Tick {
    pub input: Input,
}

/// A byte that says yes or no.
pub open spec fn bool_byte(b: bool) -> u8 {
    if b {
        1
    } else {
        0
    }
}

/// One touch slot on the wire.
pub open spec fn touch_bytes(t: Touch) -> Seq<u8> {
    le_bytes(t.x as nat, 2) + le_bytes(t.y as nat, 2) + seq![bool_byte(t.down)]
}

/// The first `k` touch slots on the wire.
pub open spec fn touches_bytes(touches: Seq<Touch>, k: int) -> Seq<u8>
    decreases k,
{
    if k <= 0 {
        Seq::empty()
    } else {
        touches_bytes(touches, k - 1) + touch_bytes(touches[k - 1])
    }
}

/// A TICK request on the wire, its message byte first.
pub open spec fn tick_bytes(input: InputModel) -> Seq<u8> {
    seq![MSG_TICK, input.buttons] + i16_bytes(input.stick_x) + i16_bytes(input.stick_y) + seq![
        MAX_TOUCHES as u8,
    ] + touches_bytes(input.touches, MAX_TOUCHES as int)
}

/// The touch slot that starts at `at`.
pub open spec fn touch_at(s: Seq<u8>, at: int) -> Touch {
    Touch {
        x: le_value(s.subrange(at, at + 2)) as u16,
        y: le_value(s.subrange(at + 2, at + 4)) as u16,
        down: s[at + 4] != 0,
    }
}

/// The input that a TICK request's body holds.
pub open spec fn tick_of(s: Seq<u8>) -> Result<InputModel, WireError> {
    if s.len() < TICK_BODY {
        Err(WireError::Short)
    } else if s[5] != MAX_TOUCHES {
        Err(WireError::TouchSlots { claimed: s[5] })
    } else {
        Ok(
            InputModel {
                buttons: s[0],
                stick_x: i16_value(s.subrange(1, 3)) as i16,
                stick_y: i16_value(s.subrange(3, 5)) as i16,
                touches: seq![touch_at(s, 6), touch_at(s, 11), touch_at(s, 16), touch_at(s, 21)],
            },
        )
    }
}

fn read_touch(s: &[u8], at: usize) -> (t: Touch)
    requires
        at < TICK_BODY,
        at + 5 <= s@.len(),
    ensures
        t == touch_at(s@, at as int),
{
    proof {
        lemma_byte_ranges();
    }
    Touch {
        x: read_le(s, at, 2) as u16,
        y: read_le(s, at + 2, 2) as u16,
        down: s[at + 4] != 0,
    }
}

impl Tick {
    /// Append the request to `w`.
    pub fn write(&self, w: &mut Vec<u8>)
        ensures
            final(w)@ == old(w)@ + tick_bytes(self.input@),
    {
        w.push(MSG_TICK);
        w.push(self.input.buttons);
        push_i16(w, self.input.stick_x);
        push_i16(w, self.input.stick_y);
        w.push(MAX_TOUCHES as u8);
        let ghost head = w@;
        let mut k: usize = 0;
        assert(w@ =~= head + touches_bytes(self.input@.touches, 0));
        while k < MAX_TOUCHES
            invariant
                k <= MAX_TOUCHES,
                w@ == head + touches_bytes(self.input@.touches, k as int),
            decreases MAX_TOUCHES - k,
        {
            let t = self.input.touches[k];
            push_le(w, t.x as u64, 2);
            push_le(w, t.y as u64, 2);
            w.push(if t.down { 1 } else { 0 });
            k += 1;
            assert(w@ =~= head + touches_bytes(self.input@.touches, k as int));
        }
        assert(w@ =~= old(w)@ + tick_bytes(self.input@));
    }

    /// Take one request's body off the front of `r`; the caller has already
    /// taken [`MSG_TICK`].
    pub fn read(r: &mut &[u8]) -> (t: Result<Tick, WireError>)
        ensures
            match t {
                Ok(tick) => tick_of(old(r)@) == Ok::<InputModel, WireError>(tick.input@)
                    && final(r)@ == old(r)@.skip(TICK_BODY as int),
                Err(e) => tick_of(old(r)@) == Err::<InputModel, WireError>(e) && final(r)@ == old(
                    r,
                )@,
            },
    {
        let s: &[u8] = *r;
        if s.len() < TICK_BODY {
            return Err(WireError::Short);
        }
        if s[5] as usize != MAX_TOUCHES {
            return Err(WireError::TouchSlots { claimed: s[5] });
        }
        let input = Input {
            buttons: s[0],
            stick_x: read_i16(s, 1),
            stick_y: read_i16(s, 3),
            touches: [read_touch(s, 6), read_touch(s, 11), read_touch(s, 16), read_touch(s, 21)],
        };
        assert(input@.touches =~= seq![
            touch_at(s@, 6),
            touch_at(s@, 11),
            touch_at(s@, 16),
            touch_at(s@, 21),
        ]);
        *r = slice_subrange(s, TICK_BODY, s.len());
        Ok(Tick { input })
    }
}

proof fn lemma_touch(t: Touch)
    ensures
        touch_bytes(t).len() == 5,
        touch_at(touch_bytes(t), 0) == t,
{
    lemma_byte_ranges();
    law_le_value_inverts_le_bytes(t.x as nat, 2);
    law_le_value_inverts_le_bytes(t.y as nat, 2);
    let s = touch_bytes(t);
    assert(s.subrange(0, 2) =~= le_bytes(t.x as nat, 2));
    assert(s.subrange(2, 4) =~= le_bytes(t.y as nat, 2));
}

proof fn lemma_touch_in(s: Seq<u8>, at: int, t: Touch)
    requires
        0 <= at,
        at + 5 <= s.len(),
        s.subrange(at, at + 5) == touch_bytes(t),
    ensures
        touch_at(s, at) == t,
{
    lemma_touch(t);
    let u = s.subrange(at, at + 5);
    assert(u.subrange(0, 2) =~= s.subrange(at, at + 2));
    assert(u.subrange(2, 4) =~= s.subrange(at + 2, at + 4));
    assert(u[4] == s[at + 4]);
}

/// A tick carries every input surface, and a reader takes exactly its bytes:
/// ticks that follow each other stay framed.
pub proof fn law_ticks_round_trip(input: InputModel, rest: Seq<u8>)
    requires
        input.touches.len() == MAX_TOUCHES,
    ensures
        (tick_bytes(input) + rest)[0] == MSG_TICK,
        tick_of((tick_bytes(input) + rest).skip(1)) == Ok::<InputModel, WireError>(input),
        (tick_bytes(input) + rest).skip(1).skip(TICK_BODY as int) == rest,
{
    let t = input.touches;
    law_i16_value_inverts_i16_bytes(input.stick_x);
    law_i16_value_inverts_i16_bytes(input.stick_y);
    lemma_touch(t[0]);
    lemma_touch(t[1]);
    lemma_touch(t[2]);
    lemma_touch(t[3]);
    reveal_with_fuel(touches_bytes, 5);
    let a = touches_bytes(t, 4);
    assert(a =~= touch_bytes(t[0]) + touch_bytes(t[1]) + touch_bytes(t[2]) + touch_bytes(t[3]));
    let s = (tick_bytes(input) + rest).skip(1);
    assert(tick_bytes(input).len() == 27);
    assert(s.subrange(1, 3) =~= i16_bytes(input.stick_x));
    assert(s.subrange(3, 5) =~= i16_bytes(input.stick_y));
    assert(s.subrange(6, 11) =~= touch_bytes(t[0]));
    assert(s.subrange(11, 16) =~= touch_bytes(t[1]));
    assert(s.subrange(16, 21) =~= touch_bytes(t[2]));
    assert(s.subrange(21, 26) =~= touch_bytes(t[3]));
    lemma_touch_in(s, 6, t[0]);
    lemma_touch_in(s, 11, t[1]);
    lemma_touch_in(s, 16, t[2]);
    lemma_touch_in(s, 21, t[3]);
    assert(seq![t[0], t[1], t[2], t[3]] =~= t);
    assert(s.skip(26) =~= rest);
}

/// What the server knows at handshake time.
#[derive(Debug, Clone)]
pub struct Hello {
    pub version: u8,
    /// Set when another player already holds this session.
    pub busy: bool,
    /// Screen edge length in pixels (square).
    pub dim: u16,
    /// The loaded ROM's control-layout metadata, as JSON.
    pub controls_json: String,
}

/// What a [`Hello`] says.
pub struct HelloModel {
    pub version: u8,
    pub busy: bool,
    pub dim: u16,
    pub controls: Seq<char>,
}

impl View for Hello {
    type V = HelloModel;

    open spec fn view(&self) -> HelloModel {
        HelloModel {
            version: self.version,
            busy: self.busy,
            dim: self.dim,
            controls: self.controls_json@,
        }
    }
}

/// As many of a text's bytes as a 16-bit length can count.
pub open spec fn counted_bytes(text: Seq<char>) -> Seq<u8> {
    let all = encode_utf8(text);
    if all.len() <= 0xFFFF {
        all
    } else {
        all.take(0xFFFF)
    }
}

/// A HELLO reply on the wire.
pub open spec fn hello_bytes(h: HelloModel) -> Seq<u8> {
    let controls = counted_bytes(h.controls);
    seq![h.version, bool_byte(h.busy)] + le_bytes(h.dim as nat, 2) + le_bytes(controls.len(), 2)
        + controls
}

/// How many bytes of controls a HELLO reply's head announces.
pub open spec fn controls_len(head: Seq<u8>) -> nat {
    le_value(head.subrange(4, 6))
}

/// Whether a whole HELLO reply stands at the front of `s`.
pub open spec fn hello_fits(s: Seq<u8>) -> bool {
    s.len() >= HELLO_HEAD && s.len() >= HELLO_HEAD + controls_len(s)
}

impl Hello {
    /// Append the reply to `w`. Controls past what the length can count are
    /// left out.
    pub fn write(&self, w: &mut Vec<u8>)
        ensures
            final(w)@ == old(w)@ + hello_bytes(self@),
    {
        let controls = self.controls_json.as_str().as_bytes();
        let len: usize = if controls.len() <= 0xFFFF { controls.len() } else { 0xFFFF };
        w.push(self.version);
        w.push(if self.busy { 1 } else { 0 });
        push_le(w, self.dim as u64, 2);
        push_le(w, len as u64, 2);
        let part = slice_subrange(controls, 0, len);
        assert(part@ =~= counted_bytes(self.controls_json@));
        push_all(w, part);
        assert(w@ =~= old(w)@ + hello_bytes(self@));
    }

    /// How many bytes of controls follow a reply's head.
    pub fn rest_len(head: &[u8]) -> (n: usize)
        requires
            head@.len() >= HELLO_HEAD,
        ensures
            n == controls_len(head@),
    {
        proof {
            lemma_byte_ranges();
        }
        read_le(head, 4, 2) as usize
    }

    /// Take one reply off the front of `r`.
    ///
    /// A reply that [`Hello::write`] wrote in full comes back as it was.
    pub fn read(r: &mut &[u8]) -> (t: Result<Hello, WireError>)
        ensures
            match t {
                Ok(h) => {
                    let s = old(r)@;
                    let end = HELLO_HEAD + controls_len(s);
                    &&& hello_fits(s)
                    &&& h.version == s[0]
                    &&& h.busy == (s[1] != 0)
                    &&& h.dim == le_value(s.subrange(2, 4))
                    &&& h.controls_json@ == text_of(s.subrange(HELLO_HEAD as int, end as int))
                    &&& final(r)@ == s.skip(end as int)
                },
                Err(e) => e == WireError::Short && !hello_fits(old(r)@) && final(r)@ == old(r)@,
            },
            forall|g: HelloModel, rest: Seq<u8>|
                #![trigger hello_bytes(g) + rest]
                old(r)@ == hello_bytes(g) + rest && encode_utf8(g.controls).len() <= 0xFFFF ==> {
                    &&& t matches Ok(h) && h@ == g
                    &&& final(r)@ == rest
                },
    {
        let s: &[u8] = *r;
        if s.len() < HELLO_HEAD {
            proof {
                assert forall|g: HelloModel, rest: Seq<u8>| #![trigger hello_bytes(g) + rest]
                    s@ == hello_bytes(g) + rest implies false by {
                    lemma_hello(g, rest);
                }
            }
            return Err(WireError::Short);
        }
        let len: usize = Hello::rest_len(s);
        if s.len() - HELLO_HEAD < len {
            proof {
                assert forall|g: HelloModel, rest: Seq<u8>| #![trigger hello_bytes(g) + rest]
                    s@ == hello_bytes(g) + rest implies false by {
                    lemma_hello(g, rest);
                }
            }
            return Err(WireError::Short);
        }
        proof {
            lemma_byte_ranges();
        }
        let body = slice_subrange(s, HELLO_HEAD, HELLO_HEAD + len);
        let controls_json = lossy_text(body);
        let h = Hello {
            version: s[0],
            busy: s[1] != 0,
            dim: read_le(s, 2, 2) as u16,
            controls_json,
        };
        *r = slice_subrange(s, HELLO_HEAD + len, s.len());
        proof {
            assert forall|g: HelloModel, rest: Seq<u8>| #![trigger hello_bytes(g) + rest]
                s@ == hello_bytes(g) + rest && encode_utf8(g.controls).len() <= 0xFFFF implies h@
                == g && r@ == rest by {
                lemma_hello(g, rest);
                vstd::utf8::encode_utf8_valid_utf8(g.controls);
                vstd::utf8::encode_utf8_decode_utf8(g.controls);
                assert(body@ == encode_utf8(g.controls));
                assert(r@ =~= rest);
            }
        }
        Ok(h)
    }

    /// Bytes of pixels in one TICK reply, once `dim` is known.
    pub fn frame_bytes(&self) -> (n: usize)
        requires
            self.dim * self.dim * 4 <= usize::MAX,
        ensures
            n == self.dim * self.dim * 4,
    {
        assert(0 <= self.dim * self.dim) by (nonlinear_arith);
        self.dim as usize * self.dim as usize * 4
    }
}

proof fn lemma_hello(g: HelloModel, rest: Seq<u8>)
    ensures
        ({
            let s = hello_bytes(g) + rest;
            let controls = counted_bytes(g.controls);
            &&& hello_fits(s)
            &&& controls_len(s) == controls.len()
            &&& s[0] == g.version
            &&& s[1] == bool_byte(g.busy)
            &&& le_value(s.subrange(2, 4)) == g.dim
            &&& s.subrange(6, 6 + controls.len() as int) == controls
            &&& s.skip(6 + controls.len() as int) == rest
        }),
{
    let controls = counted_bytes(g.controls);
    lemma_byte_ranges();
    law_le_value_inverts_le_bytes(g.dim as nat, 2);
    law_le_value_inverts_le_bytes(controls.len(), 2);
    let s = hello_bytes(g) + rest;
    assert(s.subrange(2, 4) =~= le_bytes(g.dim as nat, 2));
    assert(s.subrange(4, 6) =~= le_bytes(controls.len(), 2));
    assert(s.subrange(6, 6 + controls.len() as int) =~= controls);
    assert(s.skip(6 + controls.len() as int) =~= rest);
}

/// One frame as the player sees it.
#[derive(Debug, Clone)]
pub struct Frame {
    pub has_rom: bool,
    pub paused: bool,
    pub halted: bool,
    /// Screen edge length this frame was rendered at.
    pub dim: u16,
    /// RGBA, `dim * dim * 4` bytes. All zeroes when no ROM is loaded.
    pub rgba: Vec<u8>,
}

/// What a [`Frame`] shows.
pub struct FrameModel {
    pub has_rom: bool,
    pub paused: bool,
    pub halted: bool,
    pub dim: u16,
    pub rgba: Seq<u8>,
}

impl View for Frame {
    type V = FrameModel;

    open spec fn view(&self) -> FrameModel {
        FrameModel {
            has_rom: self.has_rom,
            paused: self.paused,
            halted: self.halted,
            dim: self.dim,
            rgba: self.rgba@,
        }
    }
}

/// A flag's bit where it is set.
pub open spec fn flag(set: bool, bit: u8) -> u8 {
    if set {
        bit
    } else {
        0
    }
}

impl FrameModel {
    pub open spec fn flags(self) -> u8 {
        flag(self.has_rom, FLAG_HAS_ROM) | flag(self.paused, FLAG_PAUSED) | flag(
            self.halted,
            FLAG_HALTED,
        )
    }

    /// A TICK reply on the wire.
    pub open spec fn bytes(self) -> Seq<u8> {
        seq![self.flags()] + le_bytes(self.dim as nat, 2) + self.rgba
    }

    /// As many pixels as the edge length says, and no larger than any screen.
    pub open spec fn wf(self) -> bool {
        &&& self.dim <= MAX_DIM
        &&& self.rgba.len() == pixels_len(self.dim)
    }
}

/// Bytes of pixels on a screen of this edge length.
pub open spec fn pixels_len(dim: u16) -> int {
    dim * dim * 4
}

/// The edge length that a TICK reply's head announces.
pub open spec fn frame_dim(s: Seq<u8>) -> u16 {
    le_value(s.subrange(1, 3)) as u16
}

/// The frame at the front of `s`.
pub open spec fn frame_of(s: Seq<u8>) -> Result<FrameModel, WireError> {
    if s.len() < FRAME_HEAD {
        Err(WireError::Short)
    } else if frame_dim(s) > MAX_DIM {
        Err(WireError::Dim { claimed: frame_dim(s) })
    } else if s.len() < FRAME_HEAD + pixels_len(frame_dim(s)) {
        Err(WireError::Short)
    } else {
        Ok(
            FrameModel {
                has_rom: s[0] & FLAG_HAS_ROM != 0,
                paused: s[0] & FLAG_PAUSED != 0,
                halted: s[0] & FLAG_HALTED != 0,
                dim: frame_dim(s),
                rgba: s.subrange(3, 3 + pixels_len(frame_dim(s))),
            },
        )
    }
}

impl Frame {
    pub fn flags(&self) -> (f: u8)
        ensures
            f == self@.flags(),
    {
        let mut f: u8 = 0;
        if self.has_rom {
            f = f | FLAG_HAS_ROM;
        }
        if self.paused {
            f = f | FLAG_PAUSED;
        }
        if self.halted {
            f = f | FLAG_HALTED;
        }
        proof {
            let (a, b, c) = (
                flag(self.has_rom, FLAG_HAS_ROM),
                flag(self.paused, FLAG_PAUSED),
                flag(self.halted, FLAG_HALTED),
            );
            assert(0u8 | 1 == 1u8 && 0u8 | 2 == 2u8 && 0u8 | 4 == 4u8) by (bit_vector);
            assert((a | b) | 0 == a | b && a | 0 == a && (0u8 | b) == b) by (bit_vector);
        }
        f
    }

    /// Append the reply to `w`.
    pub fn write(&self, w: &mut Vec<u8>)
        ensures
            final(w)@ == old(w)@ + self@.bytes(),
    {
        w.push(self.flags());
        push_le(w, self.dim as u64, 2);
        push_all(w, self.rgba.as_slice());
        assert(w@ =~= old(w)@ + self@.bytes());
    }

    /// How many bytes of pixels follow a reply's head.
    pub fn rest_len(head: &[u8]) -> (n: Result<usize, WireError>)
        requires
            head@.len() >= FRAME_HEAD,
        ensures
            n == (if frame_dim(head@) > MAX_DIM {
                Err::<usize, WireError>(WireError::Dim { claimed: frame_dim(head@) })
            } else {
                Ok::<usize, WireError>(pixels_len(frame_dim(head@)) as usize)
            }),
            n matches Ok(k) ==> k == pixels_len(frame_dim(head@)) <= 4 * MAX_DIM * MAX_DIM,
    {
        proof {
            lemma_byte_ranges();
        }
        let dim: u16 = read_le(head, 1, 2) as u16;
        // A corrupt length would otherwise be a multi-gigabyte allocation.
        if dim as usize > MAX_DIM {
            return Err(WireError::Dim { claimed: dim });
        }
        assert(0 <= dim * dim <= 1024 * 1024) by (nonlinear_arith)
            requires
                0 <= dim <= 1024,
        ;
        Ok(dim as usize * dim as usize * 4)
    }

    /// Take one reply off the front of `r`. The length comes off the wire, so a
    /// resolution change on the far side resizes the reader instead of tearing
    /// the stream.
    pub fn read(r: &mut &[u8]) -> (t: Result<Frame, WireError>)
        ensures
            match t {
                Ok(f) => {
                    &&& frame_of(old(r)@) == Ok::<FrameModel, WireError>(f@)
                    &&& f@.wf()
                    &&& final(r)@ == old(r)@.skip(FRAME_HEAD + pixels_len(f.dim))
                },
                Err(e) => frame_of(old(r)@) == Err::<FrameModel, WireError>(e) && final(r)@ == old(
                    r,
                )@,
            },
    {
        let s: &[u8] = *r;
        if s.len() < FRAME_HEAD {
            return Err(WireError::Short);
        }
        let len: usize = match Frame::rest_len(s) {
            Ok(n) => n,
            Err(e) => {
                return Err(e);
            },
        };
        if s.len() - FRAME_HEAD < len {
            return Err(WireError::Short);
        }
        proof {
            lemma_byte_ranges();
        }
        let mut rgba: Vec<u8> = Vec::new();
        let body = slice_subrange(s, FRAME_HEAD, FRAME_HEAD + len);
        push_all(&mut rgba, body);
        assert(rgba@ =~= s@.subrange(3, 3 + len as int));
        let f = Frame {
            has_rom: s[0] & FLAG_HAS_ROM != 0,
            paused: s[0] & FLAG_PAUSED != 0,
            halted: s[0] & FLAG_HALTED != 0,
            dim: read_le(s, 1, 2) as u16,
            rgba,
        };
        *r = slice_subrange(s, FRAME_HEAD + len, s.len());
        Ok(f)
    }
}

/// A frame comes back as it was, every flag included, and a reader takes
/// exactly its bytes: frames of any sizes that follow each other stay framed.
pub proof fn law_frames_round_trip(f: FrameModel, rest: Seq<u8>)
    requires
        f.wf(),
    ensures
        frame_of(f.bytes() + rest) == Ok::<FrameModel, WireError>(f),
        (f.bytes() + rest).skip(FRAME_HEAD + pixels_len(f.dim)) == rest,
{
    let s = f.bytes() + rest;
    lemma_byte_ranges();
    law_le_value_inverts_le_bytes(f.dim as nat, 2);
    assert(s.subrange(1, 3) =~= le_bytes(f.dim as nat, 2));
    assert(0 <= f.dim * f.dim) by (nonlinear_arith);
    assert(s.subrange(3, 3 + pixels_len(f.dim)) =~= f.rgba);
    assert(s.skip(FRAME_HEAD + pixels_len(f.dim)) =~= rest);
    let (a, b, c) = (
        flag(f.has_rom, FLAG_HAS_ROM),
        flag(f.paused, FLAG_PAUSED),
        flag(f.halted, FLAG_HALTED),
    );
    assert((a == 0 || a == 1) && (b == 0 || b == 2) && (c == 0 || c == 4) ==> ((a | b | c) & 1 != 0)
        == (a == 1) && ((a | b | c) & 2 != 0) == (b == 2) && ((a | b | c) & 4 != 0) == (c == 4))
        by (bit_vector);
}

} // verus!
