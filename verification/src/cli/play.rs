//! A window, a keyboard, and a 60 Hz tick: what each pixel of the window shows,
//! and what each key does.

use crate::device::{BTN_A, BTN_B, BTN_DOWN, BTN_LEFT, BTN_RIGHT, BTN_SELECT, BTN_START, BTN_UP};
use crate::text::{concat2, same};
use vstd::prelude::*;

verus! {

/// Initial window scale. 128×128 is unusably small on a modern display.
pub const DEFAULT_SCALE: u32 = 5;

/// How many window pixels one console pixel covers, each way: an integer, so
/// that pixels stay square and crisp.
pub open spec fn blit_scale(dst_w: u32, dst_h: u32, dim: u32) -> int {
    let a = dst_w as int / dim as int;
    let b = dst_h as int / dim as int;
    let m = if a < b {
        a
    } else {
        b
    };
    if m < 1 {
        1
    } else {
        m
    }
}

/// The margin that centres `draw` pixels in `len`.
pub open spec fn margin(len: u32, draw: int) -> int {
    if draw <= len {
        (len - draw) / 2
    } else {
        0
    }
}

/// A console pixel as the window packs it: 0RGB.
pub open spec fn packed_rgb(src: Seq<u8>, pixel: int) -> u32 {
    (src[4 * pixel] * 0x1_0000 + src[4 * pixel + 1] * 0x100 + src[4 * pixel + 2]) as u32
}

/// What the window shows at `(px, py)`: a pixel of the centred picture, or the
/// black around it.
pub open spec fn blit_pixel(dst_w: u32, dst_h: u32, src: Seq<u8>, dim: u32, px: int, py: int) -> u32 {
    if dim == 0 {
        0
    } else {
        let scale = blit_scale(dst_w, dst_h, dim);
        let draw = dim * scale;
        let x = px - margin(dst_w, draw);
        let y = py - margin(dst_h, draw);
        if 0 <= x < draw && 0 <= y < draw {
            packed_rgb(src, (y / scale) * dim + x / scale)
        } else {
            0
        }
    }
}

proof fn lemma_index(w: int, h: int, px: int, py: int)
    requires
        0 <= px < w,
        0 <= py < h,
    ensures
        0 <= py * w + px < w * h,
        0 <= py * w,
{
    assert(0 <= py * w && py * w + w <= h * w) by (nonlinear_arith)
        requires
            0 <= py < h,
            0 < w,
    ;
    assert(h * w == w * h) by (nonlinear_arith);
}

proof fn lemma_index_unique(w: int, px: int, py: int, qx: int, qy: int)
    requires
        0 <= px < w,
        0 <= qx < w,
        py * w + px == qy * w + qx,
    ensures
        px == qx,
        py == qy,
{
    assert(py == qy) by (nonlinear_arith)
        requires
            0 <= px < w,
            0 <= qx < w,
            py * w + px == qy * w + qx,
    ;
}

/// Where a pixel of the window falls in the picture: within it, and within the
/// source's bytes.
proof fn lemma_source(dim: int, scale: int, x: int, y: int)
    requires
        dim > 0,
        scale >= 1,
        0 <= x < dim * scale,
        0 <= y < dim * scale,
    ensures
        0 <= x / scale < dim,
        0 <= y / scale < dim,
        0 <= (y / scale) * dim <= dim * dim - dim,
        0 <= (y / scale) * dim + x / scale < dim * dim,
{
    assert(0 <= x / scale < dim) by (nonlinear_arith)
        requires
            0 <= x < dim * scale,
            scale >= 1,
    ;
    assert(0 <= y / scale < dim) by (nonlinear_arith)
        requires
            0 <= y < dim * scale,
            scale >= 1,
    ;
    let r = y / scale;
    assert(0 <= r * dim <= dim * dim - dim) by (nonlinear_arith)
        requires
            0 <= r < dim,
    ;
}

fn scale_for(dst_w: u32, dst_h: u32, dim: u32) -> (r: u32)
    requires
        dim > 0,
    ensures
        r == blit_scale(dst_w, dst_h, dim),
        r >= 1,
        r == 1 || (dim * r <= dst_w && dim * r <= dst_h),
{
    let a: u32 = dst_w / dim;
    let b: u32 = dst_h / dim;
    let m: u32 = if a < b { a } else { b };
    proof {
        assert(dim * a <= dst_w) by (nonlinear_arith)
            requires
                a == dst_w as int / dim as int,
                dim > 0,
        ;
        assert(dim * b <= dst_h) by (nonlinear_arith)
            requires
                b == dst_h as int / dim as int,
                dim > 0,
        ;
        assert(dim * m <= dim * a && dim * m <= dim * b) by (nonlinear_arith)
            requires
                m <= a,
                m <= b,
                dim > 0,
        ;
    }
    if m < 1 {
        1
    } else {
        m
    }
}

fn pack(r: u8, g: u8, b: u8) -> (p: u32)
    ensures
        p == r * 0x1_0000 + g * 0x100 + b,
{
    let (x, y, z): (u32, u32, u32) = (r as u32, g as u32, b as u32);
    assert((x << 16) | (y << 8) | z == x * 0x1_0000 + y * 0x100 + z) by (bit_vector)
        requires
            x <= 0xff,
            y <= 0xff,
            z <= 0xff,
    ;
    (x << 16) | (y << 8) | z
}

/// Nearest-neighbour upscale `src` (a `dim`×`dim` RGBA image) into `dst` (a
/// `dst_w`×`dst_h` buffer of `0RGB` words), centred and letterboxed. A window
/// smaller than the picture gets its top-left corner.
pub fn blit(dst: &mut [u32], dst_w: u32, dst_h: u32, src: &[u8], dim: u32)
    requires
        dst_w * dst_h <= old(dst)@.len(),
        dst_w * dst_h <= u32::MAX,
        dim * dim * 4 <= src@.len(),
        dim * dim * 4 <= u32::MAX,
    ensures
        final(dst)@.len() == old(dst)@.len(),
        forall|px: int, py: int|
            0 <= px < dst_w && 0 <= py < dst_h ==> final(dst)@[#[trigger] (py * dst_w + px)]
                == blit_pixel(dst_w, dst_h, src@, dim, px, py),
        forall|i: int| dst_w * dst_h <= i < final(dst)@.len() ==> #[trigger] final(dst)@[i] == 0,
{
    let n: usize = dst.len();
    let mut i: usize = 0;
    while i < n
        invariant
            i <= n == dst@.len() == old(dst)@.len(),
            forall|j: int| 0 <= j < i ==> #[trigger] dst@[j] == 0,
        decreases n - i,
    {
        dst[i] = 0;
        i += 1;
    }
    let ghost (w, h) = (dst_w as int, dst_h as int);
    if dim == 0 {
        assert forall|px: int, py: int| 0 <= px < dst_w && 0 <= py < dst_h implies dst@[
            #[trigger] (py * dst_w + px)] == 0 by {
            lemma_index(w, h, px, py);
        }
        return;
    }
    let scale: u32 = scale_for(dst_w, dst_h, dim);
    assert(dim <= dim * dim) by (nonlinear_arith)
        requires
            dim >= 1,
    ;
    assert(dim * scale <= u32::MAX) by {
        if scale == 1 {
            assert(dim * 1 == dim);
        }
    }
    let draw: u32 = dim * scale;
    let ox: u32 = if draw <= dst_w { (dst_w - draw) / 2 } else { 0 };
    let oy: u32 = if draw <= dst_h { (dst_h - draw) / 2 } else { 0 };
    let rows: u32 = if draw < dst_h { draw } else { dst_h };
    let cols: u32 = if draw < dst_w { draw } else { dst_w };
    let mut y: u32 = 0;
    assert forall|px: int, py: int| 0 <= px < w && 0 <= py < h implies dst@[#[trigger] (py * w
        + px)] == (if py < oy + y {
        blit_pixel(dst_w, dst_h, src@, dim, px, py)
    } else {
        0
    }) by {
        lemma_index(w, h, px, py);
    }
    while y < rows
        invariant
            y <= rows,
            rows <= draw,
            cols <= draw,
            oy + rows <= dst_h,
            ox + cols <= dst_w,
            rows == (if draw < dst_h { draw } else { dst_h }),
            cols == (if draw < dst_w { draw } else { dst_w }),
            ox == margin(dst_w, draw as int),
            oy == margin(dst_h, draw as int),
            dim > 0,
            scale >= 1,
            draw == dim * scale,
            scale == blit_scale(dst_w, dst_h, dim),
            w == dst_w,
            h == dst_h,
            w * h <= dst@.len(),
            w * h <= u32::MAX,
            dim * dim * 4 <= src@.len(),
            dim * dim * 4 <= u32::MAX,
            dst@.len() == old(dst)@.len(),
            forall|px: int, py: int|
                0 <= px < w && 0 <= py < h ==> dst@[#[trigger] (py * w + px)] == (if py < oy + y {
                    blit_pixel(dst_w, dst_h, src@, dim, px, py)
                } else {
                    0
                }),
            forall|i: int| w * h <= i < dst@.len() ==> #[trigger] dst@[i] == 0,
        decreases rows - y,
    {
        proof {
            lemma_source(dim as int, scale as int, 0, y as int);
            let row = oy + y;
            assert(0 <= row * w <= w * h) by (nonlinear_arith)
                requires
                    0 <= row <= h,
                    0 <= w,
            ;
        }
        let src_row: u32 = (y / scale) * dim;
        let dst_row: usize = ((oy + y) * dst_w) as usize;
        let mut x: u32 = 0;
        while x < cols
            invariant
                x <= cols,
                y < rows,
                rows <= draw,
                cols <= draw,
                oy + rows <= dst_h,
                ox + cols <= dst_w,
                cols == (if draw < dst_w { draw } else { dst_w }),
                rows == (if draw < dst_h { draw } else { dst_h }),
                ox == margin(dst_w, draw as int),
                oy == margin(dst_h, draw as int),
                dim > 0,
                scale >= 1,
                draw == dim * scale,
                scale == blit_scale(dst_w, dst_h, dim),
                w == dst_w,
                h == dst_h,
                w * h <= dst@.len(),
                w * h <= u32::MAX,
                dim * dim * 4 <= src@.len(),
                dim * dim * 4 <= u32::MAX,
                dst@.len() == old(dst)@.len(),
                src_row == (y as int / scale as int) * dim,
                dst_row == (oy + y) * w,
                forall|px: int, py: int|
                    0 <= px < w && 0 <= py < h ==> dst@[#[trigger] (py * w + px)] == (if py < oy + y
                        || (py == oy + y && ox <= px < ox + x) {
                        blit_pixel(dst_w, dst_h, src@, dim, px, py)
                    } else {
                        0
                    }),
                forall|i: int| w * h <= i < dst@.len() ==> #[trigger] dst@[i] == 0,
            decreases cols - x,
        {
            proof {
                lemma_source(dim as int, scale as int, x as int, y as int);
                lemma_index(w, h, ox + x, oy + y);
            }
            let s: usize = ((src_row + x / scale) * 4) as usize;
            let at: usize = dst_row + (ox + x) as usize;
            let ghost before = dst@;
            let p: u32 = pack(src[s], src[s + 1], src[s + 2]);
            assert(p == blit_pixel(dst_w, dst_h, src@, dim, ox + x, oy + y));
            dst[at] = p;
            proof {
                assert forall|px: int, py: int| 0 <= px < w && 0 <= py < h implies dst@[
                    #[trigger] (py * w + px)] == (if py < oy + y || (py == oy + y && ox <= px < ox
                    + x + 1) {
                    blit_pixel(dst_w, dst_h, src@, dim, px, py)
                } else {
                    0
                }) by {
                    lemma_index(w, h, px, py);
                    if py * w + px == at {
                        lemma_index_unique(w, px, py, ox + x, oy + y);
                    } else {
                        assert(dst@[py * w + px] == before[py * w + px]);
                    }
                }
                assert forall|i: int| w * h <= i < dst@.len() implies #[trigger] dst@[i] == 0 by {
                    assert(before[i] == 0);
                }
            }
            x += 1;
        }
        proof {
            assert forall|px: int, py: int| 0 <= px < w && 0 <= py < h implies dst@[
                #[trigger] (py * w + px)] == (if py < oy + y + 1 {
                blit_pixel(dst_w, dst_h, src@, dim, px, py)
            } else {
                0
            }) by {}
        }
        y += 1;
    }
}

/// The keys that mean something, and any other.
#[derive(Debug, Clone, Copy, PartialEq, Eq, Structural)]
pub enum KeyCode {
    ArrowLeft,
    ArrowRight,
    ArrowUp,
    ArrowDown,
    KeyA,
    KeyD,
    KeyW,
    KeyS,
    KeyZ,
    KeyJ,
    Space,
    KeyX,
    KeyK,
    Enter,
    ShiftLeft,
    ShiftRight,
    KeyR,
    Escape,
    Other,
}

/// The gamepad bit of a key.
pub open spec fn bit_of(code: KeyCode) -> Option<u8> {
    match code {
        KeyCode::ArrowLeft | KeyCode::KeyA => Some(BTN_LEFT),
        KeyCode::ArrowRight | KeyCode::KeyD => Some(BTN_RIGHT),
        KeyCode::ArrowUp | KeyCode::KeyW => Some(BTN_UP),
        KeyCode::ArrowDown | KeyCode::KeyS => Some(BTN_DOWN),
        KeyCode::KeyZ | KeyCode::KeyJ | KeyCode::Space => Some(BTN_A),
        KeyCode::KeyX | KeyCode::KeyK => Some(BTN_B),
        KeyCode::Enter => Some(BTN_START),
        KeyCode::ShiftLeft | KeyCode::ShiftRight => Some(BTN_SELECT),
        KeyCode::KeyR | KeyCode::Escape | KeyCode::Other => None,
    }
}

/// Map a physical key onto a gamepad bit. Arrows and WASD both drive the d-pad;
/// Z/J and X/K cover the two common right-hand layouts.
pub fn button_for(code: KeyCode) -> (r: Option<u8>)
    ensures
        r == bit_of(code),
{
    match code {
        KeyCode::ArrowLeft | KeyCode::KeyA => Some(BTN_LEFT),
        KeyCode::ArrowRight | KeyCode::KeyD => Some(BTN_RIGHT),
        KeyCode::ArrowUp | KeyCode::KeyW => Some(BTN_UP),
        KeyCode::ArrowDown | KeyCode::KeyS => Some(BTN_DOWN),
        KeyCode::KeyZ | KeyCode::KeyJ | KeyCode::Space => Some(BTN_A),
        KeyCode::KeyX | KeyCode::KeyK => Some(BTN_B),
        KeyCode::Enter => Some(BTN_START),
        KeyCode::ShiftLeft | KeyCode::ShiftRight => Some(BTN_SELECT),
        KeyCode::KeyR | KeyCode::Escape | KeyCode::Other => None,
    }
}

/// Every console button has a key, or a game becomes unplayable.
pub proof fn law_every_console_button_is_bound(bit: u8)
    requires
        bit == BTN_LEFT || bit == BTN_RIGHT || bit == BTN_UP || bit == BTN_DOWN || bit == BTN_A
            || bit == BTN_B || bit == BTN_START || bit == BTN_SELECT,
    ensures
        exists|code: KeyCode| #[trigger] bit_of(code) == Some(bit),
{
    assert(bit_of(KeyCode::ArrowLeft) == Some(BTN_LEFT));
    assert(bit_of(KeyCode::ArrowRight) == Some(BTN_RIGHT));
    assert(bit_of(KeyCode::ArrowUp) == Some(BTN_UP));
    assert(bit_of(KeyCode::ArrowDown) == Some(BTN_DOWN));
    assert(bit_of(KeyCode::KeyZ) == Some(BTN_A));
    assert(bit_of(KeyCode::KeyX) == Some(BTN_B));
    assert(bit_of(KeyCode::Enter) == Some(BTN_START));
    assert(bit_of(KeyCode::ShiftLeft) == Some(BTN_SELECT));
}

/// What a key does.
#[derive(Debug, Clone, Copy, PartialEq, Eq, Structural)]
pub enum KeyAction {
    Quit,
    /// Recompile the file from disk.
    Reload,
    /// These buttons are held now.
    Hold { buttons: u8 },
}

/// What a key does while `buttons` are held.
pub open spec fn key_action(buttons: u8, code: KeyCode, pressed: bool) -> KeyAction {
    if pressed && code == KeyCode::Escape {
        KeyAction::Quit
    } else if !pressed && code == KeyCode::KeyR {
        KeyAction::Reload
    } else {
        KeyAction::Hold {
            buttons: match bit_of(code) {
                Some(bit) => if pressed {
                    buttons | bit
                } else {
                    buttons & !bit
                },
                None => buttons,
            },
        }
    }
}

/// What a key that goes down or comes up does, while `buttons` are held. A
/// reload is on the key's *release*, so holding it does not recompile dozens of
/// times a second.
pub fn on_key(buttons: u8, code: KeyCode, pressed: bool) -> (r: KeyAction)
    ensures
        r == key_action(buttons, code, pressed),
{
    if pressed && code == KeyCode::Escape {
        return KeyAction::Quit;
    }
    if !pressed && code == KeyCode::KeyR {
        return KeyAction::Reload;
    }
    match button_for(code) {
        Some(bit) => if pressed {
            KeyAction::Hold { buttons: buttons | bit }
        } else {
            KeyAction::Hold { buttons: buttons & !bit }
        },
        None => KeyAction::Hold { buttons },
    }
}

/// A key that is let go holds its button no longer, and no other button is
/// touched by pressing and letting go.
pub proof fn law_a_key_let_go_leaves_the_others(buttons: u8, bit: u8)
    ensures
        ((buttons | bit) & !bit) & bit == 0,
        ((buttons | bit) & !bit) == buttons & !bit,
{
    assert(((buttons | bit) & !bit) & bit == 0 && ((buttons | bit) & !bit) == buttons & !bit)
        by (bit_vector);
}

/// A sixtieth of a second: the console runs at 60 Hz, and the tick is paced
/// rather than run as fast as the display allows.
pub const FRAME_NS: u64 = 16_666_666;

/// What a window keeps between events.
pub struct Playing {
    buttons: u8,
    next_frame: u64,
    epoch: u64,
    shown: String,
}

/// What a [`Playing`] keeps.
pub struct PlayingModel {
    /// The buttons held.
    pub buttons: u8,
    /// When the next frame is due, in nanoseconds.
    pub next_frame: u64,
    /// The timeline last seen.
    pub epoch: u64,
    /// The title last shown.
    pub shown: Seq<char>,
}

impl PlayingModel {
    /// Whether a frame is due.
    pub open spec fn due(self, now: u64) -> bool {
        self.next_frame <= now
    }

    /// What is kept after a look at the clock: where a frame was due, the next
    /// one is a frame's time from now.
    pub open spec fn after_idle(self, now: u64) -> PlayingModel {
        if self.due(now) {
            PlayingModel { next_frame: (now + FRAME_NS) as u64, ..self }
        } else {
            self
        }
    }
}

impl View for Playing {
    type V = PlayingModel;

    closed spec fn view(&self) -> PlayingModel {
        PlayingModel {
            buttons: self.buttons,
            next_frame: self.next_frame,
            epoch: self.epoch,
            shown: self.shown@,
        }
    }
}

impl Playing {
    /// Nothing is held, and the first frame is due at once.
    pub fn new(now: u64, epoch: u64, title: String) -> (r: Self)
        ensures
            r@ == (PlayingModel { buttons: 0, next_frame: now, epoch, shown: title@ }),
    {
        Playing { buttons: 0, next_frame: now, epoch, shown: title }
    }

    /// The buttons held.
    pub fn buttons(&self) -> (r: u8)
        ensures
            r == self@.buttons,
    {
        self.buttons
    }

    /// A key goes down or comes up.
    pub fn on_key(&mut self, code: KeyCode, pressed: bool) -> (r: KeyAction)
        ensures
            r == key_action(old(self)@.buttons, code, pressed),
            final(self)@ == (PlayingModel {
                buttons: match r {
                    KeyAction::Hold { buttons } => buttons,
                    _ => old(self)@.buttons,
                },
                ..old(self)@
            }),
    {
        let r = on_key(self.buttons, code, pressed);
        if let KeyAction::Hold { buttons } = r {
            self.buttons = buttons;
        }
        r
    }

    /// Whether a frame is due at `now`. The next one is due a frame's time later,
    /// however late this one is: catching up on a backlog after a stall would
    /// fast-forward the game.
    pub fn on_idle(&mut self, now: u64) -> (r: bool)
        requires
            now <= u64::MAX - FRAME_NS,
        ensures
            r == old(self)@.due(now),
            final(self)@ == old(self)@.after_idle(now),
    {
        if now < self.next_frame {
            return false;
        }
        self.next_frame = now + FRAME_NS;
        true
    }

    /// Whether the timeline jumped, so that the sounds of the one before have to
    /// stop.
    pub fn on_epoch(&mut self, epoch: u64) -> (r: bool)
        ensures
            r == (epoch != old(self)@.epoch),
            final(self)@ == (PlayingModel { epoch, ..old(self)@ }),
    {
        let jumped = epoch != self.epoch;
        self.epoch = epoch;
        jumped
    }

    /// Whether the window has to be given this title: only where it is another
    /// than the one shown.
    pub fn on_title(&mut self, title: String) -> (r: bool)
        ensures
            r == (title@ != old(self)@.shown),
            final(self)@ == (PlayingModel { shown: title@, ..old(self)@ }),
    {
        if same(title.as_str(), self.shown.as_str()) {
            return false;
        }
        self.shown = title;
        true
    }
}

/// However late a frame is, it is the only one: none is due again before a
/// frame's time has gone by, and then one is.
pub proof fn law_a_late_frame_is_not_caught_up(m: PlayingModel, now: u64, later: u64)
    requires
        m.due(now),
        now <= u64::MAX - FRAME_NS,
        now <= later,
    ensures
        m.after_idle(now).due(later) <==> later >= now + FRAME_NS,
{
}

/// What a window drives: a VM of its own, or one that an agent runs.
pub enum Show<'a> {
    Local { name: &'a str },
    Attached { connected: bool, has_rom: bool, paused: bool },
}

impl<'a> Show<'a> {
    pub open spec fn text(self) -> Seq<char> {
        match self {
            Show::Local { name } => "kessel — "@ + name@,
            Show::Attached { connected, has_rom, paused } => if !connected {
                "kessel — session ended"@
            } else if !has_rom {
                "kessel — attached (agent has no ROM loaded)"@
            } else if paused {
                "kessel — attached (paused)"@
            } else {
                "kessel — attached to agent session"@
            },
        }
    }

    /// The window's title, including live state so it's obvious when the agent
    /// has taken the game away from you.
    pub fn title(&self) -> (r: String)
        ensures
            r@ == self.text(),
    {
        match self {
            Show::Local { name } => concat2("kessel — ", name),
            Show::Attached { connected, has_rom, paused } => if !*connected {
                "kessel — session ended".to_owned()
            } else if !*has_rom {
                "kessel — attached (agent has no ROM loaded)".to_owned()
            } else if *paused {
                "kessel — attached (paused)".to_owned()
            } else {
                "kessel — attached to agent session".to_owned()
            },
        }
    }
}

/// Where the samples of one device channel come from.
#[derive(Debug, Clone, Copy, PartialEq, Eq, Structural)]
pub enum ChannelSource {
    /// Both sides averaged: picking one would make a hard-panned sound vanish.
    Average,
    Left,
    Right,
    /// Left silent rather than inventing a centre from a stereo mix.
    Silence,
}

/// What a device's channel `c` of `channels` plays of a stereo mix.
pub fn channel_source(channels: usize, c: usize) -> (r: ChannelSource)
    requires
        c < channels,
    ensures
        r == (if channels == 1 {
            ChannelSource::Average
        } else if c == 0 {
            ChannelSource::Left
        } else if c == 1 {
            ChannelSource::Right
        } else {
            ChannelSource::Silence
        }),
{
    if channels == 1 {
        ChannelSource::Average
    } else if c == 0 {
        ChannelSource::Left
    } else if c == 1 {
        ChannelSource::Right
    } else {
        ChannelSource::Silence
    }
}

/// How many frames of a device block to render next: as many as are left, and
/// no more than the stereo scratch holds.
pub fn chunk_frames(left: usize, scratch: usize) -> (r: usize)
    ensures
        r == (if left <= scratch as int / 2 {
            left as int
        } else {
            scratch as int / 2
        }),
{
    let room: usize = scratch / 2;
    if left <= room {
        left
    } else {
        room
    }
}

} // verus!
