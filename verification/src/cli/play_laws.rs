//! What a player sees and presses: which key is which button, and where each
//! pixel of the picture lands in the window.

use super::play::{
    bit_of, blit_pixel, blit_scale, key_action, margin, KeyAction, KeyCode, PlayingModel, Show,
    FRAME_NS,
};
use crate::device::{
    only_buttons, BTN_A, BTN_B, BTN_DOWN, BTN_LEFT, BTN_RIGHT, BTN_SELECT, BTN_START, BTN_UP,
};
use vstd::prelude::*;

verus! {

/// The arrows steer, and so do the letters that lie like them; the keys under
/// the other hand are the two buttons, Enter starts and Shift selects. The keys
/// that the window keeps for itself are no button.
pub proof fn law_each_key_is_its_button()
    ensures
        bit_of(KeyCode::ArrowLeft) == Some(BTN_LEFT),
        bit_of(KeyCode::KeyA) == Some(BTN_LEFT),
        bit_of(KeyCode::ArrowRight) == Some(BTN_RIGHT),
        bit_of(KeyCode::KeyD) == Some(BTN_RIGHT),
        bit_of(KeyCode::ArrowUp) == Some(BTN_UP),
        bit_of(KeyCode::KeyW) == Some(BTN_UP),
        bit_of(KeyCode::ArrowDown) == Some(BTN_DOWN),
        bit_of(KeyCode::KeyS) == Some(BTN_DOWN),
        bit_of(KeyCode::KeyZ) == Some(BTN_A),
        bit_of(KeyCode::KeyJ) == Some(BTN_A),
        bit_of(KeyCode::Space) == Some(BTN_A),
        bit_of(KeyCode::KeyX) == Some(BTN_B),
        bit_of(KeyCode::KeyK) == Some(BTN_B),
        bit_of(KeyCode::Enter) == Some(BTN_START),
        bit_of(KeyCode::ShiftLeft) == Some(BTN_SELECT),
        bit_of(KeyCode::ShiftRight) == Some(BTN_SELECT),
        bit_of(KeyCode::KeyR) is None,
        bit_of(KeyCode::Escape) is None,
        bit_of(KeyCode::Other) is None,
{
}

/// The buttons are the eight bits of a byte, in the order left, right, up, down,
/// A, B, start, select.
pub proof fn law_each_button_is_a_bit()
    ensures
        BTN_LEFT == 1,
        BTN_RIGHT == 2,
        BTN_UP == 4,
        BTN_DOWN == 8,
        BTN_A == 16,
        BTN_B == 32,
        BTN_START == 64,
        BTN_SELECT == 128,
{
}

/// A key that is pressed holds its button down, one that is let go lets it up,
/// and no other button is touched.
pub proof fn law_a_key_moves_its_button_only(buttons: u8, code: KeyCode)
    ensures
        bit_of(code) matches Some(bit) ==> {
            &&& key_action(buttons, code, true) matches KeyAction::Hold { buttons: now } && now
                & bit == bit && now & !bit == buttons & !bit
            &&& key_action(buttons, code, false) matches KeyAction::Hold { buttons: now } && now
                & bit == 0 && now & !bit == buttons & !bit
        },
{
    if let Some(bit) = bit_of(code) {
        assert((buttons | bit) & bit == bit && (buttons | bit) & !bit == buttons & !bit)
            by (bit_vector);
        assert((buttons & !bit) & bit == 0 && (buttons & !bit) & !bit == buttons & !bit)
            by (bit_vector);
    }
}

/// Escape leaves as it is pressed, R reloads as it is let go, and what they do
/// otherwise, or any other key that is no button, changes nothing.
pub proof fn law_the_window_keeps_two_keys(buttons: u8, code: KeyCode, pressed: bool)
    ensures
        key_action(buttons, code, pressed) == KeyAction::Quit <==> pressed && code
            == KeyCode::Escape,
        key_action(buttons, code, pressed) == KeyAction::Reload <==> !pressed && code
            == KeyCode::KeyR,
        bit_of(code) is None && !(pressed && code == KeyCode::Escape) && !(!pressed && code
            == KeyCode::KeyR) ==> key_action(buttons, code, pressed) == (KeyAction::Hold {
            buttons,
        }),
{
}

/// The picture is enlarged as often as it fits into the window both ways, and at
/// least once.
pub proof fn law_the_picture_is_as_large_as_fits(w: u32, h: u32, dim: u32)
    requires
        dim > 0,
    ensures
        ({
            let s = blit_scale(w, h, dim);
            &&& s >= 1
            &&& s > 1 ==> dim * s <= w && dim * s <= h
            &&& dim * (s + 1) > w || dim * (s + 1) > h
        }),
{
    let (d, a, b) = (dim as int, w as int, h as int);
    vstd::arithmetic::div_mod::lemma_fundamental_div_mod(a, d);
    vstd::arithmetic::div_mod::lemma_fundamental_div_mod(b, d);
    let (x, y) = (a / d, b / d);
    let s = blit_scale(w, h, dim);
    assert(d * (x + 1) > a && d * (y + 1) > b) by (nonlinear_arith)
        requires
            a == d * x + a % d,
            b == d * y + b % d,
            a % d < d,
            b % d < d,
    ;
    assert(s <= x && s <= y ==> d * s <= d * x && d * s <= d * y) by (nonlinear_arith)
        requires
            d > 0,
    ;
    assert(s >= x ==> d * (s + 1) >= d * (x + 1)) by (nonlinear_arith)
        requires
            d > 0,
    ;
    assert(s >= y ==> d * (s + 1) >= d * (y + 1)) by (nonlinear_arith)
        requires
            d > 0,
    ;
}

/// The picture stands in the middle: the room on its two sides differs by one at
/// most, and the odd one is behind it. Where it is too large, it starts at the
/// edge.
pub proof fn law_the_picture_stands_in_the_middle(len: u32, draw: int)
    ensures
        draw <= len ==> 0 <= (len - draw - margin(len, draw)) - margin(len, draw) <= 1,
        draw > len ==> margin(len, draw) == 0,
{
}

/// Each pixel of the picture is a square in the window, as wide as the picture is
/// enlarged, in the pixel's colour: red above green above blue. No two pixels
/// change places.
pub proof fn law_a_pixel_is_a_square(
    w: u32,
    h: u32,
    src: Seq<u8>,
    dim: u32,
    sx: int,
    sy: int,
    dx: int,
    dy: int,
)
    requires
        0 <= sx < dim,
        0 <= sy < dim,
        0 <= dx < blit_scale(w, h, dim),
        0 <= dy < blit_scale(w, h, dim),
        dim * dim * 4 <= src.len(),
    ensures
        ({
            let s = blit_scale(w, h, dim);
            let px = margin(w, dim * s) + sx * s + dx;
            let py = margin(h, dim * s) + sy * s + dy;
            let at = 4 * (sy * dim + sx);
            blit_pixel(w, h, src, dim, px, py) == src[at] * 0x1_0000 + src[at + 1] * 0x100 + src[at
                + 2]
        }),
{
    let s = blit_scale(w, h, dim);
    let d = dim as int;
    let x = sx * s + dx;
    let y = sy * s + dy;
    assert(0 <= x < d * s && 0 <= y < d * s) by (nonlinear_arith)
        requires
            x == sx * s + dx,
            y == sy * s + dy,
            0 <= sx < d,
            0 <= sy < d,
            0 <= dx < s,
            0 <= dy < s,
    ;
    vstd::arithmetic::div_mod::lemma_fundamental_div_mod_converse(x, s, sx, dx);
    vstd::arithmetic::div_mod::lemma_fundamental_div_mod_converse(y, s, sy, dy);
}

/// What lies beside the picture is black.
pub proof fn law_beside_the_picture_is_black(
    w: u32,
    h: u32,
    src: Seq<u8>,
    dim: u32,
    px: int,
    py: int,
)
    requires
        ({
            let draw = dim * blit_scale(w, h, dim);
            let (x, y) = (px - margin(w, draw), py - margin(h, draw));
            x < 0 || y < 0 || x >= draw || y >= draw
        }),
    ensures
        blit_pixel(w, h, src, dim, px, py) == 0,
{
}

/// A frame is a sixtieth of a second, to the nanosecond below.
pub proof fn law_sixty_frames_are_a_second()
    ensures
        60 * FRAME_NS <= 1_000_000_000 < 60 * (FRAME_NS + 1),
{
}

/// A frame that is due puts the next one a frame's time from now, and one that
/// is not yet due changes nothing; neither moves a button or the title.
pub proof fn law_a_frame_waits_for_its_time(m: PlayingModel, now: u64)
    requires
        now <= u64::MAX - FRAME_NS,
    ensures
        m.due(now) <==> now >= m.next_frame,
        now >= m.next_frame ==> m.after_idle(now).next_frame == now + FRAME_NS,
        now < m.next_frame ==> m.after_idle(now) == m,
        m.after_idle(now).buttons == m.buttons,
        m.after_idle(now).epoch == m.epoch,
        m.after_idle(now).shown == m.shown,
{
}

/// The title says what is shown: a game by its name; a session that ended as
/// that, whatever else; then one without a game, then a paused one.
pub proof fn law_the_title_says_what_is_shown(name: &str, has_rom: bool, paused: bool)
    ensures
        (Show::Local { name }).text() == "kessel — "@ + name@,
        (Show::Attached { connected: false, has_rom, paused }).text()
            == "kessel — session ended"@,
        (Show::Attached { connected: true, has_rom: false, paused }).text()
            == "kessel — attached (agent has no ROM loaded)"@,
        (Show::Attached { connected: true, has_rom: true, paused: true }).text()
            == "kessel — attached (paused)"@,
        (Show::Attached { connected: true, has_rom: true, paused: false }).text()
            == "kessel — attached to agent session"@,
{
}

/// A player who only presses buttons moves no stick and touches nothing.
pub proof fn law_buttons_alone_touch_nothing(buttons: u8, i: int)
    requires
        0 <= i < 4,
    ensures
        only_buttons(buttons).buttons == buttons,
        only_buttons(buttons).stick_x == 0,
        only_buttons(buttons).stick_y == 0,
        only_buttons(buttons).touches.len() == 4,
        !only_buttons(buttons).touches[i].down,
        only_buttons(buttons).touches[i].x == 0,
        only_buttons(buttons).touches[i].y == 0,
{
}

} // verus!
