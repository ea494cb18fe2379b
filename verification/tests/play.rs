use kessel::cli::play::{
    blit, button_for, channel_source, chunk_frames, on_key, ChannelSource, KeyAction, KeyCode,
    Playing, Show, DEFAULT_SCALE, FRAME_NS,
};
use kessel::device::{
    BTN_A, BTN_B, BTN_DOWN, BTN_LEFT, BTN_RIGHT, BTN_SELECT, BTN_START, BTN_UP,
};

#[test]
fn both_key_layouts_reach_the_same_buttons() {
    assert_eq!(button_for(KeyCode::ArrowLeft), button_for(KeyCode::KeyA));
    assert_eq!(button_for(KeyCode::KeyZ), button_for(KeyCode::KeyJ));
    assert_eq!(button_for(KeyCode::KeyX), button_for(KeyCode::KeyK));
    assert_eq!(button_for(KeyCode::Enter), Some(BTN_START));
    assert!(button_for(KeyCode::Other).is_none());
}

/// Every d-pad and face button must be reachable, or a game becomes unplayable.
#[test]
fn every_console_button_is_bound() {
    let bound: u8 = [
        KeyCode::ArrowLeft,
        KeyCode::ArrowRight,
        KeyCode::ArrowUp,
        KeyCode::ArrowDown,
        KeyCode::KeyZ,
        KeyCode::KeyX,
        KeyCode::Enter,
        KeyCode::ShiftLeft,
    ]
    .into_iter()
    .filter_map(button_for)
    .fold(0, |acc, b| acc | b);

    let all = BTN_LEFT | BTN_RIGHT | BTN_UP | BTN_DOWN | BTN_A | BTN_B | BTN_START | BTN_SELECT;
    assert_eq!(bound, all, "some console button has no key");
}

/// Channel order is the bug that would show as a plausible-but-wrong picture,
/// so pin it: RGBA in, 0RGB out.
#[test]
fn blit_packs_rgb_in_the_right_order() {
    let src = vec![0xAA, 0xBB, 0xCC, 0xFF]; // 1×1 RGBA
    let mut dst = vec![0u32; 1];
    blit(&mut dst, 1, 1, &src, 1);
    assert_eq!(dst[0], 0x00AA_BBCC);
}

/// A 2× window must repeat each source pixel in a 2×2 block.
#[test]
fn blit_upscales_by_an_integer_factor() {
    // 2×2 source: red, green / blue, white.
    let src = vec![
        255, 0, 0, 255, 0, 255, 0, 255, // row 0
        0, 0, 255, 255, 255, 255, 255, 255, // row 1
    ];
    let mut dst = vec![0u32; 4 * 4];
    blit(&mut dst, 4, 4, &src, 2);

    let at = |x: usize, y: usize| dst[y * 4 + x];
    for (x, y) in [(0, 0), (1, 0), (0, 1), (1, 1)] {
        assert_eq!(at(x, y), 0x00FF_0000, "top-left block should be red");
    }
    assert_eq!(at(2, 0), 0x0000_FF00, "top-right green");
    assert_eq!(at(0, 2), 0x0000_00FF, "bottom-left blue");
    assert_eq!(at(3, 3), 0x00FF_FFFF, "bottom-right white");
}

/// A non-multiple window letterboxes: the image is centred and the margin stays
/// black rather than the picture stretching.
#[test]
fn blit_centres_and_letterboxes() {
    let src = vec![255, 255, 255, 255]; // 1×1 white
    let mut dst = vec![0u32; 5 * 3];
    blit(&mut dst, 5, 3, &src, 1);

    // scale = min(5,3) = 3 → a 3×3 block centred in 5 wide, 3 tall.
    let at = |x: usize, y: usize| dst[y * 5 + x];
    assert_eq!(at(0, 0), 0, "left margin stays black");
    assert_eq!(at(4, 0), 0, "right margin stays black");
    for y in 0..3 {
        for x in 1..4 {
            assert_eq!(at(x, y), 0x00FF_FFFF, "({x},{y}) should be drawn");
        }
    }
}

/// A window smaller than the console must not write out of bounds.
#[test]
fn blit_survives_a_window_smaller_than_the_console() {
    let src = vec![0u8; 128 * 128 * 4];
    let mut dst = vec![0u32; 10 * 10];
    blit(&mut dst, 10, 10, &src, 128); // would overflow if unclamped
}

#[test]
fn blit_clears_what_it_does_not_draw() {
    let mut dst = vec![7u32; 6];
    blit(&mut dst, 2, 2, &[], 0);
    assert_eq!(dst, [0; 6], "no screen at all is black");
    let mut dst = vec![7u32; 3];
    blit(&mut dst, 0, 4, &[1, 2, 3, 4], 1);
    assert_eq!(dst, [0; 3]);
    // The top-left corner of a picture that does not fit.
    let src: Vec<u8> = (0..9).flat_map(|i| [i, 0, 0, 255]).collect();
    let mut dst = vec![7u32; 4];
    blit(&mut dst, 2, 2, &src, 3);
    assert_eq!(dst, [0, 1 << 16, 3 << 16, 4 << 16]);
    assert_eq!(DEFAULT_SCALE, 5);
}

#[test]
fn keys_hold_and_let_go() {
    assert_eq!(
        on_key(BTN_A, KeyCode::ArrowUp, true),
        KeyAction::Hold { buttons: BTN_A | BTN_UP }
    );
    assert_eq!(
        on_key(BTN_A | BTN_UP, KeyCode::KeyW, false),
        KeyAction::Hold { buttons: BTN_A }
    );
    assert_eq!(on_key(3, KeyCode::Other, true), KeyAction::Hold { buttons: 3 });
    assert_eq!(on_key(3, KeyCode::Escape, true), KeyAction::Quit);
    assert_eq!(on_key(3, KeyCode::Escape, false), KeyAction::Hold { buttons: 3 });
    // Reload on the release, so holding the key does not repeat it.
    assert_eq!(on_key(3, KeyCode::KeyR, true), KeyAction::Hold { buttons: 3 });
    assert_eq!(on_key(3, KeyCode::KeyR, false), KeyAction::Reload);
}

#[test]
fn titles_say_what_is_going_on() {
    assert_eq!(Show::Local { name: "pong.lua" }.title(), "kessel — pong.lua");
    let attached = |connected, has_rom, paused| {
        Show::Attached { connected, has_rom, paused }.title()
    };
    assert_eq!(attached(false, true, true), "kessel — session ended");
    assert_eq!(
        attached(true, false, true),
        "kessel — attached (agent has no ROM loaded)"
    );
    assert_eq!(attached(true, true, true), "kessel — attached (paused)");
    assert_eq!(attached(true, true, false), "kessel — attached to agent session");
}

#[test]
fn a_late_frame_is_not_caught_up() {
    let mut p = Playing::new(100, 1, "t".into());
    assert!(p.on_idle(100));
    assert!(!p.on_idle(99 + FRAME_NS));
    assert!(p.on_idle(10 * FRAME_NS));
    assert!(!p.on_idle(10 * FRAME_NS), "nine frames were skipped, not saved up");
    assert!(p.on_idle(11 * FRAME_NS));
    assert_eq!(FRAME_NS, 1_000_000_000 / 60);
}

#[test]
fn a_jump_in_time_is_told_once() {
    let mut p = Playing::new(0, 1, "t".into());
    assert!(!p.on_epoch(1));
    assert!(p.on_epoch(2));
    assert!(!p.on_epoch(2));
    assert!(!p.on_title("t".into()));
    assert!(p.on_title("u".into()));
    assert!(!p.on_title("u".into()));
    p.on_key(KeyCode::KeyZ, true);
    p.on_key(KeyCode::Enter, true);
    assert_eq!(p.on_key(KeyCode::KeyZ, false), KeyAction::Hold { buttons: BTN_START });
    assert_eq!(p.on_key(KeyCode::KeyR, false), KeyAction::Reload);
    assert_eq!(p.buttons(), BTN_START);
}

#[test]
fn channels_of_a_device_come_from_a_stereo_mix() {
    assert_eq!(channel_source(1, 0), ChannelSource::Average);
    let six: Vec<ChannelSource> = (0..6).map(|c| channel_source(6, c)).collect();
    assert_eq!(six[..2], [ChannelSource::Left, ChannelSource::Right]);
    assert!(six[2..].iter().all(|s| *s == ChannelSource::Silence));
    assert_eq!(chunk_frames(1000, 128), 64);
    assert_eq!(chunk_frames(10, 128), 10);
    assert_eq!(chunk_frames(10, 1), 0);
}
