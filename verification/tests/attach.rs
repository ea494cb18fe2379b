use kessel::attach::client::{pace, AttachClient, TICK_INTERVAL_NS};
use kessel::attach::messages::{ambiguous_message, nothing_to_attach_to};
use kessel::attach::protocol::{
    Frame, Hello, Tick, WireError, FLAG_HALTED, FLAG_HAS_ROM, FLAG_PAUSED, MAX_DIM, MSG_HELLO,
    MSG_TICK, PROTOCOL_VERSION,
};
use kessel::attach::server::{
    bind_addr, blank_frame, closes, greeting, live_frame, Lobby, Player, Step,
};
use kessel::attach::session::{
    discover, is_session_file, part_live, root_key, session_dir, Discovery, Session, SessionEnv,
};
use kessel::cli::command::parse_attach;
use kessel::device::{Input, Touch, BTN_A, BTN_B, MAX_TOUCHES, STICK_FULL};

#[test]
fn hello_round_trips() {
    let h = Hello {
        version: PROTOCOL_VERSION,
        busy: false,
        dim: 128,
        controls_json: r#"{"pause":"START"}"#.to_string(),
    };
    let mut buf = Vec::new();
    h.write(&mut buf);
    let back = Hello::read(&mut buf.as_slice()).unwrap();
    assert_eq!(back.version, PROTOCOL_VERSION);
    assert!(!back.busy);
    assert_eq!(back.dim, 128);
    assert_eq!(back.controls_json, h.controls_json);
    assert_eq!(back.frame_bytes(), 128 * 128 * 4);
}

#[test]
fn frame_round_trips_every_flag() {
    for (has_rom, paused, halted) in [
        (true, false, false),
        (false, false, false),
        (true, true, false),
        (true, false, true),
        (true, true, true),
    ] {
        let f = Frame {
            has_rom,
            paused,
            halted,
            dim: 1,
            rgba: vec![1, 2, 3, 4],
        };
        let mut buf = Vec::new();
        f.write(&mut buf);
        let back = Frame::read(&mut buf.as_slice()).unwrap();
        assert_eq!(back.dim, 1);
        assert_eq!(back.has_rom, has_rom);
        assert_eq!(back.paused, paused);
        assert_eq!(back.halted, halted);
        assert_eq!(back.rgba, vec![1, 2, 3, 4]);
    }
}

/// The busy flag must survive the wire, since it is the only thing telling a
/// second player why it is being turned away.
#[test]
fn busy_round_trips() {
    let h = Hello {
        version: PROTOCOL_VERSION,
        busy: true,
        dim: 64,
        controls_json: String::new(),
    };
    let mut buf = Vec::new();
    h.write(&mut buf);
    let back = Hello::read(&mut buf.as_slice()).unwrap();
    assert!(back.busy);
    assert_eq!(back.dim, 64);
}

/// A truncated stream must surface as an error, not a silently short frame.
#[test]
fn a_short_frame_is_an_error() {
    // Claims dim 1 (4 bytes of pixels) but carries 3.
    let buf = vec![FLAG_HAS_ROM, 1, 0, 1, 2, 3];
    assert!(Frame::read(&mut buf.as_slice()).is_err());
}

/// The reader must take its length from the wire.
#[test]
fn a_frame_may_change_size_between_ticks() {
    let mut buf = Vec::new();
    Frame {
        has_rom: true,
        paused: false,
        halted: false,
        dim: 2,
        rgba: vec![7; 16],
    }
    .write(&mut buf);
    Frame {
        has_rom: true,
        paused: false,
        halted: false,
        dim: 3,
        rgba: vec![9; 36],
    }
    .write(&mut buf);

    let mut r = buf.as_slice();
    let a = Frame::read(&mut r).unwrap();
    let b = Frame::read(&mut r).unwrap();
    assert_eq!((a.dim, a.rgba.len()), (2, 16));
    assert_eq!((b.dim, b.rgba.len()), (3, 36), "stream stayed in sync");
}

/// A tick carries the whole input, so a player attached to an agent session can
/// steer and touch, not just press buttons.
#[test]
fn tick_round_trips_every_input_surface() {
    let mut input = Input {
        buttons: BTN_A,
        stick_x: -STICK_FULL,
        stick_y: 77,
        ..Input::default()
    };
    input.touches[0] = Touch {
        x: 200,
        y: 5,
        down: true,
    };
    input.touches[3] = Touch {
        x: 1,
        y: 2,
        down: true,
    };

    let mut buf = Vec::new();
    Tick { input }.write(&mut buf);
    let mut r = buf.as_slice();
    assert_eq!(r[0], MSG_TICK);
    r = &r[1..];
    assert_eq!(Tick::read(&mut r).unwrap().input, input);
}

/// Two ticks back to back must stay in sync.
#[test]
fn ticks_stay_framed_back_to_back() {
    let mut buf = Vec::new();
    for buttons in [1u8, BTN_B] {
        Tick {
            input: Input::of_buttons(buttons),
        }
        .write(&mut buf);
    }
    let mut r = buf.as_slice();
    for buttons in [1u8, BTN_B] {
        assert_eq!(r[0], MSG_TICK);
        r = &r[1..];
        assert_eq!(Tick::read(&mut r).unwrap().input.buttons, buttons);
    }
    assert!(
        r.is_empty(),
        "the two ticks did not consume the whole buffer"
    );
}

/// A peer claiming a different slot count is speaking another protocol.
#[test]
fn a_tick_with_the_wrong_slot_count_is_refused() {
    let mut buf = Vec::new();
    Tick {
        input: Input::default(),
    }
    .write(&mut buf);
    // Byte 0 is MSG_TICK; the count sits 6 bytes into the body.
    buf[1 + 5] = (MAX_TOUCHES + 1) as u8;
    let err = Tick::read(&mut &buf[1..]).unwrap_err();
    assert_eq!(err, WireError::TouchSlots { claimed: 5 });
    assert_eq!(err.message(), "tick claims 5 touch slots, this build has 4");
}

/// A length read off a socket must be bounded.
#[test]
fn an_absurd_dim_is_refused_rather_than_allocated() {
    let buf = vec![FLAG_HAS_ROM, 0xff, 0xff];
    let err = Frame::read(&mut buf.as_slice()).unwrap_err();
    assert_eq!(err, WireError::Dim { claimed: 65535 });
    assert_eq!(err.message(), "frame dim 65535 exceeds the 1024 maximum");
    assert_eq!(Frame::rest_len(&[0, 0, 4]), Ok(4 * MAX_DIM * MAX_DIM));
}

#[test]
fn a_refused_message_is_left_in_the_stream() {
    let mut r: &[u8] = &[1, 0, 2];
    assert_eq!(Hello::read(&mut r).unwrap_err(), WireError::Short);
    assert_eq!(r, [1, 0, 2]);
    let mut r: &[u8] = &[0; 25];
    assert_eq!(Tick::read(&mut r).unwrap_err(), WireError::Short);
    assert_eq!(r.len(), 25);
    assert_eq!(WireError::Short.message(), "failed to fill whole buffer");
}

#[test]
fn the_wire_layout_is_fixed() {
    let mut buf = Vec::new();
    let mut input = Input::of_buttons(0x81);
    input.stick_x = -2;
    input.stick_y = 0x0102;
    input.touches[1] = Touch { x: 0x0304, y: 0x0506, down: true };
    Tick { input }.write(&mut buf);
    assert_eq!(buf[..7], [1, 0x81, 0xfe, 0xff, 0x02, 0x01, 4]);
    assert_eq!(buf[7..12], [0; 5]);
    assert_eq!(buf[12..17], [0x04, 0x03, 0x06, 0x05, 1]);
    assert_eq!(buf.len(), 27);

    let mut buf = vec![9];
    Hello { version: 2, busy: true, dim: 0x0180, controls_json: "é".into() }.write(&mut buf);
    assert_eq!(buf, [9, 2, 1, 0x80, 0x01, 2, 0, 0xc3, 0xa9]);
    assert_eq!(Hello::rest_len(&buf[1..]), 2);

    let f = Frame { has_rom: true, paused: true, halted: true, dim: 0, rgba: vec![] };
    assert_eq!(f.flags(), FLAG_HAS_ROM | FLAG_PAUSED | FLAG_HALTED);
}

#[test]
fn controls_past_what_a_length_can_count_are_left_out() {
    let h = Hello {
        version: 2,
        busy: false,
        dim: 1,
        controls_json: "x".repeat(70_000),
    };
    let mut buf = Vec::new();
    h.write(&mut buf);
    assert_eq!(buf.len(), 6 + 65_535);
    let back = Hello::read(&mut buf.as_slice()).unwrap();
    assert_eq!(back.controls_json.len(), 65_535);
    // Bytes that are no text still make a hello.
    let mut r: &[u8] = &[2, 0, 1, 0, 1, 0, 0xff, 7];
    let odd = Hello::read(&mut r).unwrap();
    assert_eq!(odd.controls_json, "\u{FFFD}");
    assert_eq!(r, [7]);
}

/// A version bump must be reported as a version problem, not as a garbled frame
/// stream later on.
#[test]
fn a_version_mismatch_is_detected_at_handshake() {
    let wrong = Hello {
        version: PROTOCOL_VERSION.wrapping_add(1),
        busy: false,
        dim: 128,
        controls_json: "{}".into(),
    };
    let mut buf = Vec::new();
    wrong.write(&mut buf);
    let parsed = Hello::read(&mut buf.as_slice()).unwrap();
    assert_ne!(parsed.version, PROTOCOL_VERSION);
    let err = AttachClient::connect(&parsed).err().unwrap();
    assert_eq!(
        err,
        "session speaks attach protocol v3 but this kessel speaks v2 — the running `kessel mcp` \
         is a different build"
    );
    let busy = Hello { busy: true, ..parsed };
    assert!(AttachClient::connect(&busy)
        .err()
        .unwrap()
        .starts_with("another player is already attached"));
}

/// A frame with no ROM must read as "nothing to draw" rather than handing the
/// window a buffer of zeroes to render as a black game.
#[test]
fn a_romless_frame_reports_nothing_to_draw() {
    let hello = greeting(false, 2, String::new());
    let mut client = AttachClient::connect(&hello).ok().unwrap();
    assert!(client.framebuffer_rgba().is_none());
    client.receive(Frame {
        has_rom: false,
        paused: false,
        halted: false,
        dim: 2,
        rgba: vec![0; 16],
    });
    assert!(client.framebuffer_rgba().is_none());
    assert!(!client.has_rom());

    client.receive(Frame {
        has_rom: true,
        paused: true,
        halted: false,
        dim: 2,
        rgba: vec![9; 16],
    });
    assert_eq!(client.framebuffer_rgba(), Some(vec![9; 16]));
    assert!(client.is_paused());
    assert_eq!(FLAG_HAS_ROM, 1);
}

#[test]
fn a_client_follows_the_screen() {
    let mut c = AttachClient::connect(&greeting(false, 128, "{}".into())).ok().unwrap();
    assert_eq!(c.screen_dim(), 128);
    c.receive(live_frame(false, false, 240, vec![]));
    assert_eq!(c.screen_dim(), 240);
    c.receive(blank_frame(0));
    assert_eq!(c.screen_dim(), 128);
    c.set_input(Input::of_buttons(BTN_B));
    assert_eq!(c.input(), Input::of_buttons(BTN_B));
    assert!(c.is_connected());
    c.disconnect();
    assert!(!c.is_connected());
}

#[test]
fn a_late_tick_is_not_caught_up() {
    assert_eq!(pace(100, 200), (100 + TICK_INTERVAL_NS, TICK_INTERVAL_NS - 100));
    assert_eq!(pace(100, 1_000_000_000), (1_000_000_000, 0));
}

#[test]
fn tick_without_a_rom_yields_a_blank_frame() {
    let f = blank_frame(128);
    assert!(!f.has_rom);
    assert_eq!(f.rgba.len(), 128 * 128 * 4);
    assert!(f.rgba.iter().all(|b| *b == 0));
}

#[test]
fn binds_loopback_only() {
    let (ip, port) = bind_addr();
    assert_eq!(ip[0], 127, "attach must not be reachable off-box");
    assert_eq!(ip, [127, 0, 0, 1]);
    assert_eq!(port, 0, "let the OS choose the port");
}

/// A TICK without a handshake must not advance the machine.
#[test]
fn tick_before_hello_is_refused() {
    let mut lobby = Lobby { taken: false };
    let mut p = Player::new();
    let step = p.on_message(&mut lobby, MSG_TICK);
    assert_eq!(step, Step::TickBeforeHello);
    assert!(closes(step));
    assert!(!lobby.taken);
    assert_eq!(p.on_message(&mut lobby, 9), Step::UnknownOpcode);
}

#[test]
fn one_player_holds_the_slot() {
    let mut lobby = Lobby { taken: false };
    let (mut a, mut b) = (Player::new(), Player::new());
    let first = a.on_message(&mut lobby, MSG_HELLO);
    assert_eq!(first, Step::Greet { busy: false, announce: true });
    assert!(!closes(first));
    assert_eq!(a.on_message(&mut lobby, MSG_TICK), Step::Advance);
    // Saying hello again is no second player, and nothing new.
    assert_eq!(
        a.on_message(&mut lobby, MSG_HELLO),
        Step::Greet { busy: false, announce: false }
    );
    let second = b.on_message(&mut lobby, MSG_HELLO);
    assert_eq!(second, Step::Greet { busy: true, announce: false });
    assert!(closes(second));
    assert_eq!(b.on_message(&mut lobby, MSG_TICK), Step::TickBeforeHello);
    assert!(!b.leave(&mut lobby), "a refused player was never announced");
    assert!(lobby.taken);
    assert!(a.leave(&mut lobby));
    assert!(!lobby.taken);
    assert_eq!(
        b.on_message(&mut lobby, MSG_HELLO),
        Step::Greet { busy: false, announce: true }
    );
}

fn session(root: &str) -> Session {
    Session::new(root.to_string(), 1234, 1, "0.1.0".into())
}

fn at(root: &str, port: u16) -> Session {
    Session::new(root.to_string(), port, 1, "0.1.0".into())
}

/// Every command the ambiguity error suggests must survive the real parser.
#[test]
fn suggestions_are_commands_attach_accepts() {
    let msg = ambiguous_message(&[session("/work/one"), session("/work/two")]);

    let suggestions: Vec<&str> = msg
        .lines()
        .filter_map(|l| l.trim().strip_prefix("kessel attach "))
        .collect();
    assert_eq!(
        suggestions.len(),
        2,
        "both sessions should be offered: {msg}"
    );

    for s in suggestions {
        let args: Vec<String> = s.split_whitespace().map(String::from).collect();
        let parsed = parse_attach(&args)
            .unwrap_or_else(|e| panic!("suggested `kessel attach {s}` is rejected: {e}"));
        assert_eq!(parsed, Some(s.to_string()));
    }
}

/// The roots have to appear, or the user can't tell the sessions apart.
#[test]
fn ambiguous_message_names_every_root() {
    let msg = ambiguous_message(&[session("/work/one"), session("/work/two")]);
    assert!(msg.contains("/work/one"), "{msg}");
    assert!(msg.contains("/work/two"), "{msg}");
    assert_eq!(
        msg,
        "several `kessel mcp` sessions are running; say which one:\n  kessel attach /work/one\n  \
         kessel attach /work/two"
    );
    assert!(nothing_to_attach_to().starts_with("no running `kessel mcp` to attach to.\n\n"));
}

#[test]
fn publish_then_discover_by_root() {
    let live = vec![at("/other", 1), at("/proj", 4321)];
    match discover(live, Some("/proj"), None) {
        Discovery::Found(s) => {
            assert_eq!(s.port, 4321);
            assert_eq!(s.pid, 1);
        }
        _ => panic!("should have found the published session"),
    }
}

/// Asking for a root that has no server must not silently hand back some other
/// project's session.
#[test]
fn a_root_with_no_server_finds_nothing() {
    let found = discover(vec![at("/theirs", 4321)], Some("/mine"), Some("/theirs"));
    assert!(matches!(found, Discovery::Nothing));
}

/// A server that died leaves its file behind; discovery must treat it as absent
/// and have it cleaned up.
#[test]
fn dead_sessions_are_ignored_and_removed() {
    let all = vec![at("/a", 1), at("/b", 2), at("/c", 3)];
    let (live, stale) = part_live(all, &vec![false, true, false]);
    assert_eq!(live.len(), 1);
    assert_eq!(live[0].port, 2);
    assert_eq!(stale, [0, 2]);
    let (live, _) = part_live(vec![at("/a", 1)], &vec![false]);
    assert!(matches!(discover(live, Some("/a"), None), Discovery::Nothing));
}

#[test]
fn a_single_live_session_is_used_without_a_root() {
    match discover(vec![at("/only", 5555)], None, Some("/elsewhere")) {
        Discovery::Found(s) => assert_eq!(s.port, 5555),
        _ => panic!("the only live session should be chosen"),
    }
    assert!(matches!(discover(vec![], None, None), Discovery::Nothing));
}

/// Two servers and no root given: refuse rather than guess.
#[test]
fn two_live_sessions_are_ambiguous() {
    match discover(vec![at("/a", 6001), at("/b", 6002)], None, Some("/c")) {
        Discovery::Ambiguous(v) => assert_eq!(v.len(), 2),
        Discovery::Found(_) => panic!("neither session is the cwd, so this is ambiguous"),
        Discovery::Nothing => panic!("both sessions are live"),
    }
}

/// Ambiguity is resolved in favour of where you are.
#[test]
fn the_cwd_session_wins_over_another_live_one() {
    match discover(vec![at("/other", 7001), at("/here", 7002)], None, Some("/here")) {
        Discovery::Found(s) => assert_eq!(s.port, 7002, "should prefer the cwd's session"),
        _ => panic!("the cwd session should have been chosen"),
    }
}

#[test]
fn exiting_does_not_delete_a_newer_servers_session() {
    let newer = Session::new("/r".into(), 2, 70, "0".into());
    assert!(!newer.is_owned_by(1, 70), "another port");
    assert!(!newer.is_owned_by(2, 71), "another process");
    assert!(newer.is_owned_by(2, 70));
}

/// An exported-but-empty override must fall back, not resolve to the relative
/// path "" where nothing is ever found.
#[test]
fn an_empty_override_falls_back() {
    let mut env = SessionEnv {
        chosen: Some(String::new()),
        windows: false,
        local_app_data: None,
        xdg_cache_home: None,
        home: Some("/home/me".into()),
        temp: "/tmp".into(),
    };
    assert_eq!(session_dir(&env), ["/home/me", ".cache", "kessel", "sessions"]);
    env.xdg_cache_home = Some("/cache".into());
    assert_eq!(session_dir(&env), ["/cache", "kessel", "sessions"]);
    env.windows = true;
    assert_eq!(session_dir(&env), ["/tmp", "kessel", "sessions"]);
    env.local_app_data = Some("C:/Local".into());
    assert_eq!(session_dir(&env), ["C:/Local", "kessel", "sessions"]);
    env.chosen = Some("/chosen".into());
    assert_eq!(session_dir(&env), ["/chosen"]);
}

#[test]
fn distinct_roots_get_distinct_files() {
    assert_ne!(root_key("/one"), root_key("/two"));
    // ...and the same root is stable across calls.
    assert_eq!(root_key("/one"), root_key("/one"));
    // The published test vectors of the hash.
    assert_eq!(root_key(""), "cbf29ce484222325");
    assert_eq!(root_key("a"), "af63dc4c8601ec8c");
    assert_eq!(root_key("foobar"), "85944171f73967e8");
}

#[test]
fn only_session_files_are_read() {
    assert!(is_session_file("85944171f73967e8.json"));
    assert!(!is_session_file("85944171f73967e8.1234.tmp"));
    assert!(!is_session_file(".json"));
    assert!(!is_session_file("json"));
    assert!(is_session_file("a.b.json"));
    assert!(!is_session_file("a.JSON"));
}
