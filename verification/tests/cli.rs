use std::path::Path;
use kessel::cli::command::{parse_attach, parse_command, parse_root, parse_run, Command};
use kessel::cli::headless::{did_not_compile, game_name, Run, Seen};
use kessel::cli::options::buttons_from_names;
use kessel::cli::paths::{
    adoptable_roots, base_dir, default_root, env_dir, file_name_of, file_stem_of,
    is_plausible_workspace,
};
use kessel::cli::{render_audio, shot};
use kessel::device::{BTN_A, BTN_RIGHT, BTN_START};

fn strs(v: &[&str]) -> Vec<String> {
    v.iter().map(|s| s.to_string()).collect()
}

#[test]
fn a_desktop_apps_cwd_is_not_used_as_a_workspace() {
    let home = "/Users/someone".to_string();
    for cwd in ["/", "/Applications/Assistant.app/Contents/MacOS"] {
        assert_eq!(
            default_root(Some(cwd.to_string()), Some(home.clone()), true, "/tmp", false),
            base_dir(Some(home.clone()), true, "/tmp"),
            "cwd {cwd} should not be a workspace",
        );
    }
}

#[test]
fn a_project_cwd_is_used_as_the_workspace() {
    let cwd = "/Users/someone/code/my-game".to_string();
    assert_eq!(
        default_root(Some(cwd.clone()), Some("/Users/someone".into()), true, "/tmp", false),
        [cwd]
    );
}

/// The fallback should land somewhere a person can find, and must not depend on
/// a `Documents` that isn't there.
#[test]
fn the_fallback_workspace_follows_the_home_it_is_given() {
    assert_eq!(base_dir(Some("/h".into()), false, "/tmp"), ["/h", "Kessel"]);
    assert_eq!(
        base_dir(Some("/h".into()), true, "/tmp"),
        ["/h", "Documents", "Kessel"]
    );
    // No home at all (a service account, a stripped container) still resolves.
    assert_eq!(base_dir(None, false, "/tmp"), ["/tmp", "kessel"]);
}

/// The model chooses the workspace now, so this list is the whole boundary.
#[test]
fn adoptable_roots_cover_the_root_and_the_home_only() {
    let root = "/Users/someone/code/my-game";
    let dirs = adoptable_roots(root, Some("/Users/someone".into()));
    assert!(dirs.contains(&root.to_string()));
    assert!(
        !dirs.iter().any(|d| d == "/"),
        "adoption must not be allowed to reach the whole filesystem"
    );
    assert!(
        dirs.contains(&"/Users/someone".to_string()),
        "the user's home should be adoptable"
    );
    assert_eq!(dirs.len(), 2);
    assert_eq!(adoptable_roots(root, None), [root]);
}

#[test]
fn root_without_a_value_is_an_error() {
    assert!(parse_root(&["--root".into()]).is_err());
}

#[test]
fn unknown_mcp_flag_is_rejected() {
    let err = parse_root(&["--frames".into()]).unwrap_err();
    assert!(err.contains("--frames"), "{err}");
    assert_eq!(parse_root(&[]), Ok(None));
    assert_eq!(
        parse_root(&strs(&["--root", "a", "--root", "b"])),
        Ok(Some("b".to_string()))
    );
}

#[test]
fn run_takes_exactly_one_file() {
    assert_eq!(
        parse_run(&["games/bounce.lua".into()]).unwrap(),
        "games/bounce.lua"
    );
    assert!(parse_run(&["a.lua".into(), "b.lua".into()]).is_err());
    assert!(parse_run(&["--root".into()]).is_err());
}

/// The message should say which command the user probably wanted.
#[test]
fn run_without_a_file_points_at_attach() {
    let err = parse_run(&[]).unwrap_err();
    assert!(err.contains("kessel attach"), "{err}");
}

#[test]
fn attach_workdir_is_optional_and_positional() {
    assert_eq!(parse_attach(&[]).unwrap(), None);
    assert_eq!(
        parse_attach(&["./my-game".into()]).unwrap(),
        Some("./my-game".to_string())
    );
    assert!(parse_attach(&["a".into(), "b".into()]).is_err());
}

/// The workdir is positional now; a stray `--root` should say so rather than
/// being silently swallowed as a path.
#[test]
fn attach_rejects_a_root_flag() {
    let err = parse_attach(&["--root".into(), "/tmp".into()]).unwrap_err();
    assert!(err.contains("--root"), "{err}");
    assert_eq!(err, "unexpected option '--root'");
    assert_eq!(
        parse_attach(&strs(&["a", "b"])).unwrap_err(),
        "unexpected argument 'b'"
    );
}

#[test]
fn defaults_are_one_second_and_a_png_named_after_the_source() {
    let a = shot::parse(&strs(&["games/tetris.lua"]), false).unwrap();
    assert_eq!(a.file, "games/tetris.lua");
    assert_eq!(a.frames, shot::DEFAULT_FRAMES);
    assert_eq!(a.out, "tetris.png");
    assert_eq!(a.buttons, 0);
}

#[test]
fn shot_options_parse_in_any_order() {
    let a = shot::parse(&strs(&["-n", "5", "g.lua", "-o", "/tmp/x.png"]), false).unwrap();
    assert_eq!(a.frames, 5);
    assert_eq!(a.file, "g.lua");
    assert_eq!(a.out, "/tmp/x.png");
}

#[test]
fn shot_buttons_are_named_not_numbered() {
    let a = shot::parse(&strs(&["g.lua", "--buttons", "a,right"]), false).unwrap();
    assert_eq!(a.buttons, BTN_A | BTN_RIGHT);
    assert!(shot::parse(&strs(&["g.lua", "--buttons", "nonsense"]), false).is_err());
}

/// Frame 0 is the reset vector's output and a legitimate thing to ask for.
#[test]
fn frame_zero_is_allowed() {
    assert_eq!(shot::parse(&strs(&["g.lua", "-n", "0"]), false).unwrap().frames, 0);
}

#[test]
fn a_file_is_required_and_only_one() {
    assert!(shot::parse(&[], false).is_err());
    assert!(shot::parse(&strs(&["a.lua", "b.lua"]), false).is_err());
}

#[test]
fn defaults_are_a_three_second_render_beside_the_source() {
    let a = render_audio::parse(&strs(&["games/shooter.lua"]), false).unwrap();
    assert_eq!(a.file, "games/shooter.lua");
    assert_eq!(a.frames, render_audio::DEFAULT_FRAMES);
    assert_eq!(a.out, "shooter.wav");
    assert_eq!(a.buttons, 0);
}

#[test]
fn render_audio_options_parse_in_any_order() {
    let a = render_audio::parse(&strs(&["-n", "60", "g.lua", "-o", "/tmp/x.wav"]), false).unwrap();
    assert_eq!(a.frames, 60);
    assert_eq!(a.file, "g.lua");
    assert_eq!(a.out, "/tmp/x.wav");
}

#[test]
fn render_audio_buttons_are_named_not_numbered() {
    let a = render_audio::parse(&strs(&["g.lua", "--buttons", "a,right"]), false).unwrap();
    assert_eq!(a.buttons, BTN_A | BTN_RIGHT);
}

#[test]
fn bad_arguments_say_what_was_wrong() {
    for (args, expect) in [
        (vec![], "needs a file"),
        (vec!["a.lua", "b.lua"], "unexpected argument 'b.lua'"),
        (vec!["--frames"], "needs a frame count"),
        (vec!["g.lua", "--frames", "lots"], "not a frame count"),
        (vec!["g.lua", "--frames", "0"], "at least 1"),
        (vec!["g.lua", "-o"], "needs a path"),
        (vec!["g.lua", "--buttons", "banana"], "named no buttons"),
        (vec!["g.lua", "--wat"], "unexpected option '--wat'"),
    ] {
        let err = render_audio::parse(&strs(&args), false).unwrap_err();
        assert!(err.contains(expect), "{args:?} said {err:?}");
    }
}

#[test]
fn lists_of_buttons_are_trimmed_and_raised() {
    let a = shot::parse(&strs(&["g", "--buttons", " a , sTaRt ,nope"]), false).unwrap();
    assert_eq!(a.buttons, BTN_A | BTN_START);
    // Letters outside ASCII are raised as well.
    let a = shot::parse(&strs(&["g", "--buttons", "r\u{131}ght"]), false).unwrap();
    assert_eq!(a.buttons, BTN_RIGHT);
    assert_eq!(
        shot::parse(&strs(&["g", "--buttons"]), false).unwrap_err(),
        "'--buttons' needs a list, e.g. A,RIGHT"
    );
    assert_eq!(buttons_from_names(&strs(&["A", "a"])), BTN_A);
    assert_eq!(buttons_from_names(&[]), 0);
}

#[test]
fn frame_counts_are_whole_numbers() {
    let frames = |s: &str| shot::parse(&strs(&["g", "-n", s]), false).map(|a| a.frames);
    assert_eq!(frames("+7"), Ok(7));
    assert_eq!(frames("18446744073709551615"), Ok(u64::MAX));
    assert_eq!(
        frames("18446744073709551616"),
        Err("'18446744073709551616' is not a frame count".to_string())
    );
    assert!(frames("-1").is_err());
    assert!(frames("").is_err());
    assert!(frames("+").is_err());
}

#[test]
fn names_of_files() {
    assert_eq!(file_name_of("a/b.lua", false), Some("b.lua".into()));
    assert_eq!(file_name_of("a/b.lua/", false), Some("b.lua".into()));
    assert_eq!(file_name_of("a/.", false), Some("a".into()));
    assert_eq!(file_name_of("a/..", false), None);
    assert_eq!(file_name_of("/", false), None);
    assert_eq!(file_stem_of("x/archive.tar.gz", false), Some("archive.tar".into()));
    assert_eq!(file_stem_of(".hidden", false), Some(".hidden".into()));
    assert_eq!(file_stem_of("noext", false), Some("noext".into()));
    assert_eq!(shot::default_out("..", false), "shot.png");
    assert_eq!(render_audio::default_out("/", false), "render.wav");
}

#[test]
fn workspaces_are_directories_someone_chose() {
    assert!(is_plausible_workspace("/home/me/game", false));
    assert!(!is_plausible_workspace("/", false));
    assert!(!is_plausible_workspace("", false));
    assert!(!is_plausible_workspace("/A/B.APP/C", false));
    assert!(is_plausible_workspace("/A/app/C", false));
    assert!(is_plausible_workspace("/A/.app", false));
    assert_eq!(env_dir(Some(String::new())), None);
    assert_eq!(env_dir(Some("x".into())), Some("x".into()));
    assert_eq!(env_dir(None), None);
    assert_eq!(default_root(None, None, false, "/t", false), ["/t", "kessel"]);
}

#[test]
fn commands_are_told_apart() {
    let is = |v: &[&str]| parse_command(&strs(v), false);
    assert!(matches!(is(&[]), Ok(Command::Help)));
    assert!(matches!(is(&["--help"]), Ok(Command::Help)));
    assert!(matches!(is(&["-V"]), Ok(Command::Version)));
    assert!(matches!(is(&["mcp"]), Ok(Command::Mcp { root: None })));
    match is(&["mcp", "--root", "/r"]) {
        Ok(Command::Mcp { root }) => assert_eq!(root, Some("/r".into())),
        _ => panic!("expected a root"),
    }
    match is(&["run", "g.lua"]) {
        Ok(Command::Run { file }) => assert_eq!(file, "g.lua"),
        _ => panic!("expected a file"),
    }
    assert!(matches!(is(&["attach"]), Ok(Command::Attach { workdir: None })));
    match is(&["render-audio", "g.lua"]) {
        Ok(Command::RenderAudio { args }) => assert_eq!(args.frames, 180),
        _ => panic!("expected a render"),
    }
    match is(&["shot", "g.lua"]) {
        Ok(Command::Shot { args }) => assert_eq!(args.frames, 60),
        _ => panic!("expected a shot"),
    }
    let split = is(&["play", "x"]).err().unwrap();
    assert!(split.starts_with("`kessel play` was split in two"));
    assert_eq!(
        is(&["g.lua"]).err().unwrap(),
        "unknown command 'g.lua' — expected `mcp`, `run`, `attach`, or `render-audio`\n\nDid you \
         mean: kessel run g.lua"
    );
}

#[test]
fn games_are_called_after_their_file() {
    assert_eq!(game_name("games/pong.lua", "game.lua", false), "pong.lua");
    assert_eq!(game_name("..", "game.lua", false), "game.lua");
    assert_eq!(
        did_not_compile("g.lua", &strs(&["line 1: oops", "line 2: eek"])),
        "g.lua did not compile:\n  line 1: oops\n  line 2: eek\n"
    );
}

#[test]
fn a_run_stops_at_the_first_fault() {
    let ok = || Seen { fault: None, halted: false };
    let mut run = Run::new(3);
    for _ in 0..3 {
        assert!(run.goes_on());
        run.on_frame(ok());
    }
    assert!(!run.goes_on());
    assert_eq!(
        run.report("x.png", 128, 96, 1234),
        ["wrote x.png — 128x96, frame 3 (1234 bytes)"]
    );
    let mut run = Run::new(10);
    run.on_frame(ok());
    run.on_frame(Seen { fault: Some("StackOverflow".into()), halted: true });
    assert!(!run.goes_on());
    assert_eq!(
        run.report("x", 1, 1, 0),
        ["faulted at frame 2: StackOverflow", "wrote x — 1x1, frame 2 (0 bytes)"]
    );
    let mut run = Run::new(10);
    run.on_frame(Seen { fault: None, halted: true });
    assert_eq!(run.report("x", 1, 1, 0)[0], "halted at frame 1");
    assert!(!Run::new(0).goes_on());
}

/// Every path of up to `n` letters out of `letters`.
fn paths(letters: &[char], n: usize) -> Vec<String> {
    let mut all = vec![String::new()];
    let mut last = all.clone();
    for _ in 0..n {
        last = last
            .iter()
            .flat_map(|p| letters.iter().map(move |c| format!("{p}{c}")))
            .collect();
        all.extend(last.clone());
    }
    all
}

#[test]
fn paths_are_taken_apart_like_the_standard_librarys() {
    let mut all = paths(&['a', '.', '/'], 7);
    for p in paths(&['/', '.', 'A'], 4) {
        all.push(format!("/x{p}app"));
        all.push(format!("{p}.ApP/y"));
    }
    for p in all {
        let std = Path::new(&p);
        let name = std.file_name().and_then(|n| n.to_str()).map(String::from);
        let stem = std.file_stem().and_then(|n| n.to_str()).map(String::from);
        assert_eq!(file_name_of(&p, false), name, "{p:?}");
        assert_eq!(file_stem_of(&p, false), stem, "{p:?}");
        let plausible = std.parent().is_some()
            && !std.components().any(|c| {
                Path::new(c.as_os_str())
                    .extension()
                    .is_some_and(|e| e.eq_ignore_ascii_case("app"))
            });
        assert_eq!(is_plausible_workspace(&p, false), plausible, "{p:?}");
    }
}

#[test]
fn windows_paths_have_other_separators() {
    let name = |p: &str| file_name_of(p, true);
    assert_eq!(name(r"C:\games\pong.lua"), Some("pong.lua".into()));
    assert_eq!(name(r"games/sub\pong.lua"), Some("pong.lua".into()));
    assert_eq!(name(r"C:pong.lua"), Some("pong.lua".into()));
    assert_eq!(name(r"C:\"), None);
    assert_eq!(name("C:"), None);
    assert_eq!(name(r"\\server\share"), None);
    assert_eq!(name(r"\\server\share\pong.lua"), Some("pong.lua".into()));
    assert_eq!(name(r"\\?\C:\pong.lua"), Some("pong.lua".into()));
    assert_eq!(name(r"games\.."), None);
    assert_eq!(file_stem_of(r"C:\games\pong.lua", true), Some("pong".into()));
    // Elsewhere these are letters like any other.
    assert_eq!(file_name_of(r"C:\games", false), Some(r"C:\games".into()));
    assert_eq!(shot::parse(&strs(&[r"C:\games\tetris.lua"]), true).unwrap().out, "tetris.png");
    assert!(!is_plausible_workspace(r"C:\", true));
    assert!(!is_plausible_workspace(r"D:\x\Y.app\z", true));
    assert!(is_plausible_workspace(r"D:\x\my-game", true));
}
