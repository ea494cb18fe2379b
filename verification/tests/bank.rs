use kessel::audio::bank::{
    parse, parse_rows, set_fx_field, set_instrument_field, set_sfx_field, set_track_field,
    FieldValue, FxSettings, OwnedValue, Row, SfxDef, SoundBank, TrackDef, FX_KEYS,
    INSTRUMENT_KEYS, MAX_SFX_ROWS, MAX_TRACK_CHANNELS, SFX_KEYS,
};
use kessel::audio::filter::FilterMode;
use kessel::audio::patch::{Patch, Waveform};

const SRC: &str = r#"
-- a drum and a hit
instrument kick {
  wave = sine
  attack = 0  decay = 90  sustain = 0
  pitch_env = 36  pitch_decay = 60
  volume = 255
}

instrument lead {
  wave = square
  filter = lpf  cutoff = 160  resonance = 40
  pan = -40
}

sfx boom {
  inst = kick
  speed = 2
  notes = "48 - - 43 . 36"
}
"#;

#[test]
fn parses_a_bank() {
    let (bank, errors) = parse(SRC);
    assert_eq!(errors, vec![]);
    assert_eq!(bank.instrument_names, ["kick", "lead"]);
    assert_eq!(bank.sfx_names, ["boom"]);

    let kick = bank.instruments[0];
    assert_eq!(kick.wave, Waveform::Sine);
    assert_eq!(kick.decay_ms, 90);
    assert_eq!(kick.sustain, 0);
    assert_eq!(kick.pitch_env, 36);
    assert_eq!(kick.volume, 255);

    let lead = bank.instruments[1];
    assert_eq!(lead.filter, FilterMode::Lpf);
    assert_eq!(lead.cutoff, 160);
    assert_eq!(lead.pan, -40);
    // Unmentioned keys keep the default, not zero.
    assert_eq!(lead.volume, Patch::default().volume);

    let boom = &bank.sfx[0];
    assert_eq!(boom.inst, 0); // resolved from the name `kick`
    assert_eq!(boom.speed, 2);
    assert_eq!(
        boom.rows,
        [
            Row::Note(48),
            Row::Hold,
            Row::Hold,
            Row::Note(43),
            Row::Rest,
            Row::Note(36)
        ]
    );
}

#[test]
fn ids_follow_declaration_order() {
    let (bank, _) = parse(SRC);
    assert_eq!(bank.instrument_id("kick"), Some(0));
    assert_eq!(bank.instrument_id("lead"), Some(1));
    assert_eq!(bank.sfx_id("boom"), Some(0));
    assert_eq!(bank.instrument_id("nope"), None);
}

#[test]
fn holds_become_one_long_note() {
    let (bank, _) = parse(SRC);
    let notes: Vec<_> = bank.sfx[0].notes();
    // "48 - - 43 . 36" at speed 2: a 6-frame 48, a 2-frame 43, a 2-frame 36.
    assert_eq!(notes, [(0, 48, 6), (6, 43, 2), (10, 36, 2)]);
    assert_eq!(bank.sfx[0].frames(), 12);
}

#[test]
fn a_repeat_is_not_a_hold() {
    let rows = parse_rows("48 48").unwrap();
    let def = SfxDef {
        speed: 3,
        rows,
        ..SfxDef::default()
    };
    // Two separate hits, not one long one.
    assert_eq!(def.notes(), [(0, 48, 3), (3, 48, 3)]);
}

#[test]
fn comments_and_commas_are_ignored() {
    let (bank, errors) = parse(
        r#"
            instrument a { wave = saw, decay = 10, } -- trailing comma
            -- instrument b { wave = nonsense }
            "#,
    );
    assert_eq!(errors, vec![]);
    assert_eq!(bank.instruments.len(), 1);
    assert_eq!(bank.instruments[0].wave, Waveform::Saw);
}

#[test]
fn every_error_is_reported_with_its_line() {
    let (_, errors) = parse(
        r#"instrument bad {
  wave = trumpet
  cutoff = 900
  wobble = 3
}"#,
    );
    let lines: Vec<usize> = errors.iter().map(|e| e.line).collect();
    assert_eq!(lines, [2, 3, 4], "{errors:#?}");
    assert!(errors[0].message.contains("unknown wave 'trumpet'"));
    assert!(errors[1].message.contains("0..=255"), "{}", errors[1].message);
    assert!(errors[2].message.contains("unknown instrument key"));
}

#[test]
fn an_unknown_instrument_name_is_an_error_not_a_silent_zero() {
    let (_, errors) = parse("sfx s { inst = ghost }");
    assert_eq!(errors.len(), 1);
    assert!(errors[0].message.contains("no instrument named 'ghost'"));
}

#[test]
fn duplicate_names_are_rejected() {
    let (bank, errors) = parse("instrument a {} instrument a {}");
    assert_eq!(bank.instruments.len(), 1);
    assert!(errors[0].message.contains("duplicate instrument 'a'"));
}

#[test]
fn bad_notes_name_the_offending_word() {
    let (_, errors) = parse(r#"instrument i {} sfx s { inst = i  notes = "48 x 50" }"#);
    assert_eq!(errors.len(), 1);
    assert!(errors[0].message.contains("'x' is not a note"), "{errors:#?}");
}

#[test]
fn an_empty_source_is_an_empty_bank() {
    let (bank, errors) = parse("   \n -- nothing here \n ");
    assert!(bank.is_empty());
    assert_eq!(errors, vec![]);
}

#[test]
fn malformed_input_terminates() {
    // Recovery must not loop: every one of these has to return.
    for src in [
        "instrument",
        "instrument a",
        "instrument a {",
        "instrument a { wave",
        "instrument a { wave = ",
        "}}}}",
        "instrument a { = 5 } instrument b { wave = saw }",
        "garbage { nested { } }",
        "sfx s { notes = \"unterminated",
    ] {
        let (_, errors) = parse(src);
        assert!(!errors.is_empty(), "{src:?} should have complained");
    }
}

fn messages(src: &str) -> Vec<(usize, String)> {
    parse(src).1.into_iter().map(|e| (e.line, e.message)).collect()
}

fn said(src: &str) -> Vec<String> {
    parse(src).1.into_iter().map(|e| e.message).collect()
}

#[test]
fn each_complaint_says_exactly_what_is_wrong() {
    assert_eq!(said("instrument"), ["'instrument' needs a name"]);
    assert_eq!(said("instrument a"), ["expected '{'"]);
    assert_eq!(messages("\ninstrument a {\n\n"), [(2, "unclosed '{'".to_string())]);
    assert_eq!(
        said("instrument a { wave"),
        ["expected '=' after 'wave'", "'wave' has no value", "unclosed '{'"]
    );
    assert_eq!(said("}"), ["unexpected '}'"]);
    assert_eq!(
        said("instrument a { = 5 }"),
        ["expected a key, found '='", "expected a key, found '5'"]
    );
    assert_eq!(
        said("garbage { nested { } } instrument b {}"),
        ["expected 'instrument' or 'sfx', found 'garbage'"]
    );
    assert_eq!(
        said("instrument a { attack = 60001 }"),
        ["'attack' is 60001, outside 0..=60000"]
    );
    assert_eq!(
        said("instrument a { pan = -128 }"),
        ["'pan' is -128, outside -127..=127"]
    );
    assert_eq!(said("instrument a { attack = x }"), ["'attack' expects a number"]);
    assert_eq!(said("instrument a { wave = 3 }"), ["'wave' expects a name"]);
    assert_eq!(
        said("instrument a { filter = comb }"),
        ["unknown filter 'comb' (off, lpf, hpf)"]
    );
    assert_eq!(
        said("sfx s { volume = 3 }"),
        ["unknown sfx key 'volume' (expected inst, speed, vel, notes)"]
    );
    assert_eq!(said("sfx s { inst = 256 }"), ["'inst' is 256, outside 0..=255"]);
    assert_eq!(said("sfx s { notes = \"128\" }"), ["note 128 is outside 0..=127"]);
    assert_eq!(
        said("instrument a { decay = 99999999999999999999 }"),
        ["'decay' has no value"]
    );
}

#[test]
fn a_stray_letter_outside_ascii_is_reported_byte_by_byte() {
    assert_eq!(said("é"), ["unexpected 'Ã'", "unexpected '©'"]);
    // Inside quotes it is text like any other.
    assert_eq!(
        said("sfx s { notes = \"é\" }"),
        ["'é' is not a note, '-' (hold), or '.' (rest)"]
    );
}

#[test]
fn what_follows_a_mistake_is_still_read() {
    let (bank, errors) = parse("instrument a { wobble = 1 wave = saw } instrument b {}");
    assert_eq!(errors.len(), 1);
    assert_eq!(bank.instruments[0].wave, Waveform::Saw);
    assert_eq!(bank.instrument_names, ["a", "b"]);
}

#[test]
fn limits_are_enforced() {
    let many = (0..257).map(|i| format!("instrument i{i} {{}}\n")).collect::<String>();
    let (bank, errors) = parse(&many);
    assert_eq!(bank.instruments.len(), 256);
    assert_eq!(errors.len(), 1);
    assert_eq!(errors[0].line, 257);
    assert_eq!(errors[0].message, "too many instruments (limit 256)");

    let rows = vec!["60"; MAX_SFX_ROWS].join(" ");
    assert_eq!(parse_rows(&rows).unwrap().len(), MAX_SFX_ROWS);
    assert_eq!(
        parse_rows(&format!("{rows} .")).unwrap_err(),
        "too many notes (limit 128)"
    );

    let many = (0..1025).map(|i| format!("sfx s{i} {{}}\n")).collect::<String>();
    let (bank, errors) = parse(&many);
    assert_eq!(bank.sfx.len(), 1024);
    assert_eq!(errors[0].message, "too many sound effects (limit 1024)");

    let many = (0..257).map(|i| format!("track t{i} {{}}\n")).collect::<String>();
    let (bank, errors) = parse(&many);
    assert_eq!(bank.tracks.len(), 256);
    assert_eq!(errors[0].message, "too many tracks (limit 256)");
}

#[test]
fn names_of_waves_and_filters() {
    assert_eq!(Waveform::from_name("SINE"), Some(Waveform::Sine));
    assert_eq!(Waveform::from_name("tri"), Some(Waveform::Triangle));
    assert_eq!(Waveform::from_name("Pulse"), Some(Waveform::Square));
    assert_eq!(Waveform::from_name("noise"), Some(Waveform::Noise));
    assert_eq!(Waveform::from_name(""), None);
    assert_eq!(FilterMode::from_name("None"), Some(FilterMode::Off));
    assert_eq!(FilterMode::from_name("LowPass"), Some(FilterMode::Lpf));
    assert_eq!(FilterMode::from_name("hpf"), Some(FilterMode::Hpf));
    assert_eq!(FilterMode::from_name("band"), None);
    assert_eq!(Waveform::default(), Waveform::Triangle);
    assert_eq!(FilterMode::default(), FilterMode::Off);
}

#[test]
fn every_listed_key_is_taken() {
    for key in INSTRUMENT_KEYS {
        let mut p = Patch::default();
        let v = match key {
            "wave" => FieldValue::Word("saw"),
            "filter" => FieldValue::Text("hpf"),
            _ => FieldValue::Int(1),
        };
        assert_eq!(set_instrument_field(&mut p, key, v), Ok(()), "{key}");
        assert_ne!(p, Patch::default(), "{key} changed nothing");
    }
    for key in FX_KEYS {
        let mut f = FxSettings::default();
        assert_eq!(set_fx_field(&mut f, key, FieldValue::Int(1)), Ok(()), "{key}");
        assert_ne!(f, FxSettings::default());
    }
    for key in SFX_KEYS {
        let mut s = SfxDef::default();
        let v = if key == "notes" {
            FieldValue::Text("60 .")
        } else {
            FieldValue::Int(7)
        };
        assert_eq!(set_sfx_field(&mut s, key, v, &|_: &str| None), Ok(()), "{key}");
        assert_ne!(s, SfxDef::default());
    }
    let mut f = FxSettings::default();
    assert_eq!(
        set_fx_field(&mut f, "size", FieldValue::Int(1)),
        Err(
            "unknown fx key 'size' (expected reverb_size, reverb_damping, chorus_rate, \
             chorus_depth)"
                .to_string()
        )
    );
    assert_eq!(f, FxSettings::default());
}

#[test]
fn an_instrument_is_asked_for_by_name() {
    let find = |n: &str| if n == "kick" { Some(9) } else { None };
    let mut s = SfxDef::default();
    assert_eq!(set_sfx_field(&mut s, "inst", FieldValue::Word("kick"), &find), Ok(()));
    assert_eq!(s.inst, 9);
    assert_eq!(
        set_sfx_field(&mut s, "inst", FieldValue::Text("snare"), &find),
        Err("no instrument named 'snare'".to_string())
    );
    assert_eq!(s.inst, 9, "a refused pair changes nothing");

    let mut t = TrackDef::default();
    assert_eq!(set_track_field(&mut t, "kick", FieldValue::Text("60 -"), &find), Ok(()));
    assert_eq!(t.channels.len(), 1);
    assert_eq!(t.channels[0].inst, 9);
    assert_eq!(t.channels[0].rows, [Row::Note(60), Row::Hold]);
    assert_eq!(
        set_track_field(&mut t, "snare", FieldValue::Text("60"), &find),
        Err("no instrument named 'snare'".to_string())
    );
    for _ in 1..MAX_TRACK_CHANNELS {
        set_track_field(&mut t, "kick", FieldValue::Text("."), &find).unwrap();
    }
    assert_eq!(
        set_track_field(&mut t, "kick", FieldValue::Text("."), &find),
        Err("too many channels (limit 8)".to_string())
    );
    assert_eq!(set_track_field(&mut t, "loop", FieldValue::Int(0), &find), Ok(()));
    assert!(!t.looping);
    assert_eq!(
        set_track_field(&mut t, "tempo", FieldValue::Int(0), &find),
        Err("'tempo' is 0, outside 1..=255".to_string())
    );
}

#[test]
fn tracks_and_the_shared_effects_are_read() {
    let (bank, errors) = parse(
        r#"
        fx { reverb_size = 200  chorus_depth = 0 }
        instrument bass {}
        track song { tempo = 6  vel = 100  bass = "36 - . ." }
        track song { }
        "#,
    );
    assert_eq!(errors.len(), 1);
    assert_eq!(errors[0].message, "duplicate track 'song'");
    assert_eq!(bank.fx.reverb_size, 200);
    assert_eq!(bank.fx.reverb_damping, 128);
    assert_eq!(bank.fx.chorus_depth, 0);
    assert_eq!(bank.tracks.len(), 1);
    assert_eq!(bank.track_id("song"), Some(0));
    assert_eq!(bank.tracks[0].tempo, 6);
    assert_eq!(bank.tracks[0].vel, 100);
    assert!(bank.tracks[0].looping);
    assert_eq!(bank.tracks[0].rows(), 4);
}

#[test]
fn banks_can_be_built_by_hand() {
    let mut bank = SoundBank::default();
    assert_eq!(bank.add_instrument("a", Patch::default()), 0);
    assert_eq!(bank.add_instrument("b", Patch::default()), 1);
    assert_eq!(bank.add_sfx("s", SfxDef::default()), 0);
    assert_eq!(bank.add_track("t", TrackDef::default()), 0);
    assert!(!bank.is_empty());
    assert_eq!(bank.instrument_id("b"), Some(1));
    assert_eq!(bank.sfx_id("t"), None);
    for i in 2..300usize {
        assert_eq!(bank.add_instrument(&format!("n{i}"), Patch::default()), (i % 256) as u8);
    }
    assert_eq!(bank.instrument_id("n255"), Some(255));
    assert_eq!(bank.instrument_id("n256"), None, "past what an id can say");
}

#[test]
fn values_borrow_what_they_own() {
    assert_eq!(OwnedValue::Int(-3).as_field(), FieldValue::Int(-3));
    assert_eq!(OwnedValue::Word("w".into()).as_field(), FieldValue::Word("w"));
    assert_eq!(OwnedValue::Text("t t".into()).as_field(), FieldValue::Text("t t"));
}

#[test]
fn notes_never_overlap_and_end_within_the_effect() {
    let def = SfxDef {
        speed: 0,
        rows: parse_rows("- 60 - . 61 62 - - .").unwrap(),
        ..SfxDef::default()
    };
    let notes = def.notes();
    assert_eq!(notes, [(1, 60, 2), (4, 61, 1), (5, 62, 3)]);
    for w in notes.windows(2) {
        assert!(w[0].0 + w[0].2 as u32 <= w[1].0);
    }
    assert_eq!(def.frames(), 9);
    let long = SfxDef {
        speed: 255,
        rows: [Row::Note(1)].into_iter().chain([Row::Hold; 300]).collect(),
        ..SfxDef::default()
    };
    assert_eq!(long.notes(), [(0, 1, 65535)], "16 bits count no further");
}

#[test]
fn a_broken_declaration_stops_nothing() {
    let messages = |src: &str| {
        let (bank, errors) = parse(src);
        let found: Vec<(usize, String)> =
            errors.into_iter().map(|e| (e.line, e.message)).collect();
        (bank, found)
    };
    let (bank, found) = messages("instrument a\ninstrument b\ninstrument c");
    assert!(bank.is_empty());
    assert_eq!(
        found,
        [
            (2, "expected '{'".to_string()),
            (3, "expected '{'".to_string()),
            (3, "expected '{'".to_string())
        ]
    );
    let (bank, found) = messages(
        "instrument { wave = sine }\nsfx 5 { speed = 2 }\ntrack\n{}\nfx\ninstrument ok {}\nsfx",
    );
    assert_eq!(bank.instrument_names, ["ok"]);
    assert_eq!(
        found,
        [
            (1, "'instrument' needs a name".to_string()),
            (2, "'sfx' needs a name".to_string()),
            (3, "'track' needs a name".to_string()),
            (6, "expected '{'".to_string()),
            (7, "'sfx' needs a name".to_string())
        ]
    );
}

#[test]
fn quoted_text_is_what_its_bytes_encode() {
    let (_, errors) = parse("instrument a { wave = \"sïné—\" }");
    assert_eq!(
        errors[0].message,
        "unknown wave 'sïné—' (sine, triangle, saw, square, noise)"
    );
}
