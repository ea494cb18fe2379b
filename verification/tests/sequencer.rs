use kessel::audio::bank::{parse, TrackDef};
use kessel::audio::sequencer::{SeqNote, Sequencer};

const SPF: u64 = 800; // 48 kHz at 60 fps

fn track(src: &str) -> TrackDef {
    let (bank, errors) = parse(src);
    assert!(errors.is_empty(), "{errors:?}");
    bank.tracks[0].clone()
}

fn two_channels() -> TrackDef {
    track(
        r#"
            instrument bass { wave = triangle }
            instrument lead { wave = square }
            track t {
              tempo = 2
              bass = "36 - . 36"
              lead = "60 64 67 ."
            }
            "#,
    )
}

/// Collect every note the sequencer produces over `samples`, with the time it
/// fell due.
fn play(seq: &mut Sequencer, def: &TrackDef, samples: u64) -> Vec<(u64, SeqNote)> {
    let mut out = Vec::new();
    let mut buf = [SeqNote {
        inst: 0,
        note: 0,
        vel: 0,
        frames: 0,
    }; 8];
    for now in 0..samples {
        let n = seq.take_due(now, def, &mut buf);
        for note in &buf[..n] {
            out.push((now, *note));
        }
    }
    out
}

#[test]
fn rows_fall_due_on_the_audio_clock() {
    let def = two_channels();
    let mut seq = Sequencer::new();
    seq.start(0, &def, 0, SPF);
    let notes = play(&mut seq, &def, SPF * 8);

    // tempo 2 = 1600 samples a row. Row 0 at 0, row 1 at 1600, and so on.
    let times: Vec<u64> = notes.iter().map(|(t, _)| *t).collect();
    assert_eq!(times, [0, 0, 1600, 3200, 4800]);
}

#[test]
fn holds_make_one_long_note() {
    let def = two_channels();
    let mut seq = Sequencer::new();
    seq.start(0, &def, 0, SPF);
    let notes = play(&mut seq, &def, SPF * 8);

    // bass row 0 is "36 -", so four frames rather than two.
    let bass: Vec<SeqNote> = notes
        .iter()
        .filter(|(_, n)| n.inst == 0)
        .map(|(_, n)| *n)
        .collect();
    assert_eq!(bass[0].note, 36);
    assert_eq!(bass[0].frames, 4);
    // The second 36 is a fresh hit of one row.
    assert_eq!(bass[1].frames, 2);
}

#[test]
fn a_rest_starts_nothing() {
    let def = two_channels();
    let mut seq = Sequencer::new();
    seq.start(0, &def, 0, SPF);
    let notes = play(&mut seq, &def, SPF * 8);
    // Four rows, two channels, minus the two rests and one hold.
    assert_eq!(notes.len(), 5);
}

#[test]
fn a_looping_track_comes_back_around() {
    let def = two_channels(); // loops by default
    let mut seq = Sequencer::new();
    seq.start(0, &def, 0, SPF);
    let notes = play(&mut seq, &def, SPF * 20);
    assert!(seq.playing().is_some(), "a looping track stopped");
    // Two passes' worth and counting.
    assert!(notes.len() > 8, "it did not come back around: {}", notes.len());
}

#[test]
fn a_one_shot_track_stops_at_the_end() {
    let def = track(
        r#"
            instrument i { wave = sine }
            track t { tempo = 2  loop = 0  i = "60 62 64" }
            "#,
    );
    let mut seq = Sequencer::new();
    seq.start(0, &def, 0, SPF);
    let notes = play(&mut seq, &def, SPF * 20);
    assert_eq!(notes.len(), 3, "a one-shot track repeated");
    assert!(seq.playing().is_none(), "it never stopped");
}

#[test]
fn starting_a_track_starts_it_at_the_top() {
    let def = two_channels();
    let mut seq = Sequencer::new();
    seq.start(0, &def, 0, SPF);
    play(&mut seq, &def, SPF * 5);
    assert_ne!(seq.row(), 0);

    // Restarting is from row 0, not from wherever the last one had got to.
    seq.start(0, &def, SPF * 5, SPF);
    assert_eq!(seq.row(), 0);
}

#[test]
fn the_first_row_is_due_immediately() {
    let def = two_channels();
    let mut seq = Sequencer::new();
    seq.start(0, &def, 12_345, SPF);
    assert_eq!(seq.next_row_at(), Some(12_345));
}

#[test]
fn an_empty_track_stops_rather_than_spinning() {
    let def = track(
        r#"
            instrument i { wave = sine }
            track t { tempo = 4 }
            "#,
    );
    let mut seq = Sequencer::new();
    seq.start(0, &def, 0, SPF);
    assert!(seq.playing().is_none(), "an empty track kept playing");
    assert_eq!(seq.next_row_at(), None);
}

#[test]
fn more_notes_than_the_buffer_holds_are_not_lost_forever() {
    // A short buffer must truncate, not corrupt.
    let def = two_channels();
    let mut seq = Sequencer::new();
    seq.start(0, &def, 0, SPF);
    let mut one = [SeqNote {
        inst: 0,
        note: 0,
        vel: 0,
        frames: 0,
    }; 1];
    assert_eq!(seq.take_due(0, &def, &mut one), 1);
    assert_eq!(seq.row(), 1, "the row still advanced");
}

#[test]
fn nothing_is_due_before_its_time() {
    let def = two_channels();
    let mut seq = Sequencer::default();
    let note = SeqNote { inst: 9, note: 9, vel: 9, frames: 9 };
    let mut buf = [note; 4];
    assert_eq!(seq.take_due(5, &def, &mut buf), 0, "nothing plays");
    seq.start(3, &def, 100, SPF);
    assert_eq!(seq.take_due(99, &def, &mut buf), 0);
    assert_eq!(buf, [note; 4]);
    assert_eq!(seq.take_due(100, &def, &mut buf), 2);
    assert_eq!(buf[0], SeqNote { inst: 0, note: 36, vel: 255, frames: 4 });
    assert_eq!(buf[1], SeqNote { inst: 1, note: 60, vel: 255, frames: 2 });
    assert_eq!(buf[2..], [note; 2], "what is past the notes stays");
    assert_eq!(seq.next_row_at(), Some(1700));
    seq.stop();
    assert_eq!((seq.playing(), seq.row(), seq.next_row_at()), (None, 0, None));
}

#[test]
fn lateness_never_shifts_the_beat() {
    let def = two_channels();
    let mut seq = Sequencer::new();
    let mut buf = [SeqNote { inst: 0, note: 0, vel: 0, frames: 0 }; 8];
    seq.start(0, &def, 50, SPF);
    let mut k = 0;
    for now in [50u64, 60, 9000, 9001, 9002, 9003, 20_000] {
        let before = seq.row();
        seq.take_due(now, &def, &mut buf);
        if seq.row() != before {
            k += 1;
        }
        if seq.playing().is_some() {
            assert_eq!(seq.next_row_at(), Some(50 + k * 2 * SPF));
        }
    }
}
