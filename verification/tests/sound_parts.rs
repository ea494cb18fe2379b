use kessel::audio::fx::{scaled_length, Head, COMB_TUNING, STEREO_SPREAD};
use kessel::audio::voice::{pick_voice, Priority, Rng, Stage, Voice};
use kessel::audio::wav::encode_pcm16;

#[test]
fn header_describes_the_data_that_follows() {
    let wav = encode_pcm16(48_000, 2, &[0, 0, 16_383, -16_384]);
    assert_eq!(&wav[0..4], b"RIFF");
    assert_eq!(&wav[8..12], b"WAVE");
    assert_eq!(&wav[12..16], b"fmt ");
    assert_eq!(&wav[36..40], b"data");
    let u32_at = |i: usize| u32::from_le_bytes(wav[i..i + 4].try_into().unwrap());
    let u16_at = |i: usize| u16::from_le_bytes(wav[i..i + 2].try_into().unwrap());
    assert_eq!(u32_at(4), 36 + 8);
    assert_eq!(u32_at(16), 16);
    assert_eq!(u16_at(20), 1);
    assert_eq!(u16_at(22), 2);
    assert_eq!(u32_at(24), 48_000);
    assert_eq!(u32_at(28), 48_000 * 4);
    assert_eq!(u16_at(32), 4);
    assert_eq!(u16_at(34), 16);
    assert_eq!(u32_at(40), 8);
    assert_eq!(wav.len(), 44 + 8);
    assert_eq!(&wav[44..], [0, 0, 0, 0, 0xff, 0x3f, 0x00, 0xc0]);
}

#[test]
fn noise_is_seeded_and_reproducible() {
    let run = |seed: u32| {
        let mut r = Rng::new(seed);
        (0..64).map(|_| r.next_bits()).collect::<Vec<u32>>()
    };
    assert_eq!(run(7), run(7));
    assert_ne!(run(7), run(8));
    // Zero is a fixed point of the register, so it is replaced.
    assert_eq!(run(0), run(0x9E37_79B9));
    assert!(run(1).iter().all(|&b| b < 1 << 24));
    // 1 ^ 1<<13 = 8193; its upper bits are below 17; 8193 ^ 8193<<5 = 270369.
    assert_eq!(run(1)[0], 270_369 >> 8);
}

#[test]
fn an_envelope_goes_through_its_stages() {
    let mut v = Voice::new();
    assert!(v.is_idle());
    v.start(Some(2), Some(4), Priority::Sfx, 11);
    assert_eq!((v.stage, v.level, v.age), (Stage::Attack, 0, 11));
    assert_eq!(v.count_down(), Stage::Attack);
    assert!(v.step(5, true, false));
    assert_eq!((v.stage, v.hold, v.level), (Stage::Decay, Some(1), 5));
    assert_eq!(v.count_down(), Stage::Decay);
    assert!(v.step(4, true, false));
    assert_eq!((v.stage, v.hold), (Stage::Sustain, Some(0)));
    // The time is up: the note lets go by itself.
    assert_eq!(v.count_down(), Stage::Release);
    assert_eq!(v.hold, None);
    assert!(v.step(3, false, false));
    assert!(!v.step(0, true, false));
    assert_eq!((v.stage, v.chan, v.level), (Stage::Idle, None, 0));
    assert!(!v.step(0, true, false));
    // A patch that sustains at nothing is done when its decay is.
    v.start(None, None, Priority::Music, 12);
    v.step(1, true, true);
    assert!(v.step(0, true, true), "the last sample still counts");
    assert!(v.is_idle());
}

#[test]
fn voices_that_fade_are_taken_first() {
    let mut voices = vec![Voice::new(); 4];
    for (i, v) in voices.iter_mut().enumerate() {
        v.start(None, None, Priority::Sfx, i as u64);
    }
    assert_eq!(pick_voice(&voices), 0, "the oldest");
    voices[2].release();
    assert_eq!(pick_voice(&voices), 2);
    voices[3].kill();
    assert_eq!(pick_voice(&voices), 3, "an idle one comes first");
}

#[test]
fn music_is_taken_before_effects() {
    let mut voices = vec![Voice::new(); 3];
    for (i, v) in voices.iter_mut().enumerate() {
        let p = if i == 2 { Priority::Music } else { Priority::Sfx };
        v.start(None, None, p, i as u64);
        v.step(if i == 2 { 9 } else { 1 }, false, false);
    }
    assert_eq!(pick_voice(&voices), 2);
    assert_eq!(Priority::default(), Priority::Sfx);
}

#[test]
fn delay_lines_scale_with_the_rate() {
    assert_eq!(scaled_length(COMB_TUNING[0], 44_100, 0), 1116);
    assert_eq!(scaled_length(COMB_TUNING[0], 48_000, STEREO_SPREAD), 1214 + 23);
}

#[test]
fn a_head_goes_round() {
    let mut h = Head::new(3);
    assert_eq!((h.len(), h.pos()), (3, 0));
    let seen: Vec<usize> = (0..5)
        .map(|_| {
            h.advance();
            h.pos()
        })
        .collect();
    assert_eq!(seen, [1, 2, 0, 1, 2]);
    assert_eq!(h.taps(1), (1, 0));
    assert_eq!(h.taps(2), (0, 2));
    h.reset();
    assert_eq!(h, Head::new(3), "clearing is the same as starting over");
    assert_eq!(Head::new(0).len(), 1);
}
