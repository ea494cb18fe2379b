use kessel::audio::event::AudioEvent;
use kessel::audio::queue::{
    decode, encode, readable_slot, writable_slot, EventQueue, QUEUE_CAPACITY,
};

const SAMPLES: [AudioEvent; 7] = [
    AudioEvent::PlaySfx { id: 0xBEEF },
    AudioEvent::PlayMusic { id: 3 },
    AudioEvent::StopMusic,
    AudioEvent::Play {
        inst: 200,
        note: 127,
        vel: 255,
        frames: 0xFFFF,
    },
    AudioEvent::NoteOn {
        chan: 7,
        inst: 3,
        note: 60,
        vel: 200,
    },
    AudioEvent::NoteOff { chan: 5 },
    AudioEvent::Panic,
];

#[test]
fn every_event_survives_the_encoding() {
    // A field that got truncated would play a different note, not fail.
    for ev in SAMPLES {
        assert_eq!(decode(encode(ev)), Some(ev), "{ev:?}");
    }
}

#[test]
fn an_empty_slot_is_not_an_event() {
    assert_eq!(decode(0), None);
    assert_eq!(decode(0xff), None);
}

#[test]
fn the_ring_is_first_in_first_out() {
    let mut r = EventQueue::new();
    for ev in SAMPLES {
        assert!(r.push(ev));
    }
    for ev in SAMPLES {
        assert_eq!(r.pop(), Some(ev));
    }
    assert_eq!(r.pop(), None);
}

#[test]
fn a_full_ring_drops_and_counts() {
    let mut r = EventQueue::new();
    for _ in 0..QUEUE_CAPACITY {
        assert!(r.push(AudioEvent::Panic));
    }
    assert!(!r.push(AudioEvent::Panic), "accepted more than capacity");
    assert_eq!(r.rejected(), 1);
    // And it still works afterwards: dropping is not a wedge.
    assert_eq!(r.pop(), Some(AudioEvent::Panic));
    assert!(r.push(AudioEvent::StopMusic));
}

#[test]
fn the_ring_wraps_without_losing_order() {
    let mut r = EventQueue::new();
    // Several laps, so the indexing and the wrapping counters both get
    // exercised.
    for i in 0..QUEUE_CAPACITY * 5 {
        assert!(r.push(AudioEvent::PlaySfx { id: i as u16 }));
        assert_eq!(r.pop(), Some(AudioEvent::PlaySfx { id: i as u16 }));
    }
    assert_eq!(r.rejected(), 0);
}

#[test]
fn the_layout_of_a_word_is_fixed() {
    assert_eq!(encode(AudioEvent::PlaySfx { id: 0xBEEF }), 0x00BE_EF01);
    assert_eq!(
        encode(AudioEvent::Play { inst: 1, note: 2, vel: 3, frames: 0x0405 }),
        0x0004_0503_0200_0104
    );
    assert_eq!(encode(AudioEvent::Panic), 7);
    // Bits a tag has no use for are not looked at.
    assert_eq!(decode(0xFFFF_FFFF_FFFF_FF07), Some(AudioEvent::Panic));
    assert_eq!(decode(8), None);
}

#[test]
fn indices_wrap_at_the_end_of_a_word() {
    assert_eq!(writable_slot(usize::MAX, 0), Some(0));
    assert_eq!(writable_slot(usize::MAX - 254, 1), None, "256 are in it");
    assert_eq!(readable_slot(usize::MAX, 0), Some(255));
    assert_eq!(readable_slot(7, 7), None);
    assert_eq!(writable_slot(7, 7), Some(7));
    assert_eq!(writable_slot(0, 256), None);
    assert_eq!(EventQueue::default().rejected(), 0);
}

#[test]
fn pushes_and_pops_agree_in_any_order() {
    let mut r = EventQueue::new();
    let (mut accepted, mut taken) = (Vec::new(), Vec::new());
    let mut dice = 1u32;
    for id in 0..5000u16 {
        dice = dice.wrapping_mul(1_664_525).wrapping_add(1_013_904_223);
        // More pushes than pops at first, so that some are refused.
        if dice >> 28 < if id < 2500 { 11 } else { 5 } {
            if r.push(AudioEvent::PlaySfx { id }) {
                accepted.push(id);
            }
        } else if let Some(AudioEvent::PlaySfx { id }) = r.pop() {
            taken.push(id);
        }
        assert!(accepted.starts_with(&taken));
    }
    assert!(r.rejected() > 0);
    while let Some(AudioEvent::PlaySfx { id }) = r.pop() {
        taken.push(id);
    }
    assert_eq!(accepted, taken);
}
