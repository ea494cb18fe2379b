use kessel::audio::bank::{parse, parse_rows, SfxDef, SoundBank};
use kessel::audio::engine::{AudioEngine, QUEUE_CAPACITY};
use kessel::audio::event::AudioEvent;
use kessel::audio::patch::{Patch, Waveform};
use kessel::audio::queue::EventQueue;
use kessel::audio::synth::{
    samples_per_frame, voice_seed, Synth, SynthConfig, VoiceCommand, MAX_VOICES,
};
use kessel::audio::voice::{Priority, Stage};
use kessel::cli::play::{channel_source, chunk_frames, ChannelSource};

const SRC: &str = r#"
instrument blip {
  wave = square
  attack = 0  decay = 0  sustain = 255  release = 10
}
sfx arp {
  inst = blip
  speed = 2
  notes = "60 - 64 67"
}
"#;

/// A plain square-wave sound for the engine's voices: the level jumps to full,
/// is held, and falls off over the release.
struct Sound {
    level: [f32; MAX_VOICES],
    phase: [f32; MAX_VOICES],
    step: [f32; MAX_VOICES],
}

impl Sound {
    fn new() -> Self {
        Sound {
            level: [0.0; MAX_VOICES],
            phase: [0.0; MAX_VOICES],
            step: [0.0; MAX_VOICES],
        }
    }

    fn obey(&mut self, c: &VoiceCommand) {
        match *c {
            VoiceCommand::Start { voice, note, .. } => {
                self.level[voice] = 0.0;
                self.phase[voice] = 0.0;
                let hz = 440.0 * ((note as f32 - 69.0) / 12.0).exp2();
                self.step[voice] = hz / 48_000.0;
            }
            VoiceCommand::Clear => self.level = [0.0; MAX_VOICES],
        }
    }

    fn sample(&mut self, synth: &mut Synth) -> f32 {
        let mut mix = 0.0;
        for v in 0..MAX_VOICES {
            let stage = synth.count_down(v);
            let done = match stage {
                Stage::Idle => false,
                Stage::Attack | Stage::Decay => {
                    self.level[v] = 1.0;
                    true
                }
                Stage::Sustain => false,
                Stage::Release => {
                    self.level[v] *= 0.99;
                    self.level[v] <= 1e-4
                }
            };
            if synth.step(v, self.level[v].to_bits(), done, false) {
                self.phase[v] = (self.phase[v] + self.step[v]).fract();
                let s = if self.phase[v] < 0.5 { 1.0 } else { -1.0 };
                mix += 0.2 * s * self.level[v];
            }
        }
        mix
    }
}

struct Player {
    engine: AudioEngine,
    sound: Sound,
}

impl Player {
    fn with(src: &str) -> Self {
        let (bank, errors) = parse(src);
        assert_eq!(errors, vec![], "{src}");
        let mut engine = AudioEngine::new(SynthConfig::default());
        engine.set_bank(bank);
        Player {
            engine,
            sound: Sound::new(),
        }
    }

    fn render_samples(&mut self, total: usize) -> Vec<f32> {
        let mut out = Vec::new();
        while out.len() < total {
            let piece = self.engine.segment(total - out.len());
            for c in &piece.commands {
                self.sound.obey(c);
            }
            for _ in 0..piece.run {
                out.push(self.sound.sample(self.engine.synth_mut()));
            }
        }
        out
    }

    fn handle(&mut self, ev: AudioEvent) {
        for c in self.engine.handle(ev) {
            self.sound.obey(&c);
        }
    }

    fn render(&mut self, frames: usize) -> Vec<f32> {
        let n = samples_per_frame(self.engine.sample_rate()) as usize * frames;
        self.render_samples(n)
    }
}

fn engine() -> Player {
    Player::with(SRC)
}

fn peak(buf: &[f32]) -> f32 {
    buf.iter().fold(0.0f32, |a, s| a.max(s.abs()))
}

#[test]
fn samples_per_frame_is_800_at_48k() {
    assert_eq!(samples_per_frame(48_000), 800);
    assert_eq!(samples_per_frame(44_100), 735);
}

#[test]
fn sfx_plays_its_notes() {
    let mut e = engine();
    e.engine.submit(AudioEvent::PlaySfx { id: 0 }, 0);
    // Four rows at speed 2 = 8 frames, three notes (60 held, 64, 67).
    assert_eq!(e.engine.pending(), 3);

    let out = e.render(12);
    assert!(peak(&out) > 0.1);
    assert_eq!(e.engine.pending(), 0, "not everything was dispatched");
    assert_eq!(e.engine.synth_stats(0).started, 3);
}

#[test]
fn an_event_lands_on_the_sample_it_asked_for() {
    let mut e = engine();
    let at = e.engine.frame_at(5);
    e.engine.submit(
        AudioEvent::Play {
            inst: 0,
            note: 69,
            vel: 255,
            frames: 4,
        },
        at,
    );
    let out = e.render(10);

    // Silent until frame 5, sounding after.
    let spf = samples_per_frame(e.engine.sample_rate()) as usize;
    assert_eq!(peak(&out[..at as usize]), 0.0, "sound arrived early");
    assert!(
        peak(&out[at as usize..at as usize + spf]) > 0.1,
        "sound never arrived"
    );
}

#[test]
fn the_device_block_size_does_not_move_events() {
    // The offline renderer uses whole frames; a device asks for whatever it
    // wants. Both must place the event on the same sample.
    let mut whole = engine();
    let mut chunked = engine();
    let at = whole.engine.frame_at(3) + 137; // deliberately not on a frame edge
    let ev = AudioEvent::Play {
        inst: 0,
        note: 72,
        vel: 255,
        frames: 6,
    };
    whole.engine.submit(ev, at);
    chunked.engine.submit(ev, at);

    let one = whole.render(12);
    let mut many = Vec::new();
    while many.len() < one.len() {
        many.extend(chunked.render_samples(61)); // an awkward device buffer
    }
    many.truncate(one.len());
    assert_eq!(one, many);
}

#[test]
fn events_at_the_same_time_keep_their_order() {
    // Two notes on one channel at the same sample: the second must win, which
    // only holds if they dispatch in submission order.
    let mut e = engine();
    e.engine.submit(
        AudioEvent::NoteOn {
            chan: 0,
            inst: 0,
            note: 60,
            vel: 255,
        },
        100,
    );
    e.engine.submit(
        AudioEvent::NoteOn {
            chan: 0,
            inst: 0,
            note: 72,
            vel: 255,
        },
        100,
    );
    e.engine.submit(AudioEvent::NoteOff { chan: 0 }, 100);
    e.render(30);
    // NoteOff came last, so nothing is left holding.
    assert_eq!(e.engine.active_voices(), 0, "the note_off did not arrive last");
}

#[test]
fn panic_cancels_a_sound_effect_in_flight() {
    let mut e = engine();
    e.engine.submit(AudioEvent::PlaySfx { id: 0 }, 0);
    assert_eq!(e.engine.pending(), 3);

    e.engine.submit(AudioEvent::Panic, e.engine.frame_at(1));
    // The note already due at frame 0 survives; the two after the panic do not.
    // Pending is that note plus the panic itself.
    assert_eq!(e.engine.pending(), 2, "panic cancelled the wrong events");

    let out = e.render(20);
    assert_eq!(e.engine.active_voices(), 0);
    // The first note sounded before the panic; nothing after it did.
    let spf = samples_per_frame(e.engine.sample_rate()) as usize;
    assert!(peak(&out[..spf]) > 0.0);
    assert_eq!(peak(&out[spf * 2..]), 0.0, "a cancelled note still played");
}

#[test]
fn a_late_event_is_played_late_not_dropped() {
    let mut e = engine();
    e.render(10); // clock is now well past zero
    e.engine.submit(
        AudioEvent::Play {
            inst: 0,
            note: 60,
            vel: 255,
            frames: 4,
        },
        0, // a timestamp from the past
    );
    let out = e.render(4);
    assert!(peak(&out) > 0.1, "a late event was dropped");
}

#[test]
fn an_unknown_sfx_is_counted() {
    let mut e = engine();
    e.engine.submit(AudioEvent::PlaySfx { id: 99 }, 0);
    assert_eq!(e.engine.pending(), 0);
    assert_eq!(e.engine.stats().unknown_sfx, 1);
}

#[test]
fn a_full_queue_drops_and_says_so() {
    let mut engine = AudioEngine::new(SynthConfig::default());
    let mut bank = SoundBank::default();
    bank.add_instrument(
        "i",
        Patch {
            wave: Waveform::Square,
            ..Patch::default()
        },
    );
    // One effect longer than the whole queue.
    bank.add_sfx(
        "long",
        SfxDef {
            inst: 0,
            speed: 1,
            vel: 255,
            rows: parse_rows(&vec!["60"; 128].join(" ")).unwrap(),
        },
    );
    engine.set_bank(bank);
    let mut e = Player {
        engine,
        sound: Sound::new(),
    };
    e.engine.submit(AudioEvent::PlaySfx { id: 0 }, 0);
    e.engine.submit(AudioEvent::PlaySfx { id: 0 }, 0);
    e.engine.submit(AudioEvent::PlaySfx { id: 0 }, 0);
    assert_eq!(e.engine.pending(), QUEUE_CAPACITY);
    assert!(e.engine.stats().queue_overflow > 0);
    assert_eq!(e.engine.stats().queue_peak, QUEUE_CAPACITY);
    // And it still renders: a full queue is a dropped sound, not a fault.
    let out = e.render(30);
    assert!(out.iter().all(|s| s.is_finite()));
}

const MUSIC: &str = r#"
instrument bass { wave = triangle  attack = 0  decay = 0  sustain = 255  release = 20 }
instrument lead { wave = square    attack = 0  decay = 0  sustain = 255  release = 20 }
track song {
  tempo = 4
  bass = "36 - - - 43 - - -"
  lead = "60 64 67 72 . . . ."
}
"#;

/// [`MUSIC`] plus a long sound effect, for the tests that need both.
const MUSIC_AND_SFX: &str = r#"
instrument bass { wave = triangle  attack = 0  decay = 0  sustain = 255  release = 20 }
instrument lead { wave = square    attack = 0  decay = 0  sustain = 255  release = 20 }
instrument hit  { wave = noise     attack = 0  decay = 0  sustain = 255 }
track song {
  tempo = 4
  bass = "36 - - - 43 - - -"
  lead = "60 64 67 72 . . . ."
}
sfx bang { inst = hit  speed = 60  notes = "60" }
"#;

#[test]
fn music_plays_and_keeps_playing() {
    let mut e = Player::with(MUSIC);
    e.engine.submit(AudioEvent::PlayMusic { id: 0 }, 0);
    let out = e.render(60);
    assert!(peak(&out) > 0.1, "the track was silent");
    assert_eq!(e.engine.playing_music(), Some(0));
    // Eight rows at tempo 4 is 32 frames, so a 60-frame render has been round
    // once and is still going.
    assert!(e.engine.synth_stats(0).started > 8);
}

#[test]
fn music_runs_on_the_audio_clock_not_the_frame_clock() {
    // Same total samples, one rendered in tidy frame-sized blocks and one in
    // blocks that have nothing to do with a frame: the music must come out
    // identical.
    let render_in = |chunk: usize| {
        let mut e = Player::with(MUSIC);
        e.engine.submit(AudioEvent::PlayMusic { id: 0 }, 0);
        let total = samples_per_frame(e.engine.sample_rate()) as usize * 40;
        let mut out = Vec::new();
        while out.len() < total {
            out.extend(e.render_samples(chunk));
        }
        out.truncate(total);
        out
    };
    assert_eq!(render_in(800), render_in(137));
}

#[test]
fn music_stop_releases_the_music_and_leaves_effects_alone() {
    let mut e = Player::with(MUSIC_AND_SFX);
    e.engine.submit(AudioEvent::PlayMusic { id: 0 }, 0);
    e.engine.submit(AudioEvent::PlaySfx { id: 0 }, 0);
    e.render(4);
    assert!(e.engine.active_voices() >= 2, "expected music and an effect");

    e.engine.submit(AudioEvent::StopMusic, e.engine.now());
    e.render(4);
    assert_eq!(e.engine.playing_music(), None);
    // The long sound effect is still going; the music is not.
    assert!(e.engine.active_voices() >= 1, "music_stop took the sfx with it");
}

#[test]
fn starting_a_track_replaces_the_one_playing() {
    let mut e = Player::with(
        r#"
            instrument a { wave = triangle  sustain = 255 }
            track one { tempo = 4  a = "36 - - -" }
            track two { tempo = 4  a = "48 - - -" }
            "#,
    );
    e.engine.submit(AudioEvent::PlayMusic { id: 0 }, 0);
    e.render(8);
    e.engine.submit(AudioEvent::PlayMusic { id: 1 }, e.engine.now());
    e.render(8);
    assert_eq!(e.engine.playing_music(), Some(1), "the first track kept playing");
}

#[test]
fn panic_stops_the_music_too() {
    let mut e = Player::with(MUSIC);
    e.engine.submit(AudioEvent::PlayMusic { id: 0 }, 0);
    e.render(8);
    e.engine.submit(AudioEvent::Panic, e.engine.now());
    e.render(8);
    assert_eq!(e.engine.playing_music(), None);
    assert_eq!(e.engine.active_voices(), 0);
    assert_eq!(peak(&e.render(30)), 0.0, "music survived Panic");
}

#[test]
fn an_unknown_track_is_counted() {
    let mut e = Player::with(MUSIC);
    e.engine.submit(AudioEvent::PlayMusic { id: 42 }, 0);
    e.render(4);
    assert_eq!(e.engine.stats().unknown_track, 1);
    assert_eq!(e.engine.playing_music(), None);
}

#[test]
fn a_sound_effect_can_take_a_voice_from_the_music() {
    // Music is allocated at a lower priority on purpose: an explosion eaten by
    // a bassline is much more noticeable than the reverse.
    let mut e = Player::with(MUSIC_AND_SFX);
    e.engine.submit(AudioEvent::PlayMusic { id: 0 }, 0);
    e.render(2);
    for _ in 0..MAX_VOICES {
        e.engine.submit(AudioEvent::PlaySfx { id: 0 }, e.engine.now());
    }
    e.render(2);
    assert!(e.engine.synth_stats(0).stolen > 0, "nothing was ever stolen");
}

#[test]
fn engine_the_same_events_render_the_same_samples() {
    let run = || {
        let mut e = engine();
        e.engine.submit(AudioEvent::PlaySfx { id: 0 }, 0);
        e.engine.submit(
            AudioEvent::Play {
                inst: 0,
                note: 48,
                vel: 200,
                frames: 10,
            },
            e.engine.frame_at(4),
        );
        e.render(30)
    };
    assert_eq!(run(), run());
}

#[test]
fn a_block_is_cut_where_something_falls_due() {
    let mut e = engine();
    let play = AudioEvent::Play { inst: 0, note: 60, vel: 9, frames: 2 };
    e.engine.submit(play, 10);
    let a = e.engine.segment(100);
    assert!(a.commands.is_empty());
    assert_eq!((a.run, e.engine.now()), (10, 10));
    let b = e.engine.segment(90);
    assert_eq!(
        b.commands,
        [VoiceCommand::Start { voice: 0, inst: 0, note: 60, vel: 9 }]
    );
    assert_eq!((b.run, e.engine.now()), (90, 100));
    let v = e.engine.synth_mut().voice(0);
    assert_eq!((v.stage, v.hold, v.age), (Stage::Attack, Some(1600), 0));
    assert_eq!(e.engine.handle(AudioEvent::Panic), [VoiceCommand::Clear]);
    assert!(e.engine.segment(5).commands.is_empty());
    assert_eq!(e.engine.bank().sfx.len(), 1);
}

fn synth() -> Synth {
    let mut s = Synth::new(SynthConfig::default());
    s.set_instruments(&[Patch::default(), Patch::default()]);
    s
}

#[test]
fn voices_give_way_in_order() {
    let mut s = synth();
    // Fill it with sound effects, but for one note of music.
    for i in 0..MAX_VOICES {
        let p = if i == 5 { Priority::Music } else { Priority::Sfx };
        s.play_note(0, 60, 255, 600, p);
    }
    for i in 0..MAX_VOICES {
        s.step(i, 1.0f32.to_bits(), true, false);
    }
    // A releasing voice is taken before a sounding one...
    s.handle(AudioEvent::NoteOff { chan: 1 }); // nothing is on it
    let c = s.play_note(0, 61, 255, 600, Priority::Sfx);
    assert_eq!(c, Some(VoiceCommand::Start { voice: 5, inst: 0, note: 61, vel: 255 }));
    // ...then the quietest...
    for i in 0..MAX_VOICES {
        let level = if i == 9 { 0.25f32 } else { 1.0 };
        s.step(i, level.to_bits(), false, false);
    }
    let c = s.play_note(1, 62, 1, 600, Priority::Sfx);
    assert_eq!(c, Some(VoiceCommand::Start { voice: 9, inst: 1, note: 62, vel: 1 }));
    // ...then the oldest.
    for i in 0..MAX_VOICES {
        s.step(i, 1.0f32.to_bits(), false, false);
    }
    let c = s.play_note(1, 63, 1, 600, Priority::Sfx);
    assert_eq!(c, Some(VoiceCommand::Start { voice: 0, inst: 1, note: 63, vel: 1 }));
}

#[test]
fn each_voice_has_its_own_noise() {
    assert_eq!(voice_seed(0x5EED_1E55, 0), 0x5EED_1E55);
    assert_eq!(voice_seed(1, 1), 0x9E37_79BA);
    assert_eq!(voice_seed(0xFFFF_FFFF, 2), 0x3C6E_F371);
}

/// An engine holding one loud, instant, sustaining instrument.
fn test_engine() -> Player {
    Player::with(
        r#"
            instrument tone { wave = square  attack = 0  decay = 0  sustain = 255  volume = 255 }
            sfx beep { inst = tone  speed = 30  notes = "69" }
            "#,
    )
}

/// The body of an audio callback: drain the queue, render, spread to the
/// device's channels. Both sides of the mix are the same here.
fn render_block(
    engine: &mut Player,
    ring: &mut EventQueue,
    out: &mut [f32],
    channels: usize,
    scratch: &mut [f32],
) {
    while let Some(ev) = ring.pop() {
        engine.handle(ev);
    }
    let mut at = 0;
    let frames = out.len() / channels;
    while at < frames {
        let n = chunk_frames(frames - at, scratch.len());
        let mix = engine.render_samples(n);
        for (i, frame) in out[at * channels..(at + n) * channels]
            .chunks_mut(channels)
            .enumerate()
        {
            for (c, s) in frame.iter_mut().enumerate() {
                *s = match channel_source(channels, c) {
                    ChannelSource::Average => (mix[i] + mix[i]) * 0.5,
                    ChannelSource::Left | ChannelSource::Right => mix[i],
                    ChannelSource::Silence => 0.0,
                };
            }
        }
        at += n;
    }
}

#[test]
fn the_callback_turns_queued_events_into_sound() {
    // Everything the audio thread does, minus the device: an event pushed from
    // the game side comes back as samples.
    let mut ring = EventQueue::new();
    let mut engine = test_engine();
    let mut scratch = vec![0.0f32; 512 * 2];
    let mut out = vec![0.0f32; 1024 * 2];

    render_block(&mut engine, &mut ring, &mut out, 2, &mut scratch);
    assert_eq!(peak(&out), 0.0, "silent until something is queued");

    ring.push(AudioEvent::PlaySfx { id: 0 });
    render_block(&mut engine, &mut ring, &mut out, 2, &mut scratch);
    assert!(peak(&out) > 0.1, "queued event never sounded: {}", peak(&out));
    assert!(out.iter().all(|s| s.is_finite()));
}

#[test]
fn panic_from_the_queue_silences_the_stream() {
    let mut ring = EventQueue::new();
    let mut engine = test_engine();
    let mut scratch = vec![0.0f32; 512 * 2];
    let mut out = vec![0.0f32; 1024 * 2];
    ring.push(AudioEvent::PlaySfx { id: 0 });
    render_block(&mut engine, &mut ring, &mut out, 2, &mut scratch);
    assert!(peak(&out) > 0.1);

    ring.push(AudioEvent::Panic);
    render_block(&mut engine, &mut ring, &mut out, 2, &mut scratch);
    assert_eq!(peak(&out), 0.0, "a reload left the old game ringing");
}

#[test]
fn a_mono_device_gets_both_channels_averaged() {
    // Not one side: a hard-panned sound would vanish on a mono device.
    let mut ring = EventQueue::new();
    let mut engine = test_engine();
    let mut scratch = vec![0.0f32; 512 * 2];
    ring.push(AudioEvent::PlaySfx { id: 0 });
    let mut mono = vec![0.0f32; 900];
    render_block(&mut engine, &mut ring, &mut mono, 1, &mut scratch);
    assert!(peak(&mono) > 0.1, "mono device was silent");
    assert!(mono.iter().all(|s| s.is_finite()));
}

#[test]
fn a_surround_device_gets_the_mix_on_the_first_two_channels() {
    let mut ring = EventQueue::new();
    let mut engine = test_engine();
    let mut scratch = vec![0.0f32; 512 * 2];
    ring.push(AudioEvent::PlaySfx { id: 0 });
    const CH: usize = 6;
    let mut out = vec![0.0f32; 600 * CH];
    render_block(&mut engine, &mut ring, &mut out, CH, &mut scratch);

    let front: f32 = out
        .chunks(CH)
        .fold(0.0f32, |a, f| a.max(f[0].abs()).max(f[1].abs()));
    let rest: f32 = out
        .chunks(CH)
        .fold(0.0f32, |a, f| f[2..].iter().fold(a, |m, s| m.max(s.abs())));
    assert!(front > 0.1, "front channels were silent");
    assert_eq!(rest, 0.0, "the mix leaked into the surround channels");
}

#[test]
fn a_block_longer_than_the_scratch_still_renders_whole() {
    // The chunking path: an oversized callback buffer must be filled, not
    // truncated, and without allocating a bigger scratch.
    let mut ring = EventQueue::new();
    let mut engine = test_engine();
    let mut scratch = vec![0.0f32; 64 * 2]; // deliberately tiny
    ring.push(AudioEvent::PlaySfx { id: 0 });
    let mut out = vec![0.0f32; 1000];
    render_block(&mut engine, &mut ring, &mut out, 1, &mut scratch);
    // The tail of the buffer is as alive as the head.
    assert!(peak(&out[..100]) > 0.1);
    assert!(peak(&out[900..]) > 0.1, "the block was left half-rendered");
}

#[test]
fn an_event_can_be_applied_at_once() {
    let mut e = engine();
    let play = AudioEvent::Play { inst: 0, note: 60, vel: 9, frames: 2 };
    assert_eq!(
        e.engine.handle(play),
        [VoiceCommand::Start { voice: 0, inst: 0, note: 60, vel: 9 }]
    );
    assert_eq!(e.engine.pending(), 0, "it went through the queue");
    assert_eq!(e.engine.active_voices(), 1);
    // The notes of an effect are not all played at once.
    assert!(e.engine.handle(AudioEvent::PlaySfx { id: 0 }).is_empty());
    assert_eq!(e.engine.pending(), 3);
    assert_eq!(e.engine.handle(AudioEvent::Panic), [VoiceCommand::Clear]);
    assert_eq!((e.engine.pending(), e.engine.active_voices()), (0, 0));
    assert!(e.engine.handle(AudioEvent::PlayMusic { id: 9 }).is_empty());
    assert_eq!(e.engine.stats().unknown_track, 1);
}

#[test]
fn a_panic_at_once_does_not_cancel_what_is_overdue() {
    let mut e = engine();
    e.render(1);
    assert_eq!(e.engine.now(), 800);
    let play = |note| AudioEvent::Play { inst: 0, note, vel: 9, frames: 2 };
    e.engine.submit(play(72), 5000);
    e.engine.submit(play(67), 800);
    e.engine.submit(play(64), 799);
    e.engine.submit(play(60), 0);
    assert_eq!(
        e.engine.handle(AudioEvent::Panic),
        [
            VoiceCommand::Start { voice: 0, inst: 0, note: 60, vel: 9 },
            VoiceCommand::Start { voice: 1, inst: 0, note: 64, vel: 9 },
            VoiceCommand::Clear,
        ],
        "what was asked for before now still happens, and nothing else"
    );
    assert_eq!((e.engine.pending(), e.engine.active_voices()), (0, 0));
    assert_eq!(e.engine.synth_stats(0).started, 2);
}

#[test]
fn a_new_engine_is_silent() {
    let mut e = AudioEngine::new(SynthConfig::default());
    assert_eq!((e.active_voices(), e.pending(), e.now()), (0, 0, 0));
    assert!((0..MAX_VOICES).all(|v| e.synth_mut().voice(v).is_idle()));
}
