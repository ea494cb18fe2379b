use kessel::audio::event::AudioEvent;
use kessel::audio::patch::{Patch, Waveform};
use kessel::audio::synth::{samples_per_frame, Synth, SynthConfig, VoiceCommand, MAX_VOICES};
use kessel::audio::voice::{Priority, Stage, Voice};

/// Below this level an envelope is finished.
const SILENCE: f32 = 1e-4;

/// A patch's envelope, with the arithmetic done.
#[derive(Clone, Copy)]
struct Envelope {
    attack: f32,
    decay: f32,
    sustain: f32,
    release: f32,
    level: f32,
}

fn coef(ms: u16) -> f32 {
    if ms == 0 {
        return 0.0;
    }
    (-1.0 / (ms as f32 / 1000.0 * 48_000.0 / 4.6)).exp()
}

impl Envelope {
    fn new(p: &Patch) -> Self {
        Envelope {
            attack: if p.attack_ms == 0 { 1.0 } else { 1000.0 / (p.attack_ms as f32 * 48_000.0) },
            decay: coef(p.decay_ms),
            sustain: p.sustain as f32 / 255.0,
            release: coef(p.release_ms),
            level: 0.0,
        }
    }

    /// Step the level in a stage: whether the stage is done.
    fn step(&mut self, stage: Stage) -> bool {
        match stage {
            Stage::Idle | Stage::Sustain => false,
            Stage::Attack => {
                self.level = (self.level + self.attack).min(1.0);
                self.level >= 1.0
            }
            Stage::Decay => {
                self.level = self.sustain + (self.level - self.sustain) * self.decay;
                let done = self.level - self.sustain <= SILENCE;
                if done {
                    self.level = self.sustain;
                }
                done
            }
            Stage::Release => {
                self.level *= self.release;
                self.level <= SILENCE
            }
        }
    }

    fn silent(&self) -> bool {
        self.sustain <= SILENCE
    }
}

/// A synth with plain square waves.
struct Sounding {
    synth: Synth,
    patches: Vec<Patch>,
    envelopes: Vec<Envelope>,
    phase: Vec<(f32, f32)>,
}

impl Sounding {
    fn with(patches: &[Patch]) -> Self {
        let mut synth = Synth::new(SynthConfig::default());
        synth.set_instruments(patches);
        Sounding {
            synth,
            patches: patches.to_vec(),
            envelopes: vec![Envelope::new(&Patch::default()); MAX_VOICES],
            phase: vec![(0.0, 0.0); MAX_VOICES],
        }
    }

    fn obey(&mut self, c: Option<VoiceCommand>) {
        match c {
            Some(VoiceCommand::Start { voice, inst, note, .. }) => {
                self.envelopes[voice] = Envelope::new(&self.patches[inst as usize]);
                let hz = 440.0 * ((note as f32 - 69.0) / 12.0).exp2();
                self.phase[voice] = (0.0, hz / 48_000.0);
            }
            Some(VoiceCommand::Clear) => self.envelopes.iter_mut().for_each(|e| e.level = 0.0),
            None => {}
        }
    }

    fn handle(&mut self, ev: AudioEvent) {
        let c = self.synth.handle(ev);
        self.obey(c);
    }

    fn samples(&mut self, n: usize) -> Vec<f32> {
        let mut out = vec![0.0; n];
        for v in 0..MAX_VOICES {
            for s in out.iter_mut() {
                let stage = self.synth.count_down(v);
                let e = &mut self.envelopes[v];
                let done = e.step(stage);
                if !self.synth.step(v, e.level.to_bits(), done, e.silent()) {
                    break;
                }
                let (phase, step) = &mut self.phase[v];
                *phase = (*phase + *step).fract();
                *s += if *phase < 0.5 { 0.05 } else { -0.05 } * e.level;
            }
        }
        out
    }

    fn render(&mut self, frames: usize) -> Vec<f32> {
        let n = samples_per_frame(self.synth.sample_rate()) as usize * frames;
        self.samples(n)
    }
}

fn synth() -> Sounding {
    Sounding::with(&[
        Patch {
            wave: Waveform::Square,
            sustain: 200,
            ..Patch::default()
        },
        Patch {
            wave: Waveform::Noise,
            attack_ms: 0,
            decay_ms: 40,
            sustain: 0,
            pitch_env: -12,
            ..Patch::default()
        },
    ])
}

fn peak(buf: &[f32]) -> f32 {
    buf.iter().fold(0.0f32, |a, s| a.max(s.abs()))
}

#[test]
fn a_note_sounds_and_a_silent_synth_does_not() {
    let mut s = synth();
    let quiet = s.render(4);
    assert_eq!(peak(&quiet), 0.0);

    s.handle(AudioEvent::Play {
        inst: 0,
        note: 69,
        vel: 255,
        frames: 10,
    });
    let loud = s.render(4);
    assert!(peak(&loud) > 0.01, "peak {}", peak(&loud));
    assert!(loud.iter().all(|v| v.is_finite()));
}

#[test]
fn a_timed_note_frees_its_voice() {
    let mut s = synth();
    s.handle(AudioEvent::Play {
        inst: 0,
        note: 69,
        vel: 255,
        frames: 6, // 100 ms, then an 80 ms release
    });
    assert_eq!(s.synth.active_voices(), 1);
    s.render(6);
    assert_eq!(s.synth.active_voices(), 1, "released before its duration was up");
    s.render(60); // a second
    assert_eq!(s.synth.active_voices(), 0, "voice never freed");
}

#[test]
fn a_channel_note_is_held_until_note_off() {
    let mut s = synth();
    s.handle(AudioEvent::NoteOn {
        chan: 2,
        inst: 0,
        note: 60,
        vel: 255,
    });
    s.render(120); // two seconds
    assert_eq!(s.synth.active_voices(), 1, "a held note released itself");
    s.handle(AudioEvent::NoteOff { chan: 2 });
    s.render(60);
    assert_eq!(s.synth.active_voices(), 0, "note_off did not release the voice");
}

#[test]
fn retriggering_a_channel_replaces_rather_than_stacks() {
    let mut s = synth();
    for _ in 0..4 {
        s.handle(AudioEvent::NoteOn {
            chan: 0,
            inst: 0,
            note: 60,
            vel: 255,
        });
        s.render(1);
    }
    // One sounding note, plus tails of the three it replaced.
    assert!(s.synth.active_voices() <= 4);
    s.handle(AudioEvent::NoteOff { chan: 0 });
    s.render(60);
    assert_eq!(s.synth.active_voices(), 0, "a retrigger orphaned a voice");
}

#[test]
fn stealing_never_exceeds_the_voice_count() {
    let mut s = synth();
    for note in 30..30 + MAX_VOICES as u8 + 8 {
        s.handle(AudioEvent::Play {
            inst: 0,
            note,
            vel: 255,
            frames: 120,
        });
    }
    assert_eq!(s.synth.active_voices(), MAX_VOICES);
    assert_eq!(s.synth.stats(5).started, MAX_VOICES as u64 + 8);
    assert_eq!(s.synth.stats(5).stolen, 8);
    assert_eq!(s.synth.stats(5).limited, 5);
}

#[test]
fn a_releasing_voice_is_stolen_before_a_sounding_one() {
    let mut s = synth();
    // Fill every voice, then release one.
    for note in 30..30 + MAX_VOICES as u8 {
        s.handle(AudioEvent::NoteOn {
            chan: note - 30,
            inst: 0,
            note,
            vel: 255,
        });
    }
    s.render(2);
    s.handle(AudioEvent::NoteOff { chan: 7 });
    s.render(1);
    let before: Vec<u8> = (0..MAX_VOICES as u8).filter(|c| *c != 7).collect();

    s.handle(AudioEvent::Play {
        inst: 0,
        note: 90,
        vel: 255,
        frames: 60,
    });
    // Every channel that was still held is still held: the new note took the one
    // that was fading.
    for chan in &before {
        assert!((0..MAX_VOICES).any(|i| s.synth.voice(i).chan == Some(*chan)));
    }
    for chan in before {
        s.handle(AudioEvent::NoteOff { chan });
    }
    assert_eq!(s.synth.stats(0).stolen, 1);
}

#[test]
fn music_loses_its_voice_before_a_sound_effect() {
    let mut s = Sounding::with(&[Patch {
        sustain: 200,
        ..Patch::default()
    }]);
    // One music voice and the rest sound effects, all sounding.
    let c = s.synth.play_note(0, 60, 255, 600, Priority::Music);
    s.obey(c);
    for note in 61..60 + MAX_VOICES as u8 {
        let c = s.synth.play_note(0, note, 255, 600, Priority::Sfx);
        s.obey(c);
    }
    s.render(2);
    assert_eq!(s.synth.active_voices(), MAX_VOICES);

    s.handle(AudioEvent::Play {
        inst: 0,
        note: 90,
        vel: 255,
        frames: 60,
    });
    // The music note is gone.
    assert!(
        !(0..MAX_VOICES).any(|i| s.synth.voice(i).priority == Priority::Music),
        "a sound effect stole an effect voice over the music voice"
    );
}

#[test]
fn an_unknown_instrument_is_counted_not_guessed() {
    let mut s = synth();
    s.handle(AudioEvent::Play {
        inst: 99,
        note: 69,
        vel: 255,
        frames: 10,
    });
    assert_eq!(s.synth.active_voices(), 0);
    assert_eq!(s.synth.stats(0).dropped, 1);
    assert_eq!(s.synth.stats(0).started, 0);
}

#[test]
fn panic_stops_everything_including_tails() {
    let mut s = synth();
    for note in 50..58 {
        s.handle(AudioEvent::Play {
            inst: 0,
            note,
            vel: 255,
            frames: 120,
        });
    }
    s.render(2);
    s.handle(AudioEvent::Panic);
    assert_eq!(s.synth.active_voices(), 0);
    let after = s.render(2);
    assert_eq!(peak(&after), 0.0, "a tail survived Panic");
}

#[test]
fn lib_the_same_events_render_the_same_samples() {
    let events = [
        AudioEvent::Play {
            inst: 1,
            note: 40,
            vel: 255,
            frames: 4,
        },
        AudioEvent::Play {
            inst: 0,
            note: 67,
            vel: 180,
            frames: 20,
        },
    ];
    let run = || {
        let mut s = synth();
        let mut out = Vec::new();
        for ev in events {
            s.handle(ev);
            out.extend(s.render(8));
        }
        out
    };
    assert_eq!(run(), run());
}

#[test]
fn block_size_does_not_change_the_audio() {
    let mut a = synth();
    let mut b = synth();
    let ev = AudioEvent::Play {
        inst: 0,
        note: 64,
        vel: 200,
        frames: 5,
    };
    a.handle(ev);
    b.handle(ev);

    let total = 8_000usize;
    let one = a.samples(total);
    let mut many = Vec::with_capacity(total);
    while many.len() < total {
        many.extend(b.samples(137)); // an awkward device buffer
    }
    many.truncate(total);
    assert_eq!(one, many);
}

/// Run one voice for `n` samples.
fn run_voice(v: &mut Voice, e: &mut Envelope, n: usize) {
    for _ in 0..n {
        let stage = v.count_down();
        let done = e.step(stage);
        if !v.step(e.level.to_bits(), done, e.silent()) {
            break;
        }
    }
}

#[test]
fn a_percussive_patch_ends_without_a_release() {
    // sustain = 0: the voice must free itself when the decay finishes, or a
    // fire-and-forget note would occupy a voice forever.
    let mut v = Voice::new();
    v.start(None, None, Priority::Sfx, 0);
    let mut e = Envelope::new(&Patch {
        attack_ms: 0,
        decay_ms: 20,
        sustain: 0,
        ..Patch::default()
    });
    run_voice(&mut v, &mut e, 48_000 / 10); // 100 ms
    assert!(v.is_idle());
}

#[test]
fn a_held_note_stays_until_released() {
    let mut v = Voice::new();
    v.start(None, Some(3), Priority::Sfx, 0);
    let mut e = Envelope::new(&Patch {
        sustain: 200,
        release_ms: 10,
        ..Patch::default()
    });
    run_voice(&mut v, &mut e, 48_000); // a full second
    assert!(!v.is_idle(), "a held note released itself");
    v.release();
    run_voice(&mut v, &mut e, 48_000 / 10);
    assert!(v.is_idle(), "release never finished");
}

#[test]
fn play_duration_releases_on_its_own() {
    let hold = 4_800; // 100 ms
    let mut v = Voice::new();
    v.start(Some(hold), None, Priority::Sfx, 0);
    let mut e = Envelope::new(&Patch {
        sustain: 200,
        release_ms: 5,
        ..Patch::default()
    });
    run_voice(&mut v, &mut e, 48_000 / 2); // 500 ms, well past hold+release
    assert!(v.is_idle(), "a timed note outlived its duration");
}
