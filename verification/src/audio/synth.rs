//! The synth's bookkeeping: which voice each note takes, and what is counted.
//! The samples themselves are made elsewhere, from the commands given here.

use super::event::AudioEvent;
use super::patch::Patch;
use super::voice::{fresh_voice, is_picked, pick_voice, Priority, Stage, Voice};
use vstd::prelude::*;

verus! {

/// How many notes can sound at once.
pub const MAX_VOICES: usize = 16;

/// The console's frame rate: the unit game-facing durations are quoted in.
pub const FRAME_RATE: u32 = 60;

/// What every host runs at in practice, and what the offline renderer pins.
pub const DEFAULT_SAMPLE_RATE: u32 = 48_000;

/// Samples in one console frame. 800 at 48 kHz.
pub fn samples_per_frame(sample_rate: u32) -> (r: u32)
    ensures
        r == sample_rate / 60,
{
    sample_rate / FRAME_RATE
}

/// How the synth is built: the same config and the same events give the same
/// samples.
#[derive(Debug, Clone, Copy, PartialEq, Eq, Structural)]
pub struct SynthConfig {
    pub sample_rate: u32,
    /// Seed for the noise oscillators. Fixed, never from the system.
    pub seed: u32,
}

impl Default for SynthConfig {
    fn default() -> (r: Self)
        ensures
            r == (SynthConfig { sample_rate: 48_000, seed: 0x5EED_1E55 }),
    {
        SynthConfig { sample_rate: DEFAULT_SAMPLE_RATE, seed: 0x5EED_1E55 }
    }
}

/// Counters a host or the agent loop can read to explain a render.
#[derive(Debug, Clone, Copy, PartialEq, Eq, Structural)]
pub struct SynthStats {
    /// Notes that started sounding.
    pub started: u64,
    /// Notes that started by taking a voice from a sounding note.
    pub stolen: u64,
    /// Events dropped because they named an instrument the bank doesn't have.
    pub dropped: u64,
    /// Stereo frames the master limiter turned down.
    pub limited: u64,
}

impl Default for SynthStats {
    fn default() -> (r: Self)
        ensures
            r == (SynthStats { started: 0, stolen: 0, dropped: 0, limited: 0 }),
    {
        SynthStats { started: 0, stolen: 0, dropped: 0, limited: 0 }
    }
}

/// What the sound of a voice, or of them all, has to do.
#[derive(Debug, Clone, Copy, PartialEq, Eq, Structural)]
pub enum VoiceCommand {
    /// Start this note on this voice, from silence.
    Start { voice: usize, inst: u8, note: u8, vel: u8 },
    /// Silence every voice, the effects' tails and the limiter.
    Clear,
}

/// The noise seed of voice `i`: each voice gets its own stream, so two
/// simultaneous hits are not the same noise twice.
pub fn voice_seed(seed: u32, i: u32) -> (r: u32)
    ensures
        r == (seed + (i * 0x9E37_79B9) % 0x1_0000_0000) % 0x1_0000_0000,
{
    let step: u32 = i.wrapping_mul(0x9E37_79B9);
    seed.wrapping_add(step)
}

/// The instrument: voices and what is counted of them.
pub struct Synth {
    cfg: SynthConfig,
    voices: Vec<Voice>,
    instruments: Vec<Patch>,
    /// Monotonic allocation counter, so "oldest" is well defined.
    next_age: u64,
    stats: SynthStats,
}

/// What a [`Synth`] holds.
pub struct SynthModel {
    pub cfg: SynthConfig,
    pub voices: Seq<Voice>,
    pub instruments: Seq<Patch>,
    pub next_age: u64,
    pub stats: SynthStats,
}

impl View for Synth {
    type V = SynthModel;

    closed spec fn view(&self) -> SynthModel {
        SynthModel {
            cfg: self.cfg,
            voices: self.voices@,
            instruments: self.instruments@,
            next_age: self.next_age,
            stats: self.stats,
        }
    }
}

/// Every voice of one priority, released.
pub open spec fn music_released(voices: Seq<Voice>) -> Seq<Voice> {
    voices.map_values(
        |v: Voice|
            if v.priority == Priority::Music {
                v.released()
            } else {
                v
            },
    )
}

/// Every voice on a channel, released and off it.
pub open spec fn channel_released(voices: Seq<Voice>, chan: u8) -> Seq<Voice> {
    voices.map_values(
        |v: Voice|
            if v.chan == Some(chan) {
                Voice { chan: None, ..v.released() }
            } else {
                v
            },
    )
}

/// Every voice, stopped.
pub open spec fn all_killed(voices: Seq<Voice>) -> Seq<Voice> {
    voices.map_values(|v: Voice| v.killed())
}

/// How many voices do not rest.
pub open spec fn sounding(voices: Seq<Voice>) -> nat
    decreases voices.len(),
{
    if voices.len() == 0 {
        0
    } else {
        sounding(voices.drop_last()) + if voices.last().stage == Stage::Idle {
            0nat
        } else {
            1nat
        }
    }
}

/// The voice that a new note takes.
pub open spec fn picked(voices: Seq<Voice>) -> int {
    choose|i: int| is_picked(voices, i)
}

impl SynthModel {
    /// As many voices as there are, an age for every note that started, and a
    /// frame short enough for every length to be counted in samples.
    pub open spec fn wf(self) -> bool {
        &&& self.voices.len() == MAX_VOICES
        &&& self.stats.started == self.next_age
        &&& self.stats.stolen <= self.stats.started
        &&& self.stats.limited == 0
        &&& 0xFFFF * (self.cfg.sample_rate / 60) <= u32::MAX
    }

    /// Whether `n` more notes can be counted.
    pub open spec fn counts(self, n: int) -> bool {
        self.next_age + n <= u64::MAX && self.stats.dropped + n <= u64::MAX
    }

    /// After a note: on the voice that gives way first, or, where there is no
    /// such instrument, nowhere.
    pub open spec fn started(
        self,
        inst: u8,
        note: u8,
        vel: u8,
        hold: Option<u32>,
        chan: Option<u8>,
        priority: Priority,
    ) -> (SynthModel, Option<VoiceCommand>) {
        if inst >= self.instruments.len() {
            (
                SynthModel {
                    stats: SynthStats { dropped: (self.stats.dropped + 1) as u64, ..self.stats },
                    ..self
                },
                None,
            )
        } else {
            let i = picked(self.voices);
            let stolen = self.stats.stolen + if self.voices[i].stage == Stage::Idle {
                0int
            } else {
                1int
            };
            (
                SynthModel {
                    voices: self.voices.update(
                        i,
                        Voice {
                            stage: Stage::Attack,
                            hold,
                            chan,
                            priority,
                            age: self.next_age,
                            level: 0,
                        },
                    ),
                    next_age: (self.next_age + 1) as u64,
                    stats: SynthStats {
                        started: (self.stats.started + 1) as u64,
                        stolen: stolen as u64,
                        ..self.stats
                    },
                    ..self
                },
                Some(VoiceCommand::Start { voice: i as usize, inst, note, vel }),
            )
        }
    }

    /// Samples in a number of frames.
    pub open spec fn samples_in(self, frames: u16) -> u32 {
        (frames * (self.cfg.sample_rate / 60)) as u32
    }

    /// After a note that is held for a number of frames.
    pub open spec fn played(
        self,
        inst: u8,
        note: u8,
        vel: u8,
        frames: u16,
        priority: Priority,
    ) -> (SynthModel, Option<VoiceCommand>) {
        self.started(inst, note, vel, Some(self.samples_in(frames)), None, priority)
    }

    /// After an event, applied at once.
    pub open spec fn handled(self, ev: AudioEvent) -> (SynthModel, Option<VoiceCommand>) {
        match ev {
            AudioEvent::Play { inst, note, vel, frames } => self.played(
                inst,
                note,
                vel,
                frames,
                Priority::Sfx,
            ),
            AudioEvent::NoteOn { chan, inst, note, vel } => (SynthModel {
                voices: channel_released(self.voices, chan),
                ..self
            }).started(inst, note, vel, None, Some(chan), Priority::Sfx),
            AudioEvent::NoteOff { chan } => (
                SynthModel { voices: channel_released(self.voices, chan), ..self },
                None,
            ),
            AudioEvent::Panic => (
                SynthModel { voices: all_killed(self.voices), ..self },
                Some(VoiceCommand::Clear),
            ),
            AudioEvent::StopMusic => (
                SynthModel { voices: music_released(self.voices), ..self },
                None,
            ),
            AudioEvent::PlaySfx { .. } => (self, None),
            AudioEvent::PlayMusic { .. } => (self, None),
        }
    }
}

proof fn lemma_picked(voices: Seq<Voice>, i: int)
    requires
        is_picked(voices, i),
    ensures
        picked(voices) == i,
{
    super::voice::law_one_voice_gives_way(voices, picked(voices), i);
}

/// A channel holds one note: the one started on it last replaces whatever was
/// there, and turning it off leaves nothing on it. No other channel loses its
/// note to being turned off.
pub proof fn law_a_channel_holds_one_note(
    s: SynthModel,
    chan: u8,
    inst: u8,
    note: u8,
    vel: u8,
    i: int,
    j: int,
)
    requires
        0 <= i < s.voices.len(),
        0 <= j < s.voices.len(),
    ensures
        ({
            let on = s.handled(AudioEvent::NoteOn { chan, inst, note, vel }).0.voices;
            on[i].chan == Some(chan) && on[j].chan == Some(chan) ==> i == j
        }),
        ({
            let off = s.handled(AudioEvent::NoteOff { chan }).0.voices;
            &&& off[i].chan != Some(chan)
            &&& s.voices[i].chan != Some(chan) ==> off[i] == s.voices[i]
        }),
{
    let released = channel_released(s.voices, chan);
    assert(released[i].chan != Some(chan));
    assert(released[j].chan != Some(chan));
    super::voice::lemma_some_voice_is_picked(released);
}

/// There are never more notes sounding than voices, and none after a panic.
pub proof fn law_notes_sound_on_voices(voices: Seq<Voice>)
    ensures
        sounding(voices) <= voices.len(),
        sounding(all_killed(voices)) == 0,
    decreases voices.len(),
{
    if voices.len() > 0 {
        law_notes_sound_on_voices(voices.drop_last());
        assert(all_killed(voices).drop_last() =~= all_killed(voices.drop_last()));
    }
}

/// A note that starts takes one voice and leaves the others as they were.
pub proof fn law_a_note_takes_one_voice(
    s: SynthModel,
    inst: u8,
    note: u8,
    vel: u8,
    frames: u16,
    priority: Priority,
    i: int,
)
    requires
        s.wf(),
        0 <= i < s.voices.len(),
    ensures
        ({
            let (after, command) = s.played(inst, note, vel, frames, priority);
            match command {
                Some(VoiceCommand::Start { voice, .. }) => {
                    &&& is_picked(s.voices, voice as int)
                    &&& i != voice ==> after.voices[i] == s.voices[i]
                },
                Some(VoiceCommand::Clear) => false,
                None => after.voices == s.voices && inst >= s.instruments.len(),
            }
        }),
{
    super::voice::lemma_some_voice_is_picked(s.voices);
}

impl Synth {
    pub fn new(cfg: SynthConfig) -> (r: Self)
        ensures
            r@ == (SynthModel {
                cfg,
                voices: Seq::new(MAX_VOICES as nat, |i: int| fresh_voice()),
                instruments: Seq::empty(),
                next_age: 0,
                stats: SynthStats { started: 0, stolen: 0, dropped: 0, limited: 0 },
            }),
            0xFFFF * (cfg.sample_rate / 60) <= u32::MAX ==> r@.wf(),
    {
        let mut voices: Vec<Voice> = Vec::new();
        let mut i: usize = 0;
        while i < MAX_VOICES
            invariant
                i <= MAX_VOICES,
                voices@.len() == i,
                forall|j: int| 0 <= j < i ==> voices@[j] == fresh_voice(),
            decreases MAX_VOICES - i,
        {
            voices.push(Voice::new());
            i += 1;
        }
        let r = Synth {
            cfg,
            voices,
            instruments: Vec::new(),
            next_age: 0,
            stats: SynthStats::default(),
        };
        assert(r@.voices =~= Seq::new(MAX_VOICES as nat, |i: int| fresh_voice()));
        assert(r@.instruments =~= Seq::empty());
        r
    }

    /// Install the instrument table.
    pub fn set_instruments(&mut self, patches: &[Patch])
        ensures
            final(self)@ == (SynthModel { instruments: patches@, ..old(self)@ }),
    {
        let mut copy: Vec<Patch> = Vec::new();
        let mut i: usize = 0;
        while i < patches.len()
            invariant
                i <= patches@.len(),
                copy@ == patches@.take(i as int),
            decreases patches@.len() - i,
        {
            copy.push(patches[i]);
            i += 1;
            assert(copy@ =~= patches@.take(i as int));
        }
        assert(patches@.take(patches@.len() as int) =~= patches@);
        self.instruments = copy;
    }

    pub fn sample_rate(&self) -> (r: u32)
        ensures
            r == self@.cfg.sample_rate,
    {
        self.cfg.sample_rate
    }

    /// The counters, with the limiter's own count of the frames it turned down.
    pub fn stats(&self, limited: u64) -> (r: SynthStats)
        ensures
            r == (SynthStats { limited, ..self@.stats }),
    {
        SynthStats {
            started: self.stats.started,
            stolen: self.stats.stolen,
            dropped: self.stats.dropped,
            limited,
        }
    }

    /// Voices currently sounding, release tails included.
    pub fn active_voices(&self) -> (r: usize)
        ensures
            r == sounding(self@.voices),
    {
        let mut n: usize = 0;
        let mut i: usize = 0;
        assert(self.voices@.take(0) =~= Seq::empty());
        while i < self.voices.len()
            invariant
                n <= i <= self.voices@.len(),
                n == sounding(self.voices@.take(i as int)),
            decreases self.voices@.len() - i,
        {
            proof {
                assert(self.voices@.take(i + 1).drop_last() =~= self.voices@.take(i as int));
            }
            if !self.voices[i].is_idle() {
                n += 1;
            }
            i += 1;
        }
        assert(self.voices@.take(self.voices@.len() as int) =~= self.voices@);
        n
    }

    /// One voice.
    pub fn voice(&self, i: usize) -> (r: Voice)
        requires
            i < self@.voices.len(),
        ensures
            r == self@.voices[i as int],
    {
        self.voices[i]
    }

    /// Count one sample off a voice's hold; see [`Voice::count_down`].
    pub fn count_down(&mut self, i: usize) -> (stage: Stage)
        requires
            i < old(self)@.voices.len(),
        ensures
            final(self)@ == (SynthModel {
                voices: old(self)@.voices.update(
                    i as int,
                    old(self)@.voices[i as int].counted_down(),
                ),
                ..old(self)@
            }),
            stage == final(self)@.voices[i as int].stage,
    {
        let mut v = self.voices[i];
        let stage = v.count_down();
        self.voices.set(i, v);
        stage
    }

    /// Close one step of a voice's envelope; see [`Voice::step`].
    pub fn step(&mut self, i: usize, level: u32, done: bool, silent: bool) -> (sounds: bool)
        requires
            i < old(self)@.voices.len(),
        ensures
            ({
                let v = old(self)@.voices[i as int];
                &&& final(self)@ == (SynthModel {
                    voices: old(self)@.voices.update(
                        i as int,
                        (Voice { level, ..v }).stepped(done, silent),
                    ),
                    ..old(self)@
                })
                &&& sounds == !(v.stage == Stage::Idle || (v.stage == Stage::Release && done))
            }),
    {
        let mut v = self.voices[i];
        let sounds = v.step(level, done, silent);
        self.voices.set(i, v);
        sounds
    }

    fn hold_for(&self, frames: u16) -> (r: u32)
        requires
            self@.wf(),
        ensures
            r == self@.samples_in(frames),
    {
        let spf: u32 = samples_per_frame(self.cfg.sample_rate);
        assert(frames * spf <= 0xFFFF * spf) by (nonlinear_arith)
            requires
                frames <= 0xFFFF,
                0 <= spf,
        ;
        frames as u32 * spf
    }

    /// Start a note held for a number of frames, choosing its priority.
    pub fn play_note(&mut self, inst: u8, note: u8, vel: u8, frames: u16, priority: Priority) -> (r:
        Option<VoiceCommand>)
        requires
            old(self)@.wf(),
            old(self)@.counts(1),
        ensures
            final(self)@.wf(),
            (final(self)@, r) == old(self)@.played(inst, note, vel, frames, priority),
    {
        let hold: u32 = self.hold_for(frames);
        self.start(inst, note, vel, Some(hold), None, priority)
    }

    /// Release every voice the music is using, leaving sound effects alone.
    pub fn release_music(&mut self)
        ensures
            final(self)@ == (SynthModel { voices: music_released(old(self)@.voices), ..old(self)@ }),
    {
        let mut i: usize = 0;
        while i < self.voices.len()
            invariant
                i <= self.voices@.len(),
                self.voices@.len() == old(self).voices@.len(),
                self.cfg == old(self).cfg,
                self.instruments == old(self).instruments,
                self.next_age == old(self).next_age,
                self.stats == old(self).stats,
                forall|j: int|
                    0 <= j < self.voices@.len() ==> #[trigger] self.voices@[j] == (if j < i {
                        music_released(old(self).voices@)[j]
                    } else {
                        old(self).voices@[j]
                    }),
            decreases self.voices@.len() - i,
        {
            let mut v = self.voices[i];
            if v.priority == Priority::Music {
                v.release();
            }
            self.voices.set(i, v);
            i += 1;
        }
        assert(self.voices@ =~= music_released(old(self).voices@));
    }

    /// Apply an event immediately.
    pub fn handle(&mut self, ev: AudioEvent) -> (r: Option<VoiceCommand>)
        requires
            old(self)@.wf(),
            old(self)@.counts(1),
        ensures
            final(self)@.wf(),
            (final(self)@, r) == old(self)@.handled(ev),
    {
        match ev {
            AudioEvent::Play { inst, note, vel, frames } => {
                let hold: u32 = self.hold_for(frames);
                self.start(inst, note, vel, Some(hold), None, Priority::Sfx)
            },
            AudioEvent::NoteOn { chan, inst, note, vel } => {
                // Retriggering a channel replaces the note on it rather than
                // stacking: the game has one slot and can only turn off one.
                self.release_channel(chan);
                self.start(inst, note, vel, None, Some(chan), Priority::Sfx)
            },
            AudioEvent::NoteOff { chan } => {
                self.release_channel(chan);
                None
            },
            AudioEvent::Panic => {
                self.kill_all();
                Some(VoiceCommand::Clear)
            },
            AudioEvent::StopMusic => {
                self.release_music();
                None
            },
            AudioEvent::PlaySfx { .. } => None,
            AudioEvent::PlayMusic { .. } => None,
        }
    }

    fn start(
        &mut self,
        inst: u8,
        note: u8,
        vel: u8,
        hold: Option<u32>,
        chan: Option<u8>,
        priority: Priority,
    ) -> (r: Option<VoiceCommand>)
        requires
            old(self)@.wf(),
            old(self)@.counts(1),
        ensures
            final(self)@.wf(),
            (final(self)@, r) == old(self)@.started(inst, note, vel, hold, chan, priority),
    {
        if inst as usize >= self.instruments.len() {
            self.stats.dropped = self.stats.dropped + 1;
            return None;
        }
        let idx: usize = pick_voice(&self.voices);
        proof {
            lemma_picked(self.voices@, idx as int);
        }
        let mut v = self.voices[idx];
        if !v.is_idle() {
            self.stats.stolen = self.stats.stolen + 1;
        }
        let age: u64 = self.next_age;
        self.next_age = self.next_age + 1;
        v.start(hold, chan, priority, age);
        self.voices.set(idx, v);
        self.stats.started = self.stats.started + 1;
        Some(VoiceCommand::Start { voice: idx, inst, note, vel })
    }

    fn release_channel(&mut self, chan: u8)
        ensures
            final(self)@ == (SynthModel {
                voices: channel_released(old(self)@.voices, chan),
                ..old(self)@
            }),
    {
        let mut i: usize = 0;
        while i < self.voices.len()
            invariant
                i <= self.voices@.len(),
                self.voices@.len() == old(self).voices@.len(),
                self.cfg == old(self).cfg,
                self.instruments == old(self).instruments,
                self.next_age == old(self).next_age,
                self.stats == old(self).stats,
                forall|j: int|
                    0 <= j < self.voices@.len() ==> #[trigger] self.voices@[j] == (if j < i {
                        channel_released(old(self).voices@, chan)[j]
                    } else {
                        old(self).voices@[j]
                    }),
            decreases self.voices@.len() - i,
        {
            let mut v = self.voices[i];
            let on = match v.chan {
                Some(c) => c == chan,
                None => false,
            };
            if on {
                v.release();
                v.chan = None;
            }
            self.voices.set(i, v);
            i += 1;
        }
        assert(self.voices@ =~= channel_released(old(self).voices@, chan));
    }

    fn kill_all(&mut self)
        ensures
            final(self)@ == (SynthModel { voices: all_killed(old(self)@.voices), ..old(self)@ }),
    {
        let mut i: usize = 0;
        while i < self.voices.len()
            invariant
                i <= self.voices@.len(),
                self.voices@.len() == old(self).voices@.len(),
                self.cfg == old(self).cfg,
                self.instruments == old(self).instruments,
                self.next_age == old(self).next_age,
                self.stats == old(self).stats,
                forall|j: int|
                    0 <= j < self.voices@.len() ==> #[trigger] self.voices@[j] == (if j < i {
                        all_killed(old(self).voices@)[j]
                    } else {
                        old(self).voices@[j]
                    }),
            decreases self.voices@.len() - i,
        {
            let mut v = self.voices[i];
            v.kill();
            self.voices.set(i, v);
            i += 1;
        }
        assert(self.voices@ =~= all_killed(old(self).voices@));
    }
}

} // verus!
