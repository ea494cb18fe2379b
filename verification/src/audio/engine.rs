//! The console's engine: a bank, a timestamped event queue, the music player
//! and the synth.
//!
//! A game emits all of a frame's sounds in one burst, and they have to land at
//! that frame's place in the audio stream. The engine is the layer that knows
//! about time: it cuts a block of samples at each pending timestamp, and says
//! what the voices do before each piece.

use super::bank::{
    at_least_one, empty_bank, BankModel, SfxModel, SoundBank, MAX_TRACK_CHANNELS,
};
use super::event::AudioEvent;
use super::sequencer::{started, Playing, SeqNote, Sequencer};
use super::synth::{
    law_notes_sound_on_voices, music_released, samples_per_frame, sounding, Synth, SynthConfig,
    SynthModel, SynthStats, VoiceCommand, MAX_VOICES,
};
use super::voice::{fresh_voice, Priority};
use vstd::prelude::*;

verus! {

/// How many scheduled events can be pending at once: notes in flight, since a
/// sound effect is one event per note from the moment it is triggered.
pub const QUEUE_CAPACITY: usize = 256;

/// What the engine did, for a host or the agent loop to read.
#[derive(Debug, Clone, Copy, PartialEq, Eq, Structural)]
pub struct EngineStats {
    /// Events that never got scheduled because the queue was full.
    pub queue_overflow: u64,
    /// `PlaySfx` for an id the bank doesn't have.
    pub unknown_sfx: u64,
    /// `PlayMusic` for an id the bank doesn't have.
    pub unknown_track: u64,
    /// The high-water mark of the queue.
    pub queue_peak: usize,
}

impl Default for EngineStats {
    fn default() -> (r: Self)
        ensures
            r == (EngineStats {
                queue_overflow: 0,
                unknown_sfx: 0,
                unknown_track: 0,
                queue_peak: 0,
            }),
    {
        EngineStats { queue_overflow: 0, unknown_sfx: 0, unknown_track: 0, queue_peak: 0 }
    }
}

/// One scheduled event.
#[derive(Debug, Clone, Copy, PartialEq, Eq, Structural)]
pub struct Pending {
    pub at: u64,
    pub event: AudioEvent,
}

/// The scheduled events, in the order they were submitted: events that share a
/// timestamp are dispatched in that order.
struct Queue {
    items: Vec<Pending>,
    overflow: u64,
    peak: usize,
}

/// What a queue of scheduled events holds.
pub struct QueueModel {
    /// The events, in the order they were submitted.
    pub items: Seq<Pending>,
    /// Events that found no room.
    pub overflow: nat,
    /// The most events that were pending at once.
    pub peak: nat,
}

impl View for Queue {
    type V = QueueModel;

    closed spec fn view(&self) -> QueueModel {
        QueueModel {
            items: self.items@,
            overflow: self.overflow as nat,
            peak: self.peak as nat,
        }
    }
}

/// The events of `items` that are due before `at`, in the order they have.
pub open spec fn earlier(items: Seq<Pending>, at: u64) -> Seq<Pending> {
    items.filter(|p: Pending| p.at < at)
}

/// Whether the event at `i` is the next one due at `now`: none is due before
/// it, and of those due with it, it was submitted first.
pub open spec fn is_next_due(items: Seq<Pending>, now: u64, i: int) -> bool {
    &&& 0 <= i < items.len()
    &&& items[i].at <= now
    &&& forall|j: int| 0 <= j < items.len() ==> items[i].at <= (#[trigger] items[j]).at
    &&& forall|j: int| 0 <= j < i ==> items[i].at < (#[trigger] items[j]).at
}

/// Whether some event is due at `now`.
pub open spec fn some_due(items: Seq<Pending>, now: u64) -> bool {
    exists|i: int| 0 <= i < items.len() && (#[trigger] items[i]).at <= now
}

/// The next event due at `now`.
pub open spec fn next_due(items: Seq<Pending>, now: u64) -> int {
    choose|i: int| is_next_due(items, now, i)
}

/// Whether `t` is when the earliest event falls due.
pub open spec fn is_next_time(items: Seq<Pending>, t: Option<u64>) -> bool {
    match t {
        Some(at) => {
            &&& exists|i: int| 0 <= i < items.len() && (#[trigger] items[i]).at == at
            &&& forall|j: int| 0 <= j < items.len() ==> at <= (#[trigger] items[j]).at
        },
        None => items.len() == 0,
    }
}

impl QueueModel {
    /// After a push: the event is last, or, in a full queue, counted as lost.
    pub open spec fn pushed(self, event: AudioEvent, at: u64) -> QueueModel {
        if self.items.len() >= QUEUE_CAPACITY {
            QueueModel { overflow: self.overflow + 1, ..self }
        } else {
            let items = self.items.push(Pending { at, event });
            QueueModel {
                items,
                peak: if items.len() > self.peak {
                    items.len()
                } else {
                    self.peak
                },
                ..self
            }
        }
    }

    /// After everything at or after `at` is dropped.
    pub open spec fn cleared_from(self, at: u64) -> QueueModel {
        QueueModel { items: earlier(self.items, at), ..self }
    }

    pub open spec fn wf(self) -> bool {
        self.items.len() <= QUEUE_CAPACITY
    }
}

impl Queue {
    fn new() -> (r: Self)
        ensures
            r@ == (QueueModel { items: Seq::empty(), overflow: 0, peak: 0 }),
    {
        let r = Queue { items: Vec::with_capacity(QUEUE_CAPACITY), overflow: 0, peak: 0 };
        assert(r@.items =~= Seq::empty());
        r
    }

    fn push(&mut self, event: AudioEvent, at: u64)
        requires
            old(self)@.wf(),
            old(self)@.overflow < u64::MAX,
        ensures
            final(self)@.wf(),
            final(self)@ == old(self)@.pushed(event, at),
    {
        if self.items.len() >= QUEUE_CAPACITY {
            self.overflow = self.overflow + 1;
            return;
        }
        self.items.push(Pending { at, event });
        if self.items.len() > self.peak {
            self.peak = self.items.len();
        }
    }

    /// Drop everything scheduled at or after `at`.
    ///
    /// Not "everything": cancelling the future is what stopping means;
    /// cancelling the past is losing audio the game already asked for.
    fn clear_from(&mut self, at: u64)
        requires
            old(self)@.wf(),
        ensures
            final(self)@.wf(),
            final(self)@ == old(self)@.cleared_from(at),
    {
        let mut kept: Vec<Pending> = Vec::with_capacity(QUEUE_CAPACITY);
        let mut i: usize = 0;
        let ghost keep = |p: Pending| p.at < at;
        assert(self.items@.take(0) =~= Seq::empty());
        proof {
            reveal(Seq::filter);
        }
        while i < self.items.len()
            invariant
                i <= self.items@.len(),
                self == old(self),
                keep == (|p: Pending| p.at < at),
                kept@ == self.items@.take(i as int).filter(keep),
                kept@.len() <= i,
            decreases self.items@.len() - i,
        {
            let p = self.items[i];
            proof {
                reveal(Seq::filter);
                assert(self.items@.take(i + 1).drop_last() =~= self.items@.take(i as int));
                assert(self.items@.take(i + 1).last() == p);
            }
            if p.at < at {
                kept.push(p);
            }
            i += 1;
        }
        assert(self.items@.take(self.items@.len() as int) =~= self.items@);
        self.items = kept;
    }

    /// Timestamp of the earliest pending event.
    fn next_time(&self) -> (r: Option<u64>)
        ensures
            is_next_time(self@.items, r),
    {
        if self.items.len() == 0 {
            return None;
        }
        let mut best: u64 = self.items[0].at;
        let mut i: usize = 1;
        while i < self.items.len()
            invariant
                1 <= i <= self.items@.len(),
                exists|j: int| 0 <= j < i && (#[trigger] self.items@[j]).at == best,
                forall|j: int| 0 <= j < i ==> best <= (#[trigger] self.items@[j]).at,
            decreases self.items@.len() - i,
        {
            if self.items[i].at < best {
                best = self.items[i].at;
            }
            i += 1;
        }
        Some(best)
    }

    /// Remove and return the earliest event due at or before `now`.
    fn take_due(&mut self, now: u64) -> (r: Option<AudioEvent>)
        requires
            old(self)@.wf(),
        ensures
            final(self)@.wf(),
            r is Some <==> some_due(old(self)@.items, now),
            match r {
                Some(ev) => {
                    let i = next_due(old(self)@.items, now);
                    &&& is_next_due(old(self)@.items, now, i)
                    &&& ev == old(self)@.items[i].event
                    &&& final(self)@ == (QueueModel {
                        items: old(self)@.items.remove(i),
                        ..old(self)@
                    })
                },
                None => final(self)@ == old(self)@,
            },
    {
        if self.items.len() == 0 {
            return None;
        }
        let mut best: usize = 0;
        let mut i: usize = 1;
        while i < self.items.len()
            invariant
                1 <= i <= self.items@.len(),
                best < i,
                forall|j: int|
                    0 <= j < i ==> self.items@[best as int].at <= (#[trigger] self.items@[j]).at,
                forall|j: int|
                    0 <= j < best ==> self.items@[best as int].at < (#[trigger] self.items@[j]).at,
            decreases self.items@.len() - i,
        {
            if self.items[i].at < self.items[best].at {
                best = i;
            }
            i += 1;
        }
        if self.items[best].at > now {
            return None;
        }
        proof {
            assert(is_next_due(self.items@, now, best as int));
            lemma_next_due(self.items@, now, best as int);
        }
        let p = self.items.remove(best);
        Some(p.event)
    }
}

proof fn lemma_next_due(items: Seq<Pending>, now: u64, i: int)
    requires
        is_next_due(items, now, i),
    ensures
        next_due(items, now) == i,
        some_due(items, now),
{
    let k = next_due(items, now);
    assert(is_next_due(items, now, k));
    if k < i {
        assert(items[i].at < items[k].at);
    } else if i < k {
        assert(items[k].at < items[i].at);
    }
}

proof fn lemma_some_due(items: Seq<Pending>, now: u64)
    requires
        some_due(items, now),
    ensures
        is_next_due(items, now, next_due(items, now)),
    decreases items.len(),
{
    let i = choose|i: int| 0 <= i < items.len() && (#[trigger] items[i]).at <= now;
    lemma_least(items, items.len() as int);
    let k = choose|k: int|
        {
            &&& 0 <= k < items.len()
            &&& forall|j: int| 0 <= j < items.len() ==> items[k].at <= (#[trigger] items[j]).at
            &&& forall|j: int| 0 <= j < k ==> (#[trigger] items[k]).at < (#[trigger] items[j]).at
        };
    assert(is_next_due(items, now, k));
}

proof fn lemma_least(items: Seq<Pending>, n: int)
    requires
        0 < n <= items.len(),
    ensures
        exists|k: int|
            {
                &&& 0 <= k < n
                &&& forall|j: int| 0 <= j < n ==> items[k].at <= (#[trigger] items[j]).at
                &&& forall|j: int|
                    0 <= j < k ==> (#[trigger] items[k]).at < (#[trigger] items[j]).at
            },
    decreases n,
{
    if n == 1 {
        let k = 0int;
        assert(forall|j: int| 0 <= j < n ==> items[k].at <= (#[trigger] items[j]).at);
        assert(forall|j: int| 0 <= j < k ==> (#[trigger] items[k]).at < (#[trigger] items[j]).at);
    } else {
        lemma_least(items, n - 1);
        let k = choose|k: int|
            {
                &&& 0 <= k < n - 1
                &&& forall|j: int| 0 <= j < n - 1 ==> items[k].at <= (#[trigger] items[j]).at
                &&& forall|j: int|
                    0 <= j < k ==> (#[trigger] items[k]).at < (#[trigger] items[j]).at
            };
        if items[n - 1].at < items[k].at {
            let m = n - 1;
            assert(forall|j: int| 0 <= j < n ==> items[m].at <= (#[trigger] items[j]).at);
            assert(forall|j: int|
                0 <= j < m ==> (#[trigger] items[m]).at < (#[trigger] items[j]).at);
        } else {
            assert(forall|j: int| 0 <= j < n ==> items[k].at <= (#[trigger] items[j]).at);
        }
    }
}

/// What an [`AudioEngine`] holds.
pub struct EngineModel {
    pub synth: SynthModel,
    pub bank: BankModel,
    pub queue: QueueModel,
    pub music: Option<Playing>,
    /// Samples rendered.
    pub now: nat,
    pub unknown_sfx: nat,
    pub unknown_track: nat,
}

/// A queue after each of the first `k` notes of an effect is scheduled.
pub open spec fn scheduled(
    queue: QueueModel,
    def: SfxModel,
    at: u64,
    spf: int,
    k: int,
) -> QueueModel
    decreases k,
{
    if k <= 0 {
        queue
    } else {
        let (offset, note, frames) = def.notes()[k - 1];
        scheduled(queue, def, at, spf, k - 1).pushed(
            AudioEvent::Play { inst: def.inst, note, vel: def.vel, frames },
            (at + offset * spf) as u64,
        )
    }
}

/// One command or none, as a list.
pub open spec fn listed(c: Option<VoiceCommand>) -> Seq<VoiceCommand> {
    match c {
        Some(c) => seq![c],
        None => Seq::empty(),
    }
}

/// The synth after the first `k` notes of a row of music, and its commands.
pub open spec fn music_played(synth: SynthModel, notes: Seq<SeqNote>, k: int) -> (
    SynthModel,
    Seq<VoiceCommand>,
)
    decreases k,
{
    if k <= 0 {
        (synth, Seq::empty())
    } else {
        let (s, commands) = music_played(synth, notes, k - 1);
        let n = notes[k - 1];
        let (t, c) = s.played(n.inst, n.note, n.vel, n.frames, Priority::Music);
        (t, commands + listed(c))
    }
}

/// When the earliest event falls due.
pub open spec fn next_time(items: Seq<Pending>) -> Option<u64> {
    if items.len() == 0 {
        None
    } else {
        Some(items[next_due(items, u64::MAX)].at)
    }
}

/// Effects are short enough for their frames to be counted.
pub open spec fn countable_bank(bank: BankModel) -> bool {
    forall|k: int| 0 <= k < bank.sfx.len() ==> (#[trigger] bank.sfx[k]).frames() <= u32::MAX
}

impl EngineModel {
    /// Samples in one frame.
    pub open spec fn spf(self) -> int {
        self.synth.cfg.sample_rate as int / 60
    }

    pub open spec fn wf(self) -> bool {
        &&& self.synth.wf()
        &&& self.queue.wf()
        &&& countable_bank(self.bank)
        &&& self.music matches Some(p) ==> p.row_samples <= 255 * self.spf()
    }

    /// After an event is scheduled. A sound effect is scheduled note by note;
    /// a panic cancels what is not yet due, and the music.
    pub open spec fn submitted(self, event: AudioEvent, at: u64) -> EngineModel {
        match event {
            AudioEvent::PlaySfx { id } => if id >= self.bank.sfx.len() {
                EngineModel { unknown_sfx: self.unknown_sfx + 1, ..self }
            } else {
                let def = self.bank.sfx[id as int];
                EngineModel {
                    queue: scheduled(
                        self.queue,
                        def,
                        at,
                        self.spf(),
                        def.notes().len() as int,
                    ),
                    ..self
                }
            },
            AudioEvent::Panic => EngineModel {
                queue: self.queue.cleared_from(at).pushed(event, at),
                music: None,
                ..self
            },
            _ => EngineModel { queue: self.queue.pushed(event, at), ..self },
        }
    }

    /// After an event that has come due, and what the voices do.
    pub open spec fn dispatched(self, event: AudioEvent) -> (EngineModel, Seq<VoiceCommand>) {
        match event {
            AudioEvent::PlayMusic { id } => if id >= self.bank.tracks.len() {
                (EngineModel { unknown_track: self.unknown_track + 1, ..self }, Seq::empty())
            } else {
                (
                    EngineModel {
                        synth: SynthModel {
                            voices: music_released(self.synth.voices),
                            ..self.synth
                        },
                        music: started(
                            id,
                            self.bank.tracks[id as int],
                            self.now as u64,
                            self.spf() as u64,
                        ),
                        ..self
                    },
                    Seq::empty(),
                )
            },
            _ => {
                let (synth, c) = self.synth.handled(event);
                let music = if event == AudioEvent::StopMusic || event == AudioEvent::Panic {
                    None
                } else {
                    self.music
                };
                (EngineModel { synth, music, ..self }, listed(c))
            },
        }
    }

    /// After an event that is applied at once, and what the voices do. A sound
    /// effect is scheduled note by note from now on. A panic cancels what is not
    /// overdue; what is was asked for before it, and still happens first.
    pub open spec fn applied(self, event: AudioEvent) -> (EngineModel, Seq<VoiceCommand>) {
        match event {
            AudioEvent::PlaySfx { .. } => (self.submitted(event, self.now as u64), Seq::empty()),
            AudioEvent::Panic => {
                let (late, first) = (EngineModel {
                    queue: self.queue.cleared_from(self.now as u64),
                    ..self
                }).drained();
                let (after, second) = late.dispatched(event);
                (after, first + second)
            },
            _ => self.dispatched(event),
        }
    }

    /// After every event that is due, the earliest first and of those due
    /// together the one submitted first, and what the voices do.
    pub open spec fn drained(self) -> (EngineModel, Seq<VoiceCommand>)
        decreases self.queue.items.len(),
        via EngineModel::drained_decreases
    {
        let items = self.queue.items;
        let now = self.now as u64;
        if !some_due(items, now) {
            (self, Seq::empty())
        } else {
            let i = next_due(items, now);
            let taken = EngineModel {
                queue: QueueModel { items: items.remove(i), ..self.queue },
                ..self
            };
            let (next, commands) = taken.dispatched(items[i].event);
            let (last, more) = next.drained();
            (last, commands + more)
        }
    }

    #[via_fn]
    proof fn drained_decreases(self) {
        let items = self.queue.items;
        let now = self.now as u64;
        if some_due(items, now) {
            lemma_some_due(items, now);
        }
    }

    /// After the row of music that is due, if one is, and what the voices do.
    pub open spec fn music_advanced(self) -> (EngineModel, Seq<VoiceCommand>) {
        match self.music {
            None => (self, Seq::empty()),
            Some(p) => if p.track >= self.bank.tracks.len() {
                (EngineModel { music: None, ..self }, Seq::empty())
            } else if self.now < p.next_row_at {
                (self, Seq::empty())
            } else {
                let notes = self.bank.tracks[p.track as int].row_notes(p.row as int);
                let n = if notes.len() <= MAX_TRACK_CHANNELS {
                    notes.len() as int
                } else {
                    MAX_TRACK_CHANNELS as int
                };
                let (synth, commands) = music_played(self.synth, notes, n);
                (EngineModel { synth, music: p.advanced(), ..self }, commands)
            },
        }
    }

    /// The sample that the next event or row falls due at.
    pub open spec fn until(self) -> Option<int> {
        match (next_time(self.queue.items), self.music) {
            (Some(a), Some(p)) => Some(
                if a <= p.next_row_at {
                    a as int
                } else {
                    p.next_row_at
                },
            ),
            (Some(a), None) => Some(a as int),
            (None, Some(p)) => Some(p.next_row_at),
            (None, None) => None,
        }
    }

    /// How many samples to render before something falls due: at least one, and
    /// no more than there is room for.
    pub open spec fn run(self, room: int) -> int {
        match self.until() {
            None => room,
            Some(t) => if t <= self.now {
                1
            } else if t - self.now < room {
                t - self.now
            } else {
                room
            },
        }
    }

    /// One piece of a block: what the voices do, and for how many samples the
    /// sound then goes on.
    pub open spec fn segment(self, room: int) -> (EngineModel, Seq<VoiceCommand>, int) {
        let (a, first) = self.drained();
        let (b, second) = a.music_advanced();
        let run = b.run(room);
        (EngineModel { now: (b.now + run) as nat, ..b }, first + second, run)
    }
}

/// One piece of a block of samples.
pub struct Segment {
    /// What the voices do first, in order.
    pub commands: Vec<VoiceCommand>,
    /// For how many samples the sound then goes on.
    pub run: usize,
}

/// The synth's bookkeeping, plus a bank and a clock.
pub struct AudioEngine {
    synth: Synth,
    bank: SoundBank,
    queue: Queue,
    /// The music player.
    seq: Sequencer,
    /// Scratch for one row's notes.
    row_notes: Vec<SeqNote>,
    /// Samples rendered since the engine was created.
    now: u64,
    unknown_sfx: u64,
    unknown_track: u64,
}

impl View for AudioEngine {
    type V = EngineModel;

    closed spec fn view(&self) -> EngineModel {
        EngineModel {
            synth: self.synth@,
            bank: self.bank@,
            queue: self.queue@,
            music: self.seq@,
            now: self.now as nat,
            unknown_sfx: self.unknown_sfx as nat,
            unknown_track: self.unknown_track as nat,
        }
    }
}

fn append_command(commands: &mut Vec<VoiceCommand>, c: Option<VoiceCommand>)
    ensures
        final(commands)@ == old(commands)@ + listed(c),
{
    match c {
        Some(c) => {
            commands.push(c);
        },
        None => {},
    }
    assert(commands@ =~= old(commands)@ + listed(c));
}

impl AudioEngine {
    /// The engine's parts are sound.
    pub closed spec fn wf(&self) -> bool {
        &&& self@.wf()
        &&& self.seq.wf()
        &&& self.row_notes@.len() == MAX_TRACK_CHANNELS
    }

    pub fn new(cfg: SynthConfig) -> (r: Self)
        requires
            0xFFFF * (cfg.sample_rate / 60) <= u32::MAX,
        ensures
            r.wf(),
            r@.wf(),
            r@.synth == (SynthModel {
                cfg,
                voices: Seq::new(MAX_VOICES as nat, |i: int| fresh_voice()),
                instruments: Seq::empty(),
                next_age: 0,
                stats: SynthStats { started: 0, stolen: 0, dropped: 0, limited: 0 },
            }),
            r@.bank == empty_bank(),
            r@.queue == (QueueModel { items: Seq::empty(), overflow: 0, peak: 0 }),
            r@.music is None,
            r@.now == 0 && r@.unknown_sfx == 0 && r@.unknown_track == 0,
    {
        let mut row_notes: Vec<SeqNote> = Vec::new();
        let mut i: usize = 0;
        while i < MAX_TRACK_CHANNELS
            invariant
                i <= MAX_TRACK_CHANNELS,
                row_notes@.len() == i,
            decreases MAX_TRACK_CHANNELS - i,
        {
            row_notes.push(SeqNote { inst: 0, note: 0, vel: 0, frames: 0 });
            i += 1;
        }
        AudioEngine {
            synth: Synth::new(cfg),
            bank: SoundBank::default(),
            queue: Queue::new(),
            seq: Sequencer::new(),
            row_notes,
            now: 0,
            unknown_sfx: 0,
            unknown_track: 0,
        }
    }

    /// Install a bank.
    pub fn set_bank(&mut self, bank: SoundBank)
        requires
            old(self).wf(),
            countable_bank(bank@),
        ensures
            final(self).wf(),
            final(self)@ == (EngineModel {
                synth: SynthModel { instruments: bank@.instruments, ..old(self)@.synth },
                bank: bank@,
                ..old(self)@
            }),
    {
        self.synth.set_instruments(bank.instruments.as_slice());
        self.bank = bank;
    }

    pub fn bank(&self) -> (r: &SoundBank)
        ensures
            r@ == self@.bank,
    {
        &self.bank
    }

    /// The voices, for the code that makes their sound.
    pub fn synth_mut(&mut self) -> (r: &mut Synth)
        requires
            old(self).wf(),
        ensures
            r@ == old(self)@.synth,
            final(self)@ == (EngineModel { synth: final(r)@, ..old(self)@ }),
            final(r)@.wf() && final(r)@.cfg == old(self)@.synth.cfg ==> final(self).wf(),
    {
        &mut self.synth
    }

    pub fn sample_rate(&self) -> (r: u32)
        ensures
            r == self@.synth.cfg.sample_rate,
    {
        self.synth.sample_rate()
    }

    /// Samples rendered so far: the engine's clock, and what timestamps are
    /// relative to.
    pub fn now(&self) -> (r: u64)
        ensures
            r == self@.now,
    {
        self.now
    }

    /// The sample a given console frame starts at.
    pub fn frame_at(&self, frame: u64) -> (r: u64)
        requires
            frame * self@.spf() <= u64::MAX,
        ensures
            r == frame * self@.spf(),
    {
        frame * samples_per_frame(self.sample_rate()) as u64
    }

    pub fn stats(&self) -> (r: EngineStats)
        ensures
            r.queue_overflow == self@.queue.overflow,
            r.unknown_sfx == self@.unknown_sfx,
            r.unknown_track == self@.unknown_track,
            r.queue_peak == self@.queue.peak,
    {
        EngineStats {
            queue_overflow: self.queue.overflow,
            unknown_sfx: self.unknown_sfx,
            unknown_track: self.unknown_track,
            queue_peak: self.queue.peak,
        }
    }

    pub fn synth_stats(&self, limited: u64) -> (r: SynthStats)
        ensures
            r == (SynthStats { limited, ..self@.synth.stats }),
    {
        self.synth.stats(limited)
    }

    pub fn active_voices(&self) -> (r: usize)
        ensures
            r == super::synth::sounding(self@.synth.voices),
    {
        self.synth.active_voices()
    }

    /// Number of events waiting to be dispatched.
    pub fn pending(&self) -> (r: usize)
        ensures
            r == self@.queue.items.len(),
    {
        self.queue.items.len()
    }

    /// The track currently playing, if any.
    pub fn playing_music(&self) -> (r: Option<u16>)
        ensures
            r == (match self@.music {
                Some(p) => Some(p.track),
                None => None,
            }),
    {
        self.seq.playing()
    }
}

impl EngineModel {
    /// Whether an event can be scheduled at a time: an effect's last note is
    /// within the clock, and every loss can be counted.
    pub open spec fn schedulable(self, event: AudioEvent, at: u64) -> bool {
        match event {
            AudioEvent::PlaySfx { id } => if id >= self.bank.sfx.len() {
                self.unknown_sfx < u64::MAX
            } else {
                let def = self.bank.sfx[id as int];
                &&& at + def.frames() * self.spf() <= u64::MAX
                &&& self.queue.overflow + def.rows.len() <= u64::MAX
            },
            _ => self.queue.overflow < u64::MAX,
        }
    }

    /// Whether an event can be applied at once: what it counts can be counted.
    pub open spec fn applicable(self, event: AudioEvent) -> bool {
        match event {
            AudioEvent::PlaySfx { .. } => self.schedulable(event, self.now as u64),
            AudioEvent::PlayMusic { .. } => self.unknown_track < u64::MAX,
            AudioEvent::Panic => {
                &&& self.synth.counts((self.queue.items.len() + 1) as int)
                &&& self.unknown_track + self.queue.items.len() <= u64::MAX
            },
            _ => self.synth.counts(1),
        }
    }

    /// Whether no more was counted since `before` than events left the queue.
    pub open spec fn spent(self, before: EngineModel) -> bool {
        let n = before.queue.items.len() - self.queue.items.len();
        &&& n >= 0
        &&& self.synth.next_age <= before.synth.next_age + n
        &&& self.synth.stats.dropped <= before.synth.stats.dropped + n
        &&& self.unknown_track <= before.unknown_track + n
    }

    /// Whether the clock and the counters have room for one more piece of a
    /// block.
    pub open spec fn renderable(self, room: int) -> bool {
        &&& self.now + room <= u64::MAX
        &&& self.now + 255 * self.spf() <= u64::MAX
        &&& self.synth.counts(self.queue.items.len() + MAX_TRACK_CHANNELS)
        &&& self.unknown_track + self.queue.items.len() <= u64::MAX
    }
}

proof fn lemma_notes_before(def: SfxModel, k: int)
    requires
        0 <= k <= def.rows.len(),
    ensures
        super::bank::notes_before(def.rows, at_least_one(def.speed), k).len() <= k,
        forall|j: int|
            0 <= j < super::bank::notes_before(def.rows, at_least_one(def.speed), k).len()
                ==> def.frames() <= u32::MAX ==> (#[trigger] super::bank::notes_before(
                def.rows,
                at_least_one(def.speed),
                k,
            )[j]).0 <= def.frames(),
    decreases k,
{
    if k > 0 {
        lemma_notes_before(def, k - 1);
        let per = at_least_one(def.speed);
        assert(0 <= (k - 1) * per <= def.rows.len() * per) by (nonlinear_arith)
            requires
                0 <= k - 1 <= def.rows.len(),
                per >= 1,
        ;
    }
}

proof fn lemma_scheduled(queue: QueueModel, def: SfxModel, at: u64, spf: int, k: int)
    requires
        queue.wf(),
        0 <= k <= def.notes().len(),
    ensures
        scheduled(queue, def, at, spf, k).wf(),
        queue.overflow <= scheduled(queue, def, at, spf, k).overflow <= queue.overflow + k,
    decreases k,
{
    if k > 0 {
        lemma_scheduled(queue, def, at, spf, k - 1);
    }
}

impl AudioEngine {
    /// Schedule an event for `at_sample`.
    ///
    /// A timestamp already in the past is dispatched with the next piece
    /// rather than dropped: a host whose game ran late should sound late, not
    /// silent.
    pub fn submit(&mut self, event: AudioEvent, at_sample: u64)
        requires
            old(self).wf(),
            old(self)@.schedulable(event, at_sample),
        ensures
            final(self).wf(),
            final(self)@ == old(self)@.submitted(event, at_sample),
    {
        match event {
            // A sound effect is a static list of notes, so it expands the
            // moment it is triggered.
            AudioEvent::PlaySfx { id } => {
                if id as usize >= self.bank.sfx.len() {
                    self.unknown_sfx = self.unknown_sfx + 1;
                    return;
                }
                let spf: u64 = samples_per_frame(self.synth.sample_rate()) as u64;
                let ghost def = self@.bank.sfx[id as int];
                assert(def == self.bank.sfx@[id as int]@);
                let inst: u8 = self.bank.sfx[id as usize].inst;
                let vel: u8 = self.bank.sfx[id as usize].vel;
                let notes = self.bank.sfx[id as usize].notes();
                let ghost q = self.queue@;
                let mut k: usize = 0;
                proof {
                    lemma_notes_before(def, def.rows.len() as int);
                }
                while k < notes.len()
                    invariant
                        k <= notes@.len(),
                        notes@ == def.notes(),
                        notes@.len() <= def.rows.len(),
                        def.frames() <= u32::MAX,
                        forall|j: int|
                            0 <= j < notes@.len() ==> (#[trigger] notes@[j]).0 <= def.frames(),
                        inst == def.inst,
                        vel == def.vel,
                        q == old(self).queue@,
                        q.wf(),
                        at_sample + def.frames() * spf <= u64::MAX,
                        q.overflow + def.rows.len() <= u64::MAX,
                        self.queue@ == scheduled(q, def, at_sample, spf as int, k as int),
                        self.synth == old(self).synth,
                        self.bank == old(self).bank,
                        self.seq == old(self).seq,
                        self.row_notes == old(self).row_notes,
                        self.now == old(self).now,
                        self.unknown_sfx == old(self).unknown_sfx,
                        self.unknown_track == old(self).unknown_track,
                    decreases notes@.len() - k,
                {
                    let (offset, note, frames) = notes[k];
                    assert(notes@[k as int].0 <= def.frames());
                    proof {
                        lemma_scheduled(q, def, at_sample, spf as int, k as int);
                        assert(0 <= offset * spf <= def.frames() * spf) by (nonlinear_arith)
                            requires
                                0 <= offset <= def.frames(),
                                spf >= 0,
                        ;
                    }
                    self.queue.push(
                        AudioEvent::Play { inst, note, vel, frames },
                        at_sample + offset as u64 * spf,
                    );
                    k += 1;
                }
                proof {
                    lemma_scheduled(q, def, at_sample, spf as int, k as int);
                }
            },
            AudioEvent::Panic => {
                // Cancels the rest of any effect in flight, but nothing
                // already due.
                self.queue.clear_from(at_sample);
                self.seq.stop();
                self.queue.push(event, at_sample);
            },
            _ => {
                self.queue.push(event, at_sample);
            },
        }
    }

    /// Apply an event immediately, bypassing the queue, and say what the voices
    /// do. For a host with no clock of its own: a standalone instrument, or a
    /// test. Only the notes of a sound effect are scheduled, from now on, because
    /// they are not all played at once. A panic cancels what is scheduled for now
    /// or later; what is overdue is applied before it.
    pub fn handle(&mut self, event: AudioEvent) -> (r: Vec<VoiceCommand>)
        requires
            old(self).wf(),
            old(self)@.applicable(event),
        ensures
            final(self).wf(),
            (final(self)@, r@) == old(self)@.applied(event),
    {
        let now: u64 = self.now;
        let mut commands: Vec<VoiceCommand> = Vec::new();
        match event {
            AudioEvent::PlaySfx { .. } => {
                self.submit(event, now);
            },
            AudioEvent::Panic => {
                self.queue.clear_from(now);
                proof {
                    old(self)@.queue.items.lemma_filter_len(|p: Pending| p.at < now);
                }
                self.drain(&mut commands);
                self.dispatch(event, &mut commands);
            },
            _ => {
                self.dispatch(event, &mut commands);
            },
        }
        assert(commands@ =~= old(self)@.applied(event).1);
        commands
    }

    /// Apply every event that is due, in order.
    fn drain(&mut self, commands: &mut Vec<VoiceCommand>)
        requires
            old(self).wf(),
            old(self)@.synth.counts(old(self)@.queue.items.len() as int),
            old(self)@.unknown_track + old(self)@.queue.items.len() <= u64::MAX,
        ensures
            final(self).wf(),
            final(self)@ == old(self)@.drained().0,
            final(commands)@ == old(commands)@ + old(self)@.drained().1,
            final(self)@.now == old(self)@.now,
            final(self)@.synth.cfg == old(self)@.synth.cfg,
            final(self)@.spent(old(self)@),
    {
        let ghost given = commands@;
        let ghost all = old(self)@.drained();
        loop
            invariant_except_break
                self.wf(),
                self@.synth.counts(self@.queue.items.len() as int),
                self@.unknown_track + self@.queue.items.len() <= u64::MAX,
                self@.now == old(self)@.now,
                self@.synth.cfg == old(self)@.synth.cfg,
                self@.spent(old(self)@),
                given == old(commands)@,
                all == old(self)@.drained(),
                all.0 == self@.drained().0,
                given + all.1 == commands@ + self@.drained().1,
            ensures
                self.wf(),
                self@.now == old(self)@.now,
                self@.synth.cfg == old(self)@.synth.cfg,
                self@.spent(old(self)@),
                all.0 == self@,
                given + all.1 == commands@,
            decreases self@.queue.items.len(),
        {
            let ghost before = self@;
            let ghost done = commands@;
            let now: u64 = self.now;
            match self.queue.take_due(now) {
                Some(ev) => {
                    self.dispatch(ev, commands);
                    proof {
                        let items = before.queue.items;
                        let i = next_due(items, now);
                        let taken = EngineModel {
                            queue: QueueModel { items: items.remove(i), ..before.queue },
                            ..before
                        };
                        let (next, c) = taken.dispatched(ev);
                        assert(before.drained() == (next.drained().0, c + next.drained().1));
                        assert(done + (c + next.drained().1) =~= commands@ + next.drained().1);
                    }
                },
                None => {
                    assert(commands@ + Seq::<VoiceCommand>::empty() =~= commands@);
                    break;
                },
            }
        }
    }

    /// Apply an event that has come due.
    fn dispatch(&mut self, event: AudioEvent, commands: &mut Vec<VoiceCommand>)
        requires
            old(self).wf(),
            event is PlayMusic ==> old(self)@.unknown_track < u64::MAX,
            !(event is PlayMusic) ==> old(self)@.synth.counts(1),
        ensures
            final(self).wf(),
            final(self)@ == old(self)@.dispatched(event).0,
            final(commands)@ == old(commands)@ + old(self)@.dispatched(event).1,
    {
        match event {
            AudioEvent::PlayMusic { id } => {
                let spf: u64 = samples_per_frame(self.synth.sample_rate()) as u64;
                if id as usize >= self.bank.tracks.len() {
                    self.unknown_track = self.unknown_track + 1;
                    assert(commands@ =~= old(commands)@ + Seq::<VoiceCommand>::empty());
                    return;
                }
                // Replacing a track releases the one it replaces: two pieces of
                // music over each other is never what was meant.
                self.synth.release_music();
                let now: u64 = self.now;
                let def = &self.bank.tracks[id as usize];
                assert(def@ == old(self)@.bank.tracks[id as int]);
                assert(at_least_one(def.tempo) * spf <= 255 * spf) by (nonlinear_arith)
                    requires
                        1 <= at_least_one(def.tempo) <= 255,
                        spf >= 0,
                ;
                self.seq.start(id, def, now, spf);
                assert(commands@ =~= old(commands)@ + Seq::<VoiceCommand>::empty());
            },
            AudioEvent::StopMusic | AudioEvent::Panic => {
                self.seq.stop();
                let c = self.synth.handle(event);
                append_command(commands, c);
            },
            other => {
                let c = self.synth.handle(other);
                append_command(commands, c);
            },
        }
    }

    /// Start whatever the music has due at the current sample.
    fn advance_music(&mut self, commands: &mut Vec<VoiceCommand>)
        requires
            old(self).wf(),
            old(self)@.synth.counts(MAX_TRACK_CHANNELS as int),
            old(self)@.now + 255 * old(self)@.spf() <= u64::MAX,
        ensures
            final(self).wf(),
            final(self)@ == old(self)@.music_advanced().0,
            final(commands)@ == old(commands)@ + old(self)@.music_advanced().1,
    {
        assert(commands@ =~= old(commands)@ + Seq::<VoiceCommand>::empty());
        let id: u16 = match self.seq.playing() {
            Some(id) => id,
            None => {
                return;
            },
        };
        if id as usize >= self.bank.tracks.len() {
            self.seq.stop();
            return;
        }
        let now: u64 = self.now;
        let ghost p = self.seq@->0;
        let ghost notes = self@.bank.tracks[id as int].row_notes(p.row as int);
        let n: usize;
        {
            let def = &self.bank.tracks[id as usize];
            assert(def@ == old(self)@.bank.tracks[id as int]);
            n = self.seq.take_due(now, def, self.row_notes.as_mut_slice());
        }
        let mut i: usize = 0;
        let ghost due = now >= p.next_row_at;
        let ghost before = self.synth@;
        assert(due ==> forall|j: int| 0 <= j < n ==> self.row_notes@[j] == notes[j]);
        while i < n
            invariant
                i <= n <= MAX_TRACK_CHANNELS,
                self.row_notes@.len() == MAX_TRACK_CHANNELS,
                n > 0 ==> due,
                due ==> forall|j: int| 0 <= j < n ==> self.row_notes@[j] == notes[j],
                before == old(self)@.synth,
                before.wf(),
                before.counts(MAX_TRACK_CHANNELS as int),
                self.synth@.wf(),
                self.synth@.cfg == before.cfg,
                self.synth@.counts(MAX_TRACK_CHANNELS - i),
                self.synth@ == music_played(before, notes, i as int).0,
                commands@ == old(commands)@ + music_played(before, notes, i as int).1,
                self.bank == old(self).bank,
                self.queue == old(self).queue,
                self.now == old(self).now,
                self.unknown_sfx == old(self).unknown_sfx,
                self.unknown_track == old(self).unknown_track,
                self.seq.wf(),
                self.seq@ == (if due { p.advanced() } else { Some(p) }),
            decreases n - i,
        {
            let note = self.row_notes[i];
            let c = self.synth.play_note(
                note.inst,
                note.note,
                note.vel,
                note.frames,
                Priority::Music,
            );
            append_command(commands, c);
            i += 1;
            assert(commands@ =~= old(commands)@ + music_played(before, notes, i as int).1);
        }
    }

    /// The next piece of a block of at most `room` samples: everything that is
    /// due happens first, then the sound goes on until something else is.
    ///
    /// A block is cut at each pending timestamp, so an event lands on the
    /// sample it asked for regardless of the buffer size the device chose.
    pub fn segment(&mut self, room: usize) -> (r: Segment)
        requires
            old(self).wf(),
            room > 0,
            old(self)@.renderable(room as int),
        ensures
            final(self).wf(),
            (final(self)@, r.commands@, r.run as int) == old(self)@.segment(room as int),
            1 <= r.run <= room,
    {
        let mut commands: Vec<VoiceCommand> = Vec::new();
        self.drain(&mut commands);
        assert(commands@ =~= old(self)@.drained().1);
        let ghost mid = self@;
        let ghost first = commands@;
        self.advance_music(&mut commands);
        // Go on until whichever comes first: the next queued event, or the next
        // row of music.
        let event_at = self.queue.next_time();
        proof {
            lemma_next_time(self@.queue.items, event_at);
        }
        let row_at = self.seq.next_row_at();
        let until: Option<u64> = match (event_at, row_at) {
            (Some(a), Some(b)) => Some(if a <= b { a } else { b }),
            (Some(a), None) => Some(a),
            (None, b) => b,
        };
        let run: usize = match until {
            None => room,
            Some(t) => if t <= self.now {
                1
            } else if t - self.now < room as u64 {
                (t - self.now) as usize
            } else {
                room
            },
        };
        self.now = self.now + run as u64;
        Segment { commands, run }
    }
}

proof fn lemma_next_time(items: Seq<Pending>, t: Option<u64>)
    requires
        is_next_time(items, t),
    ensures
        t == next_time(items),
{
    if items.len() > 0 {
        assert(items[0].at <= u64::MAX);
        assert(some_due(items, u64::MAX));
        lemma_some_due(items, u64::MAX);
        let k = next_due(items, u64::MAX);
        let i = choose|i: int| 0 <= i < items.len() && (#[trigger] items[i]).at == t->0;
        assert(items[k].at <= items[i].at);
    }
}

/// Events that share a timestamp are dispatched in the order they were
/// submitted.
pub proof fn law_equal_times_keep_their_order(items: Seq<Pending>, now: u64, i: int, j: int)
    requires
        0 <= i < j < items.len(),
        items[i].at <= items[j].at,
        some_due(items, now),
    ensures
        next_due(items, now) != j,
        is_next_due(items, now, next_due(items, now)),
{
    lemma_some_due(items, now);
}

/// Where something is due, there is one event that is taken first.
pub proof fn lemma_one_is_due(items: Seq<Pending>, now: u64)
    requires
        some_due(items, now),
    ensures
        is_next_due(items, now, next_due(items, now)),
{
    lemma_some_due(items, now);
}

/// An event that alone is due is the one that is taken.
pub proof fn lemma_first_due(items: Seq<Pending>, now: u64, i: int)
    requires
        0 <= i < items.len(),
        items[i].at <= now,
        forall|j: int| 0 <= j < items.len() && j != i ==> (#[trigger] items[j]).at > now,
    ensures
        next_due(items, now) == i,
{
    assert(is_next_due(items, now, i));
    lemma_next_due(items, now, i);
}

/// A panic cancels what is scheduled at its time or later, and nothing that is
/// earlier; and it stops the music.
pub proof fn law_panic_cancels_the_future_only(m: EngineModel, at: u64, p: Pending)
    requires
        m.queue.items.contains(p),
        m.queue.wf(),
    ensures
        ({
            let after = m.submitted(AudioEvent::Panic, at);
            &&& after.music is None
            &&& p.at < at ==> after.queue.items.contains(p)
            &&& p.at >= at && p.event != AudioEvent::Panic ==> !after.queue.items.contains(p)
        }),
{
    let keep = |p: Pending| p.at < at;
    let kept = earlier(m.queue.items, at);
    let after = m.submitted(AudioEvent::Panic, at).queue.items;
    if p.at < at {
        let i = choose|i: int| 0 <= i < m.queue.items.len() && m.queue.items[i] == p;
        m.queue.items.lemma_filter_contains(keep, i);
        assert(kept.contains(p));
        let k = choose|k: int| 0 <= k < kept.len() && kept[k] == p;
        assert(after[k] == p);
    } else if p.event != AudioEvent::Panic && after.contains(p) {
        let k = choose|k: int| 0 <= k < after.len() && after[k] == p;
        if k < kept.len() {
            m.queue.items.lemma_filter_pred(keep, k);
        }
    }
}

/// A panic that is applied at once leaves nothing: nothing is scheduled, no
/// music plays, and no voice sounds. What was overdue is not lost: it happens
/// before the voices are silenced.
pub proof fn law_a_panic_at_once_leaves_nothing(m: EngineModel)
    ensures
        ({
            let (after, commands) = m.applied(AudioEvent::Panic);
            let late = EngineModel {
                queue: m.queue.cleared_from(m.now as u64),
                ..m
            };
            &&& after.queue.items.len() == 0
            &&& after.music is None
            &&& sounding(after.synth.voices) == 0
            &&& commands == late.drained().1.push(VoiceCommand::Clear)
            &&& after.synth.stats == late.drained().0.synth.stats
        }),
{
    let late = EngineModel { queue: m.queue.cleared_from(m.now as u64), ..m };
    let keep = |p: Pending| p.at < m.now as u64;
    assert forall|i: int| 0 <= i < late.queue.items.len() implies (
    #[trigger] late.queue.items[i]).at <= m.now as u64 by {
        m.queue.items.lemma_filter_pred(keep, i);
    }
    lemma_all_due(late);
    let (drained, first) = late.drained();
    law_notes_sound_on_voices(drained.synth.voices);
    let (after, second) = drained.dispatched(AudioEvent::Panic);
    assert(second =~= seq![VoiceCommand::Clear]);
    assert(first + second =~= first.push(VoiceCommand::Clear));
}

/// Where everything is due, nothing is left.
proof fn lemma_all_due(m: EngineModel)
    requires
        forall|i: int|
            0 <= i < m.queue.items.len() ==> (#[trigger] m.queue.items[i]).at <= m.now as u64,
    ensures
        m.drained().0.queue.items.len() == 0,
    decreases m.queue.items.len(),
{
    let items = m.queue.items;
    let now = m.now as u64;
    if some_due(items, now) {
        lemma_some_due(items, now);
        let i = next_due(items, now);
        let taken = EngineModel {
            queue: QueueModel { items: items.remove(i), ..m.queue },
            ..m
        };
        lemma_dispatched(taken, items[i].event);
        let next = taken.dispatched(items[i].event).0;
        assert forall|k: int| 0 <= k < next.queue.items.len() implies (
        #[trigger] next.queue.items[k]).at <= next.now as u64 by {
            if k < i {
                assert(next.queue.items[k] == items[k]);
            } else {
                assert(next.queue.items[k] == items[k + 1]);
            }
        }
        lemma_all_due(next);
    } else if items.len() > 0 {
        assert(items[0].at <= now);
    }
}

proof fn lemma_dispatched(m: EngineModel, event: AudioEvent)
    ensures
        m.dispatched(event).0.queue == m.queue,
        m.dispatched(event).0.bank == m.bank,
        m.dispatched(event).0.now == m.now,
        m.dispatched(event).0.synth.cfg == m.synth.cfg,
{
}

/// Once a piece starts, nothing that was due is left: an event whose time has
/// passed is played late rather than dropped.
pub proof fn law_nothing_due_is_left(m: EngineModel)
    ensures
        !some_due(m.drained().0.queue.items, m.now as u64),
        m.drained().0.now == m.now,
        m.drained().0.bank == m.bank,
    decreases m.queue.items.len(),
{
    let items = m.queue.items;
    let now = m.now as u64;
    if some_due(items, now) {
        lemma_some_due(items, now);
        let i = next_due(items, now);
        let taken = EngineModel {
            queue: QueueModel { items: items.remove(i), ..m.queue },
            ..m
        };
        lemma_dispatched(taken, items[i].event);
        law_nothing_due_is_left(taken.dispatched(items[i].event).0);
    }
}

/// Nothing happens where nothing is due.
pub proof fn lemma_quiet(m: EngineModel)
    requires
        m.until() matches Some(t) ==> t > m.now,
        m.music matches Some(p) ==> p.track < m.bank.tracks.len(),
        m.now <= u64::MAX,
    ensures
        m.drained() == (m, Seq::<VoiceCommand>::empty()),
        m.music_advanced() == (m, Seq::<VoiceCommand>::empty()),
{
    let items = m.queue.items;
    if some_due(items, m.now as u64) {
        let i = choose|i: int| 0 <= i < items.len() && (#[trigger] items[i]).at <= m.now;
        assert(some_due(items, u64::MAX));
        lemma_some_due(items, u64::MAX);
        assert(items[next_due(items, u64::MAX)].at <= items[i].at);
    }
}

/// A piece is at least a sample long and fits, and the clock moves on by it.
pub proof fn lemma_segment(m: EngineModel, room: int)
    requires
        room > 0,
    ensures
        0 < m.segment(room).2 <= room,
        m.segment(room).0.now == m.now + m.segment(room).2,
{
    law_nothing_due_is_left(m);
}

/// Before the samples of a piece are over, nothing is due.
pub proof fn lemma_cut(m: EngineModel, a: int, b: int)
    requires
        a > 0,
        b > 0,
        m.now + a + b <= u64::MAX,
    ensures
        ({
            let (whole, commands, n) = m.segment(a + b);
            let (cut, first, k) = m.segment(a);
            &&& first == commands
            &&& 0 < n <= a + b
            &&& n <= a ==> cut == whole && k == n
            &&& n > a ==> {
                &&& k == a
                &&& cut.now == m.now + a
                &&& whole == (EngineModel { now: (m.now + n) as nat, ..cut })
                &&& cut.run(b) == n - a
                &&& cut.until() matches Some(t) ==> t > cut.now
                &&& cut.music matches Some(p) ==> p.track < cut.bank.tracks.len()
            }
        }),
{
    law_nothing_due_is_left(m);
    let (x, first) = m.drained();
    let (y, second) = x.music_advanced();
    let n = y.run(a + b);
    assert(y.now == m.now);
    assert(y.queue == x.queue);
    let items = y.queue.items;
    if items.len() > 0 {
        assert(items[0].at <= u64::MAX);
        assert(some_due(items, u64::MAX));
        lemma_some_due(items, u64::MAX);
        let e = next_due(items, u64::MAX);
        assert(items[e].at > m.now) by {
            if items[e].at <= m.now as u64 {
                assert(some_due(items, m.now as u64));
            }
        }
    }
    if n > a {
        let cut = m.segment(a).0;
        assert(cut == (EngineModel { now: (m.now + a) as nat, ..y }));
        assert(cut.until() == y.until());
    }
}

/// The block size a device chooses does not move events. Cut a block of
/// `a + b` samples in two, and either the first piece is the same, or it is the
/// same up to the cut and the second goes on from there with nothing new.
pub proof fn law_the_block_size_does_not_move_events(m: EngineModel, a: int, b: int)
    requires
        a > 0,
        b > 0,
        m.now + a + b <= u64::MAX,
    ensures
        ({
            let (whole, commands, n) = m.segment(a + b);
            let (cut, first, k) = m.segment(a);
            &&& first == commands
            &&& n <= a ==> cut == whole && k == n
            &&& n > a ==> k == a && cut.segment(b) == (whole, Seq::<VoiceCommand>::empty(), n - a)
        }),
{
    lemma_cut(m, a, b);
    let (whole, commands, n) = m.segment(a + b);
    if n > a {
        let cut = m.segment(a).0;
        lemma_quiet(cut);
        assert(cut.segment(b).0 == whole);
        assert(Seq::<VoiceCommand>::empty() + Seq::<VoiceCommand>::empty() =~= Seq::<
            VoiceCommand,
        >::empty());
    }
}

/// Stopping the music leaves every voice of a sound effect as it was.
pub proof fn law_stopping_the_music_leaves_effects_alone(m: EngineModel, i: int)
    requires
        0 <= i < m.synth.voices.len(),
        m.synth.voices[i].priority == Priority::Sfx,
    ensures
        m.dispatched(AudioEvent::StopMusic).0.synth.voices[i] == m.synth.voices[i],
        m.dispatched(AudioEvent::StopMusic).0.music is None,
{
}

/// A bank that keeps to its limits can be played.
pub proof fn law_a_parsed_bank_is_countable(bank: BankModel)
    requires
        super::grammar::bank_wf(bank),
    ensures
        countable_bank(bank),
{
    assert forall|k: int| 0 <= k < bank.sfx.len() implies (#[trigger] bank.sfx[k]).frames()
        <= u32::MAX by {
        let s = bank.sfx[k];
        assert(super::grammar::sfx_wf(s));
        assert(s.rows.len() * at_least_one(s.speed) <= 128 * 255) by (nonlinear_arith)
            requires
                0 <= s.rows.len() <= 128,
                1 <= at_least_one(s.speed) <= 255,
        ;
    }
}

} // verus!
