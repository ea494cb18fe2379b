//! What the player does with a bank: which notes an effect and a track play,
//! when, on what, and what becomes of the voices.

use super::bank::{
    at_least_one, hold_run, lemma_hold_run, note_frames, notes_before, ChannelModel, Row, SfxModel,
    TrackModel,
};
use super::engine::{
    music_played, next_due, next_time, scheduled, some_due, EngineModel, Pending,
    QueueModel,
};
use super::event::AudioEvent;
use super::sequencer::{longest, started, Playing, SeqNote};
use super::synth::{
    channel_released, picked, sounding, SynthModel, SynthStats, VoiceCommand, MAX_VOICES,
};
use super::voice::{is_picked, lemma_some_voice_is_picked, xorshift, Priority, Stage, Voice};
use vstd::prelude::*;

verus! {

/// Whether a voice is in the course of a note: struck, falling to its level, or
/// held there.
pub open spec fn is_held(v: Voice) -> bool {
    v.stage == Stage::Attack || v.stage == Stage::Decay || v.stage == Stage::Sustain
}

/// A released note fades from where it is, and is held no longer; a voice that
/// rests or fades already is left alone. Nothing else of the voice changes.
pub proof fn law_a_released_note_fades(v: Voice)
    ensures
        is_held(v) ==> v.released().stage == Stage::Release && v.released().hold is None,
        !is_held(v) ==> v.released() == v,
        v.released().chan == v.chan,
        v.released().priority == v.priority,
        v.released().age == v.age,
        v.released().level == v.level,
{
}

/// A voice that is stopped rests at once, on no channel and held for nothing.
pub proof fn law_a_stopped_voice_rests(v: Voice)
    ensures
        v.killed().stage == Stage::Idle,
        v.killed().level == 0,
        v.killed().chan is None,
        v.killed().hold is None,
        v.killed().priority == v.priority,
        v.killed().age == v.age,
{
}

/// A voice after `k` samples are counted off its hold.
pub open spec fn counted(v: Voice, k: nat) -> Voice
    decreases k,
{
    if k == 0 {
        v
    } else {
        counted(v, (k - 1) as nat).counted_down()
    }
}

/// A note that is held for a number of samples keeps its stage for exactly so
/// many, and fades with the next one.
pub proof fn law_a_note_is_held_for_its_length(v: Voice, n: u32, k: nat)
    requires
        is_held(v),
        v.hold == Some(n),
    ensures
        k <= n ==> counted(v, k) == (Voice { hold: Some((n - k) as u32), ..v }),
        k > n ==> counted(v, k) == (Voice { stage: Stage::Release, hold: None, ..v }),
    decreases k,
{
    if k > 0 {
        law_a_note_is_held_for_its_length(v, n, (k - 1) as nat);
    }
}

/// A note that nobody gave a length is held until it is released.
pub proof fn law_a_note_without_a_length_is_held(v: Voice, k: nat)
    requires
        v.hold is None,
    ensures
        counted(v, k) == v,
    decreases k,
{
    if k > 0 {
        law_a_note_without_a_length_is_held(v, (k - 1) as nat);
    }
}

/// The envelope goes from the strike through the fall to the held level, which
/// only a release ends, and from the release to rest. A patch that holds no
/// level rests after the fall. Until a stage is done, nothing changes.
pub proof fn law_the_envelope_goes_forward(v: Voice, silent: bool)
    ensures
        v.stepped(false, silent) == v,
        v.stage == Stage::Attack ==> v.stepped(true, silent).stage == Stage::Decay,
        v.stage == Stage::Decay ==> v.stepped(true, false).stage == Stage::Sustain,
        v.stage == Stage::Decay ==> v.stepped(true, true).stage == Stage::Idle,
        v.stage == Stage::Sustain ==> v.stepped(true, silent) == v,
        v.stage == Stage::Release ==> v.stepped(true, silent) == v.killed(),
        v.stage == Stage::Idle ==> v.stepped(true, silent) == v,
        v.stage != Stage::Release ==> {
            let w = v.stepped(true, silent);
            w.hold == v.hold && w.chan == v.chan && w.priority == v.priority && w.age == v.age
                && w.level == v.level
        },
{
}

/// A fading voice is never one that still counts a hold, whatever is done to it.
pub proof fn law_a_fading_voice_counts_no_hold(v: Voice, done: bool, silent: bool)
    requires
        v.stage == Stage::Release ==> v.hold is None,
    ensures
        v.released().stage == Stage::Release ==> v.released().hold is None,
        v.counted_down().stage == Stage::Release ==> v.counted_down().hold is None,
        v.stepped(done, silent).stage == Stage::Release ==> v.stepped(done, silent).hold is None,
{
}

/// Where every voice holds a note, one of the music gives way before one of an
/// effect; of those of one kind the quietest, and of those as quiet the oldest.
pub proof fn law_the_quietest_then_the_oldest_gives_way(voices: Seq<Voice>, i: int, j: int)
    requires
        is_picked(voices, i),
        0 <= j < voices.len(),
        is_held(voices[i]),
    ensures
        is_held(voices[j]),
        voices[j].priority == Priority::Music ==> voices[i].priority == Priority::Music,
        voices[i].priority == voices[j].priority ==> voices[i].level <= voices[j].level,
        voices[i].priority == voices[j].priority && voices[i].level == voices[j].level
            ==> voices[i].age <= voices[j].age,
{
    assert(!voices[j].gives_way_to(voices[i]));
}

/// A note that is played for a number of frames is struck from silence on the
/// voice that gives way, on no channel, and held for that many frames of
/// samples. The command that starts it names its instrument, its pitch and its
/// velocity. It is counted, and so is a note it was taken from.
pub proof fn law_a_played_note_sounds_as_asked(
    s: SynthModel,
    inst: u8,
    note: u8,
    vel: u8,
    frames: u16,
    priority: Priority,
)
    requires
        s.wf(),
        s.counts(1),
        inst < s.instruments.len(),
    ensures
        ({
            let (after, command) = s.played(inst, note, vel, frames, priority);
            &&& command matches Some(VoiceCommand::Start { voice, inst: i, note: n, vel: v }) && {
                &&& i == inst && n == note && v == vel
                &&& voice < MAX_VOICES
                &&& after.voices[voice as int].stage == Stage::Attack
                &&& after.voices[voice as int].hold == Some(
                    (frames * (s.cfg.sample_rate / 60)) as u32,
                )
                &&& after.voices[voice as int].chan is None
                &&& after.voices[voice as int].priority == priority
                &&& after.voices[voice as int].level == 0
                &&& after.voices[voice as int].age == s.next_age
                &&& after.stats.stolen == s.stats.stolen + (if s.voices[voice as int].stage
                    == Stage::Idle {
                    0int
                } else {
                    1
                })
                &&& after.voices == s.voices.update(voice as int, after.voices[voice as int])
            }
            &&& after.next_age == s.next_age + 1
            &&& after.stats.started == s.stats.started + 1
            &&& after.stats.dropped == s.stats.dropped
            &&& after.cfg == s.cfg
            &&& after.instruments == s.instruments
        }),
{
    lemma_some_voice_is_picked(s.voices);
}

/// A note on an instrument that there is none of is dropped and counted, and
/// does nothing else.
pub proof fn law_a_note_without_an_instrument_is_dropped(s: SynthModel, ev: AudioEvent)
    requires
        s.counts(1),
        ev matches AudioEvent::Play { inst, .. } && inst >= s.instruments.len(),
    ensures
        s.handled(ev).1 is None,
        s.handled(ev).0 == (SynthModel {
            stats: SynthStats { dropped: (s.stats.dropped + 1) as u64, ..s.stats },
            ..s
        }),
{
}

/// A note that an event plays is an effect's: music gives way to it.
pub proof fn law_a_played_event_is_an_effects(
    s: SynthModel,
    inst: u8,
    note: u8,
    vel: u8,
    frames: u16,
)
    ensures
        s.handled(AudioEvent::Play { inst, note, vel, frames }) == s.played(
            inst,
            note,
            vel,
            frames,
            Priority::Sfx,
        ),
{
}

/// A note turned on is struck on its channel and held until it is turned off:
/// whatever was on the channel before fades, and a voice on another channel or
/// on none is as it was, unless it is the one that gave way.
pub proof fn law_a_note_on_a_channel_is_held(
    s: SynthModel,
    chan: u8,
    inst: u8,
    note: u8,
    vel: u8,
    i: int,
)
    requires
        s.wf(),
        s.counts(1),
        inst < s.instruments.len(),
        0 <= i < s.voices.len(),
    ensures
        ({
            let (after, command) = s.handled(AudioEvent::NoteOn { chan, inst, note, vel });
            &&& command matches Some(VoiceCommand::Start { voice, inst: c, note: n, vel: v }) && {
                &&& c == inst && n == note && v == vel
                &&& voice < MAX_VOICES
                &&& after.voices[voice as int].stage == Stage::Attack
                &&& after.voices[voice as int].hold is None
                &&& after.voices[voice as int].chan == Some(chan)
                &&& after.voices[voice as int].priority == Priority::Sfx
                &&& after.voices[voice as int].level == 0
                &&& after.voices[voice as int].age == s.next_age
                &&& i != voice && s.voices[i].chan == Some(chan) ==> {
                    &&& !is_held(after.voices[i])
                    &&& after.voices[i].chan is None
                }
                &&& i != voice && s.voices[i].chan != Some(chan) ==> after.voices[i] == s.voices[i]
            }
            &&& after.next_age == s.next_age + 1
            &&& after.stats.started == s.stats.started + 1
            &&& after.stats.dropped == s.stats.dropped
        }),
{
    let released = channel_released(s.voices, chan);
    lemma_some_voice_is_picked(released);
    assert(is_picked(released, picked(released)));
}

/// A channel that is turned off has its note fade, and nothing else changes: no
/// other voice, and nothing that is counted.
pub proof fn law_turning_a_channel_off_fades_its_note(s: SynthModel, chan: u8, i: int)
    requires
        0 <= i < s.voices.len(),
    ensures
        ({
            let (after, command) = s.handled(AudioEvent::NoteOff { chan });
            &&& command is None
            &&& after.voices.len() == s.voices.len()
            &&& s.voices[i].chan == Some(chan) ==> {
                &&& is_held(s.voices[i]) ==> after.voices[i].stage == Stage::Release
                    && after.voices[i].hold is None
                &&& !is_held(s.voices[i]) ==> after.voices[i].stage == s.voices[i].stage
                &&& after.voices[i].chan is None
                &&& after.voices[i].level == s.voices[i].level
            }
            &&& s.voices[i].chan != Some(chan) ==> after.voices[i] == s.voices[i]
            &&& after.stats == s.stats && after.next_age == s.next_age
        }),
{
}

/// A panic stops every voice at once, and says so.
pub proof fn law_a_panic_stops_every_voice(s: SynthModel, i: int)
    requires
        0 <= i < s.voices.len(),
    ensures
        ({
            let (after, command) = s.handled(AudioEvent::Panic);
            &&& command == Some(VoiceCommand::Clear)
            &&& after.voices.len() == s.voices.len()
            &&& after.voices[i].stage == Stage::Idle
            &&& after.voices[i].hold is None
            &&& after.voices[i].chan is None
            &&& after.stats == s.stats
        }),
{
}

/// Where the music stops, no voice of the music holds a note any longer: each
/// fades, and counts down no hold. An effect's voice is as it was.
pub proof fn law_stopped_music_fades(m: EngineModel, i: int)
    requires
        0 <= i < m.synth.voices.len(),
    ensures
        ({
            let before = m.synth.voices[i];
            let (after, commands) = m.dispatched(AudioEvent::StopMusic);
            let v = after.synth.voices[i];
            &&& commands.len() == 0
            &&& after.music is None
            &&& before.priority == Priority::Music ==> {
                &&& !is_held(v)
                &&& is_held(before) ==> v.stage == Stage::Release && v.hold is None
                &&& !is_held(before) ==> v == before
                &&& v.priority == Priority::Music && v.level == before.level && v.age == before.age
            }
            &&& before.priority == Priority::Sfx ==> v == before
            &&& after.synth.voices.len() == m.synth.voices.len()
            &&& after.synth.stats == m.synth.stats
            &&& after.queue == m.queue
        }),
{
}

/// Music that replaces other music has the other fade: no voice of it holds a
/// note any longer, and an effect's voice is as it was. The new track starts at
/// its first row, now. A track that there is none of replaces nothing.
pub proof fn law_new_music_replaces_the_old(m: EngineModel, id: u16, i: int)
    requires
        0 <= i < m.synth.voices.len(),
    ensures
        id < m.bank.tracks.len() ==> {
            let before = m.synth.voices[i];
            let (after, commands) = m.dispatched(AudioEvent::PlayMusic { id });
            let v = after.synth.voices[i];
            let track = m.bank.tracks[id as int];
            &&& commands.len() == 0
            &&& before.priority == Priority::Music ==> {
                &&& !is_held(v)
                &&& is_held(before) ==> v.stage == Stage::Release && v.hold is None
                &&& !is_held(before) ==> v == before
            }
            &&& before.priority == Priority::Sfx ==> v == before
            &&& track.rows() > 0 ==> (after.music matches Some(p) && {
                &&& p.track == id
                &&& p.row == 0
                &&& p.next_row_at == m.now as u64
                &&& p.row_samples == (if track.tempo == 0 {
                    1
                } else {
                    track.tempo as int
                }) * (m.synth.cfg.sample_rate as int / 60)
                &&& p.looping == track.looping
                &&& p.rows == track.rows()
            })
            &&& track.rows() == 0 ==> after.music is None
            &&& after.unknown_track == m.unknown_track
            &&& after.queue == m.queue
        },
        id >= m.bank.tracks.len() ==> m.dispatched(AudioEvent::PlayMusic { id }) == (
            EngineModel { unknown_track: m.unknown_track + 1, ..m },
            Seq::<VoiceCommand>::empty(),
        ),
{
}

/// Whether the note on row `i` lasts `len` rows: its own and the holds after it,
/// up to a row that is none or to the end.
pub open spec fn lasts(rows: Seq<Row>, i: int, len: int) -> bool {
    &&& 0 <= i
    &&& 1 <= len
    &&& i + len <= rows.len()
    &&& rows[i] is Note
    &&& forall|j: int| i < j < i + len ==> #[trigger] rows[j] == Row::Hold
    &&& i + len < rows.len() ==> rows[i + len] != Row::Hold
}

/// A number of frames, as far as 16 bits count.
pub open spec fn capped(n: int) -> int {
    if n > 65535 {
        65535
    } else {
        n
    }
}

proof fn lemma_lasts(rows: Seq<Row>, i: int, len: int)
    requires
        lasts(rows, i, len),
    ensures
        1 + hold_run(rows, i + 1) == len,
{
    lemma_hold_run(rows, i + 1);
    let h = hold_run(rows, i + 1);
    if 1 + h < len {
        assert(rows[i + 1 + h] == Row::Hold);
    }
    if len < 1 + h {
        assert(rows[i + len] == Row::Hold);
    }
}

/// Every note written in an effect is played: from the frame its row starts on,
/// at its pitch, and for as long as it is held. A row is as many frames as the
/// effect's speed, and at least one.
pub proof fn law_each_written_note_is_played(s: SfxModel, i: int, len: int)
    requires
        s.frames() <= u32::MAX,
        lasts(s.rows, i, len),
    ensures
        ({
            let per: int = if s.speed == 0 {
                1
            } else {
                s.speed as int
            };
            s.notes().contains(
                ((i * per) as u32, s.rows[i]->Note_0, capped(len * per) as u16),
            )
        }),
{
    lemma_lasts(s.rows, i, len);
    lemma_note_at(s.rows, at_least_one(s.speed), i, s.rows.len() as int);
}

proof fn lemma_note_at(rows: Seq<Row>, per: int, i: int, n: int)
    requires
        0 <= i < n <= rows.len(),
        rows[i] is Note,
    ensures
        notes_before(rows, per, n).contains(
            ((i * per) as u32, rows[i]->Note_0, note_frames(rows, i, per) as u16),
        ),
    decreases n,
{
    let it = ((i * per) as u32, rows[i]->Note_0, note_frames(rows, i, per) as u16);
    let all = notes_before(rows, per, n);
    if i == n - 1 {
        assert(all.last() == it);
    } else {
        lemma_note_at(rows, per, i, n - 1);
        let before = notes_before(rows, per, n - 1);
        let k = choose|k: int| 0 <= k < before.len() && before[k] == it;
        assert(all[k] == it);
    }
}

/// Nothing is played but what is written: each note of an effect starts with a
/// row that says it, and the notes come in the order of their rows.
pub proof fn law_nothing_is_played_unwritten(s: SfxModel, k: int)
    requires
        s.frames() <= u32::MAX,
        0 <= k < s.notes().len(),
    ensures
        ({
            let per: int = if s.speed == 0 {
                1
            } else {
                s.speed as int
            };
            &&& exists|i: int|
                0 <= i < s.rows.len() && #[trigger] s.rows[i] == Row::Note(s.notes()[k].1)
                    && s.notes()[k].0 == i * per
            &&& k + 1 < s.notes().len() ==> s.notes()[k].0 < s.notes()[k + 1].0
        }),
{
    let per = at_least_one(s.speed);
    lemma_written(s.rows, per, s.rows.len() as int);
}

proof fn lemma_written(rows: Seq<Row>, per: int, n: int)
    requires
        0 <= n <= rows.len(),
        per >= 1,
        rows.len() * per <= u32::MAX,
    ensures
        ({
            let notes = notes_before(rows, per, n);
            &&& forall|k: int|
                0 <= k < notes.len() ==> {
                    &&& exists|i: int|
                        0 <= i < n && #[trigger] rows[i] == Row::Note((#[trigger] notes[k]).1)
                            && notes[k].0 == i * per
                    &&& notes[k].0 < n * per
                }
            &&& forall|j: int, k: int|
                0 <= j < k < notes.len() ==> (#[trigger] notes[j]).0 < (#[trigger] notes[k]).0
        }),
    decreases n,
{
    if n > 0 {
        lemma_written(rows, per, n - 1);
        let before = notes_before(rows, per, n - 1);
        let notes = notes_before(rows, per, n);
        assert(0 <= (n - 1) * per < n * per <= rows.len() * per) by (nonlinear_arith)
            requires
                1 <= n <= rows.len(),
                per >= 1,
        ;
        assert forall|k: int| 0 <= k < notes.len() implies {
            &&& exists|i: int|
                0 <= i < n && #[trigger] rows[i] == Row::Note((#[trigger] notes[k]).1)
                    && notes[k].0 == i * per
            &&& notes[k].0 < n * per
        } by {
            if k < before.len() {
                assert(notes[k] == before[k]);
                let i = choose|i: int|
                    0 <= i < n - 1 && #[trigger] rows[i] == Row::Note(before[k].1) && before[k].0
                        == i * per;
                assert(rows[i] == Row::Note(notes[k].1));
            } else {
                assert(rows[n - 1] == Row::Note(notes[k].1));
            }
        }
    }
}

/// A track is as long as its longest line.
pub proof fn law_a_track_is_as_long_as_its_longest_line(t: TrackModel, k: int)
    requires
        0 <= k < t.channels.len(),
    ensures
        t.channels[k].rows.len() <= t.rows(),
        exists|j: int|
            0 <= j < t.channels.len() && #[trigger] t.channels[j].rows.len() == t.rows(),
{
    lemma_longest(t.channels, t.channels.len() as int);
}

proof fn lemma_longest(channels: Seq<ChannelModel>, n: int)
    requires
        0 <= n <= channels.len(),
    ensures
        forall|k: int| 0 <= k < n ==> (#[trigger] channels[k]).rows.len() <= longest(channels, n),
        n > 0 ==> exists|j: int|
            0 <= j < n && #[trigger] channels[j].rows.len() == longest(channels, n),
    decreases n,
{
    if n > 0 {
        lemma_longest(channels, n - 1);
        if n - 1 > 0 && channels[n - 1].rows.len() <= longest(channels, n - 1) {
            let j = choose|j: int|
                0 <= j < n - 1 && #[trigger] channels[j].rows.len() == longest(channels, n - 1);
            assert(channels[j].rows.len() == longest(channels, n));
        } else {
            assert(channels[n - 1].rows.len() == longest(channels, n));
        }
    }
}

/// What a row of a track starts, line by line: the notes of the lines so far,
/// and then that of the next one, if it has a note there. It is played on the
/// line's instrument, at the track's velocity, and for as long as it is held; a
/// row is as many frames as the track's tempo, and at least one.
pub proof fn law_a_row_starts_the_note_of_each_line(
    t: TrackModel,
    line: ChannelModel,
    row: int,
    len: int,
)
    ensures
        ({
            let longer = TrackModel { channels: t.channels.push(line), ..t };
            let per: int = if t.tempo == 0 {
                1
            } else {
                t.tempo as int
            };
            &&& t.channels.len() == 0 ==> t.row_notes(row).len() == 0
            &&& lasts(line.rows, row, len) ==> longer.row_notes(row) == t.row_notes(row).push(
                SeqNote {
                    inst: line.inst,
                    note: line.rows[row]->Note_0,
                    vel: t.vel,
                    frames: capped(len * per) as u16,
                },
            )
            &&& row < 0 || row >= line.rows.len() || !(line.rows[row] is Note) ==> longer.row_notes(
                row,
            ) == t.row_notes(row)
        }),
{
    let longer = TrackModel { channels: t.channels.push(line), ..t };
    let n = t.channels.len() as int;
    lemma_same_lines(t, longer, row, n);
    assert(longer.channels[n] == line);
    if lasts(line.rows, row, len) {
        lemma_lasts(line.rows, row, len);
    }
}

proof fn lemma_same_lines(a: TrackModel, b: TrackModel, row: int, k: int)
    requires
        0 <= k <= a.channels.len() <= b.channels.len(),
        a.vel == b.vel,
        a.tempo == b.tempo,
        forall|i: int| 0 <= i < a.channels.len() ==> a.channels[i] == #[trigger] b.channels[i],
    ensures
        a.starting(row, k) == b.starting(row, k),
    decreases k,
{
    if k > 0 {
        lemma_same_lines(a, b, row, k - 1);
        assert(a.channels[k - 1] == b.channels[k - 1]);
    }
}

/// A track that starts is played from its first row, each row for as many frames
/// as its tempo, and over again only where it says so.
pub proof fn law_a_track_is_played_as_written(
    id: u16,
    def: TrackModel,
    now: u64,
    samples_per_frame: u64,
)
    ensures
        started(id, def, now, samples_per_frame) matches Some(p) ==> {
            &&& p.track == id
            &&& p.row == 0
            &&& p.rows == def.rows()
            &&& p.looping == def.looping
            &&& p.row_samples == (if def.tempo == 0 {
                1
            } else {
                def.tempo as int
            }) * samples_per_frame
            &&& p.next_row_at == now
        },
{
}

/// An effect that there is room for is scheduled note by note: each of its notes
/// becomes one event behind those that were there, on the effect's instrument,
/// at its velocity, with the note's pitch and length, due when the note starts.
/// Nothing else changes: nothing sounds yet, and nothing is lost.
pub proof fn law_an_effect_is_scheduled_note_by_note(m: EngineModel, id: u16, at: u64, k: int)
    requires
        id < m.bank.sfx.len(),
        m.bank.sfx[id as int].frames() <= u32::MAX,
        m.queue.items.len() + m.bank.sfx[id as int].notes().len() <= 256,
        at + m.bank.sfx[id as int].frames() * (m.synth.cfg.sample_rate as int / 60) <= u64::MAX,
        0 <= k < m.bank.sfx[id as int].notes().len(),
    ensures
        ({
            let def = m.bank.sfx[id as int];
            let (offset, note, frames) = def.notes()[k];
            let after = m.submitted(AudioEvent::PlaySfx { id }, at);
            let n = m.queue.items.len();
            &&& after.queue.items.len() == n + def.notes().len()
            &&& after.queue.items.take(n as int) == m.queue.items
            &&& after.queue.items[n + k].at == at + offset * (m.synth.cfg.sample_rate as int / 60)
            &&& after.queue.items[n + k].event == (AudioEvent::Play {
                inst: def.inst,
                note,
                vel: def.vel,
                frames,
            })
            &&& after.queue.overflow == m.queue.overflow
            &&& after == (EngineModel { queue: after.queue, ..m })
        }),
{
    let def = m.bank.sfx[id as int];
    lemma_scheduled(m.queue, def, at, m.spf(), def.notes().len() as int);
    super::laws::law_notes_never_overlap(def, k);
    let offset = def.notes()[k].0 as int;
    assert(0 <= offset * m.spf() <= def.frames() * m.spf()) by (nonlinear_arith)
        requires
            0 <= offset <= def.frames(),
            0 <= m.spf(),
    ;
}

proof fn lemma_scheduled(q: QueueModel, def: SfxModel, at: u64, spf: int, n: int)
    requires
        0 <= n <= def.notes().len(),
        q.items.len() + n <= 256,
    ensures
        ({
            let after = scheduled(q, def, at, spf, n);
            &&& after.items.len() == q.items.len() + n
            &&& after.items.take(q.items.len() as int) == q.items
            &&& after.overflow == q.overflow
            &&& forall|k: int|
                q.items.len() <= k < q.items.len() + n ==> #[trigger] after.items[k] == (Pending {
                    at: (at + def.notes()[k - q.items.len()].0 * spf) as u64,
                    event: AudioEvent::Play {
                        inst: def.inst,
                        note: def.notes()[k - q.items.len()].1,
                        vel: def.vel,
                        frames: def.notes()[k - q.items.len()].2,
                    },
                })
        }),
    decreases n,
{
    if n > 0 {
        lemma_scheduled(q, def, at, spf, n - 1);
        let before = scheduled(q, def, at, spf, n - 1);
        let after = scheduled(q, def, at, spf, n);
        assert(after.items.take(q.items.len() as int) =~= before.items.take(q.items.len() as int));
    } else {
        assert(q.items.take(q.items.len() as int) =~= q.items);
    }
}

/// Every note of an effect is scheduled or counted as lost: it is lost only
/// where the queue is full, and the most that was pending is known.
pub proof fn law_no_note_is_lost_uncounted(m: EngineModel, id: u16, at: u64)
    requires
        id < m.bank.sfx.len(),
        m.queue.items.len() <= 256,
        m.queue.items.len() <= m.queue.peak,
    ensures
        ({
            let n = m.bank.sfx[id as int].notes().len();
            let after = m.submitted(AudioEvent::PlaySfx { id }, at).queue;
            &&& after.items.len() + after.overflow == m.queue.items.len() + m.queue.overflow + n
            &&& after.items.len() == (if m.queue.items.len() + n <= 256 {
                m.queue.items.len() + n
            } else {
                256
            })
            &&& after.peak == (if after.items.len() > m.queue.peak {
                after.items.len()
            } else {
                m.queue.peak
            })
        }),
{
    let def = m.bank.sfx[id as int];
    lemma_counted(m.queue, def, at, m.spf(), def.notes().len() as int);
}

proof fn lemma_counted(q: QueueModel, def: SfxModel, at: u64, spf: int, n: int)
    requires
        0 <= n <= def.notes().len(),
        q.items.len() <= 256,
        q.items.len() <= q.peak,
    ensures
        ({
            let after = scheduled(q, def, at, spf, n);
            &&& after.items.len() + after.overflow == q.items.len() + q.overflow + n
            &&& after.items.len() == (if q.items.len() + n <= 256 {
                q.items.len() + n
            } else {
                256
            })
            &&& after.peak == (if after.items.len() > q.peak {
                after.items.len()
            } else {
                q.peak
            })
        }),
    decreases n,
{
    if n > 0 {
        lemma_counted(q, def, at, spf, n - 1);
    }
}

/// An effect that there is none of is counted, and does nothing else.
pub proof fn law_an_unknown_effect_is_counted(m: EngineModel, id: u16, at: u64)
    requires
        id >= m.bank.sfx.len(),
    ensures
        m.submitted(AudioEvent::PlaySfx { id }, at) == (EngineModel {
            unknown_sfx: m.unknown_sfx + 1,
            ..m
        }),
{
}

/// Any other event is scheduled as it is, behind those that were there; in a
/// full queue it is counted as lost.
pub proof fn law_an_event_is_scheduled_for_its_time(m: EngineModel, event: AudioEvent, at: u64)
    requires
        !(event is PlaySfx),
        event != AudioEvent::Panic,
    ensures
        ({
            let after = m.submitted(event, at);
            &&& m.queue.items.len() < 256 ==> {
                &&& after.queue.items == m.queue.items.push(Pending { at, event })
                &&& after.queue.overflow == m.queue.overflow
            }
            &&& m.queue.items.len() >= 256 ==> {
                &&& after.queue.items == m.queue.items
                &&& after.queue.overflow == m.queue.overflow + 1
            }
            &&& after == (EngineModel { queue: after.queue, ..m })
        }),
{
}

/// A note that alone is due starts on this very sample: the one command is its
/// start, on its instrument, at its pitch and velocity. What is not due stays.
#[verifier::rlimit(40)]
pub proof fn law_a_due_note_starts_now(
    m: EngineModel,
    i: int,
    inst: u8,
    note: u8,
    vel: u8,
    frames: u16,
)
    requires
        m.synth.wf(),
        m.now <= u64::MAX,
        0 <= i < m.queue.items.len(),
        m.queue.items[i].at <= m.now,
        m.queue.items[i].event == (AudioEvent::Play { inst, note, vel, frames }),
        forall|j: int|
            0 <= j < m.queue.items.len() && j != i ==> (#[trigger] m.queue.items[j]).at > m.now,
        inst < m.synth.instruments.len(),
    ensures
        ({
            let (after, commands) = m.drained();
            &&& commands.len() == 1
            &&& commands[0] matches VoiceCommand::Start { voice, inst: c, note: n, vel: v } && {
                &&& c == inst && n == note && v == vel
                &&& is_picked(m.synth.voices, voice as int)
                &&& after.synth.voices[voice as int].priority == Priority::Sfx
                &&& after.synth.voices[voice as int].hold == Some(
                    (frames * (m.synth.cfg.sample_rate / 60)) as u32,
                )
            }
            &&& after.queue.items == m.queue.items.remove(i)
            &&& after.now == m.now
        }),
{
    let items = m.queue.items;
    let now = m.now as u64;
    super::engine::law_nothing_due_is_left(m);
    assert(some_due(items, now));
    super::engine::lemma_first_due(items, now, i);
    let taken = EngineModel {
        queue: QueueModel { items: items.remove(i), ..m.queue },
        ..m
    };
    let (next, commands) = taken.dispatched(items[i].event);
    assert forall|j: int| 0 <= j < next.queue.items.len() implies (
    #[trigger] next.queue.items[j]).at > now by {
        if j < i {
            assert(next.queue.items[j] == items[j]);
        } else {
            assert(next.queue.items[j] == items[j + 1]);
        }
    }
    assert(!some_due(next.queue.items, now));
    assert(next.drained() == (next, Seq::<VoiceCommand>::empty()));
    assert(m.drained().1 =~= commands);
    lemma_some_voice_is_picked(m.synth.voices);
    assert(is_picked(m.synth.voices, picked(m.synth.voices)));
}

/// Of what is due now nothing is left scheduled, and nothing that is due later
/// is touched.
pub proof fn law_only_what_is_due_is_taken(m: EngineModel)
    ensures
        m.drained().0.queue.items == m.queue.items.filter(|p: Pending| p.at > m.now as u64),
        m.drained().0.queue.overflow == m.queue.overflow,
        m.drained().0.queue.peak == m.queue.peak,
        m.drained().0.unknown_sfx == m.unknown_sfx,
    decreases m.queue.items.len(),
{
    let items = m.queue.items;
    let now = m.now as u64;
    let later = |p: Pending| p.at > now;
    super::engine::law_nothing_due_is_left(m);
    if some_due(items, now) {
        super::engine::lemma_one_is_due(items, now);
        let i = next_due(items, now);
        let taken = EngineModel {
            queue: QueueModel { items: items.remove(i), ..m.queue },
            ..m
        };
        let next = taken.dispatched(items[i].event).0;
        law_only_what_is_due_is_taken(next);
        lemma_filter_remove(items, later, i);
    } else {
        assert forall|j: int| 0 <= j < items.len() implies later(#[trigger] items[j]) by {}
        lemma_filter_all(items, later);
    }
}

proof fn lemma_filter_all(items: Seq<Pending>, keep: spec_fn(Pending) -> bool)
    requires
        forall|j: int| 0 <= j < items.len() ==> keep(#[trigger] items[j]),
    ensures
        items.filter(keep) == items,
    decreases items.len(),
{
    reveal(Seq::filter);
    if items.len() > 0 {
        lemma_filter_all(items.drop_last(), keep);
        assert(items.drop_last().push(items.last()) =~= items);
    }
}

proof fn lemma_filter_remove(items: Seq<Pending>, keep: spec_fn(Pending) -> bool, i: int)
    requires
        0 <= i < items.len(),
        !keep(items[i]),
    ensures
        items.remove(i).filter(keep) == items.filter(keep),
    decreases items.len(),
{
    reveal(Seq::filter);
    if i == items.len() - 1 {
        assert(items.remove(i) =~= items.drop_last());
    } else {
        lemma_filter_remove(items.drop_last(), keep, i);
        assert(items.remove(i).drop_last() =~= items.drop_last().remove(i));
        assert(items.remove(i).last() == items.last());
    }
}

/// A piece ends where the next thing falls due, or where the room does: no event
/// that is left, and no row of the music, lies before its end, unless the music
/// is late already; and it ends early only for one of them.
pub proof fn law_a_piece_ends_where_something_falls_due(m: EngineModel, room: int, k: int)
    requires
        room > 0,
        m.now <= u64::MAX,
        0 <= k < m.segment(room).0.queue.items.len(),
    ensures
        ({
            let (after, commands, n) = m.segment(room);
            let late = after.music matches Some(p) && p.next_row_at <= m.now;
            &&& after.now == m.now + n
            &&& 0 < n <= room
            &&& after.queue.items[k].at >= after.now
            &&& !late ==> (after.music matches Some(p) ==> p.next_row_at >= after.now)
            &&& !late && n < room ==> {
                ||| exists|j: int|
                    0 <= j < after.queue.items.len() && (#[trigger] after.queue.items[j]).at
                        == after.now
                ||| after.music matches Some(p) && p.next_row_at == after.now
            }
            &&& late ==> n == 1
        }),
{
    super::engine::law_nothing_due_is_left(m);
    let a = m.drained().0;
    let b = a.music_advanced().0;
    let items = b.queue.items;
    assert(items == a.queue.items);
    assert(!some_due(items, m.now as u64));
    assert(some_due(items, u64::MAX)) by {
        assert(items[k].at <= u64::MAX);
    }
    super::engine::lemma_one_is_due(items, u64::MAX);
    let e = next_due(items, u64::MAX);
    assert(items[e].at <= items[k].at);
    assert(items[e].at > m.now);
    assert(next_time(items) == Some(items[e].at));
}

/// With nothing scheduled, a piece ends where the next row of the music falls
/// due, or where the room does.
pub proof fn law_a_piece_of_music_ends_at_its_next_row(m: EngineModel, room: int)
    requires
        room > 0,
        m.now <= u64::MAX,
        m.segment(room).0.queue.items.len() == 0,
    ensures
        ({
            let (after, commands, n) = m.segment(room);
            &&& after.now == m.now + n
            &&& match after.music {
                None => n == room,
                Some(p) => if p.next_row_at <= m.now {
                    n == 1
                } else {
                    n == (if p.next_row_at - m.now < room {
                        p.next_row_at - m.now
                    } else {
                        room
                    })
                },
            }
        }),
{
    super::engine::law_nothing_due_is_left(m);
}

/// The notes of a row of music start one after the other: the k-th command is
/// the start of the k-th note, on its instrument, at its pitch and velocity, as
/// music. All are counted.
pub proof fn law_a_row_of_music_starts_its_notes(
    s: SynthModel,
    notes: Seq<SeqNote>,
    n: int,
    k: int,
)
    requires
        s.wf(),
        0 <= k < n <= notes.len(),
        s.counts(n),
        forall|j: int|
            0 <= j < n ==> (#[trigger] notes[j]).inst < s.instruments.len(),
    ensures
        ({
            let (after, commands) = music_played(s, notes, n);
            &&& commands.len() == n
            &&& commands[k] matches VoiceCommand::Start { voice, inst, note, vel } && {
                &&& inst == notes[k].inst
                &&& note == notes[k].note
                &&& vel == notes[k].vel
                &&& voice < MAX_VOICES
            }
            &&& after.stats.started == s.stats.started + n
            &&& after.stats.dropped == s.stats.dropped
            &&& k == n - 1 ==> {
                let v = after.voices[commands[k]->voice as int];
                &&& v.priority == Priority::Music
                &&& v.stage == Stage::Attack
                &&& v.hold == Some((notes[k].frames * (s.cfg.sample_rate / 60)) as u32)
                &&& v.chan is None
            }
        }),
{
    lemma_music(s, notes, n);
}

#[verifier::rlimit(40)]
proof fn lemma_music(s: SynthModel, notes: Seq<SeqNote>, n: int)
    requires
        s.wf(),
        0 <= n <= notes.len(),
        s.counts(n),
        forall|j: int| 0 <= j < n ==> (#[trigger] notes[j]).inst < s.instruments.len(),
    ensures
        ({
            let (after, commands) = music_played(s, notes, n);
            &&& after.wf()
            &&& after.instruments == s.instruments
            &&& after.cfg == s.cfg
            &&& after.next_age == s.next_age + n
            &&& after.stats.dropped == s.stats.dropped
            &&& after.stats.started == s.stats.started + n
            &&& commands.len() == n
            &&& forall|k: int|
                0 <= k < n ==> {
                    &&& #[trigger] commands[k] is Start
                    &&& commands[k]->inst == notes[k].inst
                    &&& commands[k]->note == notes[k].note
                    &&& commands[k]->vel == notes[k].vel
                    &&& commands[k]->voice < MAX_VOICES
                }
            &&& n > 0 ==> {
                let v = after.voices[commands[n - 1]->voice as int];
                &&& v.priority == Priority::Music
                &&& v.stage == Stage::Attack
                &&& v.hold == Some((notes[n - 1].frames * (s.cfg.sample_rate / 60)) as u32)
                &&& v.chan is None
            }
        }),
    decreases n,
{
    if n > 0 {
        lemma_music(s, notes, n - 1);
        let (t, before) = music_played(s, notes, n - 1);
        let x = notes[n - 1];
        lemma_some_voice_is_picked(t.voices);
        assert(is_picked(t.voices, picked(t.voices)));
        law_a_played_note_sounds_as_asked(t, x.inst, x.note, x.vel, x.frames, Priority::Music);
        let (u, c) = t.played(x.inst, x.note, x.vel, x.frames, Priority::Music);
        let commands = music_played(s, notes, n).1;
        assert(commands =~= before.push(c->0));
    }
}

/// The row of music that is due is the track's row, and the music moves on to
/// the next one; a row that is not due yet starts nothing.
pub proof fn law_music_plays_the_row_that_is_due(m: EngineModel, p: Playing)
    requires
        m.music == Some(p),
        p.track < m.bank.tracks.len(),
        m.bank.tracks[p.track as int].row_notes(p.row as int).len() <= 8,
    ensures
        m.now < p.next_row_at ==> m.music_advanced() == (m, Seq::<VoiceCommand>::empty()),
        m.now >= p.next_row_at ==> {
            let notes = m.bank.tracks[p.track as int].row_notes(p.row as int);
            let (after, commands) = m.music_advanced();
            &&& (after.synth, commands) == music_played(m.synth, notes, notes.len() as int)
            &&& after.queue == m.queue && after.now == m.now && after.bank == m.bank
            &&& p.row + 1 < p.rows ==> (after.music matches Some(q) && q.row == p.row + 1
                && q.next_row_at == p.next_row_at + p.row_samples && q.track == p.track)
            &&& p.row + 1 >= p.rows && p.looping ==> (after.music matches Some(q) && q.row == 0
                && q.next_row_at == p.next_row_at + p.row_samples && q.track == p.track)
            &&& p.row + 1 >= p.rows && !p.looping ==> after.music is None
        },
{
}

/// Every voice counts as sounding but those that rest: a fading one too.
pub proof fn law_a_fading_voice_still_sounds(voices: Seq<Voice>, v: Voice)
    ensures
        sounding(Seq::empty()) == 0,
        v.stage == Stage::Idle ==> sounding(voices.push(v)) == sounding(voices),
        v.stage != Stage::Idle ==> sounding(voices.push(v)) == sounding(voices) + 1,
{
    assert(voices.push(v).drop_last() =~= voices);
}

/// There are sixteen voices, and a synth that is sound has them all.
pub proof fn law_there_are_sixteen_voices(s: SynthModel)
    requires
        s.wf(),
    ensures
        s.voices.len() == 16,
{
}

/// An effect lasts as many frames as its rows do, each as many as its speed, and
/// at least one.
pub proof fn law_an_effect_lasts_as_long_as_its_rows(s: SfxModel)
    ensures
        s.frames() == s.rows.len() * (if s.speed == 0 {
            1
        } else {
            s.speed as int
        }),
{
}

/// Of the events that are due, the earliest is applied first.
pub proof fn law_the_earliest_event_comes_first(m: EngineModel, j: int)
    requires
        some_due(m.queue.items, m.now as u64),
        0 <= j < m.queue.items.len(),
    ensures
        ({
            let i = next_due(m.queue.items, m.now as u64);
            let taken = EngineModel {
                queue: QueueModel { items: m.queue.items.remove(i), ..m.queue },
                ..m
            };
            let (next, commands) = taken.dispatched(m.queue.items[i].event);
            &&& 0 <= i < m.queue.items.len()
            &&& m.queue.items[i].at <= m.now as u64
            &&& m.queue.items[i].at <= m.queue.items[j].at
            &&& j < i ==> m.queue.items[i].at < m.queue.items[j].at
            &&& m.drained().0 == next.drained().0
            &&& m.drained().1 == commands + next.drained().1
        }),
{
    super::engine::lemma_one_is_due(m.queue.items, m.now as u64);
}

/// In a piece, what was scheduled comes before the row of the music; then the
/// clock goes on, and nothing else does.
pub proof fn law_events_come_before_the_music(m: EngineModel, room: int)
    ensures
        ({
            let (a, first) = m.drained();
            let (b, second) = a.music_advanced();
            let (after, commands, n) = m.segment(room);
            &&& commands == first + second
            &&& after.synth == b.synth
            &&& after.queue == b.queue
            &&& after.music == b.music
            &&& after.bank == m.bank
            &&& after.unknown_track == b.unknown_track
        }),
{
    super::engine::law_nothing_due_is_left(m);
}

/// An event that is applied at once leaves what is scheduled as it is; only the
/// notes of an effect are scheduled, from now on.
pub proof fn law_an_event_applied_at_once_waits_for_nothing(
    m: EngineModel,
    event: AudioEvent,
    id: u16,
)
    requires
        !(event is PlaySfx),
        event != AudioEvent::Panic,
    ensures
        m.applied(event) == m.dispatched(event),
        m.applied(event).0.queue == m.queue,
        m.applied(AudioEvent::PlaySfx { id }).0 == m.submitted(
            AudioEvent::PlaySfx { id },
            m.now as u64,
        ),
        m.applied(AudioEvent::PlaySfx { id }).1.len() == 0,
{
}

/// Any event but music is the synth's: what it does is what the synth does, and
/// it stops the music only where it says so.
pub proof fn law_an_event_is_handed_to_the_synth(m: EngineModel, event: AudioEvent)
    requires
        !(event is PlayMusic),
    ensures
        ({
            let (after, commands) = m.dispatched(event);
            let (synth, command) = m.synth.handled(event);
            &&& after.synth == synth
            &&& command matches Some(c) ==> commands == seq![c]
            &&& command is None ==> commands.len() == 0
            &&& event == AudioEvent::StopMusic || event == AudioEvent::Panic ==> after.music is None
            &&& event != AudioEvent::StopMusic && event != AudioEvent::Panic ==> after.music
                == m.music
            &&& after.queue == m.queue && after.bank == m.bank && after.now == m.now
        }),
{
}

/// Among voices that rest, and among those that fade, the same goes: music
/// before effects, the quietest before the louder, the oldest before the newer.
pub proof fn law_the_same_order_among_resting_and_fading(voices: Seq<Voice>, i: int, j: int)
    requires
        is_picked(voices, i),
        0 <= j < voices.len(),
        voices[i].stage == voices[j].stage,
    ensures
        voices[j].priority == Priority::Music ==> voices[i].priority == Priority::Music,
        voices[i].priority == voices[j].priority ==> voices[i].level <= voices[j].level,
        voices[i].priority == voices[j].priority && voices[i].level == voices[j].level
            ==> voices[i].age <= voices[j].age,
        voices[i] == voices[j] ==> i <= j,
{
    assert(!voices[j].gives_way_to(voices[i]));
    if j < i {
        assert(voices[i].gives_way_to(voices[j]));
    }
}

/// The next number of the noise: three shifts, each mixed in.
pub proof fn law_noise_is_three_shifts(x: u32)
    ensures
        ({
            let a = x ^ (x << 13u32);
            let b = a ^ (a >> 17u32);
            xorshift(x) == b ^ (b << 5u32)
        }),
{
}

} // verus!
