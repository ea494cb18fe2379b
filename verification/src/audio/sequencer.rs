//! The music player: walks a [`TrackDef`]'s rows and starts notes.
//!
//! It runs on the audio clock, not the game's: a row falls due after so many
//! *samples*, computed once from the track's tempo, and nothing about it
//! depends on when the game last ticked.

use super::bank::{
    at_least_one, frames_of_note, note_frames, ChannelModel, Row, TrackDef, TrackModel,
};
use vstd::prelude::*;

verus! {

/// A note the sequencer wants started.
#[derive(Debug, Clone, Copy, PartialEq, Eq, Structural)]
pub struct SeqNote {
    pub inst: u8,
    pub note: u8,
    /// The track's velocity.
    pub vel: u8,
    /// How long to hold it, in frames: a note plus its holds, exactly as in a
    /// sound effect.
    pub frames: u16,
}

/// The length of the longest of the first `k` channels, in rows.
pub open spec fn longest(channels: Seq<ChannelModel>, k: int) -> nat
    decreases k,
{
    if k <= 0 {
        0
    } else {
        let before = longest(channels, k - 1);
        if channels[k - 1].rows.len() > before {
            channels[k - 1].rows.len()
        } else {
            before
        }
    }
}

impl TrackModel {
    /// How many rows the track has: as many as its longest channel.
    pub open spec fn rows(self) -> nat {
        longest(self.channels, self.channels.len() as int)
    }

    /// The notes that the first `k` channels start on row `row`.
    pub open spec fn starting(self, row: int, k: int) -> Seq<SeqNote>
        decreases k,
    {
        if k <= 0 {
            Seq::empty()
        } else {
            let before = self.starting(row, k - 1);
            let c = self.channels[k - 1];
            if 0 <= row < c.rows.len() && c.rows[row] is Note {
                before.push(
                    SeqNote {
                        inst: c.inst,
                        note: c.rows[row]->Note_0,
                        vel: self.vel,
                        frames: note_frames(c.rows, row, at_least_one(self.tempo)) as u16,
                    },
                )
            } else {
                before
            }
        }
    }

    /// The notes that start on row `row`, a channel after the other.
    pub open spec fn row_notes(self, row: int) -> Seq<SeqNote> {
        self.starting(row, self.channels.len() as int)
    }
}

impl TrackDef {
    /// How many rows the track has: as many as its longest channel.
    pub fn rows(&self) -> (r: usize)
        ensures
            r == self@.rows(),
    {
        let mut n: usize = 0;
        let mut k: usize = 0;
        while k < self.channels.len()
            invariant
                k <= self.channels@.len(),
                n == longest(self@.channels, k as int),
            decreases self.channels@.len() - k,
        {
            assert(self@.channels[k as int] == self.channels@[k as int]@);
            let m: usize = self.channels[k].rows.len();
            if m > n {
                n = m;
            }
            k += 1;
        }
        n
    }
}

/// Position in a track, measured in samples.
pub struct Sequencer {
    /// Which track is playing, if any.
    track: Option<u16>,
    /// Next row to play.
    row: usize,
    /// Absolute sample time the next row falls due.
    next_row_at: u64,
    /// Samples per row, from the track's tempo. Zero when stopped.
    row_samples: u64,
    looping: bool,
    rows: usize,
}

/// Where a [`Sequencer`] is in the track it plays.
pub struct Playing {
    pub track: u16,
    /// Next row to play.
    pub row: nat,
    /// The sample it falls due at.
    pub next_row_at: int,
    /// Samples per row.
    pub row_samples: int,
    pub looping: bool,
    /// Rows in the track.
    pub rows: nat,
}

impl Playing {
    /// After the row that was due: the next one, the first again, or nothing.
    pub open spec fn advanced(self) -> Option<Playing> {
        if self.row + 1 < self.rows {
            Some(
                Playing {
                    row: self.row + 1,
                    next_row_at: self.next_row_at + self.row_samples,
                    ..self
                },
            )
        } else if self.looping {
            Some(Playing { row: 0, next_row_at: self.next_row_at + self.row_samples, ..self })
        } else {
            None
        }
    }
}

/// The first row of a track, due at once; nothing where the track is empty.
pub open spec fn started(id: u16, def: TrackModel, now: u64, samples_per_frame: u64) -> Option<
    Playing,
> {
    if def.rows() == 0 {
        None
    } else {
        Some(
            Playing {
                track: id,
                row: 0,
                next_row_at: now as int,
                row_samples: at_least_one(def.tempo) * samples_per_frame,
                looping: def.looping,
                rows: def.rows(),
            },
        )
    }
}

impl View for Sequencer {
    type V = Option<Playing>;

    closed spec fn view(&self) -> Option<Playing> {
        match self.track {
            Some(track) => Some(
                Playing {
                    track,
                    row: self.row as nat,
                    next_row_at: self.next_row_at as int,
                    row_samples: self.row_samples as int,
                    looping: self.looping,
                    rows: self.rows as nat,
                },
            ),
            None => None,
        }
    }
}

impl Default for Sequencer {
    fn default() -> (r: Self)
        ensures
            r.wf(),
            r@ is None,
    {
        Sequencer::new()
    }
}

impl Sequencer {
    /// A track that plays has the row that is next; a stopped sequencer is at
    /// the top.
    pub closed spec fn wf(&self) -> bool {
        &&& self.track is Some ==> self.row < self.rows
        &&& self.track is None ==> self.row == 0
    }

    pub fn new() -> (r: Self)
        ensures
            r.wf(),
            r@ is None,
    {
        Sequencer { track: None, row: 0, next_row_at: 0, row_samples: 0, looping: false, rows: 0 }
    }

    /// The track that plays.
    pub fn playing(&self) -> (r: Option<u16>)
        ensures
            r == (match self@ {
                Some(p) => Some(p.track),
                None => None,
            }),
    {
        self.track
    }

    /// The row about to play, for a host that wants to show position.
    pub fn row(&self) -> (r: usize)
        requires
            self.wf(),
        ensures
            r == (match self@ {
                Some(p) => p.row,
                None => 0,
            }),
    {
        self.row
    }

    /// Start a track at `now`, from the top.
    ///
    /// Always from the top: resuming where a previous track left off would tie
    /// two unrelated pieces of music together.
    pub fn start(&mut self, id: u16, def: &TrackDef, now: u64, samples_per_frame: u64)
        requires
            at_least_one(def.tempo) * samples_per_frame <= u64::MAX,
        ensures
            final(self).wf(),
            final(self)@ == started(id, def@, now, samples_per_frame),
    {
        self.track = Some(id);
        self.row = 0;
        self.rows = def.rows();
        self.looping = def.looping;
        let tempo: u64 = if def.tempo == 0 { 1 } else { def.tempo as u64 };
        self.row_samples = tempo * samples_per_frame;
        // The first row is due immediately, not one row from now.
        self.next_row_at = now;
        if self.rows == 0 {
            self.stop();
        }
    }

    pub fn stop(&mut self)
        ensures
            final(self).wf(),
            final(self)@ is None,
    {
        self.track = None;
        self.row = 0;
        self.row_samples = 0;
    }

    /// When the next row falls due, or `None` when nothing is playing.
    pub fn next_row_at(&self) -> (r: Option<u64>)
        ensures
            r == (match self@ {
                Some(p) => Some(p.next_row_at as u64),
                None => None,
            }),
            self@ matches Some(p) ==> 0 <= p.next_row_at <= u64::MAX,
    {
        match self.track {
            Some(_) => Some(self.next_row_at),
            None => None,
        }
    }

    /// If a row is due at `now`, advance past it and write its notes into
    /// `out`, returning how many there are. Notes that `out` has no room for
    /// are left out; what `out` holds past the notes stays.
    pub fn take_due(&mut self, now: u64, def: &TrackDef, out: &mut [SeqNote]) -> (n: usize)
        requires
            old(self).wf(),
            old(self)@ matches Some(p) ==> now >= p.next_row_at ==> p.next_row_at + p.row_samples
                <= u64::MAX,
        ensures
            final(self).wf(),
            final(out)@.len() == old(out)@.len(),
            n <= old(out)@.len(),
            final(self)@ == asked(old(self)@, now),
            match old(self)@ {
                Some(p) => if now < p.next_row_at {
                    n == 0 && final(self)@ == old(self)@ && final(out)@ == old(out)@
                } else {
                    let notes = def@.row_notes(p.row as int);
                    &&& n == (if notes.len() <= old(out)@.len() {
                        notes.len()
                    } else {
                        old(out)@.len()
                    })
                    &&& final(out)@ == notes.take(n as int) + old(out)@.skip(n as int)
                    &&& final(self)@ == p.advanced()
                },
                None => n == 0 && final(self)@ is None && final(out)@ == old(out)@,
            },
    {
        if self.track.is_none() || now < self.next_row_at {
            return 0;
        }
        let row: usize = self.row;
        let mut n: usize = 0;
        let mut k: usize = 0;
        let ghost all = def@.row_notes(row as int);
        assert(out@ =~= def@.starting(row as int, 0) + old(out)@.skip(0));
        while k < def.channels.len()
            invariant_except_break
                n == def@.starting(row as int, k as int).len(),
            invariant
                k <= def.channels@.len(),
                all == def@.row_notes(row as int),
                n <= old(out)@.len(),
                out@.len() == old(out)@.len(),
                n <= all.len(),
                out@ == all.take(n as int) + old(out)@.skip(n as int),
                def@.starting(row as int, k as int).len() <= all.len(),
                def@.starting(row as int, k as int) == all.take(
                    def@.starting(row as int, k as int).len() as int,
                ),
                self == old(self),
            ensures
                n == all.len() || n == old(out)@.len(),
            decreases def.channels@.len() - k,
        {
            assert(def@.channels[k as int] == def.channels@[k as int]@);
            proof {
                lemma_starting(def@, row as int, k as int, def@.channels.len() as int);
                lemma_starting(def@, row as int, k + 1, def@.channels.len() as int);
            }
            let channel = &def.channels[k];
            if row < channel.rows.len() {
                if let Row::Note(note) = channel.rows[row] {
                    if n == out.len() {
                        break;
                    }
                    let frames: u16 = frames_of_note(&channel.rows, row, def.tempo);
                    out[n] = SeqNote { inst: channel.inst, note, vel: def.vel, frames };
                    proof {
                        let here = def@.starting(row as int, k + 1);
                        assert(here == def@.starting(row as int, k as int).push(out@[n as int]));
                        assert(here[n as int] == all.take(n + 1)[n as int]);
                        assert(out@ =~= all.take(n + 1) + old(out)@.skip(n + 1));
                    }
                    n += 1;
                }
            }
            k += 1;
        }
        proof {
            assert(all.take(all.len() as int) =~= all);
        }
        self.row = self.row + 1;
        self.next_row_at = self.next_row_at + self.row_samples;
        if self.row >= self.rows {
            if self.looping {
                self.row = 0;
            } else {
                // Let the last row's notes finish; only the *scheduling* stops.
                self.stop();
            }
        }
        n
    }
}

/// Where a player is after `k` more rows.
pub open spec fn after_rows(p: Option<Playing>, k: nat) -> Option<Playing>
    decreases k,
{
    if k == 0 {
        p
    } else {
        match after_rows(p, (k - 1) as nat) {
            Some(q) => q.advanced(),
            None => None,
        }
    }
}

/// Rows fall due on the audio clock: a track that loops plays row `k` (counted
/// on over each pass) exactly `k` row lengths after it started, whenever it is
/// asked.
pub proof fn law_rows_fall_due_on_the_audio_clock(p: Playing, k: nat)
    requires
        p.row == 0,
        p.rows > 0,
        p.looping,
    ensures
        after_rows(Some(p), k) == Some(
            Playing {
                row: (k % p.rows) as nat,
                next_row_at: p.next_row_at + k * p.row_samples,
                ..p
            },
        ),
    decreases k,
{
    if k > 0 {
        let j = (k - 1) as nat;
        law_rows_fall_due_on_the_audio_clock(p, j);
        assert(p.next_row_at + j * p.row_samples + p.row_samples == p.next_row_at + k
            * p.row_samples) by (nonlinear_arith)
            requires
                k == j + 1,
        ;
        vstd::arithmetic::div_mod::lemma_add_mod_noop(j as int, 1, p.rows as int);
        if j % p.rows + 1 < p.rows {
            vstd::arithmetic::div_mod::lemma_small_mod((j % p.rows + 1) as nat, p.rows);
            if p.rows > 1 {
                vstd::arithmetic::div_mod::lemma_small_mod(1, p.rows);
            }
        } else {
            assert(j % p.rows + 1 == p.rows);
            vstd::arithmetic::div_mod::lemma_mod_self_0(p.rows as int);
            if p.rows > 1 {
                vstd::arithmetic::div_mod::lemma_small_mod(1, p.rows);
            } else {
                assert(k % 1 == 0);
            }
        }
    } else {
        vstd::arithmetic::div_mod::lemma_small_mod(0, p.rows);
        assert(0 * p.row_samples == 0);
    }
}

/// Whether a player that is asked at `now` takes a row.
pub open spec fn takes(p: Option<Playing>, now: u64) -> bool {
    p matches Some(q) && now >= q.next_row_at
}

/// Where a player is after it was asked at `now`: one row further where one is
/// due, however many are, and otherwise where it was.
pub open spec fn asked(p: Option<Playing>, now: u64) -> Option<Playing> {
    if takes(p, now) {
        p->0.advanced()
    } else {
        p
    }
}

/// Where a player is after it was asked at each of these times, and how many
/// rows it took.
pub open spec fn after_calls(p: Option<Playing>, calls: Seq<u64>) -> (Option<Playing>, nat)
    decreases calls.len(),
{
    if calls.len() == 0 {
        (p, 0)
    } else {
        let (q, k) = after_calls(p, calls.drop_last());
        if takes(q, calls.last()) {
            (asked(q, calls.last()), k + 1)
        } else {
            (q, k)
        }
    }
}

proof fn lemma_after_calls(p: Option<Playing>, calls: Seq<u64>)
    ensures
        after_calls(p, calls).0 == after_rows(p, after_calls(p, calls).1),
    decreases calls.len(),
{
    if calls.len() > 0 {
        lemma_after_calls(p, calls.drop_last());
    }
}

proof fn lemma_after_rows(p: Playing, k: nat)
    ensures
        after_rows(Some(p), k) matches Some(q) ==> {
            &&& q.next_row_at == p.next_row_at + k * p.row_samples
            &&& q.row_samples == p.row_samples
            &&& q.track == p.track
        },
    decreases k,
{
    if k > 0 {
        let j = (k - 1) as nat;
        lemma_after_rows(p, j);
        assert(p.next_row_at + j * p.row_samples + p.row_samples == p.next_row_at + k
            * p.row_samples) by (nonlinear_arith)
            requires
                k == j + 1,
        ;
    } else {
        assert(0 * p.row_samples == 0);
    }
}

/// Lateness never shifts the beat: whenever a track that was started is asked,
/// and however late, after `k` rows the next one falls due exactly `k` row
/// lengths after the start, and it is the row that follows the `k` taken.
pub proof fn law_lateness_never_shifts_the_beat(
    id: u16,
    def: TrackModel,
    start: u64,
    samples_per_frame: u64,
    calls: Seq<u64>,
)
    ensures
        ({
            let p = started(id, def, start, samples_per_frame);
            let (q, k) = after_calls(p, calls);
            &&& q == after_rows(p, k)
            &&& q matches Some(r) ==> r.track == id && r.next_row_at == start + k * (
            at_least_one(def.tempo) * samples_per_frame)
        }),
{
    let p = started(id, def, start, samples_per_frame);
    lemma_after_calls(p, calls);
    let k = after_calls(p, calls).1;
    match p {
        Some(q) => {
            lemma_after_rows(q, k);
        },
        None => {
            lemma_after_nothing(k);
        },
    }
}

proof fn lemma_after_nothing(k: nat)
    ensures
        after_rows(None, k) is None,
    decreases k,
{
    if k > 0 {
        lemma_after_nothing((k - 1) as nat);
    }
}

/// A track that does not loop plays each of its rows once and then stops.
pub proof fn law_a_one_shot_track_stops_at_the_end(p: Playing, k: nat)
    requires
        p.row == 0,
        p.rows > 0,
        !p.looping,
    ensures
        k < p.rows ==> after_rows(Some(p), k) == Some(
            Playing { row: k, next_row_at: p.next_row_at + k * p.row_samples, ..p },
        ),
        k >= p.rows ==> after_rows(Some(p), k) is None,
    decreases k,
{
    if k > 0 {
        let j = (k - 1) as nat;
        law_a_one_shot_track_stops_at_the_end(p, j);
        assert(p.next_row_at + j * p.row_samples + p.row_samples == p.next_row_at + k
            * p.row_samples) by (nonlinear_arith)
            requires
                k == j + 1,
        ;
    } else {
        assert(0 * p.row_samples == 0);
    }
}

/// Starting a track starts it at the top, and its first row is due at once;
/// an empty track does not play at all.
pub proof fn law_a_track_starts_at_the_top(
    id: u16,
    def: TrackModel,
    now: u64,
    samples_per_frame: u64,
)
    ensures
        match started(id, def, now, samples_per_frame) {
            Some(p) => p.track == id && p.row == 0 && p.next_row_at == now && def.rows() > 0,
            None => def.rows() == 0,
        },
{
}

proof fn lemma_starting(def: TrackModel, row: int, j: int, k: int)
    requires
        0 <= j <= k,
    ensures
        def.starting(row, j).len() <= def.starting(row, k).len(),
        def.starting(row, j) == def.starting(row, k).take(def.starting(row, j).len() as int),
    decreases k - j,
{
    if j < k {
        lemma_starting(def, row, j, k - 1);
        let a = def.starting(row, j);
        let b = def.starting(row, k - 1);
        let c = def.starting(row, k);
        assert(c.take(b.len() as int) =~= b);
        assert(c.take(a.len() as int) =~= b.take(a.len() as int));
    } else {
        assert(def.starting(row, j) =~= def.starting(row, j).take(
            def.starting(row, j).len() as int,
        ));
    }
}

} // verus!
