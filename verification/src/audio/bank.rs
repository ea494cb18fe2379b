//! The sound bank: instruments, sound effects and music tracks, and the
//! grammar that describes them.
//!
//! ```text
//! instrument kick {
//!   wave = sine
//!   attack = 0  decay = 90  sustain = 0
//!   pitch_env = 36  pitch_decay = 60
//! }
//!
//! sfx boom {
//!   inst = kick
//!   speed = 2                    -- frames per row
//!   notes = "48 - 43 40 . 36"    -- note number, `-` hold, `.` rest
//! }
//! ```

pub use super::fields::{
    parse_rows, set_fx_field, set_instrument_field, set_sfx_field, set_track_field, FieldValue,
    OwnedValue, FX_KEYS, INSTRUMENT_KEYS, SFX_KEYS,
};
pub use super::grammar::{parse, BankError};
use super::patch::Patch;
use crate::text::same;
use vstd::prelude::*;

verus! {

/// The most instruments a bank can hold: an instrument's id is a byte.
pub const MAX_INSTRUMENTS: usize = 256;

/// The most sound effects a bank can hold.
pub const MAX_SFX: usize = 1024;

/// Rows in one effect, or in one channel of a track.
pub const MAX_SFX_ROWS: usize = 128;

/// The most tracks a bank can hold.
pub const MAX_TRACKS: usize = 256;

/// Channels in one track.
pub const MAX_TRACK_CHANNELS: usize = 8;

/// What one row of a line of notes does.
#[derive(Debug, Clone, Copy, PartialEq, Eq, Structural)]
pub enum Row {
    /// Start this note.
    Note(u8),
    /// Keep the previous note sounding for another row.
    Hold,
    /// Silence: end whatever was sounding.
    Rest,
}

/// A sound effect: a short line of notes on one instrument.
#[derive(Debug, Clone, PartialEq, Eq)]
pub struct SfxDef {
    pub inst: u8,
    /// Frames per row. At 60 fps, `speed = 2` is a 30 Hz arpeggio.
    pub speed: u8,
    pub vel: u8,
    pub rows: Vec<Row>,
}

/// What an [`SfxDef`] says.
pub struct SfxModel {
    pub inst: u8,
    pub speed: u8,
    pub vel: u8,
    pub rows: Seq<Row>,
}

impl View for SfxDef {
    type V = SfxModel;

    open spec fn view(&self) -> SfxModel {
        SfxModel { inst: self.inst, speed: self.speed, vel: self.vel, rows: self.rows@ }
    }
}

/// What an `sfx` block that says nothing gets.
pub open spec fn default_sfx() -> SfxModel {
    SfxModel { inst: 0, speed: 4, vel: 255, rows: Seq::empty() }
}

impl Default for SfxDef {
    fn default() -> (r: Self)
        ensures
            r@ == default_sfx(),
    {
        let r = SfxDef { inst: 0, speed: 4, vel: 255, rows: Vec::new() };
        assert(r@.rows =~= default_sfx().rows);
        r
    }
}

/// One channel of a track: a line of notes on one instrument.
#[derive(Debug, Clone, PartialEq, Eq)]
pub struct Channel {
    pub inst: u8,
    pub rows: Vec<Row>,
}

/// What a [`Channel`] says.
pub struct ChannelModel {
    pub inst: u8,
    pub rows: Seq<Row>,
}

impl View for Channel {
    type V = ChannelModel;

    open spec fn view(&self) -> ChannelModel {
        ChannelModel { inst: self.inst, rows: self.rows@ }
    }
}

/// A piece of music: lines of notes that run side by side.
#[derive(Debug, Clone, PartialEq, Eq)]
pub struct TrackDef {
    pub channels: Vec<Channel>,
    /// Frames per row.
    pub tempo: u8,
    pub vel: u8,
    /// Whether it starts over after its last row.
    pub looping: bool,
}

/// What a [`TrackDef`] says.
pub struct TrackModel {
    pub channels: Seq<ChannelModel>,
    pub tempo: u8,
    pub vel: u8,
    pub looping: bool,
}

/// What a list of channels says.
pub open spec fn channel_views(v: Seq<Channel>) -> Seq<ChannelModel> {
    v.map_values(|c: Channel| c@)
}

impl View for TrackDef {
    type V = TrackModel;

    open spec fn view(&self) -> TrackModel {
        TrackModel {
            channels: channel_views(self.channels@),
            tempo: self.tempo,
            vel: self.vel,
            looping: self.looping,
        }
    }
}

/// What a `track` block that says nothing gets.
pub open spec fn default_track() -> TrackModel {
    TrackModel { channels: Seq::empty(), tempo: 4, vel: 255, looping: true }
}

impl Default for TrackDef {
    fn default() -> (r: Self)
        ensures
            r@ == default_track(),
    {
        let r = TrackDef { channels: Vec::new(), tempo: 4, vel: 255, looping: true };
        assert(r@.channels =~= default_track().channels);
        r
    }
}

/// The settings of the two shared effects.
#[derive(Debug, Clone, Copy, PartialEq, Eq, Structural)]
pub struct FxSettings {
    pub reverb_size: u8,
    pub reverb_damping: u8,
    pub chorus_rate: u8,
    pub chorus_depth: u8,
}

/// What a bank without an `fx` block gets.
pub open spec fn default_fx() -> FxSettings {
    FxSettings { reverb_size: 128, reverb_damping: 128, chorus_rate: 40, chorus_depth: 80 }
}

impl Default for FxSettings {
    fn default() -> (r: Self)
        ensures
            r == default_fx(),
    {
        FxSettings { reverb_size: 128, reverb_damping: 128, chorus_rate: 40, chorus_depth: 80 }
    }
}

/// Frames per row, counting a row at least one.
pub open spec fn at_least_one(frames: u8) -> int {
    if frames == 0 {
        1
    } else {
        frames as int
    }
}

/// How many rows from `i` on are holds, with no other row between.
pub open spec fn hold_run(rows: Seq<Row>, i: int) -> int
    decreases rows.len() - i,
{
    if 0 <= i < rows.len() && rows[i] == Row::Hold {
        1 + hold_run(rows, i + 1)
    } else {
        0
    }
}

pub proof fn lemma_hold_run(rows: Seq<Row>, i: int)
    requires
        0 <= i <= rows.len(),
    ensures
        0 <= hold_run(rows, i) <= rows.len() - i,
        forall|j: int| i <= j < i + hold_run(rows, i) ==> rows[j] == Row::Hold,
        i + hold_run(rows, i) < rows.len() ==> rows[i + hold_run(rows, i)] != Row::Hold,
    decreases rows.len() - i,
{
    if i < rows.len() && rows[i] == Row::Hold {
        lemma_hold_run(rows, i + 1);
    }
}

/// How long the note that starts on row `i` sounds, in frames: its own row and
/// the holds after it, as far as 16 bits count.
pub open spec fn note_frames(rows: Seq<Row>, i: int, per_row: int) -> int {
    let n = (1 + hold_run(rows, i + 1)) * per_row;
    if n > 0xFFFF {
        0xFFFF
    } else {
        n
    }
}

/// The notes that start in the first `k` rows, each with the frame it starts
/// on and its length.
pub open spec fn notes_before(rows: Seq<Row>, per_row: int, k: int) -> Seq<(u32, u8, u16)>
    decreases k,
{
    if k <= 0 {
        Seq::empty()
    } else {
        let before = notes_before(rows, per_row, k - 1);
        match rows[k - 1] {
            Row::Note(note) => before.push(
                (((k - 1) * per_row) as u32, note, note_frames(rows, k - 1, per_row) as u16),
            ),
            _ => before,
        }
    }
}

impl SfxModel {
    /// How long the effect lasts, in frames.
    pub open spec fn frames(self) -> int {
        self.rows.len() * at_least_one(self.speed)
    }

    /// Its notes, in order.
    pub open spec fn notes(self) -> Seq<(u32, u8, u16)> {
        notes_before(self.rows, at_least_one(self.speed), self.rows.len() as int)
    }
}

/// The length in frames of the note on row `i`, at `per_row` frames a row.
pub(crate) fn frames_of_note(rows: &Vec<Row>, i: usize, per_row: u8) -> (r: u16)
    requires
        i < rows@.len(),
    ensures
        r == note_frames(rows@, i as int, at_least_one(per_row)),
{
    let per: u32 = if per_row == 0 { 1 } else { per_row as u32 };
    let mut len: usize = 1;
    while len < rows.len() - i && rows[i + len] == Row::Hold
        invariant
            1 <= len,
            i + len <= rows@.len(),
            1 + hold_run(rows@, i + 1) == len + hold_run(rows@, i + len),
        decreases rows@.len() - len,
    {
        len += 1;
    }
    if len > 0xFFFF {
        assert(len * per > 0xFFFF) by (nonlinear_arith)
            requires
                len > 0xFFFF,
                per >= 1,
        ;
        return 0xFFFF;
    }
    assert(len * per <= 0xFFFF * 255) by (nonlinear_arith)
        requires
            0 <= len <= 0xFFFF,
            1 <= per <= 255,
    ;
    let n: u32 = len as u32 * per;
    if n > 0xFFFF {
        0xFFFF
    } else {
        n as u16
    }
}

impl SfxDef {
    /// How long this effect lasts, in console frames.
    pub fn frames(&self) -> (r: u32)
        requires
            self@.frames() <= u32::MAX,
        ensures
            r == self@.frames(),
    {
        let per: u32 = if self.speed == 0 { 1 } else { self.speed as u32 };
        assert(self.rows@.len() <= self.rows@.len() * per) by (nonlinear_arith)
            requires
                per >= 1,
        ;
        self.rows.len() as u32 * per
    }

    /// The notes of the effect, as `(frame offset, note, length in frames)`.
    ///
    /// A note followed by holds is one longer note rather than a retrigger per
    /// row: `"48 - - -"` is a sustained hit and `"48 48 48 48"` a machine gun.
    pub fn notes(&self) -> (r: Vec<(u32, u8, u16)>)
        requires
            self@.frames() <= u32::MAX,
        ensures
            r@ == self@.notes(),
    {
        let per: u32 = if self.speed == 0 { 1 } else { self.speed as u32 };
        let mut out: Vec<(u32, u8, u16)> = Vec::new();
        let mut i: usize = 0;
        while i < self.rows.len()
            invariant
                i <= self.rows@.len(),
                per == at_least_one(self.speed),
                self@.frames() <= u32::MAX,
                out@ == notes_before(self.rows@, per as int, i as int),
            decreases self.rows@.len() - i,
        {
            match self.rows[i] {
                Row::Note(note) => {
                    assert(i <= i * per <= self.rows@.len() * per) by (nonlinear_arith)
                        requires
                            0 <= i <= self.rows@.len(),
                            1 <= per,
                    ;
                    let at: u32 = i as u32 * per;
                    let frames = frames_of_note(&self.rows, i, self.speed);
                    out.push((at, note, frames));
                },
                _ => {},
            }
            i += 1;
        }
        out
    }
}


/// Everything a ROM (or a patch file) says about sound.
#[derive(Debug, Clone, PartialEq)]
pub struct SoundBank {
    pub instruments: Vec<Patch>,
    pub sfx: Vec<SfxDef>,
    pub tracks: Vec<TrackDef>,
    /// The settings of the shared effects.
    pub fx: FxSettings,
    /// Names in declaration order.
    pub instrument_names: Vec<String>,
    pub sfx_names: Vec<String>,
    pub track_names: Vec<String>,
}

/// What a [`SoundBank`] says.
pub struct BankModel {
    pub instruments: Seq<Patch>,
    pub sfx: Seq<SfxModel>,
    pub tracks: Seq<TrackModel>,
    pub fx: FxSettings,
    pub instrument_names: Seq<Seq<char>>,
    pub sfx_names: Seq<Seq<char>>,
    pub track_names: Seq<Seq<char>>,
}

/// What a list of names holds.
pub open spec fn name_views(v: Seq<String>) -> Seq<Seq<char>> {
    v.map_values(|n: String| n@)
}

/// What a list of effects says.
pub open spec fn sfx_views(v: Seq<SfxDef>) -> Seq<SfxModel> {
    v.map_values(|d: SfxDef| d@)
}

/// What a list of tracks says.
pub open spec fn track_views(v: Seq<TrackDef>) -> Seq<TrackModel> {
    v.map_values(|d: TrackDef| d@)
}

impl View for SoundBank {
    type V = BankModel;

    open spec fn view(&self) -> BankModel {
        BankModel {
            instruments: self.instruments@,
            sfx: sfx_views(self.sfx@),
            tracks: track_views(self.tracks@),
            fx: self.fx,
            instrument_names: name_views(self.instrument_names@),
            sfx_names: name_views(self.sfx_names@),
            track_names: name_views(self.track_names@),
        }
    }
}

/// A bank that says nothing.
pub open spec fn empty_bank() -> BankModel {
    BankModel {
        instruments: Seq::empty(),
        sfx: Seq::empty(),
        tracks: Seq::empty(),
        fx: default_fx(),
        instrument_names: Seq::empty(),
        sfx_names: Seq::empty(),
        track_names: Seq::empty(),
    }
}

impl Default for SoundBank {
    fn default() -> (r: Self)
        ensures
            r@ == empty_bank(),
    {
        let r = SoundBank {
            instruments: Vec::new(),
            sfx: Vec::new(),
            tracks: Vec::new(),
            fx: FxSettings::default(),
            instrument_names: Vec::new(),
            sfx_names: Vec::new(),
            track_names: Vec::new(),
        };
        assert(r@.instruments =~= empty_bank().instruments);
        assert(r@.sfx =~= empty_bank().sfx);
        assert(r@.tracks =~= empty_bank().tracks);
        assert(r@.instrument_names =~= empty_bank().instrument_names);
        assert(r@.sfx_names =~= empty_bank().sfx_names);
        assert(r@.track_names =~= empty_bank().track_names);
        r
    }
}

/// Where a name first stands in a list, from position `i` on.
pub open spec fn name_position(names: Seq<Seq<char>>, name: Seq<char>, i: int) -> Option<int>
    decreases names.len() - i,
{
    if i < 0 || i >= names.len() {
        None
    } else if names[i] == name {
        Some(i)
    } else {
        name_position(names, name, i + 1)
    }
}

/// The id of a name: its place in the list, if the id can be at most `max`.
pub open spec fn name_id(names: Seq<Seq<char>>, name: Seq<char>, max: int) -> Option<int> {
    match name_position(names, name, 0) {
        Some(i) => if i <= max {
            Some(i)
        } else {
            None
        },
        None => None,
    }
}

pub proof fn lemma_name_position(names: Seq<Seq<char>>, name: Seq<char>, i: int)
    requires
        0 <= i <= names.len(),
    ensures
        match name_position(names, name, i) {
            Some(k) => i <= k < names.len() && names[k] == name && forall|j: int|
                i <= j < k ==> names[j] != name,
            None => forall|j: int| i <= j < names.len() ==> names[j] != name,
        },
    decreases names.len() - i,
{
    if i < names.len() && names[i] != name {
        lemma_name_position(names, name, i + 1);
    }
}

/// Find a name in a list.
fn position_of(names: &Vec<String>, name: &str) -> (r: Option<usize>)
    ensures
        match r {
            Some(k) => name_position(name_views(names@), name@, 0) == Some(k as int) && k
                < names@.len(),
            None => name_position(name_views(names@), name@, 0) is None,
        },
{
    let mut i: usize = 0;
    while i < names.len()
        invariant
            i <= names@.len(),
            name_position(name_views(names@), name@, 0) == name_position(
                name_views(names@),
                name@,
                i as int,
            ),
        decreases names@.len() - i,
    {
        assert(name_views(names@)[i as int] == names@[i as int]@);
        if same(names[i].as_str(), name) {
            return Some(i);
        }
        i += 1;
    }
    None
}

impl SoundBank {
    pub fn is_empty(&self) -> (r: bool)
        ensures
            r == (self@.instruments.len() == 0 && self@.sfx.len() == 0),
    {
        self.instruments.is_empty() && self.sfx.is_empty()
    }

    /// The id of the instrument with this name: its place in declaration order.
    pub fn instrument_id(&self, name: &str) -> (r: Option<u8>)
        ensures
            r == (match name_id(self@.instrument_names, name@, 255) {
                Some(i) => Some(i as u8),
                None => None,
            }),
    {
        match position_of(&self.instrument_names, name) {
            Some(i) => if i <= 255 {
                Some(i as u8)
            } else {
                None
            },
            None => None,
        }
    }

    /// The id of the sound effect with this name.
    pub fn sfx_id(&self, name: &str) -> (r: Option<u16>)
        ensures
            r == (match name_id(self@.sfx_names, name@, 65535) {
                Some(i) => Some(i as u16),
                None => None,
            }),
    {
        match position_of(&self.sfx_names, name) {
            Some(i) => if i <= 65535 {
                Some(i as u16)
            } else {
                None
            },
            None => None,
        }
    }

    /// The id of the track with this name.
    pub fn track_id(&self, name: &str) -> (r: Option<u16>)
        ensures
            r == (match name_id(self@.track_names, name@, 65535) {
                Some(i) => Some(i as u16),
                None => None,
            }),
    {
        match position_of(&self.track_names, name) {
            Some(i) => if i <= 65535 {
                Some(i as u16)
            } else {
                None
            },
            None => None,
        }
    }

    /// Append an instrument, returning its id (the low byte of its place).
    pub fn add_instrument(&mut self, name: &str, patch: Patch) -> (id: u8)
        ensures
            id == old(self)@.instruments.len() % 256,
            final(self)@ == (BankModel {
                instruments: old(self)@.instruments.push(patch),
                instrument_names: old(self)@.instrument_names.push(name@),
                ..old(self)@
            }),
    {
        let id: u8 = (self.instruments.len() % 256) as u8;
        self.instruments.push(patch);
        self.instrument_names.push(name.to_owned());
        assert(self@.instrument_names =~= old(self)@.instrument_names.push(name@));
        id
    }

    /// Append a sound effect, returning its id (the low half of its place).
    pub fn add_sfx(&mut self, name: &str, def: SfxDef) -> (id: u16)
        ensures
            id == old(self)@.sfx.len() % 65536,
            final(self)@ == (BankModel {
                sfx: old(self)@.sfx.push(def@),
                sfx_names: old(self)@.sfx_names.push(name@),
                ..old(self)@
            }),
    {
        let id: u16 = (self.sfx.len() % 65536) as u16;
        self.sfx.push(def);
        self.sfx_names.push(name.to_owned());
        assert(self@.sfx =~= old(self)@.sfx.push(def@));
        assert(self@.sfx_names =~= old(self)@.sfx_names.push(name@));
        id
    }

    /// Append a track, returning its id (the low half of its place).
    pub fn add_track(&mut self, name: &str, def: TrackDef) -> (id: u16)
        ensures
            id == old(self)@.tracks.len() % 65536,
            final(self)@ == (BankModel {
                tracks: old(self)@.tracks.push(def@),
                track_names: old(self)@.track_names.push(name@),
                ..old(self)@
            }),
    {
        let id: u16 = (self.tracks.len() % 65536) as u16;
        self.tracks.push(def);
        self.track_names.push(name.to_owned());
        assert(self@.tracks =~= old(self)@.tracks.push(def@));
        assert(self@.track_names =~= old(self)@.track_names.push(name@));
        id
    }
}

} // verus!
