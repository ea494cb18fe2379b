//! What each key of a declaration means: its name, its accepted spellings, its
//! range, and what is said of a value that does not fit.

use super::bank::{
    channel_views, Channel, ChannelModel, FxSettings, Row, SfxDef, SfxModel, TrackDef, TrackModel,
    MAX_SFX_ROWS, MAX_TRACK_CHANNELS,
};
use super::filter::FilterMode;
use super::patch::{Patch, Waveform};
use crate::text::{
    concat3, decimal, decimal_int, joined, lowercase, push_decimal, push_decimal_int, read_i64,
    same, signed_value, split_words, string_of, to_lowercase, word_views, words,
};
use vstd::prelude::*;
use vstd::string::StringExecFns;

verus! {

/// A value, as a tokenizer sees it.
#[derive(Debug, Clone, Copy, PartialEq)]
pub enum FieldValue<'a> {
    Int(i64),
    /// A bare word: `sine`, `lpf`, or another declaration's name.
    Word(&'a str),
    /// A `"..."` literal.
    Text(&'a str),
}

/// A [`FieldValue`] that owns its text.
#[derive(Debug, Clone, PartialEq)]
pub enum OwnedValue {
    Int(i64),
    Word(String),
    Text(String),
}

/// What a value holds.
pub enum FieldModel {
    Int(int),
    Word(Seq<char>),
    Text(Seq<char>),
}

impl<'a> View for FieldValue<'a> {
    type V = FieldModel;

    open spec fn view(&self) -> FieldModel {
        match *self {
            FieldValue::Int(n) => FieldModel::Int(n as int),
            FieldValue::Word(w) => FieldModel::Word(w@),
            FieldValue::Text(t) => FieldModel::Text(t@),
        }
    }
}

impl View for OwnedValue {
    type V = FieldModel;

    open spec fn view(&self) -> FieldModel {
        match *self {
            OwnedValue::Int(n) => FieldModel::Int(n as int),
            OwnedValue::Word(w) => FieldModel::Word(w@),
            OwnedValue::Text(t) => FieldModel::Text(t@),
        }
    }
}

impl OwnedValue {
    /// The value, borrowed.
    pub fn as_field(&self) -> (r: FieldValue<'_>)
        ensures
            r@ == self@,
    {
        match self {
            OwnedValue::Int(n) => FieldValue::Int(*n),
            OwnedValue::Word(w) => FieldValue::Word(w.as_str()),
            OwnedValue::Text(t) => FieldValue::Text(t.as_str()),
        }
    }
}

/// A result, with the error's text in place of the string that holds it.
pub open spec fn told<T>(r: Result<T, String>) -> Result<T, Seq<char>> {
    match r {
        Ok(t) => Ok(t),
        Err(e) => Err(e@),
    }
}

/// A number outside its range, reported with the range.
pub open spec fn outside(key: Seq<char>, n: int, lo: int, hi: int) -> Seq<char> {
    "'"@ + key + "' is "@ + decimal_int(n) + ", outside "@ + decimal_int(lo) + "..="@ + decimal_int(
        hi,
    )
}

impl FieldModel {
    /// The number, or that one is expected.
    pub open spec fn number(self, key: Seq<char>) -> Result<int, Seq<char>> {
        match self {
            FieldModel::Int(n) => Ok(n),
            _ => Err("'"@ + key + "' expects a number"@),
        }
    }

    /// The number, if it lies in `lo..=hi`.
    pub open spec fn ranged(self, key: Seq<char>, lo: int, hi: int) -> Result<int, Seq<char>> {
        match self.number(key) {
            Ok(n) => if lo <= n <= hi {
                Ok(n)
            } else {
                Err(outside(key, n, lo, hi))
            },
            Err(e) => Err(e),
        }
    }

    /// The text, bare or quoted, or that a name is expected.
    pub open spec fn word(self, key: Seq<char>) -> Result<Seq<char>, Seq<char>> {
        match self {
            FieldModel::Word(w) => Ok(w),
            FieldModel::Text(t) => Ok(t),
            FieldModel::Int(_) => Err("'"@ + key + "' expects a name"@),
        }
    }
}

impl<'a> FieldValue<'a> {
    /// The text that the value holds; meaningful where it holds one.
    pub open spec fn spelling(self) -> &'a str {
        match self {
            FieldValue::Word(w) => w,
            FieldValue::Text(t) => t,
            FieldValue::Int(_) => arbitrary(),
        }
    }

    fn number(&self, key: &str) -> (r: Result<i64, String>)
        ensures
            match r {
                Ok(n) => self@.number(key@) == Ok::<int, Seq<char>>(n as int),
                Err(e) => self@.number(key@) == Err::<int, Seq<char>>(e@),
            },
    {
        match self {
            FieldValue::Int(n) => Ok(*n),
            _ => Err(concat3("'", key, "' expects a number")),
        }
    }

    /// An integer that has to fit a range, reported with the range.
    fn ranged(&self, key: &str, lo: i64, hi: i64) -> (r: Result<i64, String>)
        ensures
            match r {
                Ok(n) => lo <= n <= hi && self@.ranged(key@, lo as int, hi as int) == Ok::<
                    int,
                    Seq<char>,
                >(n as int),
                Err(e) => self@.ranged(key@, lo as int, hi as int) == Err::<int, Seq<char>>(e@),
            },
    {
        match self.number(key) {
            Ok(n) => if lo <= n && n <= hi {
                Ok(n)
            } else {
                Err(say_outside(key, n, lo, hi))
            },
            Err(e) => Err(e),
        }
    }

    fn word(&self, key: &str) -> (r: Result<&'a str, String>)
        ensures
            match r {
                Ok(w) => self@.word(key@) == Ok::<Seq<char>, Seq<char>>(w@) && w == self.spelling(),
                Err(e) => self@.word(key@) == Err::<Seq<char>, Seq<char>>(e@),
            },
    {
        match self {
            FieldValue::Word(w) => Ok(*w),
            FieldValue::Text(t) => Ok(*t),
            FieldValue::Int(_) => Err(concat3("'", key, "' expects a name")),
        }
    }
}

fn say_outside(key: &str, n: i64, lo: i64, hi: i64) -> (r: String)
    ensures
        r@ == outside(key@, n as int, lo as int, hi as int),
{
    let mut s = concat3("'", key, "' is ");
    push_decimal_int(&mut s, n);
    s.append(", outside ");
    push_decimal_int(&mut s, lo);
    s.append("..=");
    push_decimal_int(&mut s, hi);
    s
}

/// The waveform with this name, if there is one.
pub open spec fn wave_named(name: Seq<char>) -> Option<Waveform> {
    let n = lowercase(name);
    if n == "sine"@ {
        Some(Waveform::Sine)
    } else if n == "triangle"@ || n == "tri"@ {
        Some(Waveform::Triangle)
    } else if n == "saw"@ {
        Some(Waveform::Saw)
    } else if n == "square"@ || n == "pulse"@ {
        Some(Waveform::Square)
    } else if n == "noise"@ {
        Some(Waveform::Noise)
    } else {
        None
    }
}

impl Waveform {
    pub fn from_name(name: &str) -> (r: Option<Waveform>)
        ensures
            r == wave_named(name@),
    {
        let n = to_lowercase(name);
        let n = n.as_str();
        if same(n, "sine") {
            Some(Waveform::Sine)
        } else if same(n, "triangle") || same(n, "tri") {
            Some(Waveform::Triangle)
        } else if same(n, "saw") {
            Some(Waveform::Saw)
        } else if same(n, "square") || same(n, "pulse") {
            Some(Waveform::Square)
        } else if same(n, "noise") {
            Some(Waveform::Noise)
        } else {
            None
        }
    }
}

/// The filter with this name, if there is one.
pub open spec fn filter_named(name: Seq<char>) -> Option<FilterMode> {
    let n = lowercase(name);
    if n == "off"@ || n == "none"@ {
        Some(FilterMode::Off)
    } else if n == "lpf"@ || n == "lowpass"@ {
        Some(FilterMode::Lpf)
    } else if n == "hpf"@ || n == "highpass"@ {
        Some(FilterMode::Hpf)
    } else {
        None
    }
}

impl FilterMode {
    pub fn from_name(name: &str) -> (r: Option<FilterMode>)
        ensures
            r == filter_named(name@),
    {
        let n = to_lowercase(name);
        let n = n.as_str();
        if same(n, "off") || same(n, "none") {
            Some(FilterMode::Off)
        } else if same(n, "lpf") || same(n, "lowpass") {
            Some(FilterMode::Lpf)
        } else if same(n, "hpf") || same(n, "highpass") {
            Some(FilterMode::Hpf)
        } else {
            None
        }
    }
}

/// A list of keys, as text.
pub open spec fn key_views(keys: Seq<&'static str>) -> Seq<Seq<char>> {
    keys.map_values(|k: &'static str| k@)
}

/// Keys with a comma between each and the next.
fn join_keys(keys: &[&'static str]) -> (r: String)
    ensures
        r@ == joined(key_views(keys@), ", "@),
{
    let mut s = String::new();
    let mut i: usize = 0;
    while i < keys.len()
        invariant
            i <= keys@.len(),
            s@ == joined(key_views(keys@.take(i as int)), ", "@),
        decreases keys@.len() - i,
    {
        proof {
            let before = key_views(keys@.take(i as int));
            let after = key_views(keys@.take(i + 1));
            assert(after =~= before.push(keys@[i as int]@));
            assert(after.drop_last() =~= before);
        }
        if i > 0 {
            s.append(", ");
        }
        s.append(keys[i]);
        i += 1;
        assert(s@ =~= joined(key_views(keys@.take(i as int)), ", "@));
    }
    assert(keys@.take(keys@.len() as int) =~= keys@);
    s
}

/// A key that a declaration of this kind does not have.
pub open spec fn unknown_key(kind: Seq<char>, key: Seq<char>, keys: Seq<Seq<char>>) -> Seq<char> {
    "unknown "@ + kind + " key '"@ + key + "' (expected "@ + joined(keys, ", "@) + ")"@
}

fn say_unknown_key(kind: &str, key: &str, keys: &[&'static str]) -> (r: String)
    ensures
        r@ == unknown_key(kind@, key@, key_views(keys@)),
{
    let mut s = concat3("unknown ", kind, " key '");
    s.append(key);
    s.append("' (expected ");
    let list = join_keys(keys);
    s.append(list.as_str());
    s.append(")");
    s
}

/// Every key an `instrument` block accepts, in the order a patch is usually
/// written.
pub const INSTRUMENT_KEYS: [&'static str; 15] = [
    "wave",
    "attack",
    "decay",
    "sustain",
    "release",
    "pitch_env",
    "pitch_decay",
    "filter",
    "cutoff",
    "resonance",
    "distortion",
    "volume",
    "pan",
    "chorus",
    "reverb",
];

/// An instrument after one `key = value` pair, or what is wrong with the pair.
pub open spec fn instrument_field(p: Patch, key: Seq<char>, v: FieldModel) -> Result<
    Patch,
    Seq<char>,
> {
    if key == "wave"@ {
        match v.word(key) {
            Ok(name) => match wave_named(name) {
                Some(m) => Ok(Patch { wave: m, ..p }),
                None => Err("unknown wave '"@ + name + "' (sine, triangle, saw, square, noise)"@),
            },
            Err(e) => Err(e),
        }
    } else if key == "attack"@ {
        match v.ranged(key, 0, 60000) {
            Ok(n) => Ok(Patch { attack_ms: n as u16, ..p }),
            Err(e) => Err(e),
        }
    } else if key == "decay"@ {
        match v.ranged(key, 0, 60000) {
            Ok(n) => Ok(Patch { decay_ms: n as u16, ..p }),
            Err(e) => Err(e),
        }
    } else if key == "sustain"@ {
        match v.ranged(key, 0, 255) {
            Ok(n) => Ok(Patch { sustain: n as u8, ..p }),
            Err(e) => Err(e),
        }
    } else if key == "release"@ {
        match v.ranged(key, 0, 60000) {
            Ok(n) => Ok(Patch { release_ms: n as u16, ..p }),
            Err(e) => Err(e),
        }
    } else if key == "pitch_env"@ {
        match v.ranged(key, -127, 127) {
            Ok(n) => Ok(Patch { pitch_env: n as i8, ..p }),
            Err(e) => Err(e),
        }
    } else if key == "pitch_decay"@ {
        match v.ranged(key, 0, 60000) {
            Ok(n) => Ok(Patch { pitch_decay_ms: n as u16, ..p }),
            Err(e) => Err(e),
        }
    } else if key == "filter"@ {
        match v.word(key) {
            Ok(name) => match filter_named(name) {
                Some(m) => Ok(Patch { filter: m, ..p }),
                None => Err("unknown filter '"@ + name + "' (off, lpf, hpf)"@),
            },
            Err(e) => Err(e),
        }
    } else if key == "cutoff"@ {
        match v.ranged(key, 0, 255) {
            Ok(n) => Ok(Patch { cutoff: n as u8, ..p }),
            Err(e) => Err(e),
        }
    } else if key == "resonance"@ {
        match v.ranged(key, 0, 255) {
            Ok(n) => Ok(Patch { resonance: n as u8, ..p }),
            Err(e) => Err(e),
        }
    } else if key == "distortion"@ {
        match v.ranged(key, 0, 255) {
            Ok(n) => Ok(Patch { distortion: n as u8, ..p }),
            Err(e) => Err(e),
        }
    } else if key == "volume"@ {
        match v.ranged(key, 0, 255) {
            Ok(n) => Ok(Patch { volume: n as u8, ..p }),
            Err(e) => Err(e),
        }
    } else if key == "pan"@ {
        match v.ranged(key, -127, 127) {
            Ok(n) => Ok(Patch { pan: n as i8, ..p }),
            Err(e) => Err(e),
        }
    } else if key == "chorus"@ {
        match v.ranged(key, 0, 255) {
            Ok(n) => Ok(Patch { chorus: n as u8, ..p }),
            Err(e) => Err(e),
        }
    } else if key == "reverb"@ {
        match v.ranged(key, 0, 255) {
            Ok(n) => Ok(Patch { reverb: n as u8, ..p }),
            Err(e) => Err(e),
        }
    } else {
        Err(unknown_key("instrument"@, key, key_views(INSTRUMENT_KEYS@)))
    }
}

/// Apply one `key = value` pair to an instrument.
///
/// A pair that is refused leaves the instrument as it was.
pub fn set_instrument_field(p: &mut Patch, key: &str, v: FieldValue) -> (r: Result<(), String>)
    ensures
        match instrument_field(*old(p), key@, v@) {
            Ok(q) => r is Ok && *final(p) == q,
            Err(e) => told(r) == Err::<(), Seq<char>>(e) && *final(p) == *old(p),
        },
{
    if same(key, "wave") {
        match v.word(key) {
            Ok(name) => match Waveform::from_name(name) {
                Some(m) => {
                    p.wave = m;
                    Ok(())
                },
                None => Err(concat3("unknown wave '", name, "' (sine, triangle, saw, square, noise)")),
            },
            Err(e) => Err(e),
        }
    } else if same(key, "attack") {
        match v.ranged(key, 0, 60000) {
            Ok(n) => {
                p.attack_ms = n as u16;
                Ok(())
            },
            Err(e) => Err(e),
        }
    } else if same(key, "decay") {
        match v.ranged(key, 0, 60000) {
            Ok(n) => {
                p.decay_ms = n as u16;
                Ok(())
            },
            Err(e) => Err(e),
        }
    } else if same(key, "sustain") {
        match v.ranged(key, 0, 255) {
            Ok(n) => {
                p.sustain = n as u8;
                Ok(())
            },
            Err(e) => Err(e),
        }
    } else if same(key, "release") {
        match v.ranged(key, 0, 60000) {
            Ok(n) => {
                p.release_ms = n as u16;
                Ok(())
            },
            Err(e) => Err(e),
        }
    } else if same(key, "pitch_env") {
        match v.ranged(key, -127, 127) {
            Ok(n) => {
                p.pitch_env = n as i8;
                Ok(())
            },
            Err(e) => Err(e),
        }
    } else if same(key, "pitch_decay") {
        match v.ranged(key, 0, 60000) {
            Ok(n) => {
                p.pitch_decay_ms = n as u16;
                Ok(())
            },
            Err(e) => Err(e),
        }
    } else if same(key, "filter") {
        match v.word(key) {
            Ok(name) => match FilterMode::from_name(name) {
                Some(m) => {
                    p.filter = m;
                    Ok(())
                },
                None => Err(concat3("unknown filter '", name, "' (off, lpf, hpf)")),
            },
            Err(e) => Err(e),
        }
    } else if same(key, "cutoff") {
        match v.ranged(key, 0, 255) {
            Ok(n) => {
                p.cutoff = n as u8;
                Ok(())
            },
            Err(e) => Err(e),
        }
    } else if same(key, "resonance") {
        match v.ranged(key, 0, 255) {
            Ok(n) => {
                p.resonance = n as u8;
                Ok(())
            },
            Err(e) => Err(e),
        }
    } else if same(key, "distortion") {
        match v.ranged(key, 0, 255) {
            Ok(n) => {
                p.distortion = n as u8;
                Ok(())
            },
            Err(e) => Err(e),
        }
    } else if same(key, "volume") {
        match v.ranged(key, 0, 255) {
            Ok(n) => {
                p.volume = n as u8;
                Ok(())
            },
            Err(e) => Err(e),
        }
    } else if same(key, "pan") {
        match v.ranged(key, -127, 127) {
            Ok(n) => {
                p.pan = n as i8;
                Ok(())
            },
            Err(e) => Err(e),
        }
    } else if same(key, "chorus") {
        match v.ranged(key, 0, 255) {
            Ok(n) => {
                p.chorus = n as u8;
                Ok(())
            },
            Err(e) => Err(e),
        }
    } else if same(key, "reverb") {
        match v.ranged(key, 0, 255) {
            Ok(n) => {
                p.reverb = n as u8;
                Ok(())
            },
            Err(e) => Err(e),
        }
    } else {
        let keys = INSTRUMENT_KEYS;
        Err(say_unknown_key("instrument", key, keys.as_slice()))
    }
}

/// What one word of a line of notes says.
pub open spec fn row_of(word: Seq<char>) -> Result<Row, Seq<char>> {
    if word == "-"@ {
        Ok(Row::Hold)
    } else if word == "."@ {
        Ok(Row::Rest)
    } else {
        match signed_value(word) {
            Some(n) => if 0 <= n <= 127 {
                Ok(Row::Note(n as u8))
            } else {
                Err("note "@ + decimal_int(n) + " is outside 0..=127"@)
            },
            None => Err("'"@ + word + "' is not a note, '-' (hold), or '.' (rest)"@),
        }
    }
}

/// That a line holds more rows than it may.
pub open spec fn too_many_notes() -> Seq<char> {
    "too many notes (limit "@ + decimal(MAX_SFX_ROWS as nat) + ")"@
}

/// The rows that `done` and then the words of `rest` give, or what is wrong
/// with the first word that gives none.
pub open spec fn rows_of(done: Seq<Row>, rest: Seq<Seq<char>>) -> Result<Seq<Row>, Seq<char>>
    decreases rest.len(),
{
    if rest.len() == 0 {
        Ok(done)
    } else if done.len() == MAX_SFX_ROWS {
        Err(too_many_notes())
    } else {
        match row_of(rest[0]) {
            Ok(row) => rows_of(done.push(row), rest.drop_first()),
            Err(e) => Err(e),
        }
    }
}

/// The rows that a text gives.
pub open spec fn rows_in(src: Seq<char>) -> Result<Seq<Row>, Seq<char>> {
    rows_of(Seq::empty(), words(src))
}

fn read_row(word: &Vec<char>) -> (r: Result<Row, String>)
    ensures
        told(r) == row_of(word@),
{
    let text = string_of(word.as_slice());
    if same(text.as_str(), "-") {
        Ok(Row::Hold)
    } else if same(text.as_str(), ".") {
        Ok(Row::Rest)
    } else {
        match read_i64(word.as_slice()) {
            Some(n) => if 0 <= n && n <= 127 {
                Ok(Row::Note(n as u8))
            } else {
                let mut e = String::new();
                e.append("note ");
                push_decimal_int(&mut e, n);
                e.append(" is outside 0..=127");
                assert(e@ =~= "note "@ + decimal_int(n as int) + " is outside 0..=127"@);
                Err(e)
            },
            None => Err(concat3("'", text.as_str(), "' is not a note, '-' (hold), or '.' (rest)")),
        }
    }
}

/// What a result that holds rows says.
pub open spec fn rows_told(r: Result<Vec<Row>, String>) -> Result<Seq<Row>, Seq<char>> {
    match r {
        Ok(v) => Ok(v@),
        Err(e) => Err(e@),
    }
}

/// `"48 - 43 . 36"` as rows.
pub fn parse_rows(src: &str) -> (r: Result<Vec<Row>, String>)
    ensures
        rows_told(r) == rows_in(src@),
        r matches Ok(rows) ==> rows@.len() <= MAX_SFX_ROWS,
{
    let list = split_words(src);
    let mut rows: Vec<Row> = Vec::new();
    let mut i: usize = 0;
    assert(word_views(list@).skip(0) =~= word_views(list@));
    while i < list.len()
        invariant
            i <= list@.len(),
            rows@.len() <= MAX_SFX_ROWS,
            rows_of(rows@, word_views(list@).skip(i as int)) == rows_in(src@),
        decreases list@.len() - i,
    {
        let ghost rest = word_views(list@).skip(i as int);
        assert(rest[0] == list@[i as int]@);
        assert(rest.drop_first() =~= word_views(list@).skip(i + 1));
        if rows.len() == MAX_SFX_ROWS {
            let mut e = String::new();
            e.append("too many notes (limit ");
            push_decimal(&mut e, MAX_SFX_ROWS as u64);
            e.append(")");
            assert(e@ =~= too_many_notes());
            return Err(e);
        }
        match read_row(&list[i]) {
            Ok(row) => {
                rows.push(row);
            },
            Err(e) => {
                return Err(e);
            },
        }
        i += 1;
    }
    Ok(rows)
}

/// Every key an `sfx` block accepts.
pub const SFX_KEYS: [&'static str; 4] = ["inst", "speed", "vel", "notes"];

/// That no instrument has this name.
pub open spec fn no_instrument(name: Seq<char>) -> Seq<char> {
    "no instrument named '"@ + name + "'"@
}

/// A sound effect after one `key = value` pair, or what is wrong with the pair.
/// `id` is the id of the instrument that the value names, if there is one.
pub open spec fn sfx_field(s: SfxModel, key: Seq<char>, v: FieldModel, id: Option<u8>) -> Result<
    SfxModel,
    Seq<char>,
> {
    if key == "inst"@ {
        match v {
            FieldModel::Int(n) => if 0 <= n <= 255 {
                Ok(SfxModel { inst: n as u8, ..s })
            } else {
                Err(outside("inst"@, n, 0, 255))
            },
            _ => match (v.word(key), id) {
                (Ok(name), Some(i)) => Ok(SfxModel { inst: i, ..s }),
                (Ok(name), None) => Err(no_instrument(name)),
                (Err(e), _) => Err(e),
            },
        }
    } else if key == "speed"@ {
        match v.ranged(key, 1, 255) {
            Ok(n) => Ok(SfxModel { speed: n as u8, ..s }),
            Err(e) => Err(e),
        }
    } else if key == "vel"@ {
        match v.ranged(key, 0, 255) {
            Ok(n) => Ok(SfxModel { vel: n as u8, ..s }),
            Err(e) => Err(e),
        }
    } else if key == "notes"@ {
        match v.word(key) {
            Ok(text) => match rows_in(text) {
                Ok(rows) => Ok(SfxModel { rows: rows, ..s }),
                Err(e) => Err(e),
            },
            Err(e) => Err(e),
        }
    } else {
        Err(unknown_key("sfx"@, key, key_views(SFX_KEYS@)))
    }
}

/// Whether a pair of an `sfx` block names an instrument.
pub open spec fn asks_instrument(key: Seq<char>, v: FieldModel) -> bool {
    key == "inst"@ && !(v is Int)
}

/// Whether `id` is an answer of `resolver`, where it is asked.
pub open spec fn answers<F: Fn(&str) -> Option<u8>>(
    resolver: &F,
    asked: bool,
    name: &str,
    id: Option<u8>,
) -> bool {
    asked ==> resolver.ensures((name,), id)
}

/// Apply one `key = value` pair to a sound effect.
///
/// `instrument` resolves an instrument name to its id; it is asked only where
/// the pair names an instrument. A pair that is refused leaves the effect as it
/// was.
pub fn set_sfx_field<F: Fn(&str) -> Option<u8>>(
    s: &mut SfxDef,
    key: &str,
    v: FieldValue,
    instrument: &F,
) -> (r: Result<(), String>)
    requires
        forall|name: &str| instrument.requires((name,)),
    ensures
        exists|id: Option<u8>|
            {
                &&& #[trigger] answers(
                    instrument,
                    asks_instrument(key@, v@),
                    v.spelling(),
                    id,
                )
                &&& match sfx_field(old(s)@, key@, v@, id) {
                    Ok(t) => r is Ok && final(s)@ == t,
                    Err(e) => told(r) == Err::<(), Seq<char>>(e) && final(s)@ == old(s)@,
                }
            },
{
    let ghost none: Option<u8> = None;
    if same(key, "inst") {
        match v {
            FieldValue::Int(n) => {
                assert(answers(instrument, asks_instrument(key@, v@), v.spelling(), none));
                if 0 <= n && n <= 255 {
                    s.inst = n as u8;
                    Ok(())
                } else {
                    Err(say_outside("inst", n, 0, 255))
                }
            },
            _ => match v.word(key) {
                Ok(name) => {
                    let found = instrument(name);
                    assert(answers(instrument, asks_instrument(key@, v@), v.spelling(), found));
                    match found {
                        Some(id) => {
                            s.inst = id;
                            Ok(())
                        },
                        None => Err(concat3("no instrument named '", name, "'")),
                    }
                },
                Err(e) => Err(e),
            },
        }
    } else if same(key, "speed") {
        assert(answers(instrument, asks_instrument(key@, v@), v.spelling(), none));
        match v.ranged(key, 1, 255) {
            Ok(n) => {
                s.speed = n as u8;
                Ok(())
            },
            Err(e) => Err(e),
        }
    } else if same(key, "vel") {
        assert(answers(instrument, asks_instrument(key@, v@), v.spelling(), none));
        match v.ranged(key, 0, 255) {
            Ok(n) => {
                s.vel = n as u8;
                Ok(())
            },
            Err(e) => Err(e),
        }
    } else if same(key, "notes") {
        assert(answers(instrument, asks_instrument(key@, v@), v.spelling(), none));
        match v.word(key) {
            Ok(text) => match parse_rows(text) {
                Ok(rows) => {
                    s.rows = rows;
                    Ok(())
                },
                Err(e) => Err(e),
            },
            Err(e) => Err(e),
        }
    } else {
        assert(answers(instrument, asks_instrument(key@, v@), v.spelling(), none));
        let keys = SFX_KEYS;
        Err(say_unknown_key("sfx", key, keys.as_slice()))
    }
}

/// A track after one `key = value` pair, or what is wrong with the pair. Every
/// key but `tempo`, `vel` and `loop` names an instrument, whose id is `id`, and
/// adds a channel.
pub open spec fn track_field(t: TrackModel, key: Seq<char>, v: FieldModel, id: Option<u8>) -> Result<
    TrackModel,
    Seq<char>,
> {
    if key == "tempo"@ {
        match v.ranged(key, 1, 255) {
            Ok(n) => Ok(TrackModel { tempo: n as u8, ..t }),
            Err(e) => Err(e),
        }
    } else if key == "vel"@ {
        match v.ranged(key, 0, 255) {
            Ok(n) => Ok(TrackModel { vel: n as u8, ..t }),
            Err(e) => Err(e),
        }
    } else if key == "loop"@ {
        match v.ranged(key, 0, 1) {
            Ok(n) => Ok(TrackModel { looping: n != 0, ..t }),
            Err(e) => Err(e),
        }
    } else {
        match id {
            None => Err(no_instrument(key)),
            Some(inst) => match v.word(key) {
                Err(e) => Err(e),
                Ok(text) => match rows_in(text) {
                    Err(e) => Err(e),
                    Ok(rows) => if t.channels.len() >= MAX_TRACK_CHANNELS {
                        Err(too_many_channels())
                    } else {
                        Ok(
                            TrackModel {
                                channels: t.channels.push(ChannelModel { inst: inst, rows: rows }),
                                ..t
                            },
                        )
                    },
                },
            },
        }
    }
}

/// That a track holds as many channels as it may.
pub open spec fn too_many_channels() -> Seq<char> {
    "too many channels (limit "@ + decimal(MAX_TRACK_CHANNELS as nat) + ")"@
}

/// Whether a key of a `track` block names an instrument.
pub open spec fn is_channel_key(key: Seq<char>) -> bool {
    key != "tempo"@ && key != "vel"@ && key != "loop"@
}

/// Apply one `key = value` pair to a track.
///
/// `instrument` resolves an instrument name to its id; it is asked only where
/// the key is one. A pair that is refused leaves the track as it was.
pub fn set_track_field<F: Fn(&str) -> Option<u8>>(
    t: &mut TrackDef,
    key: &str,
    v: FieldValue,
    instrument: &F,
) -> (r: Result<(), String>)
    requires
        forall|name: &str| instrument.requires((name,)),
    ensures
        exists|id: Option<u8>|
            {
                &&& #[trigger] answers(instrument, is_channel_key(key@), key, id)
                &&& match track_field(old(t)@, key@, v@, id) {
                    Ok(u) => r is Ok && final(t)@ == u,
                    Err(e) => told(r) == Err::<(), Seq<char>>(e) && final(t)@ == old(t)@,
                }
            },
{
    let ghost none: Option<u8> = None;
    if same(key, "tempo") {
        assert(answers(instrument, is_channel_key(key@), key, none));
        match v.ranged(key, 1, 255) {
            Ok(n) => {
                t.tempo = n as u8;
                Ok(())
            },
            Err(e) => Err(e),
        }
    } else if same(key, "vel") {
        assert(answers(instrument, is_channel_key(key@), key, none));
        match v.ranged(key, 0, 255) {
            Ok(n) => {
                t.vel = n as u8;
                Ok(())
            },
            Err(e) => Err(e),
        }
    } else if same(key, "loop") {
        assert(answers(instrument, is_channel_key(key@), key, none));
        match v.ranged(key, 0, 1) {
            Ok(n) => {
                t.looping = n != 0;
                Ok(())
            },
            Err(e) => Err(e),
        }
    } else {
        let found = instrument(key);
        assert(answers(instrument, is_channel_key(key@), key, found));
        match found {
            None => Err(concat3("no instrument named '", key, "'")),
            Some(inst) => match v.word(key) {
                Err(e) => Err(e),
                Ok(text) => match parse_rows(text) {
                    Err(e) => Err(e),
                    Ok(rows) => {
                        if t.channels.len() >= MAX_TRACK_CHANNELS {
                            let mut e = String::new();
                            e.append("too many channels (limit ");
                            push_decimal(&mut e, MAX_TRACK_CHANNELS as u64);
                            e.append(")");
                            assert(e@ =~= too_many_channels());
                            Err(e)
                        } else {
                            let channel = Channel { inst: inst, rows: rows };
                            t.channels.push(channel);
                            assert(channel_views(t.channels@) =~= channel_views(
                                old(t).channels@,
                            ).push(channel@));
                            Ok(())
                        }
                    },
                },
            },
        }
    }
}

/// Every key an `fx` block accepts.
pub const FX_KEYS: [&'static str; 4] = [
    "reverb_size",
    "reverb_damping",
    "chorus_rate",
    "chorus_depth",
];

/// The shared effects after one `key = value` pair, or what is wrong with the
/// pair.
pub open spec fn fx_field(f: FxSettings, key: Seq<char>, v: FieldModel) -> Result<
    FxSettings,
    Seq<char>,
> {
    if !key_views(FX_KEYS@).contains(key) {
        Err(unknown_key("fx"@, key, key_views(FX_KEYS@)))
    } else {
        match v.ranged(key, 0, 255) {
            Err(e) => Err(e),
            Ok(n) => Ok(
                if key == "reverb_size"@ {
                    FxSettings { reverb_size: n as u8, ..f }
                } else if key == "reverb_damping"@ {
                    FxSettings { reverb_damping: n as u8, ..f }
                } else if key == "chorus_rate"@ {
                    FxSettings { chorus_rate: n as u8, ..f }
                } else {
                    FxSettings { chorus_depth: n as u8, ..f }
                },
            ),
        }
    }
}

/// Apply one `key = value` pair to the shared effects.
///
/// A pair that is refused leaves them as they were.
pub fn set_fx_field(f: &mut FxSettings, key: &str, v: FieldValue) -> (r: Result<(), String>)
    ensures
        match fx_field(*old(f), key@, v@) {
            Ok(g) => r is Ok && *final(f) == g,
            Err(e) => told(r) == Err::<(), Seq<char>>(e) && *final(f) == *old(f),
        },
{
    let keys = FX_KEYS;
    proof {
        let k = key_views(FX_KEYS@);
        assert(k[0] == "reverb_size"@ && k[1] == "reverb_damping"@ && k[2] == "chorus_rate"@ && k[3]
            == "chorus_depth"@ && k.len() == 4);
        if key@ == "reverb_size"@ {
            assert(k.contains(k[0]));
        }
        if key@ == "reverb_damping"@ {
            assert(k.contains(k[1]));
        }
        if key@ == "chorus_rate"@ {
            assert(k.contains(k[2]));
        }
        if key@ == "chorus_depth"@ {
            assert(k.contains(k[3]));
        }
    }
    let known = same(key, "reverb_size") || same(key, "reverb_damping") || same(key, "chorus_rate")
        || same(key, "chorus_depth");
    if !known {
        return Err(say_unknown_key("fx", key, keys.as_slice()));
    }
    match v.ranged(key, 0, 255) {
        Err(e) => Err(e),
        Ok(n) => {
            if same(key, "reverb_size") {
                f.reverb_size = n as u8;
            } else if same(key, "reverb_damping") {
                f.reverb_damping = n as u8;
            } else if same(key, "chorus_rate") {
                f.chorus_rate = n as u8;
            } else {
                f.chorus_depth = n as u8;
            }
            Ok(())
        },
    }
}

} // verus!
