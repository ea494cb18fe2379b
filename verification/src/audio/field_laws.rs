//! What each key of a bank's blocks is for: which field it sets, with which
//! values, and that it sets no other.

use super::bank::{ChannelModel, FxSettings, Row, SfxModel, TrackModel};
use super::fields::{
    asks_instrument, filter_named, fx_field, instrument_field, is_channel_key, key_views, outside,
    row_of, rows_in, sfx_field, track_field, wave_named, FieldModel, FX_KEYS,
};
use super::filter::FilterMode;
use super::patch::{Patch, Waveform};
use crate::text::{decimal_int, lowercase, signed_value, words};
use vstd::prelude::*;

verus! {

/// No two keys of an `instrument` block are spelled alike.
proof fn lemma_instrument_keys_differ()
    ensures
        "wave"@.len() == 4,
        "attack"@.len() == 6 && "attack"@[0] == 'a',
        "decay"@.len() == 5,
        "sustain"@.len() == 7 && "sustain"@[0] == 's',
        "release"@.len() == 7 && "release"@[0] == 'r',
        "pitch_env"@.len() == 9 && "pitch_env"@[0] == 'p',
        "pitch_decay"@.len() == 11,
        "filter"@.len() == 6 && "filter"@[0] == 'f',
        "cutoff"@.len() == 6 && "cutoff"@[0] == 'c' && "cutoff"@[1] == 'u',
        "resonance"@.len() == 9 && "resonance"@[0] == 'r',
        "distortion"@.len() == 10,
        "volume"@.len() == 6 && "volume"@[0] == 'v',
        "pan"@.len() == 3,
        "chorus"@.len() == 6 && "chorus"@[0] == 'c' && "chorus"@[1] == 'h',
        "reverb"@.len() == 6 && "reverb"@[0] == 'r',
{
    reveal_strlit("wave");
    reveal_strlit("attack");
    reveal_strlit("decay");
    reveal_strlit("sustain");
    reveal_strlit("release");
    reveal_strlit("pitch_env");
    reveal_strlit("pitch_decay");
    reveal_strlit("filter");
    reveal_strlit("cutoff");
    reveal_strlit("resonance");
    reveal_strlit("distortion");
    reveal_strlit("volume");
    reveal_strlit("pan");
    reveal_strlit("chorus");
    reveal_strlit("reverb");
}

/// Each time of an instrument has a key of its own, in milliseconds up to a
/// minute. The key sets that time and leaves the rest of the instrument alone.
pub proof fn law_each_time_has_its_key(p: Patch, n: int)
    ensures
        0 <= n <= 60000 ==> {
            let v = FieldModel::Int(n);
            &&& instrument_field(p, "attack"@, v) == Ok::<Patch, Seq<char>>(
                Patch { attack_ms: n as u16, ..p },
            )
            &&& instrument_field(p, "decay"@, v) == Ok::<Patch, Seq<char>>(
                Patch { decay_ms: n as u16, ..p },
            )
            &&& instrument_field(p, "release"@, v) == Ok::<Patch, Seq<char>>(
                Patch { release_ms: n as u16, ..p },
            )
            &&& instrument_field(p, "pitch_decay"@, v) == Ok::<Patch, Seq<char>>(
                Patch { pitch_decay_ms: n as u16, ..p },
            )
        },
        !(0 <= n <= 60000) ==> {
            let v = FieldModel::Int(n);
            &&& instrument_field(p, "attack"@, v) is Err
            &&& instrument_field(p, "decay"@, v) is Err
            &&& instrument_field(p, "release"@, v) is Err
            &&& instrument_field(p, "pitch_decay"@, v) is Err
        },
{
    lemma_instrument_keys_differ();
}

/// Each level of an instrument has a key of its own, from 0 to 255. The key sets
/// that level and leaves the rest of the instrument alone.
#[verifier::rlimit(40)]
pub proof fn law_each_level_has_its_key(p: Patch, n: int)
    ensures
        0 <= n <= 255 ==> {
            let v = FieldModel::Int(n);
            &&& instrument_field(p, "sustain"@, v) == Ok::<Patch, Seq<char>>(
                Patch { sustain: n as u8, ..p },
            )
            &&& instrument_field(p, "cutoff"@, v) == Ok::<Patch, Seq<char>>(
                Patch { cutoff: n as u8, ..p },
            )
            &&& instrument_field(p, "resonance"@, v) == Ok::<Patch, Seq<char>>(
                Patch { resonance: n as u8, ..p },
            )
            &&& instrument_field(p, "distortion"@, v) == Ok::<Patch, Seq<char>>(
                Patch { distortion: n as u8, ..p },
            )
            &&& instrument_field(p, "volume"@, v) == Ok::<Patch, Seq<char>>(
                Patch { volume: n as u8, ..p },
            )
            &&& instrument_field(p, "chorus"@, v) == Ok::<Patch, Seq<char>>(
                Patch { chorus: n as u8, ..p },
            )
            &&& instrument_field(p, "reverb"@, v) == Ok::<Patch, Seq<char>>(
                Patch { reverb: n as u8, ..p },
            )
        },
        !(0 <= n <= 255) ==> {
            let v = FieldModel::Int(n);
            &&& instrument_field(p, "sustain"@, v) is Err
            &&& instrument_field(p, "cutoff"@, v) is Err
            &&& instrument_field(p, "resonance"@, v) is Err
            &&& instrument_field(p, "distortion"@, v) is Err
            &&& instrument_field(p, "volume"@, v) is Err
            &&& instrument_field(p, "chorus"@, v) is Err
            &&& instrument_field(p, "reverb"@, v) is Err
        },
{
    lemma_instrument_keys_differ();
}

/// The pitch envelope and the place in the stereo image go as far below zero as
/// above it.
pub proof fn law_pan_and_pitch_go_both_ways(p: Patch, n: int)
    ensures
        -127 <= n <= 127 ==> {
            let v = FieldModel::Int(n);
            &&& instrument_field(p, "pitch_env"@, v) == Ok::<Patch, Seq<char>>(
                Patch { pitch_env: n as i8, ..p },
            )
            &&& instrument_field(p, "pan"@, v) == Ok::<Patch, Seq<char>>(
                Patch { pan: n as i8, ..p },
            )
        },
        !(-127 <= n <= 127) ==> {
            let v = FieldModel::Int(n);
            &&& instrument_field(p, "pitch_env"@, v) is Err
            &&& instrument_field(p, "pan"@, v) is Err
        },
{
    lemma_instrument_keys_differ();
}

/// An instrument's oscillator and its filter are named, bare or quoted; the name
/// sets that one and leaves the rest of the instrument alone. A number is no
/// name.
pub proof fn law_wave_and_filter_are_named(p: Patch, name: Seq<char>, n: int)
    ensures
        instrument_field(p, "wave"@, FieldModel::Word(name)) matches Ok(q) ==> {
            &&& wave_named(name) == Some(q.wave)
            &&& q == (Patch { wave: q.wave, ..p })
        },
        instrument_field(p, "wave"@, FieldModel::Word(name)) is Ok <==> wave_named(name) is Some,
        instrument_field(p, "filter"@, FieldModel::Word(name)) matches Ok(q) ==> {
            &&& filter_named(name) == Some(q.filter)
            &&& q == (Patch { filter: q.filter, ..p })
        },
        instrument_field(p, "filter"@, FieldModel::Word(name)) is Ok <==> filter_named(
            name,
        ) is Some,
        instrument_field(p, "wave"@, FieldModel::Text(name)) == instrument_field(
            p,
            "wave"@,
            FieldModel::Word(name),
        ),
        instrument_field(p, "filter"@, FieldModel::Text(name)) == instrument_field(
            p,
            "filter"@,
            FieldModel::Word(name),
        ),
        instrument_field(p, "wave"@, FieldModel::Int(n)) is Err,
        instrument_field(p, "filter"@, FieldModel::Int(n)) is Err,
{
    lemma_instrument_keys_differ();
}

/// Whatever key an `instrument` block is given twice, the later value is the one
/// that counts.
pub proof fn law_the_later_value_counts(p: Patch, key: Seq<char>, v: FieldModel, w: FieldModel)
    ensures
        instrument_field(p, key, v) matches Ok(q) ==> {
            &&& instrument_field(p, key, w) matches Ok(r) ==> instrument_field(q, key, w) == Ok::<
                Patch,
                Seq<char>,
            >(r)
            &&& instrument_field(p, key, w) matches Err(e) ==> instrument_field(q, key, w) == Err::<
                Patch,
                Seq<char>,
            >(e)
        },
{
}

/// A name of an oscillator, in capitals or not, is the oscillator's.
pub proof fn law_waves_by_name(name: Seq<char>)
    ensures
        lowercase(name) == "sine"@ ==> wave_named(name) == Some(Waveform::Sine),
        lowercase(name) == "triangle"@ ==> wave_named(name) == Some(Waveform::Triangle),
        lowercase(name) == "tri"@ ==> wave_named(name) == Some(Waveform::Triangle),
        lowercase(name) == "saw"@ ==> wave_named(name) == Some(Waveform::Saw),
        lowercase(name) == "square"@ ==> wave_named(name) == Some(Waveform::Square),
        lowercase(name) == "pulse"@ ==> wave_named(name) == Some(Waveform::Square),
        lowercase(name) == "noise"@ ==> wave_named(name) == Some(Waveform::Noise),
        wave_named(name) is Some ==> {
            let n = lowercase(name);
            n == "sine"@ || n == "triangle"@ || n == "tri"@ || n == "saw"@ || n == "square"@ || n
                == "pulse"@ || n == "noise"@
        },
{
    reveal_strlit("sine");
    reveal_strlit("triangle");
    reveal_strlit("tri");
    reveal_strlit("saw");
    reveal_strlit("square");
    reveal_strlit("pulse");
    reveal_strlit("noise");
    assert("sine"@.len() == 4 && "triangle"@.len() == 8 && "tri"@.len() == 3 && "saw"@.len() == 3
        && "square"@.len() == 6 && "pulse"@.len() == 5 && "noise"@.len() == 5);
    assert("tri"@[0] != "saw"@[0]);
    assert("pulse"@[0] != "noise"@[0]);
}

/// A name of a filter, in capitals or not, is the filter's.
pub proof fn law_filters_by_name(name: Seq<char>)
    ensures
        lowercase(name) == "off"@ ==> filter_named(name) == Some(FilterMode::Off),
        lowercase(name) == "none"@ ==> filter_named(name) == Some(FilterMode::Off),
        lowercase(name) == "lpf"@ ==> filter_named(name) == Some(FilterMode::Lpf),
        lowercase(name) == "lowpass"@ ==> filter_named(name) == Some(FilterMode::Lpf),
        lowercase(name) == "hpf"@ ==> filter_named(name) == Some(FilterMode::Hpf),
        lowercase(name) == "highpass"@ ==> filter_named(name) == Some(FilterMode::Hpf),
        filter_named(name) is Some ==> {
            let n = lowercase(name);
            n == "off"@ || n == "none"@ || n == "lpf"@ || n == "lowpass"@ || n == "hpf"@ || n
                == "highpass"@
        },
{
    reveal_strlit("off");
    reveal_strlit("none");
    reveal_strlit("lpf");
    reveal_strlit("lowpass");
    reveal_strlit("hpf");
    reveal_strlit("highpass");
    assert("off"@.len() == 3 && "none"@.len() == 4 && "lpf"@.len() == 3 && "lowpass"@.len() == 7
        && "hpf"@.len() == 3 && "highpass"@.len() == 8);
    assert("off"@[0] != "lpf"@[0]);
    assert("off"@[0] != "hpf"@[0]);
    assert("lpf"@[0] != "hpf"@[0]);
}

/// A row is a hold, a rest or a note number from 0 to 127, and nothing else.
pub proof fn law_a_row_is_a_note_a_hold_or_a_rest(word: Seq<char>, n: u8)
    ensures
        row_of(word) == Ok::<Row, Seq<char>>(Row::Hold) <==> word == "-"@,
        row_of(word) == Ok::<Row, Seq<char>>(Row::Rest) <==> word == "."@,
        row_of(word) == Ok::<Row, Seq<char>>(Row::Note(n)) <==> {
            &&& word != "-"@
            &&& word != "."@
            &&& signed_value(word) == Some(n as int)
            &&& n <= 127
        },
{
    reveal_strlit("-");
    reveal_strlit(".");
    assert("-"@[0] != "."@[0]);
}

/// A line of notes has a row for each of its words, in their order; it has no
/// more than 128, and no word that is no row.
pub proof fn law_a_line_has_a_row_for_each_word(src: Seq<char>)
    ensures
        match rows_in(src) {
            Ok(rows) => {
                &&& rows.len() == words(src).len()
                &&& rows.len() <= 128
                &&& forall|i: int|
                    0 <= i < rows.len() ==> row_of(#[trigger] words(src)[i]) == Ok::<
                        Row,
                        Seq<char>,
                    >(rows[i])
            },
            Err(_) => words(src).len() > 128 || exists|i: int|
                0 <= i < words(src).len() && row_of(#[trigger] words(src)[i]) is Err,
        },
{
    lemma_rows(Seq::empty(), words(src));
}

proof fn lemma_rows(done: Seq<Row>, rest: Seq<Seq<char>>)
    requires
        done.len() <= 128,
    ensures
        match super::fields::rows_of(done, rest) {
            Ok(rows) => {
                &&& rows.len() == done.len() + rest.len()
                &&& rows.len() <= 128
                &&& done.is_prefix_of(rows)
                &&& forall|i: int|
                    0 <= i < rest.len() ==> row_of(#[trigger] rest[i]) == Ok::<Row, Seq<char>>(
                        rows[done.len() + i],
                    )
            },
            Err(_) => done.len() + rest.len() > 128 || exists|i: int|
                0 <= i < rest.len() && row_of(#[trigger] rest[i]) is Err,
        },
    decreases rest.len(),
{
    if rest.len() > 0 && done.len() < 128 {
        match row_of(rest[0]) {
            Ok(row) => {
                let more = rest.drop_first();
                lemma_rows(done.push(row), more);
                match super::fields::rows_of(done.push(row), more) {
                    Ok(rows) => {
                        assert(rows[done.len() as int] == done.push(row)[done.len() as int]);
                        assert(done =~= rows.take(done.len() as int));
                        assert forall|i: int| 0 <= i < rest.len() implies row_of(
                            #[trigger] rest[i],
                        ) == Ok::<Row, Seq<char>>(rows[done.len() + i]) by {
                            if i > 0 {
                                assert(rest[i] == more[i - 1]);
                            }
                        }
                    },
                    Err(_) => {
                        if exists|i: int| 0 <= i < more.len() && row_of(#[trigger] more[i]) is Err {
                            let i = choose|i: int|
                                0 <= i < more.len() && row_of(#[trigger] more[i]) is Err;
                            assert(row_of(rest[i + 1]) is Err);
                        }
                    },
                }
            },
            Err(_) => {},
        }
    }
}

/// Each key of an `sfx` block sets its own field and leaves the others alone. An
/// instrument is given by its number, or by a name that stands for one.
pub proof fn law_each_sfx_key_sets_its_field(
    s: SfxModel,
    n: int,
    name: Seq<char>,
    id: Option<u8>,
)
    ensures
        0 <= n <= 255 ==> {
            &&& sfx_field(s, "inst"@, FieldModel::Int(n), id) == Ok::<SfxModel, Seq<char>>(
                SfxModel { inst: n as u8, ..s },
            )
            &&& sfx_field(s, "vel"@, FieldModel::Int(n), id) == Ok::<SfxModel, Seq<char>>(
                SfxModel { vel: n as u8, ..s },
            )
        },
        !(0 <= n <= 255) ==> {
            &&& sfx_field(s, "inst"@, FieldModel::Int(n), id) is Err
            &&& sfx_field(s, "vel"@, FieldModel::Int(n), id) is Err
        },
        1 <= n <= 255 ==> sfx_field(s, "speed"@, FieldModel::Int(n), id) == Ok::<
            SfxModel,
            Seq<char>,
        >(SfxModel { speed: n as u8, ..s }),
        !(1 <= n <= 255) ==> sfx_field(s, "speed"@, FieldModel::Int(n), id) is Err,
        id matches Some(i) ==> {
            &&& sfx_field(s, "inst"@, FieldModel::Word(name), id) == Ok::<SfxModel, Seq<char>>(
                SfxModel { inst: i, ..s },
            )
            &&& sfx_field(s, "inst"@, FieldModel::Text(name), id) == Ok::<SfxModel, Seq<char>>(
                SfxModel { inst: i, ..s },
            )
        },
        id is None ==> {
            &&& sfx_field(s, "inst"@, FieldModel::Word(name), id) is Err
            &&& sfx_field(s, "inst"@, FieldModel::Text(name), id) is Err
        },
        rows_in(name) matches Ok(rows) ==> sfx_field(s, "notes"@, FieldModel::Text(name), id)
            == Ok::<SfxModel, Seq<char>>(SfxModel { rows, ..s }),
        rows_in(name) matches Err(e) ==> sfx_field(s, "notes"@, FieldModel::Text(name), id)
            == Err::<SfxModel, Seq<char>>(e),
        sfx_field(s, "notes"@, FieldModel::Int(n), id) is Err,
{
    reveal_strlit("inst");
    reveal_strlit("speed");
    reveal_strlit("vel");
    reveal_strlit("notes");
    assert("inst"@.len() == 4 && "speed"@.len() == 5 && "vel"@.len() == 3 && "notes"@.len() == 5);
    assert("notes"@[0] != "speed"@[0]);
}

/// A `track` block's tempo, velocity and loop flag each have a key; every other
/// key is an instrument's, and adds a line of notes on it after those that were
/// there. A track has at most eight.
pub proof fn law_each_track_key_does_its_part(
    t: TrackModel,
    key: Seq<char>,
    n: int,
    text: Seq<char>,
    id: Option<u8>,
)
    ensures
        1 <= n <= 255 ==> track_field(t, "tempo"@, FieldModel::Int(n), id) == Ok::<
            TrackModel,
            Seq<char>,
        >(TrackModel { tempo: n as u8, ..t }),
        !(1 <= n <= 255) ==> track_field(t, "tempo"@, FieldModel::Int(n), id) is Err,
        0 <= n <= 255 ==> track_field(t, "vel"@, FieldModel::Int(n), id) == Ok::<
            TrackModel,
            Seq<char>,
        >(TrackModel { vel: n as u8, ..t }),
        !(0 <= n <= 255) ==> track_field(t, "vel"@, FieldModel::Int(n), id) is Err,
        track_field(t, "loop"@, FieldModel::Int(0), id) == Ok::<TrackModel, Seq<char>>(
            TrackModel { looping: false, ..t },
        ),
        track_field(t, "loop"@, FieldModel::Int(1), id) == Ok::<TrackModel, Seq<char>>(
            TrackModel { looping: true, ..t },
        ),
        n != 0 && n != 1 ==> track_field(t, "loop"@, FieldModel::Int(n), id) is Err,
        key != "tempo"@ && key != "vel"@ && key != "loop"@ ==> match track_field(
            t,
            key,
            FieldModel::Text(text),
            id,
        ) {
            Ok(u) => {
                &&& id is Some
                &&& t.channels.len() < 8
                &&& rows_in(text) matches Ok(rows) && u.channels == t.channels.push(
                    ChannelModel { inst: id->0, rows },
                )
                &&& u.tempo == t.tempo && u.vel == t.vel && u.looping == t.looping
            },
            Err(_) => id is None || rows_in(text) is Err || t.channels.len() >= 8,
        },
{
    reveal_strlit("tempo");
    reveal_strlit("vel");
    reveal_strlit("loop");
    assert("tempo"@.len() == 5 && "vel"@.len() == 3 && "loop"@.len() == 4);
}

/// Each key of an `fx` block sets its own field and leaves the others alone.
pub proof fn law_each_fx_key_sets_its_field(f: FxSettings, n: int)
    ensures
        0 <= n <= 255 ==> {
            let v = FieldModel::Int(n);
            &&& fx_field(f, "reverb_size"@, v) == Ok::<FxSettings, Seq<char>>(
                FxSettings { reverb_size: n as u8, ..f },
            )
            &&& fx_field(f, "reverb_damping"@, v) == Ok::<FxSettings, Seq<char>>(
                FxSettings { reverb_damping: n as u8, ..f },
            )
            &&& fx_field(f, "chorus_rate"@, v) == Ok::<FxSettings, Seq<char>>(
                FxSettings { chorus_rate: n as u8, ..f },
            )
            &&& fx_field(f, "chorus_depth"@, v) == Ok::<FxSettings, Seq<char>>(
                FxSettings { chorus_depth: n as u8, ..f },
            )
        },
        !(0 <= n <= 255) ==> {
            let v = FieldModel::Int(n);
            &&& fx_field(f, "reverb_size"@, v) is Err
            &&& fx_field(f, "reverb_damping"@, v) is Err
            &&& fx_field(f, "chorus_rate"@, v) is Err
            &&& fx_field(f, "chorus_depth"@, v) is Err
        },
{
    reveal_strlit("reverb_size");
    reveal_strlit("reverb_damping");
    reveal_strlit("chorus_rate");
    reveal_strlit("chorus_depth");
    assert("reverb_size"@.len() == 11 && "reverb_damping"@.len() == 14 && "chorus_rate"@.len() == 11
        && "chorus_depth"@.len() == 12);
    assert("reverb_size"@[0] != "chorus_rate"@[0]);
    let keys = key_views(FX_KEYS@);
    assert(keys[0] == "reverb_size"@ && keys[1] == "reverb_damping"@ && keys[2] == "chorus_rate"@
        && keys[3] == "chorus_depth"@);
}

/// An effect asks which instrument a name stands for, and only then; a track
/// asks it of every key that is not one of its own.
pub proof fn law_which_keys_ask_for_an_instrument(key: Seq<char>, v: FieldModel)
    ensures
        asks_instrument(key, v) <==> key == "inst"@ && (v is Word || v is Text),
        is_channel_key("tempo"@) == false,
        is_channel_key("vel"@) == false,
        is_channel_key("loop"@) == false,
        key != "tempo"@ && key != "vel"@ && key != "loop"@ ==> is_channel_key(key),
{
}

/// A value that is out of range is told with its key, and with what was allowed.
pub proof fn law_a_value_out_of_range_is_told(p: Patch, n: int)
    ensures
        !(0 <= n <= 60000) ==> instrument_field(p, "release"@, FieldModel::Int(n)) == Err::<
            Patch,
            Seq<char>,
        >(outside("release"@, n, 0, 60000)),
        !(0 <= n <= 255) ==> instrument_field(p, "sustain"@, FieldModel::Int(n)) == Err::<
            Patch,
            Seq<char>,
        >(outside("sustain"@, n, 0, 255)),
        !(-127 <= n <= 127) ==> instrument_field(p, "pan"@, FieldModel::Int(n)) == Err::<
            Patch,
            Seq<char>,
        >(outside("pan"@, n, -127, 127)),
        outside("pan"@, n, -127, 127) == "'"@ + "pan"@ + "' is "@ + decimal_int(n) + ", outside "@
            + decimal_int(-127) + "..="@ + decimal_int(127),
{
    lemma_instrument_keys_differ();
}

/// A number where a name is wanted is refused, and so is a name where a number
/// is; the key is told.
pub proof fn law_a_value_of_the_wrong_kind_is_told(key: Seq<char>, n: int, name: Seq<char>)
    ensures
        FieldModel::Int(n).number(key) == Ok::<int, Seq<char>>(n),
        FieldModel::Word(name).number(key) == Err::<int, Seq<char>>(
            "'"@ + key + "' expects a number"@,
        ),
        FieldModel::Text(name).number(key) == Err::<int, Seq<char>>(
            "'"@ + key + "' expects a number"@,
        ),
        FieldModel::Int(n).word(key) == Err::<Seq<char>, Seq<char>>(
            "'"@ + key + "' expects a name"@,
        ),
        FieldModel::Word(name).word(key) == Ok::<Seq<char>, Seq<char>>(name),
        FieldModel::Text(name).word(key) == Ok::<Seq<char>, Seq<char>>(name),
{
}

} // verus!
