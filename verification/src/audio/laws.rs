//! What holds of every bank and of every source.

use super::bank::{
    at_least_one, empty_bank, hold_run, lemma_hold_run, name_id, name_position, note_frames,
    notes_before, BankModel, FxSettings, Row, SfxModel,
};
use super::fields::{
    filter_named, fx_field, instrument_field, key_views, rows_in, sfx_field, wave_named,
    FieldModel, FX_KEYS, INSTRUMENT_KEYS, SFX_KEYS,
};
use super::grammar::{
    after_trivia, before_block, block_at, declarations, declared, fx_of, lemma_block_at,
    lemma_declaration_progress, lemma_top_at, parsed, skipped, top_at, ErrorModel, Place, Top,
};
use super::patch::Patch;
use crate::text::{lowercase, words};
use vstd::prelude::*;

verus! {

/// A source of white space, commas and comments alone is an empty bank, with
/// nothing wrong with it.
pub proof fn law_an_empty_source_is_an_empty_bank(src: Seq<u8>)
    requires
        after_trivia(src, Place { i: 0, line: 1 }).i >= src.len(),
    ensures
        parsed(src) == (empty_bank(), Seq::<ErrorModel>::empty()),
{
}

/// Whether a bank goes on from another: what was declared stays, under the
/// same id.
pub open spec fn extends(after: BankModel, before: BankModel) -> bool {
    &&& before.instruments.is_prefix_of(after.instruments)
    &&& before.instrument_names.is_prefix_of(after.instrument_names)
    &&& before.sfx.is_prefix_of(after.sfx)
    &&& before.sfx_names.is_prefix_of(after.sfx_names)
    &&& before.tracks.is_prefix_of(after.tracks)
    &&& before.track_names.is_prefix_of(after.track_names)
}

/// What follows in a source takes back no declaration and no error: ids follow
/// declaration order, and errors accumulate.
pub proof fn law_declarations_and_errors_accumulate(
    src: Seq<u8>,
    p: Place,
    bank: BankModel,
    errors: Seq<ErrorModel>,
)
    requires
        p.i <= src.len(),
    ensures
        extends(declarations(src, p, bank, errors).0, bank),
        errors.is_prefix_of(declarations(src, p, bank, errors).1),
    decreases src.len() - p.i,
{
    let (top, q) = top_at(src, p);
    lemma_top_at(src, p);
    match top {
        Top::End => {},
        Top::Stray(c) => {
            let e = super::grammar::error(q.line, "unexpected '"@ + seq![c] + "'"@);
            law_declarations_and_errors_accumulate(src, q, bank, errors.push(e));
        },
        Top::Word(word) => {
            lemma_declaration_progress(src, p);
            if super::grammar::is_named_kind(word) {
                match top_at(src, q) {
                    (Top::Word(name), r) => {
                        let b = block_at(src, r, q.line);
                        match b.fields {
                            Some(fields) => {
                                let (next, more) = declared(bank, word, name, fields, q.line);
                                law_declarations_and_errors_accumulate(
                                    src,
                                    b.after,
                                    next,
                                    errors + b.errors + more,
                                );
                                lemma_prefixes(errors, b.errors, more);
                            },
                            None => {
                                law_declarations_and_errors_accumulate(
                                    src,
                                    b.after,
                                    bank,
                                    errors + b.errors,
                                );
                            },
                        }
                    },
                    (Top::Stray(c), r) => {
                        let e = super::grammar::error(q.line, "'"@ + word + "' needs a name"@);
                        law_declarations_and_errors_accumulate(
                            src,
                            skipped(src, before_block(c, r)),
                            bank,
                            errors.push(e),
                        );
                    },
                    (Top::End, _) => {},
                }
            } else if word == "fx"@ {
                let b = block_at(src, q, q.line);
                match b.fields {
                    Some(fields) => {
                        let (fx, more) = fx_of(bank.fx, fields);
                        law_declarations_and_errors_accumulate(
                            src,
                            b.after,
                            BankModel { fx, ..bank },
                            errors + b.errors + more,
                        );
                        lemma_prefixes(errors, b.errors, more);
                    },
                    None => {
                        law_declarations_and_errors_accumulate(
                            src,
                            b.after,
                            bank,
                            errors + b.errors,
                        );
                    },
                }
            } else {
                let e = super::grammar::error(
                    q.line,
                    "expected 'instrument' or 'sfx', found '"@ + word + "'"@,
                );
                law_declarations_and_errors_accumulate(
                    src,
                    skipped(src, q),
                    bank,
                    errors.push(e),
                );
            }
        },
    }
}

/// A declaration without its block is one more error, and what follows it is
/// read as if it had not been there; so is one whose name is missing.
pub proof fn law_a_broken_declaration_stops_nothing(
    src: Seq<u8>,
    p: Place,
    bank: BankModel,
    errors: Seq<ErrorModel>,
)
    requires
        p.i <= src.len(),
        top_at(src, p).0 matches Top::Word(word) && super::grammar::is_named_kind(word),
        match top_at(src, top_at(src, p).1) {
            (Top::Word(_), r) => block_at(src, r, top_at(src, p).1.line).fields is None,
            (Top::Stray(_), _) => true,
            (Top::End, _) => false,
        },
    ensures
        exists|e: ErrorModel, next: Place|
            p.i < next.i <= src.len() && #[trigger] declarations(src, next, bank, errors.push(e))
                == declarations(src, p, bank, errors),
{
    lemma_top_at(src, p);
    lemma_declaration_progress(src, p);
    let (top, q) = top_at(src, p);
    match top_at(src, q) {
        (Top::Word(_), r) => {
            let b = block_at(src, r, q.line);
            lemma_block_at(src, r, q.line);
            assert(errors + b.errors =~= errors.push(b.errors[0]));
            assert(declarations(src, b.after, bank, errors.push(b.errors[0])) == declarations(
                src,
                p,
                bank,
                errors,
            ));
        },
        (Top::Stray(c), r) => {
            let e = super::grammar::error(q.line, "'"@ + top->Word_0 + "' needs a name"@);
            assert(declarations(src, skipped(src, before_block(c, r)), bank, errors.push(e))
                == declarations(src, p, bank, errors));
        },
        (Top::End, _) => {},
    }
}

proof fn lemma_prefixes(a: Seq<ErrorModel>, b: Seq<ErrorModel>, c: Seq<ErrorModel>)
    ensures
        a.is_prefix_of(a + b + c),
{
    assert((a + b + c).take(a.len() as int) =~= a);
}

/// Names without a repeat are found at the place they were declared at.
pub proof fn law_ids_follow_declaration_order(names: Seq<Seq<char>>, k: int, max: int)
    requires
        names.no_duplicates(),
        0 <= k < names.len(),
        k <= max,
    ensures
        name_id(names, names[k], max) == Some(k),
{
    super::bank::lemma_name_position(names, names[k], 0);
    if let Some(j) = name_position(names, names[k], 0) {
        assert(names[j] == names[k]);
    }
}

/// A name that was not declared has no id.
pub proof fn law_an_undeclared_name_has_no_id(names: Seq<Seq<char>>, name: Seq<char>, max: int)
    requires
        !names.contains(name),
    ensures
        name_id(names, name, max) is None,
{
    super::bank::lemma_name_position(names, name, 0);
    if let Some(j) = name_position(names, name, 0) {
        assert(names[j] == name);
    }
}

/// The notes of an effect come one after the other and never overlap, and each
/// ends within the effect.
pub proof fn law_notes_never_overlap(s: SfxModel, k: int)
    requires
        s.frames() <= u32::MAX,
        0 <= k < s.notes().len(),
    ensures
        s.notes()[k].0 + s.notes()[k].2 <= s.frames(),
        forall|j: int|
            0 <= j < k ==> (#[trigger] s.notes()[j]).0 + s.notes()[j].2 <= s.notes()[k].0,
{
    lemma_notes(s, s.rows.len() as int);
}

proof fn lemma_notes(s: SfxModel, n: int)
    requires
        s.frames() <= u32::MAX,
        0 <= n <= s.rows.len(),
    ensures
        ({
            let per = at_least_one(s.speed);
            let notes = notes_before(s.rows, per, n);
            &&& forall|j: int, k: int|
                0 <= j < k < notes.len() ==> (#[trigger] notes[j]).0 + notes[j].2 <= (
                #[trigger] notes[k]).0
            &&& forall|k: int|
                0 <= k < notes.len() ==> (#[trigger] notes[k]).0 + notes[k].2 <= s.frames()
            &&& forall|k: int|
                0 <= k < notes.len() ==> (#[trigger] notes[k]).0 + notes[k].2 <= (n + hold_run(
                    s.rows,
                    n,
                )) * per
        }),
    decreases n,
{
    let per = at_least_one(s.speed);
    if n > 0 {
        lemma_notes(s, n - 1);
        lemma_hold_run(s.rows, n);
        lemma_hold_run(s.rows, n - 1);
        let before = notes_before(s.rows, per, n - 1);
        let h = hold_run(s.rows, n);
        let g = hold_run(s.rows, n - 1);
        assert(0 <= (n - 1) * per <= (n + h) * per <= s.rows.len() * per && (n - 1 + g) * per <= (n
            + h) * per && (n - 1) * per + (1 + h) * per == (n + h) * per) by (nonlinear_arith)
            requires
                1 <= n,
                0 <= h,
                n + h <= s.rows.len(),
                n - 1 + g <= n + h,
                per >= 1,
        ;
        if let Row::Note(note) = s.rows[n - 1] {
            assert(g == 0);
            assert(note_frames(s.rows, n - 1, per) <= (1 + h) * per);
        }
    }
}

/// Every key that the message about an unknown one offers is taken with some
/// value, and no other key is: the suggestion never drifts from what an
/// `instrument` block accepts.
pub proof fn law_instrument_keys_are_the_ones_offered(p: Patch, key: Seq<char>)
    ensures
        key_views(INSTRUMENT_KEYS@).contains(key) <==> exists|v: FieldModel|
            instrument_field(p, key, v) is Ok,
{
    let keys = key_views(INSTRUMENT_KEYS@);
    let zero = FieldModel::Int(0);
    let sine = FieldModel::Word("sine"@);
    let off = FieldModel::Word("off"@);
    reveal_strlit("sine");
    reveal_strlit("off");
    reveal_strlit("wave");
    reveal_strlit("filter");
    reveal_strlit("attack");
    reveal_strlit("decay");
    reveal_strlit("sustain");
    reveal_strlit("release");
    reveal_strlit("pitch_env");
    reveal_strlit("pitch_decay");
    assert("filter"@[0] != "attack"@[0]);
    assert(lowercase("sine"@) =~= "sine"@);
    assert(lowercase("off"@) =~= "off"@);
    assert(wave_named("sine"@) is Some);
    assert(filter_named("off"@) is Some);
    assert(keys.len() == 15);
    assert(keys[0] == "wave"@ && keys[1] == "attack"@ && keys[2] == "decay"@ && keys[3]
        == "sustain"@ && keys[4] == "release"@ && keys[5] == "pitch_env"@ && keys[6]
        == "pitch_decay"@ && keys[7] == "filter"@ && keys[8] == "cutoff"@ && keys[9]
        == "resonance"@ && keys[10] == "distortion"@ && keys[11] == "volume"@ && keys[12]
        == "pan"@ && keys[13] == "chorus"@ && keys[14] == "reverb"@);
    if keys.contains(key) {
        if key == "wave"@ {
            assert(instrument_field(p, key, sine) is Ok);
        } else if key == "filter"@ {
            assert(instrument_field(p, key, off) is Ok);
        } else {
            assert(instrument_field(p, key, zero) is Ok);
        }
    }
    if exists|v: FieldModel| instrument_field(p, key, v) is Ok {
        let i = if key == keys[0] {
            0int
        } else if key == keys[1] {
            1
        } else if key == keys[2] {
            2
        } else if key == keys[3] {
            3
        } else if key == keys[4] {
            4
        } else if key == keys[5] {
            5
        } else if key == keys[6] {
            6
        } else if key == keys[7] {
            7
        } else if key == keys[8] {
            8
        } else if key == keys[9] {
            9
        } else if key == keys[10] {
            10
        } else if key == keys[11] {
            11
        } else if key == keys[12] {
            12
        } else if key == keys[13] {
            13
        } else {
            14
        };
        assert(keys[i] == key);
    }
}

/// The keys that an `sfx` block offers are the ones it takes.
pub proof fn law_sfx_keys_are_the_ones_offered(s: SfxModel, key: Seq<char>)
    ensures
        key_views(SFX_KEYS@).contains(key) <==> exists|v: FieldModel, id: Option<u8>|
            sfx_field(s, key, v, id) is Ok,
{
    let keys = key_views(SFX_KEYS@);
    let one = FieldModel::Int(1);
    let nothing = FieldModel::Text(Seq::empty());
    assert(keys.len() == 4);
    assert(keys[0] == "inst"@ && keys[1] == "speed"@ && keys[2] == "vel"@ && keys[3] == "notes"@);
    reveal_strlit("inst");
    reveal_strlit("speed");
    reveal_strlit("vel");
    reveal_strlit("notes");
    assert("notes"@[0] != "speed"@[0]);
    assert(words(Seq::<char>::empty()).len() == 0);
    assert(rows_in(Seq::<char>::empty()) is Ok);
    if keys.contains(key) {
        if key == "notes"@ {
            assert(sfx_field(s, key, nothing, None) is Ok);
        } else {
            assert(sfx_field(s, key, one, None) is Ok);
        }
    }
    if exists|v: FieldModel, id: Option<u8>| sfx_field(s, key, v, id) is Ok {
        assert(key == keys[0] || key == keys[1] || key == keys[2] || key == keys[3]);
    }
}

/// The keys that an `fx` block offers are the ones it takes.
pub proof fn law_fx_keys_are_the_ones_offered(f: FxSettings, key: Seq<char>)
    ensures
        key_views(FX_KEYS@).contains(key) <==> exists|v: FieldModel| fx_field(f, key, v) is Ok,
{
    if key_views(FX_KEYS@).contains(key) {
        assert(fx_field(f, key, FieldModel::Int(0)) is Ok);
    }
}

/// A name whose place is past what an id can count has none.
pub proof fn law_an_id_is_only_so_large(names: Seq<Seq<char>>, k: int, max: int)
    requires
        names.no_duplicates(),
        0 <= k < names.len(),
        k > max,
    ensures
        name_id(names, names[k], max) is None,
{
    super::bank::lemma_name_position(names, names[k], 0);
}

} // verus!
