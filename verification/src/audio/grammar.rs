//! The text of a patch file: words, integers, `"..."`, braces, `=`, `,`, and
//! `--` comments, and the declarations that they spell.

use super::bank::{
    default_sfx, default_track, empty_bank, name_position, BankModel, FxSettings, Row, SfxDef,
    SfxModel, SoundBank, TrackDef, TrackModel, MAX_INSTRUMENTS, MAX_SFX, MAX_SFX_ROWS, MAX_TRACKS,
    MAX_TRACK_CHANNELS,
};
use super::fields::{
    answers, asks_instrument, fx_field, instrument_field, is_channel_key, row_of, rows_of,
    set_fx_field, set_instrument_field, set_sfx_field, set_track_field, sfx_field, told,
    track_field, FieldModel, OwnedValue,
};
use super::patch::{default_patch, Patch};
use crate::text::{
    chars_of, concat3, decimal, lossy_text, latin1, latin1_string, push_decimal, read_i64,
    same, signed_value, words,
};
use vstd::prelude::*;
use vstd::string::{StringExecFns, StringSliceAdditionalSpecFns};
use vstd::utf8::{
    decode_utf8, encode_utf8_valid_utf8, is_char_boundary,
    is_char_boundary_iff_not_is_continuation_byte, length_of_first_scalar, pop_first_scalar,
    valid_utf8, valid_utf8_split,
};

verus! {

/// A problem with a bank, with the line it was on.
#[derive(Debug, Clone, PartialEq, Eq)]
pub struct BankError {
    pub line: usize,
    pub message: String,
}

/// What a [`BankError`] says.
pub struct ErrorModel {
    pub line: nat,
    pub message: Seq<char>,
}

impl View for BankError {
    type V = ErrorModel;

    open spec fn view(&self) -> ErrorModel {
        ErrorModel { line: self.line as nat, message: self.message@ }
    }
}

/// What a list of errors says.
pub open spec fn error_views(v: Seq<BankError>) -> Seq<ErrorModel> {
    v.map_values(|e: BankError| e@)
}

/// A place in a source: a byte offset, and the line it is on.
pub struct Place {
    pub i: nat,
    pub line: nat,
}

pub open spec fn is_alpha(c: u8) -> bool {
    65 <= c <= 90 || 97 <= c <= 122
}

pub open spec fn is_digit(c: u8) -> bool {
    48 <= c <= 57
}

/// A word starts with a letter or an underscore.
pub open spec fn starts_word(c: u8) -> bool {
    is_alpha(c) || c == 95
}

/// A word goes on with letters, digits and underscores.
pub open spec fn in_word(c: u8) -> bool {
    is_alpha(c) || is_digit(c) || c == 95
}

/// ASCII white space within a line, or a comma.
pub open spec fn is_blank(c: u8) -> bool {
    c == 32 || c == 9 || c == 12 || c == 13 || c == 44
}

/// The first place from `i` on that ends a line, or the end.
pub open spec fn line_end(src: Seq<u8>, i: nat) -> nat
    decreases src.len() - i,
{
    if i < src.len() && src[i as int] != 10 {
        line_end(src, i + 1)
    } else {
        i
    }
}

/// The first place from `i` on that is not inside a word.
pub open spec fn word_end(src: Seq<u8>, i: nat) -> nat
    decreases src.len() - i,
{
    if i < src.len() && in_word(src[i as int]) {
        word_end(src, i + 1)
    } else {
        i
    }
}

/// The first place from `i` on that holds no digit.
pub open spec fn digits_end(src: Seq<u8>, i: nat) -> nat
    decreases src.len() - i,
{
    if i < src.len() && is_digit(src[i as int]) {
        digits_end(src, i + 1)
    } else {
        i
    }
}

/// The first place from `p` on that holds a quote, or the end.
pub open spec fn quote_end(src: Seq<u8>, p: Place) -> Place
    decreases src.len() - p.i,
{
    if p.i < src.len() && src[p.i as int] != 34 {
        if src[p.i as int] == 10 {
            quote_end(src, Place { i: p.i + 1, line: p.line + 1 })
        } else {
            quote_end(src, Place { i: p.i + 1, line: p.line })
        }
    } else {
        p
    }
}

/// Whether a comment starts here.
pub open spec fn comment_at(src: Seq<u8>, i: nat) -> bool {
    i + 1 < src.len() && src[i as int] == 45 && src[(i + 1) as int] == 45
}

/// The first place from `p` on that is neither white space, a comma nor inside
/// a comment.
pub open spec fn after_trivia(src: Seq<u8>, p: Place) -> Place
    decreases src.len() - p.i,
    via after_trivia_decreases
{
    if p.i >= src.len() {
        p
    } else if src[p.i as int] == 10 {
        after_trivia(src, Place { i: p.i + 1, line: p.line + 1 })
    } else if is_blank(src[p.i as int]) {
        after_trivia(src, Place { i: p.i + 1, line: p.line })
    } else if comment_at(src, p.i) {
        after_trivia(src, Place { i: line_end(src, p.i), line: p.line })
    } else {
        p
    }
}

pub proof fn lemma_ends(src: Seq<u8>, i: nat)
    requires
        i <= src.len(),
    ensures
        i <= line_end(src, i) <= src.len(),
        i <= word_end(src, i) <= src.len(),
        i <= digits_end(src, i) <= src.len(),
        i < src.len() && src[i as int] != 10 ==> i < line_end(src, i),
        i < src.len() && in_word(src[i as int]) ==> i < word_end(src, i),
    decreases src.len() - i,
{
    if i < src.len() {
        lemma_ends(src, i + 1);
    }
}

#[via_fn]
proof fn after_trivia_decreases(src: Seq<u8>, p: Place) {
    if p.i < src.len() {
        lemma_ends(src, p.i);
    }
}

pub proof fn lemma_quote_end(src: Seq<u8>, p: Place)
    requires
        p.i <= src.len(),
    ensures
        p.i <= quote_end(src, p).i <= src.len(),
    decreases src.len() - p.i,
{
    if p.i < src.len() && src[p.i as int] != 34 {
        if src[p.i as int] == 10 {
            lemma_quote_end(src, Place { i: p.i + 1, line: p.line + 1 });
        } else {
            lemma_quote_end(src, Place { i: p.i + 1, line: p.line });
        }
    }
}

pub proof fn lemma_after_trivia(src: Seq<u8>, p: Place)
    requires
        p.i <= src.len(),
    ensures
        p.i <= after_trivia(src, p).i <= src.len(),
    decreases src.len() - p.i,
{
    if p.i < src.len() {
        lemma_ends(src, p.i);
        if src[p.i as int] == 10 {
            lemma_after_trivia(src, Place { i: p.i + 1, line: p.line + 1 });
        } else if is_blank(src[p.i as int]) {
            lemma_after_trivia(src, Place { i: p.i + 1, line: p.line });
        } else if comment_at(src, p.i) {
            lemma_after_trivia(src, Place { i: line_end(src, p.i), line: p.line });
        }
    }
}

/// The text of `src[from..to]`, a byte a character.
pub open spec fn bytes_text(src: Seq<u8>, from: nat, to: nat) -> Seq<char> {
    latin1(src.subrange(from as int, to as int))
}

/// The value at `p`, if there is one, and the place after it.
pub open spec fn value_at(src: Seq<u8>, p: Place) -> (Option<FieldModel>, Place) {
    let q = after_trivia(src, p);
    if q.i >= src.len() {
        (None, q)
    } else {
        let c = src[q.i as int];
        if c == 34 {
            let e = quote_end(src, Place { i: q.i + 1, line: q.line });
            let text = decode_utf8(src.subrange((q.i + 1) as int, e.i as int));
            let after = if e.i < src.len() {
                e.i + 1
            } else {
                e.i
            };
            (Some(FieldModel::Text(text)), Place { i: after, line: e.line })
        } else if is_digit(c) || (c == 45 && q.i + 1 < src.len() && is_digit(src[(q.i + 1) as int])) {
            let e = digits_end(src, q.i + 1);
            let v = match signed_value(bytes_text(src, q.i, e)) {
                Some(n) => Some(FieldModel::Int(n)),
                None => None,
            };
            (v, Place { i: e, line: q.line })
        } else if starts_word(c) {
            let e = word_end(src, q.i);
            (Some(FieldModel::Word(bytes_text(src, q.i, e))), Place { i: e, line: q.line })
        } else {
            (None, q)
        }
    }
}

pub proof fn lemma_value_at(src: Seq<u8>, p: Place)
    requires
        p.i <= src.len(),
    ensures
        p.i <= value_at(src, p).1.i <= src.len(),
{
    lemma_after_trivia(src, p);
    let q = after_trivia(src, p);
    if q.i < src.len() {
        lemma_ends(src, q.i);
        lemma_ends(src, q.i + 1);
        lemma_quote_end(src, Place { i: q.i + 1, line: q.line });
    }
}

/// One `key = value` pair of a block, and the line its key is on.
pub struct Field {
    pub key: Seq<char>,
    pub value: FieldModel,
    pub line: nat,
}

/// What a block holds: its pairs (none where no block opens), what is wrong
/// with it, and the place after it.
pub struct Block {
    pub fields: Option<Seq<Field>>,
    pub errors: Seq<ErrorModel>,
    pub after: Place,
}

pub open spec fn error(line: nat, message: Seq<char>) -> ErrorModel {
    ErrorModel { line, message }
}

/// The rest of a block from `p` on, after `fields` and `errors`.
pub open spec fn entries(
    src: Seq<u8>,
    p: Place,
    open_line: nat,
    fields: Seq<Field>,
    errors: Seq<ErrorModel>,
) -> Block
    decreases src.len() - p.i,
    via entries_decreases
{
    let q = after_trivia(src, p);
    if q.i >= src.len() {
        Block {
            fields: Some(fields),
            errors: errors.push(error(open_line, "unclosed '{'"@)),
            after: q,
        }
    } else if src[q.i as int] == 125 {
        Block { fields: Some(fields), errors, after: Place { i: q.i + 1, line: q.line } }
    } else if !starts_word(src[q.i as int]) {
        let found = "expected a key, found '"@ + seq![src[q.i as int] as char] + "'"@;
        entries(
            src,
            Place { i: q.i + 1, line: q.line },
            open_line,
            fields,
            errors.push(error(q.line, found)),
        )
    } else {
        let w = word_end(src, q.i);
        let key = bytes_text(src, q.i, w);
        let r = after_trivia(src, Place { i: w, line: q.line });
        let assigned = r.i < src.len() && src[r.i as int] == 61;
        let s = if assigned {
            Place { i: r.i + 1, line: r.line }
        } else {
            r
        };
        let errors1 = if assigned {
            errors
        } else {
            errors.push(error(q.line, "expected '=' after '"@ + key + "'"@))
        };
        let (v, t) = value_at(src, s);
        match v {
            Some(value) => entries(
                src,
                t,
                open_line,
                fields.push(Field { key, value, line: q.line }),
                errors1,
            ),
            None => entries(
                src,
                t,
                open_line,
                fields,
                errors1.push(error(q.line, "'"@ + key + "' has no value"@)),
            ),
        }
    }
}

proof fn lemma_entry_progress(src: Seq<u8>, p: Place)
    requires
        p.i <= src.len(),
    ensures
        ({
            let q = after_trivia(src, p);
            q.i < src.len() && starts_word(src[q.i as int]) ==> {
                let w = word_end(src, q.i);
                let r = after_trivia(src, Place { i: w, line: q.line });
                &&& p.i <= q.i < w <= r.i <= src.len()
                &&& r.i <= value_at(src, r).1.i <= src.len()
                &&& r.i < src.len() ==> r.i < value_at(
                    src,
                    Place { i: r.i + 1, line: r.line },
                ).1.i <= src.len()
            }
        }),
{
    lemma_after_trivia(src, p);
    let q = after_trivia(src, p);
    if q.i < src.len() && starts_word(src[q.i as int]) {
        lemma_ends(src, q.i);
        let w = word_end(src, q.i);
        lemma_after_trivia(src, Place { i: w, line: q.line });
        let r = after_trivia(src, Place { i: w, line: q.line });
        lemma_value_at(src, r);
        if r.i < src.len() {
            lemma_value_at(src, Place { i: r.i + 1, line: r.line });
        }
    }
}

#[via_fn]
proof fn entries_decreases(
    src: Seq<u8>,
    p: Place,
    open_line: nat,
    fields: Seq<Field>,
    errors: Seq<ErrorModel>,
) {
    if p.i <= src.len() {
        lemma_after_trivia(src, p);
        lemma_entry_progress(src, p);
    }
}

/// The block that opens at `p`; `open_line` is where its declaration starts.
pub open spec fn block_at(src: Seq<u8>, p: Place, open_line: nat) -> Block {
    let q = after_trivia(src, p);
    if q.i < src.len() && src[q.i as int] == 123 {
        entries(
            src,
            Place { i: q.i + 1, line: q.line },
            open_line,
            Seq::empty(),
            Seq::empty(),
        )
    } else {
        Block { fields: None, errors: seq![error(q.line, "expected '{'"@)], after: q }
    }
}

pub proof fn lemma_entries(
    src: Seq<u8>,
    p: Place,
    open_line: nat,
    fields: Seq<Field>,
    errors: Seq<ErrorModel>,
)
    requires
        p.i <= src.len(),
    ensures
        ({
            let b = entries(src, p, open_line, fields, errors);
            &&& b.fields is Some
            &&& p.i <= b.after.i <= src.len()
        }),
    decreases src.len() - p.i,
{
    lemma_after_trivia(src, p);
    lemma_entry_progress(src, p);
    let q = after_trivia(src, p);
    if q.i >= src.len() || src[q.i as int] == 125 {
    } else if !starts_word(src[q.i as int]) {
        let found = "expected a key, found '"@ + seq![src[q.i as int] as char] + "'"@;
        lemma_entries(
            src,
            Place { i: q.i + 1, line: q.line },
            open_line,
            fields,
            errors.push(error(q.line, found)),
        );
    } else {
        let w = word_end(src, q.i);
        let key = bytes_text(src, q.i, w);
        let r = after_trivia(src, Place { i: w, line: q.line });
        let assigned = r.i < src.len() && src[r.i as int] == 61;
        let s = if assigned {
            Place { i: r.i + 1, line: r.line }
        } else {
            r
        };
        let errors1 = if assigned {
            errors
        } else {
            errors.push(error(q.line, "expected '=' after '"@ + key + "'"@))
        };
        let (v, t) = value_at(src, s);
        match v {
            Some(value) => {
                lemma_entries(
                    src,
                    t,
                    open_line,
                    fields.push(Field { key, value, line: q.line }),
                    errors1,
                );
            },
            None => {
                lemma_entries(
                    src,
                    t,
                    open_line,
                    fields,
                    errors1.push(error(q.line, "'"@ + key + "' has no value"@)),
                );
            },
        }
    }
}

pub proof fn lemma_block_at(src: Seq<u8>, p: Place, open_line: nat)
    requires
        p.i <= src.len(),
    ensures
        p.i <= block_at(src, p, open_line).after.i <= src.len(),
        block_at(src, p, open_line).fields is None ==> block_at(src, p, open_line).errors.len()
            == 1,
{
    lemma_after_trivia(src, p);
    let q = after_trivia(src, p);
    if q.i < src.len() && src[q.i as int] == 123 {
        lemma_entries(
            src,
            Place { i: q.i + 1, line: q.line },
            open_line,
            Seq::empty(),
            Seq::empty(),
        );
    }
}

/// The place after the brace that closes the `depth` blocks open at `p`, or the
/// end.
pub open spec fn closing(src: Seq<u8>, p: Place, depth: int) -> Place
    decreases src.len() - p.i,
{
    if p.i >= src.len() {
        p
    } else {
        let c = src[p.i as int];
        if c == 125 && depth == 1 {
            Place { i: p.i + 1, line: p.line }
        } else {
            let d = if c == 123 {
                depth + 1
            } else if c == 125 {
                depth - 1
            } else {
                depth
            };
            let line = if c == 10 {
                p.line + 1
            } else {
                p.line
            };
            closing(src, Place { i: p.i + 1, line }, d)
        }
    }
}

/// The place after the block that opens at `p`, or `p` itself (past white
/// space) where none does.
pub open spec fn skipped(src: Seq<u8>, p: Place) -> Place {
    let q = after_trivia(src, p);
    if q.i < src.len() && src[q.i as int] == 123 {
        closing(src, q, 0)
    } else {
        q
    }
}

pub proof fn lemma_closing(src: Seq<u8>, p: Place, depth: int)
    requires
        p.i <= src.len(),
    ensures
        p.i <= closing(src, p, depth).i <= src.len(),
    decreases src.len() - p.i,
{
    if p.i < src.len() {
        let c = src[p.i as int];
        let d = if c == 123 {
            depth + 1
        } else if c == 125 {
            depth - 1
        } else {
            depth
        };
        let line = if c == 10 {
            p.line + 1
        } else {
            p.line
        };
        lemma_closing(src, Place { i: p.i + 1, line }, d);
    }
}

/// What stands at the top level: nothing more, a word, or a character that has
/// no business being there.
pub enum Top {
    End,
    Word(Seq<char>),
    Stray(char),
}

/// The next thing at the top level from `p` on, and the place after it. That
/// place is on the line of the thing itself.
pub open spec fn top_at(src: Seq<u8>, p: Place) -> (Top, Place) {
    let q = after_trivia(src, p);
    if q.i >= src.len() {
        (Top::End, q)
    } else if starts_word(src[q.i as int]) {
        let w = word_end(src, q.i);
        (Top::Word(bytes_text(src, q.i, w)), Place { i: w, line: q.line })
    } else {
        (Top::Stray(src[q.i as int] as char), Place { i: q.i + 1, line: q.line })
    }
}

pub proof fn lemma_top_at(src: Seq<u8>, p: Place)
    requires
        p.i <= src.len(),
    ensures
        p.i <= top_at(src, p).1.i <= src.len(),
        !(top_at(src, p).0 is End) ==> p.i < top_at(src, p).1.i,
{
    lemma_after_trivia(src, p);
    lemma_ends(src, after_trivia(src, p).i);
}

/// The instrument that a block's pairs describe, and what is wrong with them.
pub open spec fn patch_of(fields: Seq<Field>) -> (Patch, Seq<ErrorModel>)
    decreases fields.len(),
{
    if fields.len() == 0 {
        (default_patch(), Seq::empty())
    } else {
        let (p, errors) = patch_of(fields.drop_last());
        let f = fields.last();
        match instrument_field(p, f.key, f.value) {
            Ok(q) => (q, errors),
            Err(e) => (p, errors.push(error(f.line, e))),
        }
    }
}

/// An instrument's id in a list of at most 256 names.
pub open spec fn resolve(names: Seq<Seq<char>>, name: Seq<char>) -> Option<u8> {
    match name_position(names, name, 0) {
        Some(i) => Some(i as u8),
        None => None,
    }
}

/// The effect that a block's pairs describe, and what is wrong with them.
pub open spec fn sfx_of(fields: Seq<Field>, names: Seq<Seq<char>>) -> (SfxModel, Seq<ErrorModel>)
    decreases fields.len(),
{
    if fields.len() == 0 {
        (default_sfx(), Seq::empty())
    } else {
        let (s, errors) = sfx_of(fields.drop_last(), names);
        let f = fields.last();
        let id = match f.value.word(f.key) {
            Ok(name) => resolve(names, name),
            Err(_) => None,
        };
        match sfx_field(s, f.key, f.value, id) {
            Ok(t) => (t, errors),
            Err(e) => (s, errors.push(error(f.line, e))),
        }
    }
}

/// The track that a block's pairs describe, and what is wrong with them.
pub open spec fn track_of(fields: Seq<Field>, names: Seq<Seq<char>>) -> (
    TrackModel,
    Seq<ErrorModel>,
)
    decreases fields.len(),
{
    if fields.len() == 0 {
        (default_track(), Seq::empty())
    } else {
        let (t, errors) = track_of(fields.drop_last(), names);
        let f = fields.last();
        match track_field(t, f.key, f.value, resolve(names, f.key)) {
            Ok(u) => (u, errors),
            Err(e) => (t, errors.push(error(f.line, e))),
        }
    }
}

/// The shared effects after a block's pairs, and what is wrong with them.
pub open spec fn fx_of(fx: FxSettings, fields: Seq<Field>) -> (FxSettings, Seq<ErrorModel>)
    decreases fields.len(),
{
    if fields.len() == 0 {
        (fx, Seq::empty())
    } else {
        let (g, errors) = fx_of(fx, fields.drop_last());
        let f = fields.last();
        match fx_field(g, f.key, f.value) {
            Ok(h) => (h, errors),
            Err(e) => (g, errors.push(error(f.line, e))),
        }
    }
}

/// That a bank is full.
pub open spec fn too_many(what: Seq<char>, limit: nat) -> Seq<char> {
    "too many "@ + what + " (limit "@ + decimal(limit) + ")"@
}

/// A bank after one more named declaration, and what is wrong with it.
pub open spec fn declared(
    bank: BankModel,
    kind: Seq<char>,
    name: Seq<char>,
    fields: Seq<Field>,
    line: nat,
) -> (BankModel, Seq<ErrorModel>) {
    if kind == "instrument"@ {
        let (patch, errors) = patch_of(fields);
        if bank.instruments.len() >= MAX_INSTRUMENTS {
            (bank, errors.push(error(line, too_many("instruments"@, MAX_INSTRUMENTS as nat))))
        } else if bank.instrument_names.contains(name) {
            (bank, errors.push(error(line, "duplicate instrument '"@ + name + "'"@)))
        } else {
            (
                BankModel {
                    instruments: bank.instruments.push(patch),
                    instrument_names: bank.instrument_names.push(name),
                    ..bank
                },
                errors,
            )
        }
    } else if kind == "sfx"@ {
        let (def, errors) = sfx_of(fields, bank.instrument_names);
        if bank.sfx.len() >= MAX_SFX {
            (bank, errors.push(error(line, too_many("sound effects"@, MAX_SFX as nat))))
        } else if bank.sfx_names.contains(name) {
            (bank, errors.push(error(line, "duplicate sfx '"@ + name + "'"@)))
        } else {
            (
                BankModel {
                    sfx: bank.sfx.push(def),
                    sfx_names: bank.sfx_names.push(name),
                    ..bank
                },
                errors,
            )
        }
    } else {
        let (def, errors) = track_of(fields, bank.instrument_names);
        if bank.tracks.len() >= MAX_TRACKS {
            (bank, errors.push(error(line, too_many("tracks"@, MAX_TRACKS as nat))))
        } else if bank.track_names.contains(name) {
            (bank, errors.push(error(line, "duplicate track '"@ + name + "'"@)))
        } else {
            (
                BankModel {
                    tracks: bank.tracks.push(def),
                    track_names: bank.track_names.push(name),
                    ..bank
                },
                errors,
            )
        }
    }
}

/// Whether a word starts a declaration that has a name.
pub open spec fn is_named_kind(word: Seq<char>) -> bool {
    word == "instrument"@ || word == "sfx"@ || word == "track"@
}

/// Where a declaration without a name goes on after the character `c` that
/// stands in the name's place: behind it, or at it where it opens a block.
pub open spec fn before_block(c: char, after: Place) -> Place {
    if c == '{' {
        Place { i: (after.i - 1) as nat, line: after.line }
    } else {
        after
    }
}

/// What the source says from `p` on, after `bank` and `errors`. A declaration
/// that is broken is reported, and what follows it is read all the same.
pub open spec fn declarations(
    src: Seq<u8>,
    p: Place,
    bank: BankModel,
    errors: Seq<ErrorModel>,
) -> (BankModel, Seq<ErrorModel>)
    decreases src.len() - p.i,
    via declarations_decreases
{
    let (top, q) = top_at(src, p);
    match top {
        Top::End => (bank, errors),
        Top::Stray(c) => declarations(
            src,
            q,
            bank,
            errors.push(error(q.line, "unexpected '"@ + seq![c] + "'"@)),
        ),
        Top::Word(word) => if is_named_kind(word) {
            match top_at(src, q) {
                (Top::Word(name), r) => {
                    let b = block_at(src, r, q.line);
                    match b.fields {
                        Some(fields) => {
                            let (next, more) = declared(bank, word, name, fields, q.line);
                            declarations(src, b.after, next, errors + b.errors + more)
                        },
                        None => declarations(src, b.after, bank, errors + b.errors),
                    }
                },
                (Top::Stray(c), r) => declarations(
                    src,
                    skipped(src, before_block(c, r)),
                    bank,
                    errors.push(error(q.line, "'"@ + word + "' needs a name"@)),
                ),
                (Top::End, _) => (
                    bank,
                    errors.push(error(q.line, "'"@ + word + "' needs a name"@)),
                ),
            }
        } else if word == "fx"@ {
            let b = block_at(src, q, q.line);
            match b.fields {
                Some(fields) => {
                    let (fx, more) = fx_of(bank.fx, fields);
                    declarations(src, b.after, BankModel { fx, ..bank }, errors + b.errors + more)
                },
                None => declarations(src, b.after, bank, errors + b.errors),
            }
        } else {
            declarations(
                src,
                skipped(src, q),
                bank,
                errors.push(
                    error(q.line, "expected 'instrument' or 'sfx', found '"@ + word + "'"@),
                ),
            )
        },
    }
}

pub proof fn lemma_declaration_progress(src: Seq<u8>, p: Place)
    requires
        p.i <= src.len(),
        !(top_at(src, p).0 is End),
    ensures
        ({
            let q = top_at(src, p).1;
            let r = top_at(src, q).1;
            &&& p.i < q.i <= r.i <= src.len()
            &&& q.i <= block_at(src, q, q.line).after.i <= src.len()
            &&& r.i <= block_at(src, r, q.line).after.i <= src.len()
            &&& q.i <= skipped(src, q).i <= src.len()
            &&& top_at(src, q).0 matches Top::Stray(c) ==> q.i <= skipped(
                src,
                before_block(c, r),
            ).i <= src.len()
        }),
{
    lemma_top_at(src, p);
    let q = top_at(src, p).1;
    lemma_top_at(src, q);
    let r = top_at(src, q).1;
    lemma_block_at(src, q, q.line);
    lemma_block_at(src, r, q.line);
    lemma_skipped(src, q);
    if let Top::Stray(c) = top_at(src, q).0 {
        lemma_skipped(src, before_block(c, r));
    }
}

proof fn lemma_skipped(src: Seq<u8>, p: Place)
    requires
        p.i <= src.len(),
    ensures
        p.i <= skipped(src, p).i <= src.len(),
{
    lemma_after_trivia(src, p);
    lemma_closing(src, after_trivia(src, p), 0);
}

#[via_fn]
proof fn declarations_decreases(
    src: Seq<u8>,
    p: Place,
    bank: BankModel,
    errors: Seq<ErrorModel>,
) {
    if p.i <= src.len() && !(top_at(src, p).0 is End) {
        lemma_declaration_progress(src, p);
    }
}

/// What a source says: its bank, and what is wrong with it.
pub open spec fn parsed(src: Seq<u8>) -> (BankModel, Seq<ErrorModel>) {
    declarations(src, Place { i: 0, line: 1 }, empty_bank(), Seq::empty())
}

/// One `key = value` pair, as read.
struct Pair {
    key: String,
    value: OwnedValue,
    line: usize,
}

spec fn pair_views(v: Seq<Pair>) -> Seq<Field> {
    v.map_values(|p: Pair| Field { key: p.key@, value: p.value@, line: p.line as nat })
}

/// A tokenizer for patch files.
struct Lexer<'a> {
    src: &'a [u8],
    i: usize,
    /// Lines that end before the cursor.
    newlines: usize,
}

fn alpha(c: u8) -> (r: bool)
    ensures
        r == is_alpha(c),
{
    (65 <= c && c <= 90) || (97 <= c && c <= 122)
}

fn decimal_digit(c: u8) -> (r: bool)
    ensures
        r == is_digit(c),
{
    48 <= c && c <= 57
}

/// One character between two texts.
fn around(before: &str, c: u8, after: &str) -> (r: String)
    ensures
        r@ == before@ + seq![c as char] + after@,
{
    let mut s = String::new();
    s.append(before);
    s.push(c as char);
    s.append(after);
    assert(s@ =~= before@ + seq![c as char] + after@);
    s
}

/// Add an error to a list.
fn report(errors: &mut Vec<BankError>, line: usize, message: String)
    ensures
        error_views(final(errors)@) == error_views(old(errors)@).push(
            error(line as nat, message@),
        ),
{
    errors.push(BankError { line, message });
    assert(error_views(errors@) =~= error_views(old(errors)@).push(error(line as nat, message@)));
}

impl<'a> Lexer<'a> {
    spec fn place(&self) -> Place {
        Place { i: self.i as nat, line: (self.newlines + 1) as nat }
    }

    /// The cursor is in the source, and no line is counted that is not there.
    spec fn wf(&self) -> bool {
        &&& self.i <= self.src@.len()
        &&& self.newlines <= self.i
        &&& valid_utf8(self.src@)
    }

    /// How many bytes before the cursor do not end a line.
    spec fn solid(&self) -> int {
        self.i - self.newlines
    }

    /// The line the cursor is on.
    fn line(&self) -> (r: usize)
        requires
            self.wf(),
            self.i < self.src@.len() || self.solid() > 0,
        ensures
            r == self.place().line,
    {
        let n: usize = self.src.len();
        assert(self.newlines < n);
        self.newlines + 1
    }

    fn skip_trivia(&mut self)
        requires
            old(self).wf(),
        ensures
            final(self).wf(),
            final(self).src == old(self).src,
            final(self).solid() >= old(self).solid(),
            final(self).place() == after_trivia(old(self).src@, old(self).place()),
    {
        while self.i < self.src.len()
            invariant_except_break
                self.wf(),
                self.src == old(self).src,
                self.solid() >= old(self).solid(),
                after_trivia(self.src@, self.place()) == after_trivia(
                    old(self).src@,
                    old(self).place(),
                ),
            ensures
                self.wf(),
                self.src == old(self).src,
                self.solid() >= old(self).solid(),
                self.place() == after_trivia(old(self).src@, old(self).place()),
            decreases self.src@.len() - self.i,
        {
            let c = self.src[self.i];
            if c == 10 {
                self.newlines += 1;
                self.i += 1;
            } else if c == 32 || c == 9 || c == 12 || c == 13 || c == 44 {
                self.i += 1;
            } else if c == 45 && self.i + 1 < self.src.len() && self.src[self.i + 1] == 45 {
                let ghost start = self.place();
                assert(comment_at(self.src@, start.i));
                proof {
                    lemma_ends(self.src@, start.i);
                }
                while self.i < self.src.len() && self.src[self.i] != 10
                    invariant
                        self.wf(),
                        self.src == old(self).src,
                        start.i <= self.i,
                        self.newlines + 1 == start.line,
                        self.solid() >= old(self).solid(),
                        line_end(self.src@, self.i as nat) == line_end(self.src@, start.i),
                    decreases self.src@.len() - self.i,
                {
                    self.i += 1;
                }
            } else {
                break;
            }
        }
    }

    /// Move to the end of the word at the cursor and give the word.
    fn word_here(&mut self) -> (r: String)
        requires
            old(self).wf(),
        ensures
            final(self).wf(),
            final(self).src == old(self).src,
            final(self).solid() >= old(self).solid(),
            final(self).newlines == old(self).newlines,
            final(self).i == word_end(old(self).src@, old(self).i as nat),
            r@ == bytes_text(old(self).src@, old(self).i as nat, final(self).i as nat),
    {
        let start: usize = self.i;
        while self.i < self.src.len() && (alpha(self.src[self.i]) || decimal_digit(
            self.src[self.i],
        ) || self.src[self.i] == 95)
            invariant
                self.wf(),
                self.src == old(self).src,
                self.solid() >= old(self).solid(),
                self.newlines == old(self).newlines,
                start <= self.i,
                word_end(self.src@, self.i as nat) == word_end(self.src@, start as nat),
            decreases self.src@.len() - self.i,
        {
            self.i += 1;
        }
        latin1_string(self.src, start, self.i)
    }

    /// The next thing at the top level: a word, or a character that has no
    /// business being there, with its line.
    fn next_top(&mut self) -> (r: Option<Result<(String, usize), (u8, usize)>>)
        requires
            old(self).wf(),
        ensures
            final(self).wf(),
            final(self).src == old(self).src,
            final(self).solid() >= old(self).solid(),
            final(self).place() == top_at(old(self).src@, old(self).place()).1,
            r is Some ==> final(self).solid() > 0,
            match r {
                None => top_at(old(self).src@, old(self).place()).0 is End,
                Some(Ok((word, line))) => top_at(old(self).src@, old(self).place()).0 == Top::Word(
                    word@,
                ) && line == final(self).place().line,
                Some(Err((c, line))) => top_at(old(self).src@, old(self).place()).0 == Top::Stray(
                    c as char,
                ) && line == final(self).place().line,
            },
    {
        self.skip_trivia();
        if self.i >= self.src.len() {
            return None;
        }
        let c = self.src[self.i];
        let line: usize = self.line();
        if alpha(c) || c == 95 {
            proof {
                lemma_ends(self.src@, self.i as nat);
            }
            let word = self.word_here();
            Some(Ok((word, line)))
        } else {
            self.i += 1;
            Some(Err((c, line)))
        }
    }

    fn value(&mut self) -> (r: Option<OwnedValue>)
        requires
            old(self).wf(),
        ensures
            final(self).wf(),
            final(self).src == old(self).src,
            final(self).solid() >= old(self).solid(),
            final(self).place() == value_at(old(self).src@, old(self).place()).1,
            match r {
                Some(v) => value_at(old(self).src@, old(self).place()).0 == Some(v@),
                None => value_at(old(self).src@, old(self).place()).0 is None,
            },
    {
        self.skip_trivia();
        if self.i >= self.src.len() {
            return None;
        }
        let c = self.src[self.i];
        if c == 34 {
            self.i += 1;
            let start: usize = self.i;
            let ghost from = self.place();
            while self.i < self.src.len() && self.src[self.i] != 34
                invariant
                    1 <= start,
                    self.src@[start - 1] == 34,
                    self.wf(),
                    self.src == old(self).src,
                    self.solid() >= old(self).solid(),
                    start <= self.i,
                    quote_end(self.src@, self.place()) == quote_end(self.src@, from),
                decreases self.src@.len() - self.i,
            {
                if self.src[self.i] == 10 {
                    self.newlines += 1;
                }
                self.i += 1;
            }
            proof {
                lemma_quoted(self.src@, start - 1, self.i as int);
            }
            let text = lossy_text(
                vstd::slice::slice_subrange(self.src, start, self.i),
            );
            if self.i < self.src.len() {
                self.i += 1;
            }
            return Some(OwnedValue::Text(text));
        }
        if decimal_digit(c) || (c == 45 && self.i + 1 < self.src.len() && decimal_digit(
            self.src[self.i + 1],
        )) {
            let start: usize = self.i;
            self.i += 1;
            while self.i < self.src.len() && decimal_digit(self.src[self.i])
                invariant
                    self.wf(),
                    self.src == old(self).src,
                    self.solid() >= old(self).solid(),
                    start < self.i,
                    self.newlines + 1 == after_trivia(old(self).src@, old(self).place()).line,
                    digits_end(self.src@, self.i as nat) == digits_end(
                        self.src@,
                        (start + 1) as nat,
                    ),
                decreases self.src@.len() - self.i,
            {
                self.i += 1;
            }
            let text = latin1_string(self.src, start, self.i);
            let chars = chars_of(text.as_str());
            return match read_i64(chars.as_slice()) {
                Some(n) => Some(OwnedValue::Int(n)),
                None => None,
            };
        }
        if alpha(c) || c == 95 {
            let word = self.word_here();
            return Some(OwnedValue::Word(word));
        }
        None
    }

    /// `{ key = value ... }`: the pairs, and the line each was on.
    fn block(&mut self, open_line: usize, errors: &mut Vec<BankError>) -> (r: Option<Vec<Pair>>)
        requires
            old(self).wf(),
            old(self).solid() > 0,
        ensures
            final(self).wf(),
            final(self).src == old(self).src,
            final(self).solid() >= old(self).solid(),
            ({
                let b = block_at(old(self).src@, old(self).place(), open_line as nat);
                &&& final(self).place() == b.after
                &&& error_views(final(errors)@) == error_views(old(errors)@) + b.errors
                &&& match r {
                    Some(v) => b.fields == Some(pair_views(v@)),
                    None => b.fields is None,
                }
            }),
    {
        let ghost before = error_views(errors@);
        self.skip_trivia();
        if self.i >= self.src.len() || self.src[self.i] != 123 {
            let line: usize = self.line();
            report(errors, line, "expected '{'".to_owned());
            assert(error_views(errors@) =~= before + seq![error(line as nat, "expected '{'"@)]);
            return None;
        }
        self.i += 1;
        let mut out: Vec<Pair> = Vec::new();
        let ghost b = block_at(old(self).src@, old(self).place(), open_line as nat);
        let ghost mut found: Seq<ErrorModel> = Seq::empty();
        assert(pair_views(out@) =~= Seq::empty());
        assert(before + found =~= before);
        loop
            invariant
                self.wf(),
                self.src == old(self).src,
                self.solid() >= old(self).solid(),
                before == error_views(old(errors)@),
                error_views(errors@) == before + found,
                b == block_at(old(self).src@, old(self).place(), open_line as nat),
                b == entries(self.src@, self.place(), open_line as nat, pair_views(out@), found),
            decreases self.src@.len() - self.i,
        {
            proof {
                lemma_after_trivia(self.src@, self.place());
                lemma_entry_progress(self.src@, self.place());
            }
            self.skip_trivia();
            if self.i >= self.src.len() {
                report(errors, open_line, "unclosed '{'".to_owned());
                assert(error_views(errors@) =~= before + found.push(
                    error(open_line as nat, "unclosed '{'"@),
                ));
                return Some(out);
            }
            let c = self.src[self.i];
            if c == 125 {
                self.i += 1;
                return Some(out);
            }
            let line: usize = self.line();
            if !(alpha(c) || c == 95) {
                let message = around("expected a key, found '", c, "'");
                proof {
                    found = found.push(error(line as nat, message@));
                }
                report(errors, line, message);
                assert(error_views(errors@) =~= before + found);
                self.i += 1;
                continue;
            }
            let key = self.word_here();
            self.skip_trivia();
            if self.i < self.src.len() && self.src[self.i] == 61 {
                self.i += 1;
            } else {
                let message = concat3("expected '=' after '", key.as_str(), "'");
                proof {
                    found = found.push(error(line as nat, message@));
                }
                report(errors, line, message);
                assert(error_views(errors@) =~= before + found);
            }
            match self.value() {
                Some(value) => {
                    let pair = Pair { key, value, line };
                    proof {
                        assert(pair_views(out@.push(pair)) =~= pair_views(out@).push(
                            Field { key: key@, value: value@, line: line as nat },
                        ));
                    }
                    out.push(pair);
                },
                None => {
                    let message = concat3("'", key.as_str(), "' has no value");
                    proof {
                        found = found.push(error(line as nat, message@));
                    }
                    report(errors, line, message);
                    assert(error_views(errors@) =~= before + found);
                },
            }
        }
    }

    /// Recovery: swallow a `{ ... }` if one starts here.
    fn skip_block(&mut self)
        requires
            old(self).wf(),
        ensures
            final(self).wf(),
            final(self).src == old(self).src,
            final(self).solid() >= old(self).solid(),
            final(self).place() == skipped(old(self).src@, old(self).place()),
    {
        self.skip_trivia();
        if self.i >= self.src.len() || self.src[self.i] != 123 {
            return;
        }
        let ghost from = self.place();
        let ghost start = self.i;
        let mut depth: usize = 0;
        while self.i < self.src.len()
            invariant_except_break
                self.wf(),
                self.src == old(self).src,
                self.solid() >= old(self).solid(),
                start <= self.i,
                depth <= self.i - start,
                self.i > start ==> depth > 0,
                self.i == start ==> self.src@[start as int] == 123,
                closing(self.src@, self.place(), depth as int) == closing(self.src@, from, 0),
            ensures
                self.wf(),
                self.src == old(self).src,
                self.solid() >= old(self).solid(),
                self.place() == closing(self.src@, from, 0),
            decreases self.src@.len() - self.i,
        {
            let c = self.src[self.i];
            if c == 123 {
                depth += 1;
            } else if c == 125 {
                if depth == 1 {
                    self.i += 1;
                    break;
                }
                depth -= 1;
            } else if c == 10 {
                self.newlines += 1;
            }
            self.i += 1;
        }
    }
}

/// What stands between a quote and the next, or the end, is text.
proof fn lemma_quoted(src: Seq<u8>, open: int, close: int)
    requires
        valid_utf8(src),
        0 <= open < close <= src.len(),
        src[open] == 34,
        close < src.len() ==> src[close] == 34,
    ensures
        valid_utf8(src.subrange(open + 1, close)),
{
    let n = src.len() as int;
    assert(is_char_boundary(src, open)) by {
        is_char_boundary_iff_not_is_continuation_byte(src, open);
    }
    valid_utf8_split(src, open);
    let from = src.subrange(open, n);
    assert(from[0] == 34);
    assert(length_of_first_scalar(from) == 1);
    let tail = pop_first_scalar(from);
    assert(valid_utf8(tail));
    assert(tail =~= src.subrange(open + 1, n));
    let k = close - (open + 1);
    if close < n {
        assert(tail[k] == 34);
        is_char_boundary_iff_not_is_continuation_byte(tail, k);
        valid_utf8_split(tail, k);
        assert(tail.subrange(0, k) =~= src.subrange(open + 1, close));
    } else {
        assert(tail =~= src.subrange(open + 1, close));
    }
}

/// Apply the pairs of an `instrument` block.
fn read_patch(fields: &Vec<Pair>, errors: &mut Vec<BankError>) -> (patch: Patch)
    ensures
        patch == patch_of(pair_views(fields@)).0,
        error_views(final(errors)@) == error_views(old(errors)@) + patch_of(pair_views(fields@)).1,
{
    let mut patch = Patch::default();
    let ghost all = pair_views(fields@);
    let mut k: usize = 0;
    assert(all.take(0) =~= Seq::empty());
    assert(error_views(errors@) =~= error_views(old(errors)@) + patch_of(all.take(0)).1);
    while k < fields.len()
        invariant
            k <= fields@.len(),
            all == pair_views(fields@),
            patch == patch_of(all.take(k as int)).0,
            error_views(errors@) == error_views(old(errors)@) + patch_of(all.take(k as int)).1,
        decreases fields@.len() - k,
    {
        let f = &fields[k];
        proof {
            assert(all.take(k + 1).drop_last() =~= all.take(k as int));
            assert(all.take(k + 1).last() == all[k as int]);
        }
        let r = set_instrument_field(&mut patch, f.key.as_str(), f.value.as_field());
        if let Err(message) = r {
            report(errors, f.line, message);
        }
        k += 1;
        assert(error_views(errors@) =~= error_views(old(errors)@) + patch_of(all.take(k as int)).1);
    }
    assert(all.take(all.len() as int) =~= all);
    patch
}

/// Apply the pairs of an `fx` block.
fn read_fx(fx: &mut FxSettings, fields: &Vec<Pair>, errors: &mut Vec<BankError>)
    ensures
        *final(fx) == fx_of(*old(fx), pair_views(fields@)).0,
        error_views(final(errors)@) == error_views(old(errors)@) + fx_of(
            *old(fx),
            pair_views(fields@),
        ).1,
{
    let ghost all = pair_views(fields@);
    let mut k: usize = 0;
    assert(all.take(0) =~= Seq::empty());
    assert(error_views(errors@) =~= error_views(old(errors)@) + fx_of(*fx, all.take(0)).1);
    while k < fields.len()
        invariant
            k <= fields@.len(),
            all == pair_views(fields@),
            *fx == fx_of(*old(fx), all.take(k as int)).0,
            error_views(errors@) == error_views(old(errors)@) + fx_of(
                *old(fx),
                all.take(k as int),
            ).1,
        decreases fields@.len() - k,
    {
        let f = &fields[k];
        proof {
            assert(all.take(k + 1).drop_last() =~= all.take(k as int));
            assert(all.take(k + 1).last() == all[k as int]);
        }
        let r = set_fx_field(fx, f.key.as_str(), f.value.as_field());
        if let Err(message) = r {
            report(errors, f.line, message);
        }
        k += 1;
        assert(error_views(errors@) =~= error_views(old(errors)@) + fx_of(
            *old(fx),
            all.take(k as int),
        ).1);
    }
    assert(all.take(all.len() as int) =~= all);
}

/// The id of an instrument, by its name.
fn resolve_name(bank: &SoundBank, name: &str) -> (r: Option<u8>)
    requires
        bank@.instrument_names.len() <= MAX_INSTRUMENTS,
    ensures
        r == resolve(bank@.instrument_names, name@),
{
    proof {
        super::bank::lemma_name_position(bank@.instrument_names, name@, 0);
    }
    bank.instrument_id(name)
}

/// Apply the pairs of an `sfx` block.
fn read_sfx(bank: &SoundBank, fields: &Vec<Pair>, errors: &mut Vec<BankError>) -> (def: SfxDef)
    requires
        bank@.instrument_names.len() <= MAX_INSTRUMENTS,
    ensures
        def@ == sfx_of(pair_views(fields@), bank@.instrument_names).0,
        error_views(final(errors)@) == error_views(old(errors)@) + sfx_of(
            pair_views(fields@),
            bank@.instrument_names,
        ).1,
{
    let mut def = SfxDef::default();
    let ghost all = pair_views(fields@);
    let ghost names = bank@.instrument_names;
    let find = |name: &str| -> (r: Option<u8>)
        ensures
            r == resolve(bank@.instrument_names, name@),
        { resolve_name(bank, name) };
    let mut k: usize = 0;
    assert(all.take(0) =~= Seq::empty());
    assert(error_views(errors@) =~= error_views(old(errors)@) + sfx_of(all.take(0), names).1);
    while k < fields.len()
        invariant
            k <= fields@.len(),
            all == pair_views(fields@),
            names == bank@.instrument_names,
            forall|name: &str| find.requires((name,)),
            forall|name: &str, r: Option<u8>|
                find.ensures((name,), r) ==> r == resolve(names, name@),
            def@ == sfx_of(all.take(k as int), names).0,
            error_views(errors@) == error_views(old(errors)@) + sfx_of(
                all.take(k as int),
                names,
            ).1,
        decreases fields@.len() - k,
    {
        let f = &fields[k];
        proof {
            assert(all.take(k + 1).drop_last() =~= all.take(k as int));
            assert(all.take(k + 1).last() == all[k as int]);
        }
        let v = f.value.as_field();
        let ghost before = def@;
        let r = set_sfx_field(&mut def, f.key.as_str(), v, &find);
        proof {
            let id = choose|id: Option<u8>|
                {
                    &&& #[trigger] answers(&find, asks_instrument(f.key@, v@), v.spelling(), id)
                    &&& match sfx_field(before, f.key@, v@, id) {
                        Ok(t) => r is Ok && def@ == t,
                        Err(e) => told(r) == Err::<(), Seq<char>>(e) && def@ == before,
                    }
                };
            assert(asks_instrument(f.key@, v@) ==> id == resolve(names, v.spelling()@));
        }
        if let Err(message) = r {
            report(errors, f.line, message);
        }
        k += 1;
        assert(error_views(errors@) =~= error_views(old(errors)@) + sfx_of(
            all.take(k as int),
            names,
        ).1);
    }
    assert(all.take(all.len() as int) =~= all);
    def
}

/// Apply the pairs of a `track` block.
fn read_track(bank: &SoundBank, fields: &Vec<Pair>, errors: &mut Vec<BankError>) -> (def: TrackDef)
    requires
        bank@.instrument_names.len() <= MAX_INSTRUMENTS,
    ensures
        def@ == track_of(pair_views(fields@), bank@.instrument_names).0,
        error_views(final(errors)@) == error_views(old(errors)@) + track_of(
            pair_views(fields@),
            bank@.instrument_names,
        ).1,
{
    let mut def = TrackDef::default();
    let ghost all = pair_views(fields@);
    let ghost names = bank@.instrument_names;
    let find = |name: &str| -> (r: Option<u8>)
        ensures
            r == resolve(bank@.instrument_names, name@),
        { resolve_name(bank, name) };
    let mut k: usize = 0;
    assert(all.take(0) =~= Seq::empty());
    assert(error_views(errors@) =~= error_views(old(errors)@) + track_of(all.take(0), names).1);
    while k < fields.len()
        invariant
            k <= fields@.len(),
            all == pair_views(fields@),
            names == bank@.instrument_names,
            forall|name: &str| find.requires((name,)),
            forall|name: &str, r: Option<u8>|
                find.ensures((name,), r) ==> r == resolve(names, name@),
            def@ == track_of(all.take(k as int), names).0,
            error_views(errors@) == error_views(old(errors)@) + track_of(
                all.take(k as int),
                names,
            ).1,
        decreases fields@.len() - k,
    {
        let f = &fields[k];
        proof {
            assert(all.take(k + 1).drop_last() =~= all.take(k as int));
            assert(all.take(k + 1).last() == all[k as int]);
        }
        let v = f.value.as_field();
        let key = f.key.as_str();
        let ghost before = def@;
        let r = set_track_field(&mut def, key, v, &find);
        proof {
            let id = choose|id: Option<u8>|
                {
                    &&& #[trigger] answers(&find, is_channel_key(key@), key, id)
                    &&& match track_field(before, key@, v@, id) {
                        Ok(t) => r is Ok && def@ == t,
                        Err(e) => told(r) == Err::<(), Seq<char>>(e) && def@ == before,
                    }
                };
            assert(is_channel_key(key@) ==> id == resolve(names, key@));
        }
        if let Err(message) = r {
            report(errors, f.line, message);
        }
        k += 1;
        assert(error_views(errors@) =~= error_views(old(errors)@) + track_of(
            all.take(k as int),
            names,
        ).1);
    }
    assert(all.take(all.len() as int) =~= all);
    def
}

/// An effect keeps to its limit.
pub open spec fn sfx_wf(s: SfxModel) -> bool {
    s.rows.len() <= MAX_SFX_ROWS
}

/// A track keeps to its limits.
pub open spec fn track_wf(t: TrackModel) -> bool {
    &&& t.channels.len() <= MAX_TRACK_CHANNELS
    &&& forall|k: int|
        0 <= k < t.channels.len() ==> (#[trigger] t.channels[k]).rows.len() <= MAX_SFX_ROWS
}

proof fn lemma_rows_of(done: Seq<Row>, rest: Seq<Seq<char>>)
    requires
        done.len() <= MAX_SFX_ROWS,
    ensures
        rows_of(done, rest) matches Ok(rows) ==> rows.len() <= MAX_SFX_ROWS,
    decreases rest.len(),
{
    if rest.len() > 0 && done.len() < MAX_SFX_ROWS {
        match row_of(rest[0]) {
            Ok(row) => lemma_rows_of(done.push(row), rest.drop_first()),
            Err(_) => {},
        }
    }
}

proof fn lemma_sfx_wf(fields: Seq<Field>, names: Seq<Seq<char>>)
    ensures
        sfx_wf(sfx_of(fields, names).0),
    decreases fields.len(),
{
    if fields.len() > 0 {
        lemma_sfx_wf(fields.drop_last(), names);
        let f = fields.last();
        if let Ok(text) = f.value.word(f.key) {
            lemma_rows_of(Seq::empty(), words(text));
        }
    }
}

proof fn lemma_track_wf(fields: Seq<Field>, names: Seq<Seq<char>>)
    ensures
        track_wf(track_of(fields, names).0),
    decreases fields.len(),
{
    if fields.len() > 0 {
        lemma_track_wf(fields.drop_last(), names);
        let f = fields.last();
        if let Ok(text) = f.value.word(f.key) {
            lemma_rows_of(Seq::empty(), words(text));
        }
    }
}

/// The three lists of a bank and the names beside them keep to their limits,
/// and no name occurs twice among its kind.
pub open spec fn bank_wf(bank: BankModel) -> bool {
    &&& forall|k: int| 0 <= k < bank.sfx.len() ==> sfx_wf(#[trigger] bank.sfx[k])
    &&& forall|k: int| 0 <= k < bank.tracks.len() ==> track_wf(#[trigger] bank.tracks[k])
    &&& bank.instruments.len() == bank.instrument_names.len() <= MAX_INSTRUMENTS
    &&& bank.sfx.len() == bank.sfx_names.len() <= MAX_SFX
    &&& bank.tracks.len() == bank.track_names.len() <= MAX_TRACKS
    &&& bank.instrument_names.no_duplicates()
    &&& bank.sfx_names.no_duplicates()
    &&& bank.track_names.no_duplicates()
}

proof fn lemma_declared_wf(
    bank: BankModel,
    kind: Seq<char>,
    name: Seq<char>,
    fields: Seq<Field>,
    line: nat,
)
    requires
        bank_wf(bank),
    ensures
        bank_wf(declared(bank, kind, name, fields, line).0),
{
    lemma_sfx_wf(fields, bank.instrument_names);
    lemma_track_wf(fields, bank.instrument_names);
}

fn say_too_many(what: &str, limit: usize) -> (r: String)
    ensures
        r@ == too_many(what@, limit as nat),
{
    let mut s = concat3("too many ", what, " (limit ");
    push_decimal(&mut s, limit as u64);
    s.append(")");
    s
}

proof fn lemma_known(names: Seq<Seq<char>>, name: Seq<char>)
    ensures
        names.contains(name) <==> name_position(names, name, 0) is Some,
{
    super::bank::lemma_name_position(names, name, 0);
}

/// Add one named declaration to a bank.
fn declare(
    bank: &mut SoundBank,
    kind: &str,
    name: &str,
    fields: &Vec<Pair>,
    line: usize,
    errors: &mut Vec<BankError>,
)
    requires
        bank_wf(old(bank)@),
    ensures
        ({
            let d = declared(old(bank)@, kind@, name@, pair_views(fields@), line as nat);
            &&& final(bank)@ == d.0
            &&& error_views(final(errors)@) == error_views(old(errors)@) + d.1
        }),
        bank_wf(final(bank)@),
{
    let ghost d = declared(bank@, kind@, name@, pair_views(fields@), line as nat);
    proof {
        lemma_declared_wf(bank@, kind@, name@, pair_views(fields@), line as nat);
    }
    if same(kind, "instrument") {
        proof {
            lemma_known(bank@.instrument_names, name@);
            super::bank::lemma_name_position(bank@.instrument_names, name@, 0);
        }
        let patch = read_patch(fields, errors);
        if bank.instruments.len() >= MAX_INSTRUMENTS {
            report(errors, line, say_too_many("instruments", MAX_INSTRUMENTS));
        } else if bank.instrument_id(name).is_some() {
            report(errors, line, concat3("duplicate instrument '", name, "'"));
        } else {
            bank.add_instrument(name, patch);
        }
    } else if same(kind, "sfx") {
        proof {
            lemma_known(bank@.sfx_names, name@);
            super::bank::lemma_name_position(bank@.sfx_names, name@, 0);
        }
        let def = read_sfx(bank, fields, errors);
        if bank.sfx.len() >= MAX_SFX {
            report(errors, line, say_too_many("sound effects", MAX_SFX));
        } else if bank.sfx_id(name).is_some() {
            report(errors, line, concat3("duplicate sfx '", name, "'"));
        } else {
            bank.add_sfx(name, def);
        }
    } else {
        proof {
            lemma_known(bank@.track_names, name@);
            super::bank::lemma_name_position(bank@.track_names, name@, 0);
        }
        let def = read_track(bank, fields, errors);
        if bank.tracks.len() >= MAX_TRACKS {
            report(errors, line, say_too_many("tracks", MAX_TRACKS));
        } else if bank.track_id(name).is_some() {
            report(errors, line, concat3("duplicate track '", name, "'"));
        } else {
            bank.add_track(name, def);
        }
    }
    assert(error_views(errors@) =~= error_views(old(errors)@) + d.1);
}

/// Parse a standalone patch file into a bank.
///
/// Errors accumulate: a file with three mistakes reports three. A declaration
/// that is broken is reported, and what follows it is read all the same.
pub fn parse(src: &str) -> (r: (SoundBank, Vec<BankError>))
    ensures
        r.0@ == parsed(src.spec_bytes()).0,
        error_views(r.1@) == parsed(src.spec_bytes()).1,
        bank_wf(r.0@),
{
    let mut bank = SoundBank::default();
    let mut errors: Vec<BankError> = Vec::new();
    let mut lex = Lexer { src: src.as_bytes(), i: 0, newlines: 0 };
    let ghost all = src.spec_bytes();
    proof {
        encode_utf8_valid_utf8(src@);
    }
    assert(error_views(errors@) =~= Seq::empty());
    loop
        invariant_except_break
            lex.wf(),
            lex.src@ == all,
            bank_wf(bank@),
            parsed(all) == declarations(all, lex.place(), bank@, error_views(errors@)),
        ensures
            bank_wf(bank@),
            parsed(all) == (bank@, error_views(errors@)),
        decreases all.len() - lex.i,
    {
        let ghost start = lex.place();
        proof {
            lemma_top_at(all, start);
            if !(top_at(all, start).0 is End) {
                lemma_declaration_progress(all, start);
            }
        }
        let (word, line) = match lex.next_top() {
            Some(Ok((w, line))) => (w, line),
            Some(Err((c, line))) => {
                report(&mut errors, line, around("unexpected '", c, "'"));
                continue;
            },
            None => {
                break;
            },
        };
        let w = word.as_str();
        if same(w, "instrument") || same(w, "sfx") || same(w, "track") {
            let name = match lex.next_top() {
                Some(Ok((name, _))) => name,
                Some(Err((c, _))) => {
                    report(&mut errors, line, concat3("'", w, "' needs a name"));
                    if c == 123 {
                        lex.i -= 1;
                    }
                    lex.skip_block();
                    continue;
                },
                None => {
                    report(&mut errors, line, concat3("'", w, "' needs a name"));
                    break;
                },
            };
            let fields = match lex.block(line, &mut errors) {
                Some(f) => f,
                None => {
                    continue;
                },
            };
            declare(&mut bank, w, name.as_str(), &fields, line, &mut errors);
        } else if same(w, "fx") {
            let fields = match lex.block(line, &mut errors) {
                Some(f) => f,
                None => {
                    continue;
                },
            };
            read_fx(&mut bank.fx, &fields, &mut errors);
        } else {
            report(&mut errors, line, concat3("expected 'instrument' or 'sfx', found '", w, "'"));
            lex.skip_block();
        }
    }
    (bank, errors)
}

} // verus!
