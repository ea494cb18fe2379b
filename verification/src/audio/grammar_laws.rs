//! How a bank's source is read: its words, numbers and texts, the lines they
//! stand on, its blocks, and what each declaration adds.

use super::bank::{
    default_fx, default_sfx, default_track, empty_bank, name_position, BankModel, FxSettings,
};
use super::fields::{fx_field, instrument_field, sfx_field, track_field, FieldModel};
use super::filter::FilterMode;
use super::grammar::{
    after_trivia, block_at, bytes_text, closing, comment_at, declarations, declared, digits_end,
    entries, error, fx_of, in_word, is_blank, is_digit, lemma_after_trivia, lemma_ends,
    lemma_value_at, line_end, patch_of, quote_end, resolve, sfx_of, skipped, starts_word,
    too_many, top_at, track_of, value_at, word_end, ErrorModel, Field, Place, Top,
};
use super::patch::{default_patch, Patch, Waveform};
use crate::text::{decimal_int, latin1};
use crate::text_laws::{law_a_number_reads_back, law_a_signed_number_reads_back};
use vstd::prelude::*;
use vstd::utf8::decode_utf8;

verus! {

/// A word starts with a letter or an underscore, and goes on with these and
/// digits; spaces, tabs, page breaks, returns and commas part things, and so
/// does nothing else but the end of a line.
pub proof fn law_kinds_of_characters(c: u8)
    ensures
        starts_word(c) <==> 'a' <= c as char <= 'z' || 'A' <= c as char <= 'Z' || c as char == '_',
        in_word(c) <==> starts_word(c) || '0' <= c as char <= '9',
        is_digit(c) <==> '0' <= c as char <= '9',
        is_blank(c) <==> c as char == ' ' || c as char == '\t' || c as char == '\r' || c as char
            == ',' || c == 12,
{
}

/// How many lines end before a place.
pub open spec fn newlines(src: Seq<u8>, i: nat) -> nat
    decreases i,
{
    if i == 0 || i > src.len() {
        0
    } else {
        newlines(src, (i - 1) as nat) + (if src[i - 1] == 10 {
            1nat
        } else {
            0nat
        })
    }
}

/// Whether a place is in the source and its line is the one it stands on,
/// counted from one.
pub open spec fn on_its_line(src: Seq<u8>, p: Place) -> bool {
    p.i <= src.len() && p.line == 1 + newlines(src, p.i)
}

proof fn lemma_no_newlines(src: Seq<u8>, i: nat, j: nat)
    requires
        i <= j <= src.len(),
        forall|k: int| i <= k < j ==> src[k] != 10,
    ensures
        newlines(src, j) == newlines(src, i),
    decreases j,
{
    if i < j {
        lemma_no_newlines(src, i, (j - 1) as nat);
    }
}

proof fn lemma_runs(src: Seq<u8>, i: nat)
    requires
        i <= src.len(),
    ensures
        forall|k: int| i <= k < line_end(src, i) ==> src[k] != 10,
        forall|k: int| i <= k < word_end(src, i) ==> in_word(#[trigger] src[k]),
        forall|k: int| i <= k < digits_end(src, i) ==> is_digit(#[trigger] src[k]),
        line_end(src, i) < src.len() ==> src[line_end(src, i) as int] == 10,
        word_end(src, i) < src.len() ==> !in_word(src[word_end(src, i) as int]),
        digits_end(src, i) < src.len() ==> !is_digit(src[digits_end(src, i) as int]),
        i <= line_end(src, i) <= src.len(),
        i <= word_end(src, i) <= src.len(),
        i <= digits_end(src, i) <= src.len(),
    decreases src.len() - i,
{
    lemma_ends(src, i);
    if i < src.len() {
        lemma_runs(src, i + 1);
    }
}

/// What is skipped between two things keeps count of the lines.
pub proof fn law_skipping_counts_the_lines(src: Seq<u8>, p: Place)
    requires
        on_its_line(src, p),
    ensures
        on_its_line(src, after_trivia(src, p)),
    decreases src.len() - p.i,
{
    lemma_after_trivia(src, p);
    if p.i < src.len() {
        if src[p.i as int] == 10 {
            law_skipping_counts_the_lines(src, Place { i: p.i + 1, line: p.line + 1 });
        } else if is_blank(src[p.i as int]) {
            law_skipping_counts_the_lines(src, Place { i: p.i + 1, line: p.line });
        } else if comment_at(src, p.i) {
            lemma_runs(src, p.i);
            lemma_ends(src, p.i);
            lemma_no_newlines(src, p.i, line_end(src, p.i));
            law_skipping_counts_the_lines(src, Place { i: line_end(src, p.i), line: p.line });
        }
    }
}

proof fn lemma_quote_lines(src: Seq<u8>, p: Place)
    requires
        on_its_line(src, p),
    ensures
        on_its_line(src, quote_end(src, p)),
        quote_end(src, p).i < src.len() ==> src[quote_end(src, p).i as int] == 34,
    decreases src.len() - p.i,
{
    if p.i < src.len() && src[p.i as int] != 34 {
        if src[p.i as int] == 10 {
            lemma_quote_lines(src, Place { i: p.i + 1, line: p.line + 1 });
        } else {
            lemma_quote_lines(src, Place { i: p.i + 1, line: p.line });
        }
    }
}

/// Reading a value keeps count of the lines, those inside a text too.
pub proof fn law_a_value_counts_the_lines(src: Seq<u8>, p: Place)
    requires
        on_its_line(src, p),
    ensures
        on_its_line(src, value_at(src, p).1),
{
    law_skipping_counts_the_lines(src, p);
    let q = after_trivia(src, p);
    if q.i < src.len() {
        let c = src[q.i as int];
        if c == 34 {
            let start = Place { i: q.i + 1, line: q.line };
            lemma_quote_lines(src, start);
        } else if is_digit(c) || (c == 45 && q.i + 1 < src.len() && is_digit(
            src[(q.i + 1) as int],
        )) {
            lemma_runs(src, q.i + 1);
            lemma_no_newlines(src, q.i, digits_end(src, q.i + 1));
        } else if starts_word(c) {
            lemma_runs(src, q.i);
            lemma_no_newlines(src, q.i, word_end(src, q.i));
        }
    }
}

/// What stands at the top level is found on its line.
pub proof fn law_the_top_level_counts_the_lines(src: Seq<u8>, p: Place)
    requires
        on_its_line(src, p),
    ensures
        on_its_line(src, top_at(src, p).1),
{
    law_skipping_counts_the_lines(src, p);
    let q = after_trivia(src, p);
    if q.i < src.len() {
        lemma_trivia_done(src, p);
        if starts_word(src[q.i as int]) {
            lemma_runs(src, q.i);
            lemma_no_newlines(src, q.i, word_end(src, q.i));
        }
    }
}

/// What is skipped ends where something stands.
proof fn lemma_trivia_done(src: Seq<u8>, p: Place)
    requires
        p.i <= src.len(),
    ensures
        ({
            let q = after_trivia(src, p);
            q.i < src.len() ==> src[q.i as int] != 10 && !is_blank(src[q.i as int]) && !comment_at(
                src,
                q.i,
            )
        }),
    decreases src.len() - p.i,
{
    if p.i < src.len() {
        if src[p.i as int] == 10 {
            lemma_trivia_done(src, Place { i: p.i + 1, line: p.line + 1 });
        } else if is_blank(src[p.i as int]) {
            lemma_trivia_done(src, Place { i: p.i + 1, line: p.line });
        } else if comment_at(src, p.i) {
            lemma_ends(src, p.i);
            lemma_trivia_done(src, Place { i: line_end(src, p.i), line: p.line });
        }
    }
}

/// Reading a block, or skipping one, keeps count of the lines.
pub proof fn law_a_block_counts_the_lines(src: Seq<u8>, p: Place, open_line: nat)
    requires
        on_its_line(src, p),
    ensures
        on_its_line(src, block_at(src, p, open_line).after),
        on_its_line(src, skipped(src, p)),
{
    law_skipping_counts_the_lines(src, p);
    let q = after_trivia(src, p);
    if q.i < src.len() && src[q.i as int] == 123 {
        lemma_entries_lines(
            src,
            Place { i: q.i + 1, line: q.line },
            open_line,
            Seq::empty(),
            Seq::empty(),
        );
        lemma_closing_lines(src, q, 0);
    }
}

proof fn lemma_entries_lines(
    src: Seq<u8>,
    p: Place,
    open_line: nat,
    fields: Seq<Field>,
    errors: Seq<ErrorModel>,
)
    requires
        on_its_line(src, p),
    ensures
        on_its_line(src, entries(src, p, open_line, fields, errors).after),
        forall|i: int|
            0 <= i < fields.len() ==> entries(src, p, open_line, fields, errors).fields->0[i]
                == #[trigger] fields[i],
    decreases src.len() - p.i,
{
    law_skipping_counts_the_lines(src, p);
    lemma_after_trivia(src, p);
    lemma_trivia_done(src, p);
    let q = after_trivia(src, p);
    if q.i < src.len() && src[q.i as int] != 125 {
        if !starts_word(src[q.i as int]) {
            let found = "expected a key, found '"@ + seq![src[q.i as int] as char] + "'"@;
            lemma_entries_lines(
                src,
                Place { i: q.i + 1, line: q.line },
                open_line,
                fields,
                errors.push(error(q.line, found)),
            );
        } else {
            let w = word_end(src, q.i);
            lemma_runs(src, q.i);
            lemma_ends(src, q.i);
            lemma_no_newlines(src, q.i, w);
            let at = Place { i: w, line: q.line };
            law_skipping_counts_the_lines(src, at);
            lemma_after_trivia(src, at);
            let r = after_trivia(src, at);
            let key = bytes_text(src, q.i, w);
            let assigned = r.i < src.len() && src[r.i as int] == 61;
            let s = if assigned {
                Place { i: r.i + 1, line: r.line }
            } else {
                r
            };
            let errors1 = if assigned {
                errors
            } else {
                errors.push(error(q.line, "expected '=' after '"@ + key + "'"@))
            };
            law_a_value_counts_the_lines(src, s);
            lemma_value_at(src, s);
            let (v, t) = value_at(src, s);
            match v {
                Some(value) => {
                    let more = fields.push(Field { key, value, line: q.line });
                    lemma_entries_lines(src, t, open_line, more, errors1);
                    assert forall|i: int| 0 <= i < fields.len() implies entries(
                        src,
                        p,
                        open_line,
                        fields,
                        errors,
                    ).fields->0[i] == #[trigger] fields[i] by {
                        assert(more[i] == fields[i]);
                    }
                },
                None => {
                    lemma_entries_lines(
                        src,
                        t,
                        open_line,
                        fields,
                        errors1.push(error(q.line, "'"@ + key + "' has no value"@)),
                    );
                },
            }
        }
    }
}

proof fn lemma_closing_lines(src: Seq<u8>, p: Place, depth: int)
    requires
        on_its_line(src, p),
    ensures
        on_its_line(src, closing(src, p, depth)),
    decreases src.len() - p.i,
{
    if p.i < src.len() {
        let c = src[p.i as int];
        if !(c == 125 && depth == 1) {
            let d = if c == 123 {
                depth + 1
            } else if c == 125 {
                depth - 1
            } else {
                depth
            };
            let line = if c == 10 {
                p.line + 1
            } else {
                p.line
            };
            lemma_closing_lines(src, Place { i: p.i + 1, line }, d);
        }
    }
}

/// Blanks, ends of lines and comments change nothing: what follows is found as if
/// they were not there.
pub proof fn law_trivia_is_skipped(src: Seq<u8>, p: Place)
    requires
        p.i < src.len(),
    ensures
        is_blank(src[p.i as int]) ==> after_trivia(src, p) == after_trivia(
            src,
            Place { i: p.i + 1, line: p.line },
        ),
        src[p.i as int] == 10 ==> after_trivia(src, p) == after_trivia(
            src,
            Place { i: p.i + 1, line: p.line + 1 },
        ),
        comment_at(src, p.i) ==> after_trivia(src, p) == after_trivia(
            src,
            Place { i: line_end(src, p.i), line: p.line },
        ),
        comment_at(src, p.i) <==> p.i + 1 < src.len() && src[p.i as int] as char == '-' && src[(
        p.i + 1) as int] as char == '-',
        starts_word(src[p.i as int]) || is_digit(src[p.i as int]) || src[p.i as int] == 34
            || src[p.i as int] == 123 || src[p.i as int] == 125 || src[p.i as int] == 61
            ==> after_trivia(src, p) == p,
{
    if comment_at(src, p.i) {
        lemma_ends(src, p.i);
    }
}

/// A comment ends with its line.
pub proof fn law_a_comment_ends_with_its_line(src: Seq<u8>, i: nat, e: nat)
    requires
        i <= e <= src.len(),
        forall|k: int| i <= k < e ==> src[k] != 10,
        e < src.len() ==> src[e as int] == 10,
    ensures
        line_end(src, i) == e,
    decreases e - i,
{
    if i < e {
        law_a_comment_ends_with_its_line(src, i + 1, e);
    }
}

/// Whether a word stands at a place: as long as characters of a word go on.
pub open spec fn word_stands(src: Seq<u8>, i: nat, e: nat) -> bool {
    &&& i < e <= src.len()
    &&& starts_word(src[i as int])
    &&& forall|k: int| i <= k < e ==> in_word(#[trigger] src[k])
    &&& e < src.len() ==> !in_word(src[e as int])
}

proof fn lemma_word_to(src: Seq<u8>, i: nat, e: nat)
    requires
        i <= e <= src.len(),
        forall|k: int| i <= k < e ==> in_word(#[trigger] src[k]),
        e < src.len() ==> !in_word(src[e as int]),
    ensures
        word_end(src, i) == e,
    decreases e - i,
{
    if i < e {
        lemma_word_to(src, i + 1, e);
    }
}

proof fn lemma_digits_to(src: Seq<u8>, i: nat, e: nat)
    requires
        i <= e <= src.len(),
        forall|k: int| i <= k < e ==> is_digit(#[trigger] src[k]),
        e < src.len() ==> !is_digit(src[e as int]),
    ensures
        digits_end(src, i) == e,
    decreases e - i,
{
    if i < e {
        lemma_digits_to(src, i + 1, e);
    }
}

/// A word is read whole, at the top level and as a value.
pub proof fn law_a_word_is_read_whole(src: Seq<u8>, p: Place, e: nat)
    requires
        word_stands(src, p.i, e),
    ensures
        top_at(src, p) == (
            Top::Word(latin1(src.subrange(p.i as int, e as int))),
            Place { i: e, line: p.line },
        ),
        value_at(src, p) == (
            Some(FieldModel::Word(latin1(src.subrange(p.i as int, e as int)))),
            Place { i: e, line: p.line },
        ),
{
    law_trivia_is_skipped(src, p);
    lemma_word_to(src, p.i, e);
}

/// A number is read whole, with its sign.
pub proof fn law_a_number_is_read_whole(src: Seq<u8>, p: Place, e: nat, n: int)
    requires
        p.i <= e <= src.len(),
        i64::MIN <= n <= i64::MAX,
        latin1(src.subrange(p.i as int, e as int)) == decimal_int(n),
        e < src.len() ==> !is_digit(src[e as int]),
    ensures
        value_at(src, p) == (Some(FieldModel::Int(n)), Place { i: e, line: p.line }),
{
    let b = src.subrange(p.i as int, e as int);
    let t = decimal_int(n);
    law_a_signed_number_reads_back(n);
    assert(b.len() == t.len());
    assert forall|k: int| 0 <= k < b.len() implies b[k] as char == #[trigger] t[k] by {
        assert(latin1(b)[k] == t[k]);
    }
    if n < 0 {
        let d = crate::text::decimal((-n) as nat);
        law_a_number_reads_back((-n) as nat);
        assert(t =~= seq!['-'] + d);
        assert forall|k: int| p.i + 1 <= k < e implies is_digit(#[trigger] src[k]) by {
            assert(src[k] == b[k - p.i]);
            assert(t[k - p.i] == d[k - p.i - 1]);
        }
        assert(b[0] == src[p.i as int]);
        assert(t[0] == '-');
        assert(b[0] as char == '-');
        assert(b[0] == 45);
        assert(is_digit(src[(p.i + 1) as int]));
        assert(!comment_at(src, p.i));
        assert(after_trivia(src, p) == p);
    } else {
        law_a_number_reads_back(n as nat);
        assert forall|k: int| p.i <= k < e implies is_digit(#[trigger] src[k]) by {
            assert(src[k] == b[k - p.i]);
            assert('0' <= t[k - p.i] <= '9');
        }
        assert(is_digit(src[p.i as int]));
        law_trivia_is_skipped(src, p);
    }
    lemma_digits_to(src, p.i + 1, e);
}

/// A text is what stands between its quotes.
pub proof fn law_a_text_is_what_stands_in_quotes(src: Seq<u8>, p: Place, e: nat)
    requires
        on_its_line(src, p),
        p.i < e < src.len(),
        src[p.i as int] == 34,
        src[e as int] == 34,
        forall|k: int| p.i < k < e ==> src[k] != 34,
    ensures
        value_at(src, p).0 == Some(
            FieldModel::Text(decode_utf8(src.subrange((p.i + 1) as int, e as int))),
        ),
        value_at(src, p).1.i == e + 1,
{
    law_trivia_is_skipped(src, p);
    lemma_quote_to(src, Place { i: p.i + 1, line: p.line }, e);
}

proof fn lemma_quote_to(src: Seq<u8>, p: Place, e: nat)
    requires
        p.i <= e < src.len(),
        src[e as int] == 34,
        forall|k: int| p.i <= k < e ==> src[k] != 34,
    ensures
        quote_end(src, p).i == e,
    decreases e - p.i,
{
    if p.i < e {
        if src[p.i as int] == 10 {
            lemma_quote_to(src, Place { i: p.i + 1, line: p.line + 1 }, e);
        } else {
            lemma_quote_to(src, Place { i: p.i + 1, line: p.line }, e);
        }
    }
}

/// A key, a sign of equality and a value are a field: under the key, with the
/// value, on the key's line. Nothing is wrong with it, and reading goes on behind
/// it.
pub proof fn law_a_field_is_a_key_and_a_value(
    src: Seq<u8>,
    p: Place,
    w: nat,
    open_line: nat,
    fields: Seq<Field>,
    errors: Seq<ErrorModel>,
)
    requires
        word_stands(src, p.i, w),
        w < src.len(),
        src[w as int] == 61,
        value_at(src, Place { i: w + 1, line: p.line }).0 is Some,
    ensures
        ({
            let (v, t) = value_at(src, Place { i: w + 1, line: p.line });
            let f = Field {
                key: latin1(src.subrange(p.i as int, w as int)),
                value: v->0,
                line: p.line,
            };
            entries(src, p, open_line, fields, errors) == entries(
                src,
                t,
                open_line,
                fields.push(f),
                errors,
            )
        }),
{
    law_trivia_is_skipped(src, p);
    lemma_word_to(src, p.i, w);
    law_trivia_is_skipped(src, Place { i: w, line: p.line });
    lemma_after_trivia(src, p);
    lemma_value_at(src, Place { i: w + 1, line: p.line });
}

/// A key without a sign of equality still takes the value behind it, and one
/// without a value takes none; either is an error on the key's line, and reading
/// goes on.
pub proof fn law_a_broken_field_is_an_error(
    src: Seq<u8>,
    p: Place,
    w: nat,
    open_line: nat,
    fields: Seq<Field>,
    errors: Seq<ErrorModel>,
)
    requires
        word_stands(src, p.i, w),
    ensures
        ({
            let key = latin1(src.subrange(p.i as int, w as int));
            let r = after_trivia(src, Place { i: w, line: p.line });
            let bare = !(r.i < src.len() && src[r.i as int] == 61);
            let (v, t) = value_at(src, r);
            let e = error(p.line, "expected '=' after '"@ + key + "'"@);
            &&& bare && v is Some ==> entries(src, p, open_line, fields, errors) == entries(
                src,
                t,
                open_line,
                fields.push(Field { key, value: v->0, line: p.line }),
                errors.push(e),
            )
            &&& bare && v is None ==> entries(src, p, open_line, fields, errors) == entries(
                src,
                t,
                open_line,
                fields,
                errors.push(e).push(error(p.line, "'"@ + key + "' has no value"@)),
            )
        }),
{
    law_trivia_is_skipped(src, p);
    lemma_word_to(src, p.i, w);
    lemma_after_trivia(src, p);
    lemma_after_trivia(src, Place { i: w, line: p.line });
    lemma_value_at(src, after_trivia(src, Place { i: w, line: p.line }));
}

/// A block ends with its closing brace, and holds the fields so far; one that the
/// source ends in is said to be unclosed on the line it was opened on, and holds
/// them too.
pub proof fn law_a_block_ends_with_its_brace(
    src: Seq<u8>,
    p: Place,
    open_line: nat,
    fields: Seq<Field>,
    errors: Seq<ErrorModel>,
)
    requires
        p.i <= src.len(),
    ensures
        p.i < src.len() && src[p.i as int] == 125 ==> {
            let b = entries(src, p, open_line, fields, errors);
            &&& b.fields == Some(fields)
            &&& b.errors == errors
            &&& b.after == (Place { i: p.i + 1, line: p.line })
        },
        p.i == src.len() ==> {
            let b = entries(src, p, open_line, fields, errors);
            &&& b.fields == Some(fields)
            &&& b.errors == errors.push(error(open_line, "unclosed '{'"@))
            &&& b.after == p
        },
{
    if p.i < src.len() {
        law_trivia_is_skipped(src, p);
    }
}

/// A block starts with its opening brace, with no fields yet; without one there
/// is no block, and that is an error where it should have been.
pub proof fn law_a_block_starts_with_its_brace(src: Seq<u8>, p: Place, open_line: nat)
    requires
        p.i < src.len(),
    ensures
        src[p.i as int] == 123 ==> block_at(src, p, open_line) == entries(
            src,
            Place { i: p.i + 1, line: p.line },
            open_line,
            Seq::empty(),
            Seq::empty(),
        ),
        starts_word(src[p.i as int]) || is_digit(src[p.i as int]) || src[p.i as int] == 34
            || src[p.i as int] == 125 || src[p.i as int] == 61 ==> {
            let b = block_at(src, p, open_line);
            &&& b.fields is None
            &&& b.errors == seq![error(p.line, "expected '{'"@)]
            &&& b.after == p
        },
{
    law_trivia_is_skipped(src, p);
}

/// How deep a place is in braces, counted from another.
pub open spec fn depth_at(src: Seq<u8>, from: nat, i: nat) -> int
    decreases i,
{
    if i <= from || i > src.len() {
        0
    } else {
        depth_at(src, from, (i - 1) as nat) + (if src[i - 1] == 123 {
            1int
        } else if src[i - 1] == 125 {
            -1
        } else {
            0
        })
    }
}

/// A block that is not read is skipped up to the brace that closes it: the first
/// place at which as many were closed as were opened.
pub proof fn law_a_skipped_block_ends_with_its_brace(src: Seq<u8>, p: Place, e: nat)
    requires
        p.i < e <= src.len(),
        src[p.i as int] == 123,
        depth_at(src, p.i, e) == 0,
        forall|k: nat| p.i < k < e ==> #[trigger] depth_at(src, p.i, k) > 0,
    ensures
        skipped(src, p).i == e,
{
    law_trivia_is_skipped(src, p);
    lemma_closing_to(src, p, p.i, e);
}

proof fn lemma_closing_to(src: Seq<u8>, p: Place, from: nat, e: nat)
    requires
        from <= p.i < e <= src.len(),
        src[from as int] == 123,
        depth_at(src, from, e) == 0,
        forall|k: nat| from < k < e ==> #[trigger] depth_at(src, from, k) > 0,
    ensures
        closing(src, p, depth_at(src, from, p.i)).i == e,
    decreases e - p.i,
{
    let d = depth_at(src, from, p.i);
    let c = src[p.i as int];
    let next = depth_at(src, from, p.i + 1);
    assert(next == d + (if c == 123 {
        1int
    } else if c == 125 {
        -1
    } else {
        0
    }));
    if c == 125 && d == 1 {
        if p.i + 1 < e {
            assert(next > 0);
        }
    } else {
        let line = if c == 10 {
            p.line + 1
        } else {
            p.line
        };
        if p.i + 1 == e {
            assert(p.i > from ==> depth_at(src, from, p.i) > 0);
        }
        lemma_closing_to(src, Place { i: p.i + 1, line }, from, e);
    }
}

/// What an instrument is that its block says nothing of.
pub proof fn law_an_instrument_that_says_nothing()
    ensures
        default_patch() == (Patch {
            wave: Waveform::Triangle,
            attack_ms: 2,
            decay_ms: 60,
            sustain: 180,
            release_ms: 80,
            pitch_env: 0,
            pitch_decay_ms: 40,
            filter: FilterMode::Off,
            cutoff: 255,
            resonance: 0,
            distortion: 0,
            pan: 0,
            chorus: 0,
            reverb: 0,
            volume: 200,
        }),
        patch_of(Seq::empty()) == (default_patch(), Seq::<ErrorModel>::empty()),
{
}

/// What an effect, a track and the shared effects are that nothing is said of,
/// and what is in a bank that nothing is declared in.
pub proof fn law_what_says_nothing(names: Seq<Seq<char>>, fx: FxSettings)
    ensures
        default_sfx().inst == 0 && default_sfx().speed == 4 && default_sfx().vel == 255
            && default_sfx().rows.len() == 0,
        default_track().tempo == 4 && default_track().vel == 255 && default_track().looping
            && default_track().channels.len() == 0,
        default_fx() == (FxSettings {
            reverb_size: 128,
            reverb_damping: 128,
            chorus_rate: 40,
            chorus_depth: 80,
        }),
        sfx_of(Seq::empty(), names) == (default_sfx(), Seq::<ErrorModel>::empty()),
        track_of(Seq::empty(), names) == (default_track(), Seq::<ErrorModel>::empty()),
        fx_of(fx, Seq::empty()) == (fx, Seq::<ErrorModel>::empty()),
        empty_bank().fx == default_fx(),
        empty_bank().instruments.len() == 0 && empty_bank().sfx.len() == 0
            && empty_bank().tracks.len() == 0,
{
}

/// The fields of an instrument are applied in their order; one that is refused is
/// an error on its line, and changes nothing.
pub proof fn law_fields_are_applied_in_order(fields: Seq<Field>, f: Field)
    ensures
        ({
            let (p, errors) = patch_of(fields);
            match instrument_field(p, f.key, f.value) {
                Ok(q) => patch_of(fields.push(f)) == (q, errors),
                Err(e) => patch_of(fields.push(f)) == (p, errors.push(error(f.line, e))),
            }
        }),
{
    assert(fields.push(f).drop_last() =~= fields);
}

/// So are those of an effect, where a name stands for the instrument declared
/// under it.
pub proof fn law_an_effects_fields_are_applied_in_order(
    fields: Seq<Field>,
    f: Field,
    names: Seq<Seq<char>>,
    name: Seq<char>,
)
    ensures
        ({
            let (s, errors) = sfx_of(fields, names);
            let id = if f.value == FieldModel::Word(name) || f.value == FieldModel::Text(name) {
                resolve(names, name)
            } else {
                None
            };
            f.value is Int || f.value == FieldModel::Word(name) || f.value == FieldModel::Text(
                name,
            ) ==> match sfx_field(s, f.key, f.value, id) {
                Ok(t) => sfx_of(fields.push(f), names) == (t, errors),
                Err(e) => sfx_of(fields.push(f), names) == (s, errors.push(error(f.line, e))),
            }
        }),
{
    assert(fields.push(f).drop_last() =~= fields);
}

/// So are those of a track, where the key stands for the instrument declared
/// under it.
pub proof fn law_a_tracks_fields_are_applied_in_order(
    fields: Seq<Field>,
    f: Field,
    names: Seq<Seq<char>>,
)
    ensures
        ({
            let (t, errors) = track_of(fields, names);
            match track_field(t, f.key, f.value, resolve(names, f.key)) {
                Ok(u) => track_of(fields.push(f), names) == (u, errors),
                Err(e) => track_of(fields.push(f), names) == (t, errors.push(error(f.line, e))),
            }
        }),
{
    assert(fields.push(f).drop_last() =~= fields);
}

/// So are those of the shared effects, which go on from what they were.
pub proof fn law_shared_effects_are_set_in_order(fx: FxSettings, fields: Seq<Field>, f: Field)
    ensures
        ({
            let (g, errors) = fx_of(fx, fields);
            match fx_field(g, f.key, f.value) {
                Ok(h) => fx_of(fx, fields.push(f)) == (h, errors),
                Err(e) => fx_of(fx, fields.push(f)) == (g, errors.push(error(f.line, e))),
            }
        }),
{
    assert(fields.push(f).drop_last() =~= fields);
}

/// A name stands for the instrument that was declared under it, by its place
/// among them.
pub proof fn law_a_name_stands_for_its_instrument(names: Seq<Seq<char>>, k: int)
    requires
        0 <= k < names.len() <= 256,
        names.no_duplicates(),
    ensures
        resolve(names, names[k]) == Some(k as u8),
        forall|other: Seq<char>|
            !names.contains(other) ==> #[trigger] resolve(names, other) is None,
{
    super::bank::lemma_name_position(names, names[k], 0);
    assert forall|other: Seq<char>| !names.contains(other) implies #[trigger] resolve(
        names,
        other,
    ) is None by {
        super::bank::lemma_name_position(names, other, 0);
        if let Some(j) = name_position(names, other, 0) {
            assert(names.contains(names[j]));
        }
    }
}

proof fn lemma_kinds_differ()
    ensures
        "instrument"@ != "sfx"@,
        "instrument"@ != "track"@,
        "sfx"@ != "track"@,
        "fx"@ != "instrument"@ && "fx"@ != "sfx"@ && "fx"@ != "track"@,
{
    reveal_strlit("instrument");
    reveal_strlit("sfx");
    reveal_strlit("track");
    reveal_strlit("fx");
    assert("instrument"@.len() == 10 && "sfx"@.len() == 3 && "track"@.len() == 5 && "fx"@.len()
        == 2);
}

/// An instrument under a new name, where there is room, is added last and changes
/// nothing else; a name that is taken or one past 256 is one more error on its
/// line, and adds nothing.
pub proof fn law_an_instrument_is_added_under_its_name(
    bank: BankModel,
    name: Seq<char>,
    fields: Seq<Field>,
    line: nat,
)
    ensures
        ({
            let (after, errors) = declared(bank, "instrument"@, name, fields, line);
            let (patch, wrong) = patch_of(fields);
            let room = bank.instruments.len() < 256;
            let taken = bank.instrument_names.contains(name);
            &&& room && !taken ==> {
                &&& after.instruments == bank.instruments.push(patch)
                &&& after.instrument_names == bank.instrument_names.push(name)
                &&& after.sfx == bank.sfx && after.sfx_names == bank.sfx_names
                &&& after.tracks == bank.tracks && after.track_names == bank.track_names
                &&& after.fx == bank.fx
                &&& errors == wrong
            }
            &&& !room || taken ==> after == bank && errors.len() == wrong.len() + 1 && errors.take(
                wrong.len() as int,
            ) == wrong && errors.last().line == line
            &&& room && taken ==> errors.last().message == "duplicate instrument '"@ + name + "'"@
            &&& !room ==> errors.last().message == too_many("instruments"@, 256)
        }),
{
    let (after, errors) = declared(bank, "instrument"@, name, fields, line);
    let wrong = patch_of(fields).1;
    if errors.len() > wrong.len() {
        assert(errors.take(wrong.len() as int) =~= wrong);
    }
}

/// So is an effect, up to 1024 of them.
pub proof fn law_an_effect_is_added_under_its_name(
    bank: BankModel,
    name: Seq<char>,
    fields: Seq<Field>,
    line: nat,
)
    ensures
        ({
            let (after, errors) = declared(bank, "sfx"@, name, fields, line);
            let (def, wrong) = sfx_of(fields, bank.instrument_names);
            let room = bank.sfx.len() < 1024;
            let taken = bank.sfx_names.contains(name);
            &&& room && !taken ==> {
                &&& after.sfx == bank.sfx.push(def)
                &&& after.sfx_names == bank.sfx_names.push(name)
                &&& after.instruments == bank.instruments && after.instrument_names
                    == bank.instrument_names
                &&& after.tracks == bank.tracks && after.track_names == bank.track_names
                &&& after.fx == bank.fx
                &&& errors == wrong
            }
            &&& !room || taken ==> after == bank && errors.len() == wrong.len() + 1 && errors.take(
                wrong.len() as int,
            ) == wrong && errors.last().line == line
            &&& room && taken ==> errors.last().message == "duplicate sfx '"@ + name + "'"@
            &&& !room ==> errors.last().message == too_many("sound effects"@, 1024)
        }),
{
    lemma_kinds_differ();
    let (after, errors) = declared(bank, "sfx"@, name, fields, line);
    let wrong = sfx_of(fields, bank.instrument_names).1;
    if errors.len() > wrong.len() {
        assert(errors.take(wrong.len() as int) =~= wrong);
    }
}

/// So is a track, up to 256 of them.
pub proof fn law_a_track_is_added_under_its_name(
    bank: BankModel,
    name: Seq<char>,
    fields: Seq<Field>,
    line: nat,
)
    ensures
        ({
            let (after, errors) = declared(bank, "track"@, name, fields, line);
            let (def, wrong) = track_of(fields, bank.instrument_names);
            let room = bank.tracks.len() < 256;
            let taken = bank.track_names.contains(name);
            &&& room && !taken ==> {
                &&& after.tracks == bank.tracks.push(def)
                &&& after.track_names == bank.track_names.push(name)
                &&& after.instruments == bank.instruments && after.instrument_names
                    == bank.instrument_names
                &&& after.sfx == bank.sfx && after.sfx_names == bank.sfx_names
                &&& after.fx == bank.fx
                &&& errors == wrong
            }
            &&& !room || taken ==> after == bank && errors.len() == wrong.len() + 1 && errors.take(
                wrong.len() as int,
            ) == wrong && errors.last().line == line
            &&& room && taken ==> errors.last().message == "duplicate track '"@ + name + "'"@
            &&& !room ==> errors.last().message == too_many("tracks"@, 256)
        }),
{
    lemma_kinds_differ();
    let (after, errors) = declared(bank, "track"@, name, fields, line);
    let wrong = track_of(fields, bank.instrument_names).1;
    if errors.len() > wrong.len() {
        assert(errors.take(wrong.len() as int) =~= wrong);
    }
}

/// A kind, a name and a block are a declaration: it is added to the bank as its
/// kind, on the line its kind stands on, and what follows is read with it. So are
/// the shared effects, which have no name.
pub proof fn law_a_declaration_is_a_kind_a_name_and_a_block(
    src: Seq<u8>,
    p: Place,
    w: nat,
    n: Place,
    e: nat,
    bank: BankModel,
    errors: Seq<ErrorModel>,
)
    requires
        word_stands(src, p.i, w),
        n == after_trivia(src, Place { i: w, line: p.line }),
        word_stands(src, n.i, e),
    ensures
        ({
            let kind = latin1(src.subrange(p.i as int, w as int));
            let name = latin1(src.subrange(n.i as int, e as int));
            let b = block_at(src, Place { i: e, line: n.line }, p.line);
            let all = declarations(src, p, bank, errors);
            &&& kind == "instrument"@ || kind == "sfx"@ || kind == "track"@ ==> {
                &&& b.fields matches Some(fields) ==> all == declarations(
                    src,
                    b.after,
                    declared(bank, kind, name, fields, p.line).0,
                    errors + b.errors + declared(bank, kind, name, fields, p.line).1,
                )
                &&& b.fields is None ==> all == declarations(
                    src,
                    b.after,
                    bank,
                    errors + b.errors,
                )
            }
        }),
{
    law_a_word_is_read_whole(src, p, w);
    let q = Place { i: w, line: p.line };
    lemma_after_trivia(src, q);
    law_trivia_is_skipped(src, n);
    lemma_word_to(src, n.i, e);
    assert(top_at(src, q) == (
        Top::Word(latin1(src.subrange(n.i as int, e as int))),
        Place { i: e, line: n.line },
    ));
    super::grammar::lemma_block_at(src, Place { i: e, line: n.line }, p.line);
}

/// The shared effects are declared by a block without a name; what it says is
/// set on what they were.
pub proof fn law_shared_effects_are_declared_without_a_name(
    src: Seq<u8>,
    p: Place,
    w: nat,
    bank: BankModel,
    errors: Seq<ErrorModel>,
)
    requires
        word_stands(src, p.i, w),
        latin1(src.subrange(p.i as int, w as int)) == "fx"@,
    ensures
        ({
            let b = block_at(src, Place { i: w, line: p.line }, p.line);
            let all = declarations(src, p, bank, errors);
            &&& b.fields matches Some(fields) ==> all == declarations(
                src,
                b.after,
                BankModel { fx: fx_of(bank.fx, fields).0, ..bank },
                errors + b.errors + fx_of(bank.fx, fields).1,
            )
            &&& b.fields is None ==> all == declarations(src, b.after, bank, errors + b.errors)
        }),
{
    lemma_kinds_differ();
    law_a_word_is_read_whole(src, p, w);
    super::grammar::lemma_block_at(src, Place { i: w, line: p.line }, p.line);
}

/// A word that is no kind is an error on its line, and what it declares is
/// skipped.
pub proof fn law_an_unknown_kind_is_skipped(
    src: Seq<u8>,
    p: Place,
    w: nat,
    bank: BankModel,
    errors: Seq<ErrorModel>,
)
    requires
        word_stands(src, p.i, w),
    ensures
        ({
            let word = latin1(src.subrange(p.i as int, w as int));
            word != "instrument"@ && word != "sfx"@ && word != "track"@ && word != "fx"@
                ==> declarations(src, p, bank, errors) == declarations(
                src,
                skipped(src, Place { i: w, line: p.line }),
                bank,
                errors.push(
                    error(p.line, "expected 'instrument' or 'sfx', found '"@ + word + "'"@),
                ),
            )
        }),
{
    law_a_word_is_read_whole(src, p, w);
    super::grammar::lemma_declaration_progress(src, p);
}

} // verus!
