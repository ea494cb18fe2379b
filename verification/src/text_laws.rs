//! What holds of every text: how numbers are written and read, and how a text
//! falls into words and pieces.

use crate::text::{
    all_digits, decimal, decimal_int, digits_value, hex, joined, lower, pieces, signed_value,
    skip_white, skip_word, split_on, trimmed, unsigned_value, upper, white, white_end, words,
    words_from,
};
use vstd::prelude::*;

verus! {

/// A number is written in digits, with no zero before the first that counts, and
/// the digits read back as the number.
pub proof fn law_a_number_reads_back(n: nat)
    ensures
        decimal(n).len() > 0,
        all_digits(decimal(n)),
        digits_value(decimal(n)) == n,
        n > 0 ==> decimal(n)[0] != '0',
    decreases n,
{
    if n >= 10 {
        law_a_number_reads_back(n / 10);
        assert(decimal(n).drop_last() =~= decimal(n / 10));
    } else {
        assert(decimal(n).drop_last() =~= Seq::<char>::empty());
        assert(digits_value(Seq::<char>::empty()) == 0);
    }
}

/// Whatever sign a number is written with, it reads back as the number.
pub proof fn law_a_signed_number_reads_back(n: int)
    requires
        i64::MIN <= n <= i64::MAX,
    ensures
        signed_value(decimal_int(n)) == Some(n),
        n >= 0 ==> signed_value(seq!['+'] + decimal_int(n)) == Some(n),
{
    if n < 0 {
        let d = decimal((-n) as nat);
        law_a_number_reads_back((-n) as nat);
        assert((seq!['-'] + d).skip(1) =~= d);
    } else {
        let d = decimal(n as nat);
        law_a_number_reads_back(n as nat);
        assert((seq!['+'] + d).skip(1) =~= d);
        assert('0' <= d[0] <= '9');
    }
}

/// A number without a sign reads back where it is within the limit, and not
/// where it is past it.
pub proof fn law_an_unsigned_number_reads_back(n: nat, limit: int)
    ensures
        unsigned_value(decimal(n), limit) == (if n <= limit {
            Some(n as int)
        } else {
            None
        }),
        unsigned_value(seq!['-'] + decimal(n), limit) is None,
{
    law_a_number_reads_back(n);
    let d = decimal(n);
    assert('0' <= d[0] <= '9');
    let s = seq!['-'] + d;
    assert(s[0] == '-');
}

/// Nothing but digits, behind a sign or not, reads as a number.
pub proof fn law_only_digits_are_a_number(s: Seq<char>, limit: int, i: int)
    requires
        0 < i < s.len(),
        !('0' <= s[i] <= '9'),
    ensures
        signed_value(s) is None,
        unsigned_value(s, limit) is None,
{
    if signed_value(s) is Some || unsigned_value(s, limit) is Some {
        assert(s.skip(1)[i - 1] == s[i]);
    }
}

/// Put white space between two texts, and the words are those of the one and
/// then those of the other.
pub proof fn law_white_space_parts_words(a: Seq<char>, c: char, b: Seq<char>)
    requires
        white(c),
    ensures
        words(a.push(c) + b) == words(a) + words(b),
{
    lemma_words_before(a, c, b, 0);
}

/// A text without white space is one word, and an empty one is none.
pub proof fn law_a_text_without_white_space_is_a_word(s: Seq<char>)
    requires
        forall|i: int| 0 <= i < s.len() ==> !white(#[trigger] s[i]),
    ensures
        words(s) == (if s.len() == 0 {
            Seq::empty()
        } else {
            seq![s]
        }),
{
    lemma_skips(s, 0);
    if s.len() > 0 {
        lemma_skip_word(s, 0);
        let e = skip_word(s, 0);
        assert(e == s.len());
        lemma_skips(s, e);
        assert(skip_white(s, e) == e);
        assert(words_from(s, e) =~= Seq::empty());
        assert(s.subrange(0, e) =~= s);
        assert(words(s) =~= seq![s]);
    } else {
        assert(words(s) =~= Seq::empty());
    }
}

proof fn lemma_skips(s: Seq<char>, i: int)
    requires
        0 <= i <= s.len(),
    ensures
        i <= skip_white(s, i) <= s.len(),
        forall|j: int| i <= j < skip_white(s, i) ==> white(#[trigger] s[j]),
        skip_white(s, i) < s.len() ==> !white(s[skip_white(s, i)]),
    decreases s.len() - i,
{
    if i < s.len() && white(s[i]) {
        lemma_skips(s, i + 1);
    }
}

proof fn lemma_skip_word(s: Seq<char>, i: int)
    requires
        0 <= i <= s.len(),
    ensures
        i <= skip_word(s, i) <= s.len(),
        forall|j: int| i <= j < skip_word(s, i) ==> !white(#[trigger] s[j]),
        skip_word(s, i) < s.len() ==> white(s[skip_word(s, i)]),
    decreases s.len() - i,
{
    if i < s.len() && !white(s[i]) {
        lemma_skip_word(s, i + 1);
    }
}

/// Where the skips end does not depend on what follows, as long as they end.
proof fn lemma_skip_white_to(s: Seq<char>, i: int, e: int)
    requires
        0 <= i <= e <= s.len(),
        forall|j: int| i <= j < e ==> white(#[trigger] s[j]),
        e < s.len() ==> !white(s[e]),
    ensures
        skip_white(s, i) == e,
    decreases e - i,
{
    if i < e {
        lemma_skip_white_to(s, i + 1, e);
    }
}

proof fn lemma_skip_word_to(s: Seq<char>, i: int, e: int)
    requires
        0 <= i <= e <= s.len(),
        forall|j: int| i <= j < e ==> !white(#[trigger] s[j]),
        e < s.len() ==> white(s[e]),
    ensures
        skip_word(s, i) == e,
    decreases e - i,
{
    if i < e {
        lemma_skip_word_to(s, i + 1, e);
    }
}

/// The words from a place on are those of what is left there.
proof fn lemma_words_shift(a: Seq<char>, b: Seq<char>, i: int)
    requires
        0 <= i <= b.len(),
    ensures
        words_from(a + b, a.len() + i) == words_from(b, i),
    decreases b.len() - i,
{
    let s = a + b;
    let n = a.len();
    lemma_skips(b, i);
    let x = skip_white(b, i);
    assert forall|j: int| n + i <= j < n + x implies white(#[trigger] s[j]) by {
        assert(s[j] == b[j - n]);
    }
    lemma_skip_white_to(s, n + i, n + x);
    lemma_skip_word(b, x);
    let y = skip_word(b, x);
    assert forall|j: int| n + x <= j < n + y implies !white(#[trigger] s[j]) by {
        assert(s[j] == b[j - n]);
    }
    lemma_skip_word_to(s, n + x, n + y);
    if x < y {
        assert(s.subrange(n + x, n + y) =~= b.subrange(x, y));
        lemma_words_shift(a, b, y);
    }
}

proof fn lemma_words_before(a: Seq<char>, c: char, b: Seq<char>, i: int)
    requires
        0 <= i <= a.len(),
        white(c),
    ensures
        words_from(a.push(c) + b, i) == words_from(a, i) + words(b),
    decreases a.len() - i,
{
    let s = a.push(c) + b;
    lemma_skips(a, i);
    let x = skip_white(a, i);
    assert forall|j: int| 0 <= j < a.len() implies #[trigger] s[j] == a[j] by {}
    assert(s[a.len() as int] == c);
    if x < a.len() {
        lemma_skip_white_to(s, i, x);
        lemma_skip_word(a, x);
        let y = skip_word(a, x);
        lemma_skip_word_to(s, x, y);
        assert(s.subrange(x, y) =~= a.subrange(x, y));
        lemma_words_before(a, c, b, y);
        assert(words_from(s, i) =~= seq![a.subrange(x, y)] + words_from(a, y) + words(b));
    } else {
        // Only white space is left before `b`.
        lemma_skips(b, 0);
        let z = skip_white(b, 0);
        let n = a.len() + 1;
        assert forall|j: int| i <= j < n + z implies white(#[trigger] s[j]) by {
            if j >= n {
                assert(s[j] == b[j - n]);
            }
        }
        lemma_skip_white_to(s, i, n + z);
        lemma_skip_white_to(s, n as int, n + z);
        lemma_words_shift(a.push(c), b, 0);
        lemma_skip_word(a, x);
        assert(words_from(a, i) =~= Seq::empty());
        lemma_skip_word(s, n + z);
        assert(words_from(s, i) =~= words_from(s, n as int));
        assert(words_from(a, i) + words(b) =~= words(b));
    }
}

/// A text is cut at every place where the character stands, and only there: the
/// pieces of two texts with the character between are those of the one and then
/// those of the other.
pub proof fn law_a_text_is_cut_at_the_character(a: Seq<char>, c: char, b: Seq<char>)
    ensures
        split_on(a.push(c) + b, c) == split_on(a, c) + split_on(b, c),
{
    let s = a.push(c) + b;
    lemma_pieces_prefix(a, s, c, a.len() as int);
    let n = a.len() as int;
    assert(s[n] == c);
    assert(pieces(s, c, n + 1) =~= split_on(a, c).push(Seq::empty()));
    lemma_pieces_after(a, c, b, b.len() as int);
}

proof fn lemma_pieces_prefix(a: Seq<char>, s: Seq<char>, c: char, n: int)
    requires
        0 <= n <= a.len() <= s.len(),
        forall|i: int| 0 <= i < a.len() ==> a[i] == #[trigger] s[i],
    ensures
        pieces(a, c, n) == pieces(s, c, n),
        pieces(a, c, n).len() > 0,
    decreases n,
{
    if n > 0 {
        lemma_pieces_prefix(a, s, c, n - 1);
        assert(a[n - 1] == s[n - 1]);
    }
}

proof fn lemma_pieces_after(a: Seq<char>, c: char, b: Seq<char>, n: int)
    requires
        0 <= n <= b.len(),
    ensures
        pieces(a.push(c) + b, c, a.len() + 1 + n) == split_on(a, c) + pieces(b, c, n),
        pieces(b, c, n).len() > 0,
    decreases n,
{
    let s = a.push(c) + b;
    lemma_pieces_prefix(a, s, c, a.len() as int);
    if n > 0 {
        lemma_pieces_after(a, c, b, n - 1);
        assert(s[a.len() + n] == b[n - 1]);
        assert(pieces(s, c, a.len() + 1 + n) =~= split_on(a, c) + pieces(b, c, n));
    } else {
        assert(s[a.len() as int] == c);
        assert(pieces(s, c, (a.len() + 1) as int) =~= split_on(a, c) + pieces(b, c, 0));
    }
}

/// A text in which the character does not stand is one piece.
pub proof fn law_a_text_without_the_character_is_whole(s: Seq<char>, c: char)
    requires
        !s.contains(c),
    ensures
        split_on(s, c) == seq![s],
{
    lemma_whole(s, c, s.len() as int);
    assert(s.take(s.len() as int) =~= s);
}

proof fn lemma_whole(s: Seq<char>, c: char, n: int)
    requires
        !s.contains(c),
        0 <= n <= s.len(),
    ensures
        pieces(s, c, n) == seq![s.take(n)],
    decreases n,
{
    if n > 0 {
        lemma_whole(s, c, n - 1);
        assert(s.contains(s[n - 1]));
        assert(s.take(n - 1).push(s[n - 1]) =~= s.take(n));
        assert(pieces(s, c, n) =~= seq![s.take(n)]);
    } else {
        assert(s.take(0) =~= Seq::<char>::empty());
    }
}

/// Joined by the character it was cut at, a text is whole again.
pub proof fn law_joining_undoes_cutting(s: Seq<char>, c: char)
    ensures
        joined(split_on(s, c), seq![c]) == s,
{
    lemma_joined(s, c, s.len() as int);
    assert(s.take(s.len() as int) =~= s);
}

proof fn lemma_joined(s: Seq<char>, c: char, n: int)
    requires
        0 <= n <= s.len(),
    ensures
        pieces(s, c, n).len() > 0,
        joined(pieces(s, c, n), seq![c]) == s.take(n),
    decreases n,
{
    if n > 0 {
        lemma_joined(s, c, n - 1);
        let before = pieces(s, c, n - 1);
        let after = pieces(s, c, n);
        if s[n - 1] == c {
            assert(after.drop_last() =~= before);
            assert(joined(after, seq![c]) =~= s.take(n));
        } else {
            assert(after.drop_last() =~= before.drop_last());
            assert(after.last() == before.last().push(s[n - 1]));
            assert(joined(after, seq![c]) =~= joined(before, seq![c]).push(s[n - 1]));
            assert(s.take(n) =~= s.take(n - 1).push(s[n - 1]));
        }
    } else {
        assert(s.take(0) =~= Seq::<char>::empty());
    }
}

/// What is trimmed off a text is white space, and nothing white is left at its
/// ends.
pub proof fn law_trimming_takes_white_space_off(s: Seq<char>)
    ensures
        trimmed(s).len() > 0 ==> !white(trimmed(s)[0]) && !white(trimmed(s).last()),
        exists|a: int, b: int|
            {
                &&& 0 <= a <= b <= s.len()
                &&& trimmed(s) == #[trigger] s.subrange(a, b)
                &&& forall|i: int|
                    0 <= i < s.len() && !(a <= i < b) ==> white(#[trigger] s[i])
            },
{
    lemma_skips(s, 0);
    lemma_white_end(s, s.len() as int);
    let a = skip_white(s, 0);
    let b = white_end(s, s.len() as int);
    if a < b {
        assert(trimmed(s) == s.subrange(a, b));
    } else {
        assert(trimmed(s) =~= s.subrange(a, a));
        assert forall|i: int| 0 <= i < s.len() && !(a <= i < a) implies white(
            #[trigger] s[i],
        ) by {
            if i >= a {
                assert(b <= i);
            }
        }
    }
}

proof fn lemma_white_end(s: Seq<char>, n: int)
    requires
        0 <= n <= s.len(),
    ensures
        0 <= white_end(s, n) <= n,
        forall|i: int| white_end(s, n) <= i < n ==> white(#[trigger] s[i]),
        white_end(s, n) > 0 ==> !white(s[white_end(s, n) - 1]),
    decreases n,
{
    if n > 0 && white(s[n - 1]) {
        lemma_white_end(s, n - 1);
    }
}

/// Of the characters that a keyboard types, the space and the control characters
/// that move on a line or to another are white, and no other.
pub proof fn law_ascii_white_space(c: char)
    requires
        (c as u32) < 128,
    ensures
        white(c) <==> c == ' ' || c == '\t' || c == '\n' || c == '\r' || c as u32 == 11 || c as u32
            == 12,
{
}

/// Capitals and small letters stand for each other, and nothing else is changed.
pub proof fn law_letters_have_two_cases(c: char)
    ensures
        'A' <= c <= 'Z' ==> 'a' <= lower(c) <= 'z' && lower(c) as u32 - 'a' as u32 == c as u32
            - 'A' as u32 && upper(lower(c)) == c,
        'a' <= c <= 'z' ==> 'A' <= upper(c) <= 'Z' && upper(c) as u32 - 'A' as u32 == c as u32
            - 'a' as u32 && lower(upper(c)) == c,
        !('A' <= c <= 'Z') ==> lower(c) == c,
        !('a' <= c <= 'z') ==> upper(c) == c,
{
}

/// What a hexadecimal digit counts.
pub open spec fn hex_value_of(c: char) -> int {
    if '0' <= c <= '9' {
        c as u32 - '0' as u32
    } else {
        10 + (c as u32 - 'a' as u32)
    }
}

/// What hexadecimal digits count.
pub open spec fn hex_value(s: Seq<char>) -> int
    decreases s.len(),
{
    if s.len() == 0 {
        0
    } else {
        hex_value(s.drop_last()) * 16 + hex_value_of(s.last())
    }
}

/// As many hexadecimal digits as asked for, and they count what the number does
/// as far as they reach.
pub proof fn law_hex_digits_count_the_number(n: u64, k: nat)
    ensures
        hex(n, k).len() == k,
        forall|i: int|
            0 <= i < k ==> '0' <= #[trigger] hex(n, k)[i] <= '9' || 'a' <= hex(n, k)[i] <= 'f',
        n < vstd::arithmetic::power::pow(16, k) ==> hex_value(hex(n, k)) == n,
    decreases k,
{
    reveal(vstd::arithmetic::power::pow);
    if k > 0 {
        let j = (k - 1) as nat;
        law_hex_digits_count_the_number(n / 16, j);
        assert(hex(n, k).drop_last() =~= hex(n / 16, j));
        let d = n % 16;
        assert(hex_value_of(hex(n, k).last()) == d);
    }
}

} // verus!
