//! Strings as sequences of characters: comparison, case folding, splitting,
//! and the decimal notation of integers.

use vstd::prelude::*;
use vstd::string::{StringExecFns, StringSliceAdditionalSpecFns};
use vstd::utf8::{decode_utf8, encode_utf8, valid_utf8};

verus! {

/// `String::push` appends one character at the end.
pub assume_specification[ String::push ](s: &mut String, c: char)
    ensures
        final(s)@ == old(s)@.push(c),
;

/// The text that `String::from_utf8_lossy` makes of a byte sequence.
pub uninterp spec fn utf8_lossy(bytes: Seq<u8>) -> Seq<char>;

/// Calls `String::from_utf8_lossy`. The result depends on the bytes alone, and
/// valid UTF-8 comes back as the text that it encodes; what stands in the place
/// of an invalid byte sequence is not stated.
#[verifier::external_body]
fn from_utf8_lossy(bytes: &[u8]) -> (s: String)
    ensures
        s@ == utf8_lossy(bytes@),
        valid_utf8(bytes@) ==> s@ == decode_utf8(bytes@),
{
    String::from_utf8_lossy(bytes).into_owned()
}

/// The text that bytes hold: what they encode where they are valid UTF-8, and
/// otherwise what `String::from_utf8_lossy` makes of them.
pub open spec fn text_of(bytes: Seq<u8>) -> Seq<char> {
    if valid_utf8(bytes) {
        decode_utf8(bytes)
    } else {
        utf8_lossy(bytes)
    }
}

/// The text that bytes hold.
pub fn lossy_text(bytes: &[u8]) -> (s: String)
    ensures
        s@ == text_of(bytes@),
{
    from_utf8_lossy(bytes)
}

/// The characters of a string, in order.
pub fn chars_of(s: &str) -> (v: Vec<char>)
    ensures
        v@ == s@,
{
    let mut v: Vec<char> = Vec::new();
    for c in it: s.chars()
        invariant
            v@ == it.seq().take(it.index()),
            it.seq() == s@,
    {
        v.push(c);
    }
    v
}

/// A string of the given characters.
pub fn string_of(chars: &[char]) -> (s: String)
    ensures
        s@ == chars@,
{
    let mut s = String::new();
    let mut i: usize = 0;
    while i < chars.len()
        invariant
            i <= chars@.len(),
            s@ == chars@.take(i as int),
        decreases chars@.len() - i,
    {
        s.push(chars[i]);
        i += 1;
    }
    s
}

/// Each byte as the character with that code point.
pub open spec fn latin1(bytes: Seq<u8>) -> Seq<char> {
    bytes.map_values(|b: u8| b as char)
}

/// The characters whose code points are `bytes[from..to]`.
pub fn latin1_string(bytes: &[u8], from: usize, to: usize) -> (s: String)
    requires
        from <= to <= bytes@.len(),
    ensures
        s@ == latin1(bytes@.subrange(from as int, to as int)),
{
    let mut s = String::new();
    let mut i: usize = from;
    while i < to
        invariant
            from <= i <= to <= bytes@.len(),
            s@ == latin1(bytes@.subrange(from as int, i as int)),
        decreases to - i,
    {
        s.push(bytes[i] as char);
        i += 1;
        assert(s@ =~= latin1(bytes@.subrange(from as int, i as int)));
    }
    s
}

/// Whether two strings hold the same characters.
pub fn same(a: &str, b: &str) -> (r: bool)
    ensures
        r == (a@ == b@),
{
    let x = a.as_bytes();
    let y = b.as_bytes();
    proof {
        vstd::utf8::encode_utf8_decode_utf8(a@);
        vstd::utf8::encode_utf8_decode_utf8(b@);
    }
    if x.len() != y.len() {
        return false;
    }
    let mut i: usize = 0;
    while i < x.len()
        invariant
            i <= x@.len(),
            x@.len() == y@.len(),
            x@ == encode_utf8(a@),
            y@ == encode_utf8(b@),
            forall|j: int| 0 <= j < i ==> x@[j] == y@[j],
        decreases x@.len() - i,
    {
        if x[i] != y[i] {
            return false;
        }
        i += 1;
    }
    assert(x@ =~= y@);
    true
}

/// One decimal digit as a character.
pub open spec fn digit(d: int) -> char {
    ('0' as u8 + d) as u8 as char
}

/// A natural number in decimal, without leading zeros.
pub open spec fn decimal(n: nat) -> Seq<char>
    decreases n,
{
    if n < 10 {
        seq![digit(n as int)]
    } else {
        decimal(n / 10).push(digit((n % 10) as int))
    }
}

/// An integer in decimal: a minus sign where it is negative.
pub open spec fn decimal_int(n: int) -> Seq<char> {
    if n < 0 {
        seq!['-'] + decimal((-n) as nat)
    } else {
        decimal(n as nat)
    }
}

/// Append a number in decimal.
pub fn push_decimal(s: &mut String, n: u64)
    ensures
        final(s)@ == old(s)@ + decimal(n as nat),
    decreases n,
{
    if n >= 10 {
        push_decimal(s, n / 10);
    }
    let d: u8 = (n % 10) as u8;
    s.push(('0' as u8 + d) as char);
    assert(s@ =~= old(s)@ + decimal(n as nat));
}

/// Append a number in decimal, with its sign where it is negative.
pub fn push_decimal_int(s: &mut String, n: i64)
    ensures
        final(s)@ == old(s)@ + decimal_int(n as int),
{
    if n < 0 {
        s.push('-');
        let m: i128 = -(n as i128);
        push_decimal(s, m as u64);
        assert(s@ =~= old(s)@ + decimal_int(n as int));
    } else {
        push_decimal(s, n as u64);
    }
}

/// An ASCII capital becomes the small letter; every other character stays.
pub open spec fn lower(c: char) -> char {
    if 'A' <= c <= 'Z' {
        (c as u8 + 32) as u8 as char
    } else {
        c
    }
}

/// A text with its ASCII capitals made small.
pub open spec fn lowercase(s: Seq<char>) -> Seq<char> {
    s.map_values(|c: char| lower(c))
}

/// A copy of `s` with its ASCII capitals made small.
pub fn to_lowercase(s: &str) -> (r: String)
    ensures
        r@ == lowercase(s@),
{
    let mut r = String::new();
    for c in it: s.chars()
        invariant
            r@ == lowercase(it.seq().take(it.index())),
            it.seq() == s@,
    {
        let l = if 'A' <= c && c <= 'Z' { (c as u8 + 32) as char } else { c };
        proof {
            assert(it.seq().take(it.index() + 1) =~= it.seq().take(it.index()).push(c));
            assert(lowercase(it.seq().take(it.index()).push(c)) =~= lowercase(
                it.seq().take(it.index()),
            ).push(l));
        }
        r.push(l);
    }
    assert(s@.take(s@.len() as int) =~= s@);
    r
}

/// Unicode's `White_Space` property.
pub open spec fn white(c: char) -> bool {
    let u = c as u32;
    ||| 9 <= u <= 13
    ||| u == 32
    ||| u == 0x85
    ||| u == 0xA0
    ||| u == 0x1680
    ||| 0x2000 <= u <= 0x200A
    ||| u == 0x2028
    ||| u == 0x2029
    ||| u == 0x202F
    ||| u == 0x205F
    ||| u == 0x3000
}

/// Whether `c` is white space, by Unicode's `White_Space` property.
pub fn is_white(c: char) -> (r: bool)
    ensures
        r == white(c),
{
    let u: u32 = c as u32;
    (9 <= u && u <= 13) || u == 32 || u == 0x85 || u == 0xA0 || u == 0x1680 || (0x2000 <= u && u
        <= 0x200A) || u == 0x2028 || u == 0x2029 || u == 0x202F || u == 0x205F || u == 0x3000
}

/// The first position from `i` on that holds no white space.
pub open spec fn skip_white(s: Seq<char>, i: int) -> int
    decreases s.len() - i,
{
    if 0 <= i < s.len() && white(s[i]) {
        skip_white(s, i + 1)
    } else {
        i
    }
}

/// The first position from `i` on that holds white space, or the end.
pub open spec fn skip_word(s: Seq<char>, i: int) -> int
    decreases s.len() - i,
{
    if 0 <= i < s.len() && !white(s[i]) {
        skip_word(s, i + 1)
    } else {
        i
    }
}

/// The words of `s` from position `i` on, as white space separates them.
pub open spec fn words_from(s: Seq<char>, i: int) -> Seq<Seq<char>>
    decreases s.len() - i,
{
    let a = skip_white(s, i);
    let b = skip_word(s, a);
    if 0 <= i <= a < b <= s.len() {
        seq![s.subrange(a, b)] + words_from(s, b)
    } else {
        Seq::empty()
    }
}

/// The words of a text.
pub open spec fn words(s: Seq<char>) -> Seq<Seq<char>> {
    words_from(s, 0)
}

/// What a list of words holds.
pub open spec fn word_views(v: Seq<Vec<char>>) -> Seq<Seq<char>> {
    v.map_values(|w: Vec<char>| w@)
}

/// Split a text at white space; no word is empty.
pub fn split_words(s: &str) -> (r: Vec<Vec<char>>)
    ensures
        word_views(r@) == words(s@),
{
    let chars = chars_of(s);
    let mut out: Vec<Vec<char>> = Vec::new();
    let mut i: usize = 0;
    loop
        invariant
            i <= chars@.len(),
            chars@ == s@,
            words(s@) == word_views(out@) + words_from(s@, i as int),
        ensures
            word_views(out@) == words(s@),
        decreases chars@.len() - i,
    {
        let ghost start = i as int;
        while i < chars.len() && is_white(chars[i])
            invariant
                start <= i <= chars@.len(),
                skip_white(chars@, start) == skip_white(chars@, i as int),
            decreases chars@.len() - i,
        {
            i += 1;
        }
        let a: usize = i;
        assert(a == skip_white(chars@, start));
        let mut word: Vec<char> = Vec::new();
        while i < chars.len() && !is_white(chars[i])
            invariant
                a <= i <= chars@.len(),
                skip_word(chars@, a as int) == skip_word(chars@, i as int),
                word@ == chars@.subrange(a as int, i as int),
            decreases chars@.len() - i,
        {
            word.push(chars[i]);
            i += 1;
            assert(word@ =~= chars@.subrange(a as int, i as int));
        }
        assert(i == skip_word(chars@, a as int));
        if i == a {
            assert(word_views(out@) + words_from(s@, start) =~= word_views(out@));
            break;
        }
        proof {
            assert(word_views(out@.push(word)) =~= word_views(out@).push(word@));
            assert(words_from(s@, start) == seq![word@] + words_from(s@, i as int));
            assert(word_views(out@) + (seq![word@] + words_from(s@, i as int)) =~= word_views(
                out@.push(word),
            ) + words_from(s@, i as int));
        }
        out.push(word);
    }
    out
}

/// Whether every character is a decimal digit.
pub open spec fn all_digits(s: Seq<char>) -> bool {
    forall|i: int| 0 <= i < s.len() ==> '0' <= #[trigger] s[i] <= '9'
}

/// The number that a text of decimal digits denotes.
pub open spec fn digits_value(s: Seq<char>) -> nat
    decreases s.len(),
{
    if s.len() == 0 {
        0
    } else {
        digits_value(s.drop_last()) * 10 + (s.last() as u32 - '0' as u32) as nat
    }
}

/// The number of one or more decimal digits, if it is at most `limit`.
pub open spec fn digits_within(s: Seq<char>, limit: int) -> Option<int> {
    if s.len() > 0 && all_digits(s) && digits_value(s) <= limit {
        Some(digits_value(s) as int)
    } else {
        None
    }
}

/// Read the decimal digits in `s[from..]`, up to `limit`.
pub fn read_digits(s: &[char], from: usize, limit: u64) -> (r: Option<u64>)
    requires
        from <= s@.len(),
    ensures
        r == (match digits_within(s@.skip(from as int), limit as int) {
            Some(n) => Some(n as u64),
            None => None,
        }),
{
    let ghost t = s@.skip(from as int);
    if from == s.len() {
        return None;
    }
    let mut v: u64 = 0;
    let mut over = false;
    let mut i: usize = from;
    assert(t.take(0) =~= Seq::<char>::empty());
    while i < s.len()
        invariant
            from <= i <= s@.len(),
            t == s@.skip(from as int),
            all_digits(t.take(i - from)),
            over ==> digits_value(t.take(i - from)) > limit,
            !over ==> digits_value(t.take(i - from)) == v && v <= limit,
        decreases s@.len() - i,
    {
        let c = s[i];
        assert(t[i - from] == c);
        if !('0' <= c && c <= '9') {
            return None;
        }
        let d: u64 = c as u64 - '0' as u64;
        proof {
            assert(t.take(i - from + 1) =~= t.take(i - from).push(c));
            assert(t.take(i - from + 1).drop_last() =~= t.take(i - from));
        }
        if !over {
            if d > limit || v > (limit - d) / 10 {
                over = true;
            } else {
                v = v * 10 + d;
            }
        }
        i += 1;
    }
    assert(t.take(t.len() as int) =~= t);
    if over {
        None
    } else {
        Some(v)
    }
}

/// The integer that a text denotes: an optional sign, then decimal digits.
pub open spec fn signed_value(s: Seq<char>) -> Option<int> {
    if s.len() > 0 && s[0] == '-' {
        match digits_within(s.skip(1), i64::MAX + 1) {
            Some(n) => Some(-n),
            None => None,
        }
    } else if s.len() > 0 && s[0] == '+' {
        digits_within(s.skip(1), i64::MAX as int)
    } else {
        digits_within(s, i64::MAX as int)
    }
}

/// Read an integer; `None` where the text is none, or does not fit.
pub fn read_i64(s: &[char]) -> (r: Option<i64>)
    ensures
        r == (match signed_value(s@) {
            Some(n) => Some(n as i64),
            None => None,
        }),
{
    if s.len() > 0 && s[0] == '-' {
        match read_digits(s, 1, 9_223_372_036_854_775_808) {
            Some(n) => Some((-(n as i128)) as i64),
            None => None,
        }
    } else if s.len() > 0 && s[0] == '+' {
        match read_digits(s, 1, 9_223_372_036_854_775_807) {
            Some(n) => Some(n as i64),
            None => None,
        }
    } else {
        assert(s@.skip(0) =~= s@);
        match read_digits(s, 0, 9_223_372_036_854_775_807) {
            Some(n) => Some(n as i64),
            None => None,
        }
    }
}

/// The natural number that a text denotes, up to `limit`: decimal digits, with
/// a plus sign or none.
pub open spec fn unsigned_value(s: Seq<char>, limit: int) -> Option<int> {
    if s.len() > 0 && s[0] == '+' {
        digits_within(s.skip(1), limit)
    } else {
        digits_within(s, limit)
    }
}

/// Read a natural number up to `limit`.
pub fn read_unsigned(s: &[char], limit: u64) -> (r: Option<u64>)
    ensures
        r == (match unsigned_value(s@, limit as int) {
            Some(n) => Some(n as u64),
            None => None,
        }),
{
    if s.len() > 0 && s[0] == '+' {
        read_digits(s, 1, limit)
    } else {
        assert(s@.skip(0) =~= s@);
        read_digits(s, 0, limit)
    }
}

/// Two texts, one after the other.
pub fn concat2(a: &str, b: &str) -> (r: String)
    ensures
        r@ == a@ + b@,
{
    let mut s = String::new();
    s.append(a);
    s.append(b);
    assert(s@ =~= a@ + b@);
    s
}

/// Three texts, one after the other.
pub fn concat3(a: &str, b: &str, c: &str) -> (r: String)
    ensures
        r@ == a@ + b@ + c@,
{
    let mut s = String::new();
    s.append(a);
    s.append(b);
    s.append(c);
    assert(s@ =~= a@ + b@ + c@);
    s
}

/// Texts with a separator between each and the next.
pub open spec fn joined(parts: Seq<Seq<char>>, sep: Seq<char>) -> Seq<char>
    decreases parts.len(),
{
    if parts.len() == 0 {
        Seq::empty()
    } else if parts.len() == 1 {
        parts[0]
    } else {
        joined(parts.drop_last(), sep) + sep + parts.last()
    }
}

/// A text's pieces between the occurrences of `c`, in its first `n` characters.
pub open spec fn pieces(s: Seq<char>, c: char, n: int) -> Seq<Seq<char>>
    decreases n,
{
    if n <= 0 {
        seq![Seq::empty()]
    } else {
        let before = pieces(s, c, n - 1);
        if s[n - 1] == c {
            before.push(Seq::empty())
        } else {
            before.update(before.len() - 1, before.last().push(s[n - 1]))
        }
    }
}

/// A text's pieces between the occurrences of `c`: one more than those.
pub open spec fn split_on(s: Seq<char>, c: char) -> Seq<Seq<char>> {
    pieces(s, c, s.len() as int)
}

/// Split a text at each occurrence of a character.
pub fn split_char(s: &str, c: char) -> (r: Vec<Vec<char>>)
    ensures
        word_views(r@) == split_on(s@, c),
{
    let chars = chars_of(s);
    let mut done: Vec<Vec<char>> = Vec::new();
    let mut last: Vec<char> = Vec::new();
    let mut i: usize = 0;
    assert(word_views(done@).push(last@) =~= pieces(s@, c, 0));
    while i < chars.len()
        invariant
            i <= chars@.len(),
            chars@ == s@,
            word_views(done@).push(last@) == pieces(s@, c, i as int),
        decreases chars@.len() - i,
    {
        let ghost before = word_views(done@).push(last@);
        if chars[i] == c {
            let ghost piece = last@;
            done.push(last);
            last = Vec::new();
            assert(word_views(done@).push(last@) =~= before.push(Seq::empty()));
        } else {
            last.push(chars[i]);
            assert(word_views(done@).push(last@) =~= before.update(
                before.len() - 1,
                before.last().push(s@[i as int]),
            ));
        }
        i += 1;
    }
    assert(word_views(done@.push(last)) =~= word_views(done@).push(last@));
    done.push(last);
    done
}

/// The end of `s[..n]` without the white space at its end.
pub open spec fn white_end(s: Seq<char>, n: int) -> int
    decreases n,
{
    if 0 < n <= s.len() && white(s[n - 1]) {
        white_end(s, n - 1)
    } else {
        n
    }
}

/// A text without the white space around it.
pub open spec fn trimmed(s: Seq<char>) -> Seq<char> {
    let a = skip_white(s, 0);
    let b = white_end(s, s.len() as int);
    if a < b {
        s.subrange(a, b)
    } else {
        Seq::empty()
    }
}

/// A text without the white space around it.
pub fn trim(s: &[char]) -> (r: String)
    ensures
        r@ == trimmed(s@),
{
    let mut a: usize = 0;
    while a < s.len() && is_white(s[a])
        invariant
            a <= s@.len(),
            skip_white(s@, 0) == skip_white(s@, a as int),
        decreases s@.len() - a,
    {
        a += 1;
    }
    let mut b: usize = s.len();
    while b > 0 && is_white(s[b - 1])
        invariant
            b <= s@.len(),
            white_end(s@, s@.len() as int) == white_end(s@, b as int),
        decreases b,
    {
        b -= 1;
    }
    if a < b {
        string_of(vstd::slice::slice_subrange(s, a, b))
    } else {
        String::new()
    }
}

/// The text that `str::to_uppercase` makes of a text.
pub uninterp spec fn uppercase(s: Seq<char>) -> Seq<char>;

/// An ASCII small letter becomes the capital; every other character stays.
pub open spec fn upper(c: char) -> char {
    if 'a' <= c <= 'z' {
        (c as u8 - 32) as u8 as char
    } else {
        c
    }
}

/// Calls `str::to_uppercase`. The result depends on the text alone, and ASCII
/// text has its small letters made capitals; what becomes of other characters
/// is not stated.
#[verifier::external_body]
fn to_uppercase(s: &str) -> (r: String)
    ensures
        r@ == uppercase(s@),
        vstd::utf8::is_ascii_chars(s@) ==> r@ == s@.map_values(|c: char| upper(c)),
{
    s.to_uppercase()
}

/// A text in capitals: in ASCII text the small letters are made capitals, and
/// other text is what `str::to_uppercase` makes of it.
pub open spec fn capitals(s: Seq<char>) -> Seq<char> {
    if vstd::utf8::is_ascii_chars(s) {
        s.map_values(|c: char| upper(c))
    } else {
        uppercase(s)
    }
}

/// A copy of `s` in capitals.
pub fn to_capitals(s: &str) -> (r: String)
    ensures
        r@ == capitals(s@),
{
    to_uppercase(s)
}

/// Whether a text starts with a character.
pub fn starts_with(s: &str, c: char) -> (r: bool)
    ensures
        r == (s@.len() > 0 && s@[0] == c),
{
    let chars = chars_of(s);
    chars.len() > 0 && chars[0] == c
}

/// What a list of strings holds.
pub open spec fn strings(v: Seq<String>) -> Seq<Seq<char>> {
    v.map_values(|s: String| s@)
}

/// What a string that may be absent holds.
pub open spec fn maybe(v: Option<String>) -> Option<Seq<char>> {
    match v {
        Some(s) => Some(s@),
        None => None,
    }
}

/// A hexadecimal digit, in lower case.
pub open spec fn hex_digit(d: u64) -> char {
    if d < 10 {
        (48 + d) as u8 as char
    } else {
        (87 + d) as u8 as char
    }
}

/// The low `k` hexadecimal digits of a number.
pub open spec fn hex(n: u64, k: nat) -> Seq<char>
    decreases k,
{
    if k == 0 {
        Seq::empty()
    } else {
        hex(n / 16, (k - 1) as nat).push(hex_digit(n % 16))
    }
}

/// Append the low `k` hexadecimal digits of a number.
pub fn push_hex(s: &mut String, n: u64, k: usize)
    ensures
        final(s)@ == old(s)@ + hex(n, k as nat),
    decreases k,
{
    if k > 0 {
        push_hex(s, n / 16, k - 1);
        let d: u64 = n % 16;
        if d < 10 {
            s.push((48 + d) as u8 as char);
        } else {
            s.push((87 + d) as u8 as char);
        }
    }
    assert(s@ =~= old(s)@ + hex(n, k as nat));
}

} // verus!
