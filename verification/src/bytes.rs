//! Numbers as bytes, the low byte first.

use vstd::prelude::*;

verus! {

/// The low `k` bytes of a number, the lowest first.
pub open spec fn le_bytes(n: nat, k: nat) -> Seq<u8>
    decreases k,
{
    if k == 0 {
        Seq::empty()
    } else {
        seq![(n % 256) as u8] + le_bytes(n / 256, (k - 1) as nat)
    }
}

/// The number that bytes stand for, the lowest first.
pub open spec fn le_value(s: Seq<u8>) -> nat
    decreases s.len(),
{
    if s.len() == 0 {
        0
    } else {
        s[0] as nat + 256 * le_value(s.drop_first())
    }
}

/// 256 to the power `k`.
pub open spec fn byte_range(k: nat) -> nat
    decreases k,
{
    if k == 0 {
        1
    } else {
        256 * byte_range((k - 1) as nat)
    }
}

pub proof fn lemma_le_bytes_len(n: nat, k: nat)
    ensures
        le_bytes(n, k).len() == k,
    decreases k,
{
    if k > 0 {
        lemma_le_bytes_len(n / 256, (k - 1) as nat);
    }
}

/// Bytes give back the number they were made of, if it fits in them.
pub proof fn law_le_value_inverts_le_bytes(n: nat, k: nat)
    requires
        n < byte_range(k),
    ensures
        le_value(le_bytes(n, k)) == n,
        le_bytes(n, k).len() == k,
    decreases k,
{
    if k > 0 {
        law_le_value_inverts_le_bytes(n / 256, (k - 1) as nat);
        let s = le_bytes(n, k);
        assert(s.drop_first() =~= le_bytes(n / 256, (k - 1) as nat));
    }
}

/// Numbers give back the bytes they were read from.
pub proof fn law_le_bytes_inverts_le_value(s: Seq<u8>)
    ensures
        le_bytes(le_value(s), s.len()) == s,
        le_value(s) < byte_range(s.len()),
    decreases s.len(),
{
    if s.len() > 0 {
        law_le_bytes_inverts_le_value(s.drop_first());
        let n = le_value(s);
        assert(n % 256 == s[0] as nat && n / 256 == le_value(s.drop_first()));
        assert(le_bytes(n, s.len()) =~= s);
    } else {
        assert(le_bytes(le_value(s), s.len()) =~= s);
    }
}

/// The lowest byte comes first: each byte counts 256 times what the one before
/// it counts.
pub proof fn law_the_lowest_byte_comes_first(n: nat, k: nat, s: Seq<u8>)
    requires
        k > 0,
        s.len() > 0,
    ensures
        le_bytes(n, k)[0] == n % 256,
        le_bytes(n, k).skip(1) == le_bytes(n / 256, (k - 1) as nat),
        le_value(s) == s[0] + 256 * le_value(s.skip(1)),
        le_value(Seq::<u8>::empty()) == 0,
        le_bytes(n, 0).len() == 0,
{
    assert(le_bytes(n, k).skip(1) =~= le_bytes(n / 256, (k - 1) as nat));
    assert(s.skip(1) =~= s.drop_first());
}

/// Two bytes are a number in two's complement, the lower one first.
pub proof fn law_two_bytes_are_a_signed_number(x: i16)
    ensures
        i16_bytes(x).len() == 2,
        x >= 0 ==> i16_bytes(x)[0] + 256 * i16_bytes(x)[1] == x,
        x < 0 ==> i16_bytes(x)[0] + 256 * i16_bytes(x)[1] == x + 65536,
        i16_value(i16_bytes(x)) == x,
{
    law_i16_value_inverts_i16_bytes(x);
    let n = (x as int % 65536) as nat;
    reveal_with_fuel(le_bytes, 3);
}


pub proof fn lemma_byte_ranges()
    ensures
        byte_range(1) == 0x100,
        byte_range(2) == 0x1_0000,
        byte_range(4) == 0x1_0000_0000,
        byte_range(8) == 0x1_0000_0000_0000_0000,
{
    reveal_with_fuel(byte_range, 9);
}

/// Append the low `k` bytes of a number.
pub fn push_le(out: &mut Vec<u8>, n: u64, k: usize)
    ensures
        final(out)@ == old(out)@ + le_bytes(n as nat, k as nat),
{
    let mut rest: u64 = n;
    let mut left: usize = k;
    assert(out@ + le_bytes(n as nat, k as nat) =~= old(out)@ + le_bytes(n as nat, k as nat));
    while left > 0
        invariant
            out@ + le_bytes(rest as nat, left as nat) == old(out)@ + le_bytes(n as nat, k as nat),
        decreases left,
    {
        let ghost before = out@;
        let b: u8 = (rest % 256) as u8;
        out.push(b);
        proof {
            let tail = le_bytes((rest / 256) as nat, (left - 1) as nat);
            assert(le_bytes(rest as nat, left as nat) == seq![b] + tail);
            assert(before + (seq![b] + tail) =~= out@ + tail);
        }
        rest = rest / 256;
        left = left - 1;
    }
    assert(out@ + le_bytes(rest as nat, 0) =~= out@);
}

/// Read `k` bytes as a number.
pub fn read_le(src: &[u8], at: usize, k: usize) -> (r: u64)
    requires
        k <= 8,
        at + k <= src@.len(),
    ensures
        r == le_value(src@.subrange(at as int, at + k)),
        r < byte_range(k as nat),
{
    let end: usize = src.len();
    let mut v: u64 = 0;
    let mut left: usize = k;
    proof {
        lemma_byte_ranges();
        assert(src@.subrange(at + k, at + k) =~= Seq::empty());
    }
    while left > 0
        invariant
            left <= k <= 8,
            at + k <= src@.len() == end,
            byte_range(8) == 0x1_0000_0000_0000_0000,
            v == le_value(src@.subrange(at + left, at + k)),
            v < byte_range((k - left) as nat),
        decreases left,
    {
        left = left - 1;
        proof {
            let s = src@.subrange(at + left, at + k);
            assert(s.drop_first() =~= src@.subrange(at + left + 1, at + k));
            lemma_byte_range_grows((k - left) as nat, 8);
        }
        v = v * 256 + src[at + left] as u64;
    }
    v
}

pub proof fn lemma_byte_range_grows(j: nat, k: nat)
    requires
        j <= k,
    ensures
        byte_range(j) <= byte_range(k),
    decreases k,
{
    if j < k {
        lemma_byte_range_grows(j, (k - 1) as nat);
    }
}

/// A signed number as two bytes, in two's complement.
pub open spec fn i16_bytes(x: i16) -> Seq<u8> {
    le_bytes((x as int % 65536) as nat, 2)
}

/// The signed number that two bytes stand for.
pub open spec fn i16_value(s: Seq<u8>) -> int {
    let n = le_value(s) as int;
    if n >= 32768 {
        n - 65536
    } else {
        n
    }
}

/// Append a signed number as two bytes.
pub fn push_i16(out: &mut Vec<u8>, x: i16)
    ensures
        final(out)@ == old(out)@ + i16_bytes(x),
{
    let word: u64 = if x < 0 { (65536 + x as i64) as u64 } else { x as u64 };
    assert(word == x as int % 65536);
    push_le(out, word, 2);
}

/// Read two bytes as a signed number.
pub fn read_i16(src: &[u8], at: usize) -> (r: i16)
    requires
        at + 2 <= src@.len(),
    ensures
        r == i16_value(src@.subrange(at as int, at + 2)),
{
    let n: u64 = read_le(src, at, 2);
    proof {
        lemma_byte_ranges();
    }
    if n >= 32768 {
        (n as i64 - 65536) as i16
    } else {
        n as i16
    }
}

/// Two bytes give back the signed number they were made of.
pub proof fn law_i16_value_inverts_i16_bytes(x: i16)
    ensures
        i16_value(i16_bytes(x)) == x,
        i16_bytes(x).len() == 2,
{
    lemma_byte_ranges();
    law_le_value_inverts_le_bytes((x as int % 65536) as nat, 2);
}

/// Append bytes.
pub fn push_all(out: &mut Vec<u8>, more: &[u8])
    ensures
        final(out)@ == old(out)@ + more@,
{
    let mut i: usize = 0;
    assert(out@ =~= old(out)@ + more@.take(0));
    while i < more.len()
        invariant
            i <= more@.len(),
            out@ == old(out)@ + more@.take(i as int),
        decreases more@.len() - i,
    {
        out.push(more[i]);
        i += 1;
        assert(out@ =~= old(out)@ + more@.take(i as int));
    }
    assert(more@.take(more@.len() as int) =~= more@);
}

} // verus!
