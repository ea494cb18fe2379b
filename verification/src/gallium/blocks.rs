//! Packed numbers in model files: 4-bit floats under a shared scale, and
//! half-precision floats, both as the bits of single-precision ones.

use vstd::prelude::*;

verus! {

/// Twice the value of each 4-bit code.
pub const E2M1_LUT: [i8; 16] = [0, 1, 2, 3, 4, 6, 8, 12, 0, -1, -2, -3, -4, -6, -8, -12];

/// Twice the value of a 4-bit float: a sign bit, two bits of exponent, one of
/// mantissa.
pub open spec fn e2m1_doubled(code: int) -> int {
    let magnitude = if code % 8 < 4 {
        code % 8
    } else if code % 8 == 4 {
        4
    } else if code % 8 == 5 {
        6
    } else if code % 8 == 6 {
        8
    } else {
        12
    };
    if code < 8 {
        magnitude
    } else {
        -magnitude
    }
}

fn lookup(code: u8) -> (r: i8)
    requires
        code < 16,
    ensures
        r == e2m1_doubled(code as int),
{
    let table = E2M1_LUT;
    table[code as usize]
}

/// The bits of the single-precision scale that an exponent byte stands for:
/// 2 to the power `byte - 128`, and for the two lowest bytes a number close to
/// nothing.
pub open spec fn e8m0_bits(byte: u8) -> u32 {
    if byte == 0 {
        0x0020_0000
    } else if byte == 1 {
        0x0040_0000
    } else {
        ((byte - 1) * 0x0080_0000) as u32
    }
}

/// The bits of the scale that an exponent byte stands for.
pub fn e8m0_to_f32_bits(byte: u8) -> (r: u32)
    ensures
        r == e8m0_bits(byte),
{
    if byte < 2 {
        let b: u32 = byte as u32;
        assert(0x0020_0000u32 << 0 == 0x0020_0000u32 && 0x0020_0000u32 << 1 == 0x0040_0000u32)
            by (bit_vector);
        0x0020_0000u32 << b
    } else {
        let e: u32 = byte as u32 - 1;
        assert(e << 23 == e * 0x0080_0000) by (bit_vector)
            requires
                e <= 254,
        ;
        e << 23
    }
}

/// One element of a packed tensor: twice its value before scaling, and the
/// scale's exponent byte.
#[derive(Debug, Clone, Copy, PartialEq, Eq, Structural)]
pub struct Mxfp4Element {
    pub doubled: i8,
    pub scale: u8,
}

/// Element `i` of packed bytes. A block is a scale byte and sixteen bytes; the
/// low halves of those are its first sixteen elements, the high halves the
/// rest.
pub open spec fn mxfp4_at(raw: Seq<u8>, i: int) -> Mxfp4Element {
    let base = (i / 32) * 17;
    let j = i % 32;
    let byte = if j < 16 {
        raw[base + 1 + j]
    } else {
        raw[base + 1 + (j - 16)]
    };
    let code = if j < 16 {
        byte as int % 16
    } else {
        byte as int / 16
    };
    Mxfp4Element { doubled: e2m1_doubled(code) as i8, scale: raw[base] }
}

/// Unpack `n_elems` elements. What does not fill a block is left as nothing.
pub fn unpack_mxfp4(raw: &[u8], n_elems: usize) -> (out: Vec<Mxfp4Element>)
    requires
        (n_elems as int / 32) * 17 <= raw@.len(),
    ensures
        out@.len() == n_elems,
        forall|i: int|
            0 <= i < n_elems ==> #[trigger] out@[i] == (if i < (n_elems as int / 32) * 32 {
                mxfp4_at(raw@, i)
            } else {
                Mxfp4Element { doubled: 0, scale: 0 }
            }),
{
    let len: usize = raw.len();
    let n_blocks: usize = n_elems / 32;
    let mut out: Vec<Mxfp4Element> = Vec::new();
    let mut i: usize = 0;
    while i < n_elems
        invariant
            i <= n_elems,
            n_blocks == n_elems / 32,
            n_blocks * 17 <= raw@.len() == len,
            out@.len() == i,
            forall|k: int|
                0 <= k < i ==> #[trigger] out@[k] == (if k < (n_elems as int / 32) * 32 {
                    mxfp4_at(raw@, k)
                } else {
                    Mxfp4Element { doubled: 0, scale: 0 }
                }),
        decreases n_elems - i,
    {
        let blk: usize = i / 32;
        if blk < n_blocks {
            let base: usize = blk * 17;
            let j: usize = i % 32;
            let at: usize = if j < 16 { base + 1 + j } else { base + 1 + (j - 16) };
            let byte: u8 = raw[at];
            let code: u8 = if j < 16 { byte & 0xF } else { byte >> 4 };
            assert(byte & 0xF == byte % 16 && byte >> 4 == byte / 16 && byte & 0xF < 16 && byte >> 4
                < 16) by (bit_vector);
            out.push(Mxfp4Element { doubled: lookup(code), scale: raw[base] });
        } else {
            out.push(Mxfp4Element { doubled: 0, scale: 0 });
        }
        i += 1;
    }
    out
}

/// How far a mantissa of at most ten bits has to be shifted for its highest
/// bit to be the eleventh.
pub open spec fn norm_shift(m: nat) -> nat
    decreases 0x800 - m,
{
    if m == 0 || m >= 0x400 {
        0
    } else {
        1 + norm_shift(2 * m)
    }
}

/// `m` shifted by `norm_shift(m)`.
pub open spec fn normalized(m: nat) -> nat
    decreases 0x800 - m,
{
    if m == 0 || m >= 0x400 {
        m
    } else {
        normalized(2 * m)
    }
}

/// The bits of the single-precision float with the value of a half-precision
/// one: the same sign; a subnormal is normalised; infinities and NaNs keep
/// their mantissa.
pub open spec fn f32_of_f16(bits: u16) -> int {
    let sign = (bits as int / 0x8000) * 0x8000_0000;
    let exp = (bits as int / 0x400) % 0x20;
    let mant = bits as int % 0x400;
    if exp == 0 && mant == 0 {
        sign
    } else if exp == 0 {
        sign + (113 - norm_shift(mant as nat)) * 0x80_0000 + (normalized(mant as nat) - 0x400)
            * 0x2000
    } else if exp == 31 {
        sign + 0x7f80_0000 + mant * 0x2000
    } else {
        sign + (exp + 112) * 0x80_0000 + mant * 0x2000
    }
}

proof fn lemma_norm(m: nat)
    requires
        0 < m < 0x400,
    ensures
        1 <= norm_shift(m) <= 10,
        0x400 <= normalized(m) < 0x800,
{
    reveal_with_fuel(norm_shift, 12);
    reveal_with_fuel(normalized, 12);
}

/// Decode a half-precision float, given its two bytes, as the bits of a
/// single-precision one.
pub fn f16_le_to_f32_bits(lo: u8, hi: u8) -> (r: u32)
    ensures
        r == f32_of_f16((hi * 256 + lo) as u16),
{
    let bits: u32 = hi as u32 * 256 + lo as u32;
    let sign: u32 = bits / 0x8000;
    let exp: u32 = (bits / 0x400) % 0x20;
    let mant: u32 = bits % 0x400;
    assert(sign <= 1);
    let top: u32 = if sign == 1 { 0x8000_0000 } else { 0 };
    if exp == 0 && mant == 0 {
        top
    } else if exp == 0 {
        // Subnormal: normalise by finding the leading bit.
        let mut m: u32 = mant;
        let mut e: u32 = 113;
        proof {
            lemma_norm(mant as nat);
        }
        while m < 0x400
            invariant
                0 < m < 0x800,
                103 <= e <= 113,
                0 < mant < 0x400,
                1 <= norm_shift(mant as nat) <= 10,
                113 - norm_shift(mant as nat) == e - norm_shift(m as nat),
                normalized(mant as nat) == normalized(m as nat),
            decreases 0x800 - m,
        {
            proof {
                lemma_norm(m as nat);
            }
            m = m * 2;
            e = e - 1;
        }
        top + e * 0x80_0000 + (m - 0x400) * 0x2000
    } else if exp == 31 {
        top + 0x7f80_0000 + mant * 0x2000
    } else {
        top + (exp + 112) * 0x80_0000 + mant * 0x2000
    }
}

/// A subnormal keeps its value: shifting its mantissa up is made good by the
/// exponent.
pub proof fn law_a_subnormal_keeps_its_value(m: nat)
    requires
        0 < m < 0x400,
    ensures
        normalized(m) == m * vstd::arithmetic::power2::pow2(norm_shift(m)),
        0x400 <= normalized(m) < 0x800,
    decreases 0x400 - m,
{
    lemma_norm(m);
    vstd::arithmetic::power2::lemma2_to64();
    if 2 * m >= 0x400 {
        assert(norm_shift(2 * m) == 0);
        assert(norm_shift(m) == 1);
        assert(normalized(2 * m) == 2 * m);
        assert(normalized(m) == 2 * m);
    } else {
        law_a_subnormal_keeps_its_value(2 * m);
        let k = norm_shift(2 * m);
        vstd::arithmetic::power2::lemma_pow2_unfold(k + 1);
        let p = vstd::arithmetic::power2::pow2(k);
        assert((2 * m) * p == m * (2 * p)) by (nonlinear_arith);
    }
}

} // verus!
