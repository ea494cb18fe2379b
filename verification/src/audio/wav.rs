//! A minimal WAV writer: 16-bit PCM, no chunks beyond `fmt ` and `data`.

use crate::bytes::{i16_bytes, le_bytes, push_all, push_i16, push_le};
use vstd::prelude::*;

verus! {

/// `RIFF`, `WAVE`, `fmt ` and `data`, in ASCII.
pub const RIFF: [u8; 4] = [82, 73, 70, 70];

pub const WAVE: [u8; 4] = [87, 65, 86, 69];

pub const FMT: [u8; 4] = [102, 109, 116, 32];

pub const DATA: [u8; 4] = [100, 97, 116, 97];

/// Samples one after the other.
pub open spec fn samples_bytes(samples: Seq<i16>) -> Seq<u8>
    decreases samples.len(),
{
    if samples.len() == 0 {
        Seq::empty()
    } else {
        samples_bytes(samples.drop_last()) + i16_bytes(samples.last())
    }
}

/// The 44 bytes before the samples.
pub open spec fn header(sample_rate: u32, channels: u16, data_len: nat) -> Seq<u8> {
    RIFF@ + le_bytes(36 + data_len, 4) + WAVE@ + FMT@ + le_bytes(16, 4) + le_bytes(1, 2) + le_bytes(
        channels as nat,
        2,
    ) + le_bytes(sample_rate as nat, 4) + le_bytes((sample_rate * (channels * 2)) as nat, 4)
        + le_bytes((channels * 2) as nat, 2) + le_bytes(16, 2) + DATA@ + le_bytes(data_len, 4)
}

/// The file that a run of samples makes.
pub open spec fn wav(sample_rate: u32, channels: u16, samples: Seq<i16>) -> Seq<u8> {
    header(sample_rate, channels, 2 * samples.len()) + samples_bytes(samples)
}

/// Encode interleaved 16-bit samples as a PCM WAV.
pub fn encode_pcm16(sample_rate: u32, channels: u16, samples: &[i16]) -> (out: Vec<u8>)
    requires
        channels * 16 <= u16::MAX,
        sample_rate * (channels * 2) <= u32::MAX,
        36 + 2 * samples@.len() <= u32::MAX,
    ensures
        out@ == wav(sample_rate, channels, samples@),
{
    let bits: u16 = 16;
    let block_align: u16 = channels * bits / 8;
    let byte_rate: u32 = sample_rate * block_align as u32;
    let data_len: u32 = (samples.len() * 2) as u32;
    let mut out: Vec<u8> = Vec::new();
    let (riff, wave, fmt, data) = (RIFF, WAVE, FMT, DATA);
    push_all(&mut out, riff.as_slice());
    push_le(&mut out, (36 + data_len) as u64, 4);
    push_all(&mut out, wave.as_slice());
    push_all(&mut out, fmt.as_slice());
    push_le(&mut out, 16, 4);
    push_le(&mut out, 1, 2);
    push_le(&mut out, channels as u64, 2);
    push_le(&mut out, sample_rate as u64, 4);
    push_le(&mut out, byte_rate as u64, 4);
    push_le(&mut out, block_align as u64, 2);
    push_le(&mut out, bits as u64, 2);
    push_all(&mut out, data.as_slice());
    push_le(&mut out, data_len as u64, 4);
    let ghost head = header(sample_rate, channels, 2 * samples@.len());
    assert(out@ =~= head);
    let mut i: usize = 0;
    assert(samples@.take(0) =~= Seq::empty());
    assert(out@ =~= head + samples_bytes(samples@.take(0)));
    while i < samples.len()
        invariant
            i <= samples@.len(),
            out@ == head + samples_bytes(samples@.take(i as int)),
        decreases samples@.len() - i,
    {
        push_i16(&mut out, samples[i]);
        proof {
            assert(samples@.take(i + 1).drop_last() =~= samples@.take(i as int));
            assert(out@ =~= head + samples_bytes(samples@.take(i + 1)));
        }
        i += 1;
    }
    assert(samples@.take(samples@.len() as int) =~= samples@);
    out
}

/// The header is 44 bytes long, and the file goes on with two for each sample.
pub proof fn law_the_header_describes_the_data(
    sample_rate: u32,
    channels: u16,
    samples: Seq<i16>,
)
    ensures
        header(sample_rate, channels, 2 * samples.len()).len() == 44,
        wav(sample_rate, channels, samples).len() == 44 + 2 * samples.len(),
        wav(sample_rate, channels, samples).subrange(40, 44) == le_bytes(2 * samples.len(), 4),
        wav(sample_rate, channels, samples).subrange(24, 28) == le_bytes(sample_rate as nat, 4),
        wav(sample_rate, channels, samples).subrange(22, 24) == le_bytes(channels as nat, 2),
    decreases samples.len(),
{
    let n = 2 * samples.len();
    crate::bytes::lemma_le_bytes_len((36 + n) as nat, 4);
    crate::bytes::lemma_le_bytes_len(16, 4);
    crate::bytes::lemma_le_bytes_len(1, 2);
    crate::bytes::lemma_le_bytes_len(channels as nat, 2);
    crate::bytes::lemma_le_bytes_len(sample_rate as nat, 4);
    crate::bytes::lemma_le_bytes_len((sample_rate * (channels * 2)) as nat, 4);
    crate::bytes::lemma_le_bytes_len((channels * 2) as nat, 2);
    crate::bytes::lemma_le_bytes_len(16, 2);
    crate::bytes::lemma_le_bytes_len(n as nat, 4);
    lemma_samples_len(samples);
    let w = wav(sample_rate, channels, samples);
    assert(w.subrange(40, 44) =~= le_bytes(n as nat, 4));
    assert(w.subrange(24, 28) =~= le_bytes(sample_rate as nat, 4));
    assert(w.subrange(22, 24) =~= le_bytes(channels as nat, 2));
}

/// The rest of the header: the four marks, the length of what follows the
/// first, plain samples of 16 bits, and how many bytes a second and a moment
/// take.
pub proof fn law_the_header_says_how_to_play(sample_rate: u32, channels: u16, data_len: nat)
    ensures
        ({
            let h = header(sample_rate, channels, data_len);
            &&& h.len() == 44
            &&& h.subrange(0, 4) == seq![82u8, 73, 70, 70]
            &&& h.subrange(4, 8) == le_bytes(36 + data_len, 4)
            &&& h.subrange(8, 12) == seq![87u8, 65, 86, 69]
            &&& h.subrange(12, 16) == seq![102u8, 109, 116, 32]
            &&& h.subrange(16, 20) == le_bytes(16, 4)
            &&& h.subrange(20, 22) == le_bytes(1, 2)
            &&& h.subrange(22, 24) == le_bytes(channels as nat, 2)
            &&& h.subrange(24, 28) == le_bytes(sample_rate as nat, 4)
            &&& h.subrange(28, 32) == le_bytes((sample_rate * channels * 2) as nat, 4)
            &&& h.subrange(32, 34) == le_bytes((channels * 2) as nat, 2)
            &&& h.subrange(34, 36) == le_bytes(16, 2)
            &&& h.subrange(36, 40) == seq![100u8, 97, 116, 97]
            &&& h.subrange(40, 44) == le_bytes(data_len, 4)
        }),
{
    let h = header(sample_rate, channels, data_len);
    crate::bytes::lemma_le_bytes_len(36 + data_len, 4);
    crate::bytes::lemma_le_bytes_len(16, 4);
    crate::bytes::lemma_le_bytes_len(1, 2);
    crate::bytes::lemma_le_bytes_len(channels as nat, 2);
    crate::bytes::lemma_le_bytes_len(sample_rate as nat, 4);
    crate::bytes::lemma_le_bytes_len((sample_rate * (channels * 2)) as nat, 4);
    crate::bytes::lemma_le_bytes_len((channels * 2) as nat, 2);
    crate::bytes::lemma_le_bytes_len(16, 2);
    crate::bytes::lemma_le_bytes_len(data_len, 4);
    assert(sample_rate * channels * 2 == sample_rate * (channels * 2)) by (nonlinear_arith);
    assert(h.subrange(0, 4) =~= seq![82u8, 73, 70, 70]);
    assert(h.subrange(4, 8) =~= le_bytes(36 + data_len, 4));
    assert(h.subrange(8, 12) =~= seq![87u8, 65, 86, 69]);
    assert(h.subrange(12, 16) =~= seq![102u8, 109, 116, 32]);
    assert(h.subrange(16, 20) =~= le_bytes(16, 4));
    assert(h.subrange(20, 22) =~= le_bytes(1, 2));
    assert(h.subrange(22, 24) =~= le_bytes(channels as nat, 2));
    assert(h.subrange(24, 28) =~= le_bytes(sample_rate as nat, 4));
    assert(h.subrange(28, 32) =~= le_bytes((sample_rate * channels * 2) as nat, 4));
    assert(h.subrange(32, 34) =~= le_bytes((channels * 2) as nat, 2));
    assert(h.subrange(34, 36) =~= le_bytes(16, 2));
    assert(h.subrange(36, 40) =~= seq![100u8, 97, 116, 97]);
    assert(h.subrange(40, 44) =~= le_bytes(data_len, 4));
}

/// The samples follow the header in their order, two bytes each.
pub proof fn law_the_samples_follow_in_order(
    sample_rate: u32,
    channels: u16,
    samples: Seq<i16>,
    i: int,
)
    requires
        0 <= i < samples.len(),
    ensures
        wav(sample_rate, channels, samples).subrange(44 + 2 * i, 46 + 2 * i) == i16_bytes(
            samples[i],
        ),
{
    law_the_header_says_how_to_play(sample_rate, channels, 2 * samples.len());
    lemma_sample_at(samples, i);
    lemma_samples_len(samples);
    let all = wav(sample_rate, channels, samples);
    assert(all.subrange(44 + 2 * i, 46 + 2 * i) =~= samples_bytes(samples).subrange(
        2 * i,
        2 * i + 2,
    ));
}

proof fn lemma_sample_at(samples: Seq<i16>, i: int)
    requires
        0 <= i < samples.len(),
    ensures
        2 * i + 2 <= samples_bytes(samples).len(),
        samples_bytes(samples).subrange(2 * i, 2 * i + 2) == i16_bytes(samples[i]),
    decreases samples.len(),
{
    lemma_samples_len(samples);
    let before = samples.drop_last();
    lemma_samples_len(before);
    crate::bytes::law_i16_value_inverts_i16_bytes(samples.last());
    let all = samples_bytes(samples);
    if i < before.len() {
        lemma_sample_at(before, i);
        assert(all.subrange(2 * i, 2 * i + 2) =~= samples_bytes(before).subrange(2 * i, 2 * i + 2));
    } else {
        assert(all.subrange(2 * i, 2 * i + 2) =~= i16_bytes(samples.last()));
    }
}

proof fn lemma_samples_len(samples: Seq<i16>)
    ensures
        samples_bytes(samples).len() == 2 * samples.len(),
    decreases samples.len(),
{
    if samples.len() > 0 {
        lemma_samples_len(samples.drop_last());
        crate::bytes::lemma_le_bytes_len((samples.last() as int % 65536) as nat, 2);
    }
}

} // verus!
