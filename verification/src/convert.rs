use vstd::prelude::*;

use crate::format::FormatPCM16;

verus! {

/// The low byte of a PCM16 sample in two's complement.
pub open spec fn pcm16_low(sample: FormatPCM16) -> u8 {
    (unsigned_of(sample) % 256) as u8
}

/// The high byte of a PCM16 sample in two's complement.
pub open spec fn pcm16_high(sample: FormatPCM16) -> u8 {
    (unsigned_of(sample) / 256) as u8
}

/// The 16-bit pattern of a sample read as an unsigned number.
pub open spec fn unsigned_of(sample: FormatPCM16) -> int {
    if sample >= 0 {
        sample as int
    } else {
        sample + 0x1_0000
    }
}

/// The sample whose little-endian bytes are `low` and `high`.
pub open spec fn pcm16_of(low: u8, high: u8) -> FormatPCM16 {
    let pattern = low + 256 * high;
    if pattern >= 0x8000 {
        (pattern - 0x1_0000) as i16
    } else {
        pattern as i16
    }
}

/// The bytes of a run of PCM16 samples: two for each sample, low byte
/// first, the samples in order.
pub open spec fn pcm16_encoded(samples: Seq<FormatPCM16>) -> Seq<u8> {
    Seq::new(
        2 * samples.len(),
        |i: int|
            if i % 2 == 0 {
                pcm16_low(samples[i / 2])
            } else {
                pcm16_high(samples[i / 2])
            },
    )
}

/// The PCM16 samples that a run of bytes holds: one for each complete pair
/// of bytes. A last byte without a partner is no sample.
pub open spec fn pcm16_decoded(bytes: Seq<u8>) -> Seq<FormatPCM16> {
    Seq::new(bytes.len() / 2, |i: int| pcm16_of(bytes[2 * i], bytes[2 * i + 1]))
}

/// Two bytes and back: the bytes of a sample give the sample again.
pub proof fn lemma_pcm16_sample_round_trip(sample: FormatPCM16)
    ensures
        pcm16_of(pcm16_low(sample), pcm16_high(sample)) == sample,
{
}

/// A sample and back: the sample of two bytes has those bytes.
pub proof fn lemma_pcm16_bytes_round_trip(low: u8, high: u8)
    ensures
        pcm16_low(pcm16_of(low, high)) == low,
        pcm16_high(pcm16_of(low, high)) == high,
{
}

/// Decoding what was encoded gives the very samples back: on the PCM16
/// side the byte format loses nothing.
pub proof fn lemma_decode_encoded(samples: Seq<FormatPCM16>)
    ensures
        pcm16_decoded(pcm16_encoded(samples)) == samples,
{
    let bytes = pcm16_encoded(samples);
    assert forall|i: int| 0 <= i < samples.len() implies pcm16_decoded(bytes)[i] == samples[i] by {
        lemma_pcm16_sample_round_trip(samples[i]);
    }
}

/// Encoding what was decoded gives the bytes back, but for a last byte
/// without a partner, which decoding drops.
pub proof fn lemma_encode_decoded(bytes: Seq<u8>)
    ensures
        pcm16_encoded(pcm16_decoded(bytes)) == bytes.take(2 * (bytes.len() as int / 2)),
{
    let samples = pcm16_decoded(bytes);
    let whole = bytes.take(2 * (bytes.len() as int / 2));
    assert forall|i: int| 0 <= i < whole.len() implies pcm16_encoded(samples)[i] == whole[i] by {
        let k = i / 2;
        lemma_pcm16_bytes_round_trip(bytes[2 * k], bytes[2 * k + 1]);
    }
}

/// Writes PCM16 samples as bytes: each sample as its two bytes, low byte
/// first, one sample after the other.
pub fn convert_pcm16_to_bytes(samples: &[FormatPCM16]) -> (bytes: Vec<u8>)
    ensures
        bytes@ == pcm16_encoded(samples@),
{
    let mut bytes: Vec<u8> = Vec::new();
    let mut i: usize = 0;
    while i < samples.len()
        invariant
            0 <= i <= samples@.len(),
            bytes@ == pcm16_encoded(samples@.take(i as int)),
        decreases samples@.len() - i,
    {
        let sample = samples[i];
        let pattern: u32 = if sample >= 0 {
            sample as u32
        } else {
            (sample as i32 + 0x1_0000) as u32
        };
        let low: u8 = (pattern % 256) as u8;
        let high: u8 = (pattern / 256) as u8;
        bytes.push(low);
        bytes.push(high);
        assert(bytes@ =~= pcm16_encoded(samples@.take(i + 1)));
        i = i + 1;
    }
    bytes
}

/// Reads bytes as PCM16 samples: each complete pair of bytes, low byte
/// first, as one sample. A last byte without a partner is dropped.
pub fn convert_bytes_to_pcm16(bytes: &[u8]) -> (samples: Vec<FormatPCM16>)
    ensures
        samples@ == pcm16_decoded(bytes@),
{
    let pairs: usize = bytes.len() / 2;
    let mut samples: Vec<i16> = Vec::new();
    let mut i: usize = 0;
    while i < pairs
        invariant
            pairs == bytes@.len() / 2,
            bytes@.len() == bytes.len(),
            0 <= i <= pairs,
            samples@.len() == i,
            forall|k: int| 0 <= k < i ==> samples@[k] == pcm16_of(bytes@[2 * k], bytes@[2 * k + 1]),
        decreases pairs - i,
    {
        let low = bytes[2 * i];
        let high = bytes[2 * i + 1];
        let pattern: i32 = low as i32 + 256 * (high as i32);
        let sample: i16 = if pattern >= 0x8000 {
            (pattern - 0x1_0000) as i16
        } else {
            pattern as i16
        };
        samples.push(sample);
        i = i + 1;
    }
    samples
}

} // verus!
