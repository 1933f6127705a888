//! Decisions on sample buffers: which samples a trim keeps, and how wide a
//! sample is written.

use crate::error::RushError;
use vstd::prelude::*;

verus! {

/// Why a buffer cannot be trimmed as asked.
#[derive(Debug, Clone, Copy, PartialEq, Eq, Structural)]
pub enum TrimError {
    /// The trim would start past the end of the buffer.
    OffsetTooLarge,
    /// Offset and length together reach past the end of the buffer.
    LengthTooLarge,
}

impl TrimError {
    /// The sentence shown to the user.
    pub fn message(&self) -> (text: &'static str)
        ensures
            text@ == match *self {
                TrimError::OffsetTooLarge => "Requested offset larger than file length"@,
                TrimError::LengthTooLarge => "Requested length larger than file length"@,
            },
    {
        match self {
            TrimError::OffsetTooLarge => "Requested offset larger than file length",
            TrimError::LengthTooLarge => "Requested length larger than file length",
        }
    }
}

/// Whether a trim at `offset` of `length` samples stays inside a buffer of
/// `total` samples.
pub open spec fn trim_fits(total: nat, offset: nat, length: nat) -> bool {
    offset <= total && offset + length <= total
}

/// Trims a sample buffer. The request is checked against the buffer first:
/// the offset, and then offset and length together, must not reach past its
/// end. What is kept are the samples from position `offset_samples` up to
/// position `length_samples`, so the offset must not lie beyond that
/// position.
pub fn trim_samples(samples: &Vec<i32>, offset_samples: usize, length_samples: usize) -> (r:
    Result<Vec<i32>, TrimError>)
    requires
        trim_fits(samples@.len(), offset_samples as nat, length_samples as nat)
            ==> offset_samples <= length_samples,
    ensures
        offset_samples > samples@.len() <==> r == Err::<Vec<i32>, TrimError>(
            TrimError::OffsetTooLarge,
        ),
        offset_samples <= samples@.len() && offset_samples + length_samples > samples@.len()
            <==> r == Err::<Vec<i32>, TrimError>(TrimError::LengthTooLarge),
        trim_fits(samples@.len(), offset_samples as nat, length_samples as nat) <==> r is Ok,
        r matches Ok(kept) ==> kept@ == samples@.subrange(
            offset_samples as int,
            length_samples as int,
        ),
{
    let total = samples.len();
    if offset_samples > total {
        return Err(TrimError::OffsetTooLarge);
    }
    if length_samples > total - offset_samples {
        return Err(TrimError::LengthTooLarge);
    }
    let mut kept: Vec<i32> = Vec::new();
    let mut i: usize = offset_samples;
    while i < length_samples
        invariant
            offset_samples <= i <= length_samples <= samples@.len(),
            kept@ == samples@.subrange(offset_samples as int, i as int),
        decreases length_samples - i,
    {
        kept.push(samples[i]);
        i += 1;
    }
    Ok(kept)
}

/// The integer type in which a sample of some bit depth is written.
#[derive(Debug, Clone, Copy, PartialEq, Eq, Structural)]
pub enum SampleWidth {
    /// 8 bits per sample.
    Bits8,
    /// 16 bits per sample.
    Bits16,
    /// 24 or 32 bits per sample, both carried in 32 bits.
    Bits32,
}

/// Picks the integer type for a bit depth: 8, 16, and 32 for both 24 and 32.
/// Any other depth is not supported.
pub fn sample_width(bits_per_sample: u16) -> (r: Result<SampleWidth, RushError>)
    ensures
        r == Ok::<SampleWidth, RushError>(SampleWidth::Bits8) <==> bits_per_sample == 8,
        r == Ok::<SampleWidth, RushError>(SampleWidth::Bits16) <==> bits_per_sample == 16,
        r == Ok::<SampleWidth, RushError>(SampleWidth::Bits32) <==> bits_per_sample == 24
            || bits_per_sample == 32,
        r is Err ==> r == Err::<SampleWidth, RushError>(RushError::UnsupportedFormat),
{
    if bits_per_sample == 8 {
        Ok(SampleWidth::Bits8)
    } else if bits_per_sample == 16 {
        Ok(SampleWidth::Bits16)
    } else if bits_per_sample == 24 || bits_per_sample == 32 {
        Ok(SampleWidth::Bits32)
    } else {
        Err(RushError::UnsupportedFormat)
    }
}

/// How many samples of an interleaved buffer of `total` samples belong to
/// channel `c` out of `channels`.
pub open spec fn channel_len(total: nat, channels: nat, c: nat) -> nat {
    total / channels + if c < total % channels {
        1nat
    } else {
        0nat
    }
}

/// The samples of channel `c` in an interleaved buffer: every
/// `channels`-th sample, starting with sample `c`.
pub open spec fn channel_of(samples: Seq<i32>, channels: nat, c: nat) -> Seq<i32> {
    Seq::new(channel_len(samples.len(), channels, c), |k: int| samples[k * channels + c])
}

/// Sample `k` of channel `c` lies inside the buffer, and the sample after
/// the last one of the channel does not.
pub proof fn lemma_channel_len(total: nat, channels: nat, c: nat, k: nat)
    requires
        channels >= 1,
        c < channels,
    ensures
        k < channel_len(total, channels, c) <==> k * channels + c < total,
{
    let q = total / channels;
    let r = total % channels;
    vstd::arithmetic::div_mod::lemma_fundamental_div_mod(total as int, channels as int);
    vstd::arithmetic::div_mod::lemma_mod_bound(total as int, channels as int);
    assert(channels * q == q * channels) by (nonlinear_arith);
    if k < q {
        assert(k * channels + channels <= q * channels) by (nonlinear_arith)
            requires
                k + 1 <= q,
                channels >= 1,
        ;
    } else if k > q {
        assert(k * channels >= q * channels + channels) by (nonlinear_arith)
            requires
                k >= q + 1,
                channels >= 1,
        ;
    }
}

/// Takes an interleaved buffer apart into its channels. A last frame that
/// is not complete gives its samples to the first channels. No channels
/// at all is an invalid argument.
pub fn deinterleave(samples: &Vec<i32>, channels: usize) -> (r: Result<Vec<Vec<i32>>, RushError>)
    ensures
        channels == 0 <==> r == Err::<Vec<Vec<i32>>, RushError>(RushError::InvalidArgument),
        channels >= 1 ==> r is Ok,
        r matches Ok(parts) ==> {
            &&& parts@.len() == channels
            &&& forall|c: int|
                0 <= c < channels ==> (#[trigger] parts@[c])@ == channel_of(
                    samples@,
                    channels as nat,
                    c as nat,
                )
        },
{
    if channels == 0 {
        return Err(RushError::InvalidArgument);
    }
    let total = samples.len();
    let mut parts: Vec<Vec<i32>> = Vec::new();
    let mut c: usize = 0;
    while c < channels
        invariant
            channels >= 1,
            c <= channels,
            total == samples@.len(),
            parts@.len() == c,
            forall|d: int|
                0 <= d < c ==> (#[trigger] parts@[d])@ == channel_of(
                    samples@,
                    channels as nat,
                    d as nat,
                ),
        decreases channels - c,
    {
        let mut part: Vec<i32> = Vec::new();
        let mut at: usize = c;
        let ghost mut k: nat = 0;
        proof {
            assert(0 * channels + c == c) by (nonlinear_arith);
        }
        while at < total
            invariant
                channels >= 1,
                c < channels,
                total == samples@.len(),
                at < total ==> at == k * channels + c,
                at >= total ==> k * channels + c >= total,
                k > 0 ==> (k - 1) * channels + c < total,
                part@.len() == k,
                forall|j: int| 0 <= j < k ==> #[trigger] part@[j] == samples@[j * channels + c],
            decreases total - at,
        {
            part.push(samples[at]);
            proof {
                assert((k + 1) * channels + c == k * channels + c + channels) by (nonlinear_arith);
                k = k + 1;
            }
            if total - at <= channels {
                at = total;
            } else {
                at += channels;
            }
        }
        proof {
            lemma_channel_len(total as nat, channels as nat, c as nat, k);
            if k > 0 {
                lemma_channel_len(total as nat, channels as nat, c as nat, (k - 1) as nat);
            }
        }
        parts.push(part);
        c += 1;
    }
    Ok(parts)
}

/// All channels have the same number of samples.
pub open spec fn same_length(parts: Seq<Vec<i32>>) -> bool {
    forall|c: int| 0 <= c < parts.len() ==> (#[trigger] parts[c])@.len() == parts[0]@.len()
}

/// The channels woven into one buffer, frame by frame: sample `i` of
/// channel `c` stands at position `i * channels + c`.
pub open spec fn interleaved(parts: Seq<Vec<i32>>) -> Seq<i32> {
    Seq::new(
        parts.len() * parts[0]@.len(),
        |p: int| parts[p % (parts.len() as int)]@[p / (parts.len() as int)],
    )
}

/// Weaves channels of equal length into one buffer, frame by frame.
pub fn interleave(parts: &Vec<Vec<i32>>) -> (samples: Vec<i32>)
    requires
        parts@.len() >= 1,
        same_length(parts@),
    ensures
        samples@ == interleaved(parts@),
        samples@.len() == parts@.len() * parts@[0]@.len(),
{
    let channels = parts.len();
    let frames = parts[0].len();
    let mut samples: Vec<i32> = Vec::new();
    let mut i: usize = 0;
    while i < frames
        invariant
            channels == parts@.len(),
            channels >= 1,
            frames == parts@[0]@.len(),
            same_length(parts@),
            i <= frames,
            samples@.len() == i * channels,
            forall|p: int|
                0 <= p < samples@.len() ==> #[trigger] samples@[p] == parts@[p % (
                channels as int)]@[p / (channels as int)],
        decreases frames - i,
    {
        let mut c: usize = 0;
        while c < channels
            invariant
                channels == parts@.len(),
                channels >= 1,
                frames == parts@[0]@.len(),
                same_length(parts@),
                i < frames,
                c <= channels,
                samples@.len() == i * channels + c,
                forall|p: int|
                    0 <= p < samples@.len() ==> #[trigger] samples@[p] == parts@[p % (
                    channels as int)]@[p / (channels as int)],
            decreases channels - c,
        {
            proof {
                assert(i * channels == channels * i) by (nonlinear_arith);
                vstd::arithmetic::div_mod::lemma_fundamental_div_mod_converse(
                    (i * channels + c) as int,
                    channels as int,
                    i as int,
                    c as int,
                );
            }
            samples.push(parts[c][i]);
            c += 1;
        }
        proof {
            assert((i + 1) * channels == i * channels + channels) by (nonlinear_arith);
        }
        i += 1;
    }
    proof {
        assert(frames * channels == channels * frames) by (nonlinear_arith);
    }
    samples
}

/// Taking a buffer of whole frames apart and weaving the channels together
/// again gives the buffer back.
pub proof fn lemma_interleave_inverts(samples: Seq<i32>, parts: Seq<Vec<i32>>, channels: nat)
    requires
        channels >= 1,
        samples.len() % channels == 0,
        parts.len() == channels,
        forall|c: int|
            0 <= c < channels ==> (#[trigger] parts[c])@ == channel_of(samples, channels, c as nat),
    ensures
        same_length(parts),
        interleaved(parts) == samples,
{
    let frames = samples.len() / channels;
    vstd::arithmetic::div_mod::lemma_fundamental_div_mod(samples.len() as int, channels as int);
    assert(channels * frames == frames * channels) by (nonlinear_arith);
    assert forall|c: int| 0 <= c < channels implies (#[trigger] parts[c])@.len() == frames by {}
    assert forall|p: int| 0 <= p < samples.len() implies #[trigger] interleaved(parts)[p]
        == samples[p] by {
        let c = p % (channels as int);
        let k = p / (channels as int);
        vstd::arithmetic::div_mod::lemma_fundamental_div_mod(p, channels as int);
        vstd::arithmetic::div_mod::lemma_mod_bound(p, channels as int);
        assert(channels * k == k * channels) by (nonlinear_arith);
        assert(0 <= k) by (nonlinear_arith)
            requires
                p == k * channels + c,
                p >= 0,
                0 <= c < channels,
        ;
        lemma_channel_len(samples.len(), channels, c as nat, k as nat);
    }
}

} // verus!
