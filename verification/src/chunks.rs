//! Slicing a flat sample buffer into chunks of one fixed length.

use crate::error::RushError;
use crate::partition::{
    lemma_size_piece_bounds, partition_by_size, size_partition, size_piece, size_piece_count,
    Range,
};
use vstd::prelude::*;

verus! {

/// The samples of `range`, followed by as many zeros as it takes to reach
/// `chunk_size` samples.
pub open spec fn padded_chunk(samples: Seq<i32>, range: Range, chunk_size: nat) -> Seq<i32> {
    let missing = if chunk_size > range.spec_len() {
        (chunk_size - range.spec_len()) as nat
    } else {
        0
    };
    samples.subrange(range.start as int, range.end as int) + Seq::new(missing, |i: int| 0i32)
}

/// Chunk `k` of the buffer: the samples from `k * chunk_size` on, as far as
/// there are any, padded with zeros to `chunk_size`.
pub open spec fn chunk_at(samples: Seq<i32>, chunk_size: nat, k: nat) -> Seq<i32> {
    padded_chunk(samples, size_piece(samples.len(), chunk_size, k), chunk_size)
}

/// Every chunk is `chunk_size` samples long; it repeats the buffer from
/// `k * chunk_size` on and holds zeros past the end of the buffer.
pub proof fn lemma_chunk_at(samples: Seq<i32>, chunk_size: nat, k: nat)
    requires
        chunk_size >= 1,
        samples.len() <= usize::MAX,
        k < size_piece_count(samples.len(), chunk_size),
    ensures
        chunk_at(samples, chunk_size, k).len() == chunk_size,
        forall|i: int|
            0 <= i < chunk_size ==> #[trigger] chunk_at(samples, chunk_size, k)[i] == if k
                * chunk_size + i < samples.len() {
                samples[k * chunk_size + i]
            } else {
                0i32
            },
{
    lemma_size_piece_bounds(samples.len(), chunk_size, k);
}

/// The length of a chunk in samples: its frames times the channels. A chunk
/// of no samples is turned down.
pub fn chunk_size(channels: usize, chunk_len_in_frames: usize) -> (r: Result<usize, RushError>)
    requires
        chunk_len_in_frames * channels <= usize::MAX,
    ensures
        chunk_len_in_frames * channels == 0 <==> r == Err::<usize, RushError>(
            RushError::InvalidArgument,
        ),
        chunk_len_in_frames * channels >= 1 ==> r == Ok::<usize, RushError>(
            (chunk_len_in_frames * channels) as usize,
        ),
{
    let size = chunk_len_in_frames * channels;
    if size == 0 {
        Err(RushError::InvalidArgument)
    } else {
        Ok(size)
    }
}

/// Copies the samples of `range` and pads them with zeros to `chunk_size`.
fn fill_chunk(samples: &Vec<i32>, range: Range, chunk_size: usize) -> (chunk: Vec<i32>)
    requires
        range.start <= range.end <= samples@.len(),
        range.spec_len() <= chunk_size,
    ensures
        chunk@ == padded_chunk(samples@, range, chunk_size as nat),
        chunk@.len() == chunk_size,
{
    let mut chunk: Vec<i32> = Vec::new();
    let mut i: usize = range.start;
    while i < range.end
        invariant
            range.start <= i <= range.end <= samples@.len(),
            chunk@ == samples@.subrange(range.start as int, i as int),
        decreases range.end - i,
    {
        chunk.push(samples[i]);
        i += 1;
    }
    let ghost copied = chunk@;
    let mut filled: usize = range.end - range.start;
    while filled < chunk_size
        invariant
            range.end - range.start <= filled <= chunk_size,
            copied.len() == range.end - range.start,
            chunk@ == copied + Seq::new((filled - copied.len()) as nat, |i: int| 0i32),
        decreases chunk_size - filled,
    {
        chunk.push(0);
        filled += 1;
    }
    chunk
}

/// Slices an interleaved sample buffer into chunks of `chunk_len_in_frames`
/// frames of `channels` samples each. Every chunk has that full length: the
/// last one is padded with zeros where the buffer ends early. An empty
/// buffer gives no chunk. A chunk length of zero samples is turned down.
pub fn emit_chunks(samples: &Vec<i32>, channels: usize, chunk_len_in_frames: usize) -> (r: Result<
    Vec<Vec<i32>>,
    RushError,
>)
    requires
        chunk_len_in_frames * channels <= usize::MAX,
    ensures
        chunk_len_in_frames * channels == 0 ==> r == Err::<Vec<Vec<i32>>, RushError>(
            RushError::InvalidArgument,
        ),
        chunk_len_in_frames * channels >= 1 ==> r is Ok,
        r matches Ok(chunks) ==> {
            &&& chunks@.len() == size_piece_count(
                samples@.len(),
                (chunk_len_in_frames * channels) as nat,
            )
            &&& forall|k: int|
                0 <= k < chunks@.len() ==> (#[trigger] chunks@[k])@ == chunk_at(
                    samples@,
                    (chunk_len_in_frames * channels) as nat,
                    k as nat,
                )
            &&& forall|k: int|
                0 <= k < chunks@.len() ==> (#[trigger] chunks@[k])@.len() == chunk_len_in_frames
                    * channels
        },
{
    let chunk_size = match chunk_size(channels, chunk_len_in_frames) {
        Ok(size) => size,
        Err(e) => {
            return Err(e);
        },
    };
    let ranges = match partition_by_size(samples.len(), chunk_size) {
        Ok(ranges) => ranges,
        Err(e) => {
            return Err(e);
        },
    };
    let mut chunks: Vec<Vec<i32>> = Vec::new();
    let mut k: usize = 0;
    while k < ranges.len()
        invariant
            chunk_size >= 1,
            samples@.len() <= usize::MAX,
            k <= ranges@.len(),
            ranges@ == size_partition(samples@.len(), chunk_size as nat),
            chunks@.len() == k,
            forall|j: int|
                0 <= j < k ==> (#[trigger] chunks@[j])@ == chunk_at(
                    samples@,
                    chunk_size as nat,
                    j as nat,
                ),
            forall|j: int| 0 <= j < k ==> (#[trigger] chunks@[j])@.len() == chunk_size,
        decreases ranges@.len() - k,
    {
        proof {
            lemma_size_piece_bounds(samples@.len(), chunk_size as nat, k as nat);
        }
        let chunk = fill_chunk(samples, ranges[k], chunk_size);
        chunks.push(chunk);
        k += 1;
    }
    Ok(chunks)
}

} // verus!
