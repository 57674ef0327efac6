//! Where samples of a large text are taken from.
use rand::Rng;
use vstd::prelude::*;

verus! {

/// How many samples are taken.
pub const NUM_CHUNKS: usize = 100;

/// `Rng::gen_range` of the thread's generator on the range `0..limit`. The draw lies in the range;
/// nothing else is said of it, and nothing of how one follows another.
#[verifier::external_body]
fn random_below(limit: u64) -> (r: u64)
    requires
        0 < limit,
    ensures
        r < limit,
{
    rand::thread_rng().gen_range(0..limit)
}

/// The length of a sample, where all are to have so many mebibytes.
pub open spec fn chunk_bytes(sample_size_mb: usize) -> int {
    sample_size_mb * 0x10_0000 / 100
}

/// The bytes of all samples can be counted.
pub open spec fn sample_fits(sample_size_mb: usize) -> bool {
    sample_size_mb * 0x10_0000 <= usize::MAX
}

/// The length of a sample.
pub fn chunk_size(sample_size_mb: usize) -> (r: usize)
    requires
        sample_fits(sample_size_mb),
    ensures
        r == chunk_bytes(sample_size_mb),
{
    sample_size_mb * 0x10_0000 / NUM_CHUNKS
}

/// Below which position of a file the samples start, so that each lies within the file. Where the
/// file is not longer than a sample, there is nowhere to draw from.
pub fn draw_limit(file_size: u64, sample_size_mb: usize) -> (r: Option<u64>)
    requires
        sample_fits(sample_size_mb),
    ensures
        r == (if chunk_bytes(sample_size_mb) < file_size {
            Some((file_size - chunk_bytes(sample_size_mb)) as u64)
        } else {
            None
        }),
{
    let chunk: u64 = chunk_size(sample_size_mb) as u64;
    if file_size <= chunk {
        None
    } else {
        Some(file_size - chunk)
    }
}

/// Where samples start in a file, drawn at random below [`draw_limit`].
pub fn sample_offsets(file_size: u64, sample_size_mb: usize) -> (r: Option<Vec<u64>>)
    requires
        sample_fits(sample_size_mb),
    ensures
        r is Some == (chunk_bytes(sample_size_mb) < file_size),
        r matches Some(v) ==> {
            &&& v@.len() == NUM_CHUNKS
            &&& forall|i: int|
                0 <= i < v@.len() ==> (#[trigger] v@[i]) + chunk_bytes(sample_size_mb) < file_size
        },
{
    let limit: u64 = match draw_limit(file_size, sample_size_mb) {
        None => {
            return None;
        },
        Some(n) => n,
    };
    let mut v: Vec<u64> = Vec::new();
    let mut i: usize = 0;
    while i < NUM_CHUNKS
        invariant
            i <= NUM_CHUNKS,
            v@.len() == i,
            limit == file_size - chunk_bytes(sample_size_mb),
            limit > 0,
            forall|j: int|
                0 <= j < v@.len() ==> (#[trigger] v@[j]) + chunk_bytes(sample_size_mb) < file_size,
        decreases NUM_CHUNKS - i,
    {
        v.push(random_below(limit));
        i += 1;
    }
    Some(v)
}

} // verus!
