//! The per-chunk worker decisions. A worker owns one decoder seeked to its
//! chunk's start and walks the chunk strictly in ascending index order,
//! fully decoding exactly the sampled indices and cheaply skipping the
//! rest. The functions here decide which indices those are and pair the
//! decoded colors back with their indices; the decoder calls themselves
//! are the caller's.

use vstd::prelude::*;

use crate::planner::Chunk;
use crate::sampling::{is_sampled, lemma_sampled_split, sampled_between, spec_is_sampled};
use crate::types::{Rgb8, SampledColor};

verus! {

/// The indices of `[chunk.start, chunk.end)` that a worker must fully
/// decode, in the ascending order the sequential-access decoder requires;
/// every other index of the chunk is only skipped.
pub fn chunk_sampled_indices(chunk: &Chunk, fps: u64) -> (r: Vec<u64>)
    requires
        fps >= 1,
        chunk.start <= chunk.end,
    ensures
        r@.map_values(|x: u64| x as int)
            == sampled_between(chunk.start as int, chunk.end as int, fps as int),
{
    let mut r: Vec<u64> = Vec::new();
    let mut i = chunk.start;
    proof {
        assert(r@.map_values(|x: u64| x as int)
            =~= sampled_between(chunk.start as int, chunk.start as int, fps as int));
    }
    while i < chunk.end
        invariant
            fps >= 1,
            chunk.start <= i <= chunk.end,
            r@.map_values(|x: u64| x as int)
                == sampled_between(chunk.start as int, i as int, fps as int),
        decreases chunk.end - i,
    {
        let ghost prev = r@;
        if is_sampled(i, fps) {
            r.push(i);
        }
        proof {
            lemma_sampled_split(chunk.start as int, i as int, i as int + 1, fps as int);
            assert(sampled_between(i as int + 1, i as int + 1, fps as int) =~= Seq::<int>::empty());
            if spec_is_sampled(i as int, fps as int) {
                assert(sampled_between(i as int, i as int + 1, fps as int)
                    == seq![i as int] + sampled_between(i as int + 1, i as int + 1, fps as int));
                assert(sampled_between(i as int, i as int + 1, fps as int) =~= seq![i as int]);
                assert(r@.map_values(|x: u64| x as int)
                    =~= prev.map_values(|x: u64| x as int) + seq![i as int]);
            } else {
                assert(sampled_between(i as int, i as int + 1, fps as int) =~= Seq::<int>::empty());
                assert(sampled_between(chunk.start as int, i as int + 1, fps as int)
                    =~= sampled_between(chunk.start as int, i as int, fps as int));
            }
        }
        i = i + 1;
    }
    r
}

/// Pairs each decoded color with the frame index it was decoded at. The
/// caller hands the colors in the same order as the indices it decoded.
pub fn pair_samples(indices: &Vec<u64>, colors: &Vec<Rgb8>) -> (r: Vec<SampledColor>)
    requires
        indices@.len() == colors@.len(),
    ensures
        r@.len() == indices@.len(),
        forall|j: int| 0 <= j < r@.len()
            ==> #[trigger] r@[j] == (SampledColor { index: indices@[j], color: colors@[j] }),
{
    let mut r: Vec<SampledColor> = Vec::new();
    let mut j: usize = 0;
    while j < indices.len()
        invariant
            indices@.len() == colors@.len(),
            j <= indices@.len(),
            r@.len() == j,
            forall|t: int| 0 <= t < j as int
                ==> #[trigger] r@[t] == (SampledColor { index: indices@[t], color: colors@[t] }),
        decreases indices@.len() - j,
    {
        r.push(SampledColor { index: indices[j], color: colors[j] });
        j = j + 1;
    }
    r
}

} // verus!
