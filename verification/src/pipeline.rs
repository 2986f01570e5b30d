//! The pipeline model: what a whole extraction run produces, stated over
//! the planner, the workers, the coordinator's merge and the assembler
//! together. The theorems here say that the assembled track is the colors
//! of the sampled frames in chronological order, for every contiguous
//! chunking — so the result does not depend on the worker count, the
//! scheduling, or the order worker results arrive in.

use vstd::prelude::*;

use crate::assembler::{has_duplicate_index, indices_below, strictly_sorted_by_index};
use crate::coordinator::{all_chunks_ok, concat_samples};
use crate::errors::ExtractError;
use crate::planner::{contiguous_cover, lemma_plan_covers, spec_plan, Chunk};
use crate::sampling::{
    lemma_sampled_props, lemma_sampled_split, lemma_single_sample, sampled_between,
};
use crate::types::{Rgb8, SampledColor};

verus! {

/// The samples a correct worker emits for the chunk `[start, end)` of a
/// video whose frame colors are `colors`: one pair per sampled index of
/// the chunk, in ascending index order.
pub open spec fn spec_chunk_samples(start: int, end: int, fps: int, colors: Seq<Rgb8>) -> Seq<
    SampledColor,
> {
    sampled_between(start, end, fps).map_values(
        |i: int| SampledColor { index: i as u64, color: colors[i] },
    )
}

/// The canonical color track of a video: the frame colors at the sampled
/// indices of `[0, frame_count)`, in chronological order.
pub open spec fn spec_track(frame_count: int, fps: int, colors: Seq<Rgb8>) -> Seq<Rgb8> {
    sampled_between(0, frame_count, fps).map_values(|i: int| colors[i])
}

/// All samples of a chunked run, concatenated in chunk order.
pub open spec fn spec_chunks_samples(chunks: Seq<Chunk>, fps: int, colors: Seq<Rgb8>) -> Seq<
    SampledColor,
>
    decreases chunks.len(),
{
    if chunks.len() == 0 {
        Seq::empty()
    } else {
        spec_chunk_samples(chunks[0].start as int, chunks[0].end as int, fps, colors)
            + spec_chunks_samples(chunks.drop_first(), fps, colors)
    }
}

/// How a range is chunked does not change which samples come out: any
/// contiguous partition of `[lo, hi)` yields, in chunk order, exactly the
/// samples of `[lo, hi)` itself.
pub proof fn lemma_cover_samples(chunks: Seq<Chunk>, lo: int, hi: int, fps: int, colors: Seq<Rgb8>)
    requires
        contiguous_cover(chunks, lo, hi),
    ensures
        lo <= hi,
        spec_chunks_samples(chunks, fps, colors) == spec_chunk_samples(lo, hi, fps, colors),
    decreases chunks.len(),
{
    if chunks.len() == 0 {
        assert(sampled_between(lo, hi, fps) =~= Seq::<int>::empty());
        assert(spec_chunk_samples(lo, hi, fps, colors) =~= Seq::<SampledColor>::empty());
    } else {
        let mid = chunks[0].end as int;
        let rest = chunks.drop_first();
        assert(chunks[0].start as int == lo);
        assert(contiguous_cover(rest, mid, hi)) by {
            if rest.len() > 0 {
                assert(rest[0] == chunks[1]);
                assert(rest[rest.len() - 1] == chunks[chunks.len() - 1]);
                assert forall|k: int| 0 <= k < rest.len() implies (#[trigger] rest[k]).start
                    < rest[k].end by {
                    assert(rest[k] == chunks[k + 1]);
                }
                assert forall|k: int| 1 <= k < rest.len() implies (#[trigger] rest[k]).start
                    == rest[k - 1].end by {
                    assert(rest[k] == chunks[k + 1]);
                    assert(rest[k - 1] == chunks[k]);
                }
            }
        }
        lemma_cover_samples(rest, mid, hi, fps, colors);
        assert(lo < mid);
        lemma_sampled_split(lo, mid, hi, fps);
        let f = |i: int| SampledColor { index: i as u64, color: colors[i] };
        assert((sampled_between(lo, mid, fps) + sampled_between(mid, hi, fps)).map_values(f)
            =~= sampled_between(lo, mid, fps).map_values(f) + sampled_between(
            mid,
            hi,
            fps,
        ).map_values(f));
    }
}

/// When every chunk's worker succeeded with exactly its chunk's samples,
/// the coordinator's merge yields the samples of all chunks in order.
pub proof fn lemma_results_samples(
    chunks: Seq<Chunk>,
    results: Seq<Result<Vec<SampledColor>, ExtractError>>,
    fps: int,
    colors: Seq<Rgb8>,
)
    requires
        results.len() == chunks.len(),
        forall|k: int| 0 <= k < chunks.len() ==> (#[trigger] results[k]) is Ok
            && results[k]->Ok_0@ == spec_chunk_samples(
            chunks[k].start as int,
            chunks[k].end as int,
            fps,
            colors,
        ),
    ensures
        all_chunks_ok(results),
        concat_samples(results) == spec_chunks_samples(chunks, fps, colors),
    decreases chunks.len(),
{
    if chunks.len() > 0 {
        let rc = results.drop_first();
        let cc = chunks.drop_first();
        assert forall|k: int| 0 <= k < cc.len() implies (#[trigger] rc[k]) is Ok
            && rc[k]->Ok_0@ == spec_chunk_samples(
            cc[k].start as int,
            cc[k].end as int,
            fps,
            colors,
        ) by {
            assert(rc[k] == results[k + 1]);
            assert(cc[k] == chunks[k + 1]);
        }
        lemma_results_samples(cc, rc, fps, colors);
        assert(results[0] is Ok);
    }
}

/// The canonical samples of a whole video are strictly ordered by frame
/// index, free of duplicates, within range, and project to the canonical
/// track.
pub proof fn lemma_canonical_samples(frame_count: int, fps: int, colors: Seq<Rgb8>)
    requires
        1 <= fps,
        0 <= frame_count <= u64::MAX,
    ensures
        strictly_sorted_by_index(spec_chunk_samples(0, frame_count, fps, colors)),
        !has_duplicate_index(spec_chunk_samples(0, frame_count, fps, colors)),
        indices_below(spec_chunk_samples(0, frame_count, fps, colors), frame_count),
        spec_chunk_samples(0, frame_count, fps, colors).map_values(|sc: SampledColor| sc.color)
            == spec_track(frame_count, fps, colors),
{
    lemma_sampled_props(0, frame_count, fps);
    let idx = sampled_between(0, frame_count, fps);
    let s = spec_chunk_samples(0, frame_count, fps, colors);
    assert forall|j: int| 0 <= j < s.len() implies (#[trigger] s[j]).index as int == idx[j]
        && s[j].index < frame_count by {
        assert(0 <= idx[j] < frame_count);
    }
    assert forall|i: int, j: int| 0 <= i < j < s.len() implies (#[trigger] s[i]).index
        < (#[trigger] s[j]).index by {
        assert(idx[i] < idx[j]);
    }
    assert(!has_duplicate_index(s)) by {
        if has_duplicate_index(s) {
            let (i, j): (int, int) = choose|i: int, j: int|
                #![trigger s[i], s[j]]
                0 <= i < j < s.len() && s[i].index == s[j].index;
            assert(s[i].index < s[j].index);
        }
    }
    assert(s.map_values(|sc: SampledColor| sc.color) =~= spec_track(frame_count, fps, colors));
}

/// A complete successful run produces, after the merge, exactly the
/// canonical samples of the video — already in chronological order — and
/// their colors are the canonical track. Together with the assembler's
/// contract this pins the final track to `spec_track`, whatever chunking
/// was planned and however the workers were scheduled.
pub proof fn lemma_run_canonical(
    chunks: Seq<Chunk>,
    results: Seq<Result<Vec<SampledColor>, ExtractError>>,
    frame_count: int,
    fps: int,
    colors: Seq<Rgb8>,
)
    requires
        1 <= fps,
        0 <= frame_count <= u64::MAX,
        contiguous_cover(chunks, 0, frame_count),
        results.len() == chunks.len(),
        forall|k: int| 0 <= k < chunks.len() ==> (#[trigger] results[k]) is Ok
            && results[k]->Ok_0@ == spec_chunk_samples(
            chunks[k].start as int,
            chunks[k].end as int,
            fps,
            colors,
        ),
    ensures
        all_chunks_ok(results),
        concat_samples(results) == spec_chunk_samples(0, frame_count, fps, colors),
        strictly_sorted_by_index(concat_samples(results)),
        !has_duplicate_index(concat_samples(results)),
        indices_below(concat_samples(results), frame_count),
        concat_samples(results).map_values(|sc: SampledColor| sc.color) == spec_track(
            frame_count,
            fps,
            colors,
        ),
{
    lemma_results_samples(chunks, results, fps, colors);
    lemma_cover_samples(chunks, 0, frame_count, fps, colors);
    lemma_canonical_samples(frame_count, fps, colors);
}

/// Worker-count independence: however many workers the plan is cut for,
/// the run produces the same samples — those of the whole video.
pub proof fn lemma_worker_count_irrelevant(
    frame_count: int,
    fps: int,
    w1: int,
    w2: int,
    colors: Seq<Rgb8>,
)
    requires
        0 <= frame_count <= u64::MAX,
        1 <= fps,
        fps * 90 <= u64::MAX,
        1 <= w1,
        1 <= w2,
    ensures
        spec_chunks_samples(spec_plan(frame_count, fps, w1), fps, colors) == spec_chunks_samples(
            spec_plan(frame_count, fps, w2),
            fps,
            colors,
        ),
        spec_chunks_samples(spec_plan(frame_count, fps, w1), fps, colors) == spec_chunk_samples(
            0,
            frame_count,
            fps,
            colors,
        ),
{
    lemma_plan_covers(frame_count, fps, w1);
    lemma_plan_covers(frame_count, fps, w2);
    lemma_cover_samples(spec_plan(frame_count, fps, w1), 0, frame_count, fps, colors);
    lemma_cover_samples(spec_plan(frame_count, fps, w2), 0, frame_count, fps, colors);
}

/// Idempotence: the canonical track is a function of the video's stats
/// and frame colors alone, so two runs over the same input yield the
/// identical track.
pub proof fn lemma_extraction_idempotent(
    frame_count: int,
    fps: int,
    colors: Seq<Rgb8>,
    t1: Seq<Rgb8>,
    t2: Seq<Rgb8>,
)
    requires
        t1 == spec_track(frame_count, fps, colors),
        t2 == spec_track(frame_count, fps, colors),
    ensures
        t1 == t2,
{
}

/// Boundary behavior: an empty video yields an empty track, and a video
/// shorter than one second yields exactly the color of frame 0.
pub proof fn lemma_track_boundary(frame_count: int, fps: int, colors: Seq<Rgb8>)
    requires
        1 <= fps,
        0 <= frame_count,
    ensures
        frame_count == 0 ==> spec_track(frame_count, fps, colors) == Seq::<Rgb8>::empty(),
        1 <= frame_count < fps ==> spec_track(frame_count, fps, colors) == seq![colors[0]],
{
    if frame_count == 0 {
        assert(sampled_between(0, 0, fps) =~= Seq::<int>::empty());
        assert(spec_track(frame_count, fps, colors) =~= Seq::<Rgb8>::empty());
    } else if frame_count < fps {
        lemma_single_sample(frame_count, fps);
        assert(spec_track(frame_count, fps, colors) =~= seq![colors[0]]);
    }
}

} // verus!
