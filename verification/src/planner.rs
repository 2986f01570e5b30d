//! The chunk planner: splits the frame index range `[0, frame_count)` into
//! contiguous chunks, one per worker, sized so that each chunk is worth
//! roughly ninety seconds of footage (amortizing the cost of opening and
//! seeking a fresh decoder per chunk).

use vstd::arithmetic::div_mod::{lemma_fundamental_div_mod, lemma_mod_bound};
use vstd::arithmetic::mul::lemma_mul_inequality;
use vstd::prelude::*;

verus! {

/// A contiguous sub-range `[start, end)` of frame indices, consumed by
/// exactly one worker and never mutated after planning.
#[derive(Clone, Copy, Debug, PartialEq, Eq, Structural)]
pub struct Chunk {
    pub start: u64,
    pub end: u64,
}

/// Ceiling division for non-negative dividends and positive divisors.
pub open spec fn spec_div_ceil(a: int, b: int) -> int {
    if a % b == 0 {
        a / b
    } else {
        a / b + 1
    }
}

/// Each chunk should cover about ninety seconds of footage.
pub open spec fn spec_min_chunk_size(fps: int) -> int {
    fps * 90
}

/// How many chunks the footage is worth at the minimum chunk size.
pub open spec fn spec_desired_chunks(frame_count: int, fps: int) -> int {
    spec_div_ceil(frame_count, spec_min_chunk_size(fps))
}

/// The number of chunks actually planned for a non-empty video: capped by
/// the available worker count.
pub open spec fn spec_chunk_count(frame_count: int, fps: int, max_workers: int) -> int {
    vstd::math::min(max_workers, spec_desired_chunks(frame_count, fps))
}

/// The size of every chunk but possibly the last, for a non-empty video.
pub open spec fn spec_chunk_size(frame_count: int, fps: int, max_workers: int) -> int {
    spec_div_ceil(frame_count, spec_chunk_count(frame_count, fps, max_workers))
}

/// How many chunks the plan holds; an empty video is planned as no chunks.
pub open spec fn spec_num_chunks(frame_count: int, fps: int, max_workers: int) -> int {
    if frame_count <= 0 {
        0
    } else {
        spec_div_ceil(frame_count, spec_chunk_size(frame_count, fps, max_workers))
    }
}

/// The planned partition: consecutive chunks of `spec_chunk_size`, the
/// last one cut short at `frame_count`.
pub open spec fn spec_plan(frame_count: int, fps: int, max_workers: int) -> Seq<Chunk> {
    Seq::new(
        spec_num_chunks(frame_count, fps, max_workers) as nat,
        |k: int| Chunk {
            start: (k * spec_chunk_size(frame_count, fps, max_workers)) as u64,
            end: vstd::math::min(
                (k + 1) * spec_chunk_size(frame_count, fps, max_workers),
                frame_count,
            ) as u64,
        },
    )
}

/// `chunks` partitions `[lo, hi)` exactly: every chunk is non-empty, each
/// begins where the previous one ended, the first begins at `lo` and the
/// last ends at `hi`.
pub open spec fn contiguous_cover(chunks: Seq<Chunk>, lo: int, hi: int) -> bool {
    &&& (chunks.len() == 0 ==> lo == hi)
    &&& (chunks.len() > 0 ==> chunks[0].start as int == lo
        && chunks[chunks.len() - 1].end as int == hi)
    &&& (forall|k: int| 0 <= k < chunks.len() ==> (#[trigger] chunks[k]).start < chunks[k].end)
    &&& (forall|k: int| 1 <= k < chunks.len() ==> (#[trigger] chunks[k]).start == chunks[k - 1].end)
}

/// Bounds characterizing ceiling division: the quotient is the least `n`
/// with `a <= n * b`.
pub proof fn lemma_div_ceil_bounds(a: int, b: int)
    requires
        0 <= a,
        1 <= b,
    ensures
        0 <= spec_div_ceil(a, b),
        a <= b * spec_div_ceil(a, b),
        b * (spec_div_ceil(a, b) - 1) < a,
        a >= 1 ==> spec_div_ceil(a, b) >= 1,
        spec_div_ceil(a, b) <= a,
{
    lemma_fundamental_div_mod(a, b);
    lemma_mod_bound(a, b);
    let q = a / b;
    let r = a % b;
    if r == 0 {
        assert(0 <= q && (a >= 1 ==> q >= 1) && q <= a && a <= b * q && b * (q - 1) < a)
            by (nonlinear_arith)
            requires
                a == b * q,
                1 <= b,
                0 <= a,
        ;
    } else {
        assert(0 <= q + 1 && q + 1 >= 1 && q + 1 <= a && a <= b * (q + 1) && b * q < a)
            by (nonlinear_arith)
            requires
                a == b * q + r,
                1 <= b,
                0 < r < b,
                0 <= a,
        ;
    }
}

/// If `a` lies in the `n`-th block of size `b`, the ceiling quotient is `n`.
pub proof fn lemma_div_ceil_exact(a: int, b: int, n: int)
    requires
        0 <= a,
        1 <= b,
        (n - 1) * b < a,
        a <= n * b,
    ensures
        spec_div_ceil(a, b) == n,
{
    lemma_div_ceil_bounds(a, b);
    let d = spec_div_ceil(a, b);
    assert(d == n) by (nonlinear_arith)
        requires
            a <= b * d,
            b * (d - 1) < a,
            (n - 1) * b < a,
            a <= n * b,
            1 <= b,
    ;
}

/// Ceiling division never overshoots a block bound: `a <= n * b` caps the
/// quotient at `n`.
pub proof fn lemma_div_ceil_le(a: int, b: int, n: int)
    requires
        0 <= a,
        1 <= b,
        a <= n * b,
    ensures
        spec_div_ceil(a, b) <= n,
{
    lemma_div_ceil_bounds(a, b);
    let d = spec_div_ceil(a, b);
    assert(d <= n) by (nonlinear_arith)
        requires
            b * (d - 1) < a,
            a <= n * b,
            1 <= b,
    ;
}

/// The planned chunks are contiguous, non-overlapping, and cover
/// `[0, frame_count)` exactly; their number never exceeds the worker
/// count, and footage of at most one second's worth of frames fits in a
/// single chunk.
pub proof fn lemma_plan_covers(frame_count: int, fps: int, max_workers: int)
    requires
        0 <= frame_count <= u64::MAX,
        1 <= fps,
        1 <= max_workers,
        fps * 90 <= u64::MAX,
    ensures
        contiguous_cover(spec_plan(frame_count, fps, max_workers), 0, frame_count),
        spec_plan(frame_count, fps, max_workers).len()
            == spec_num_chunks(frame_count, fps, max_workers),
        spec_num_chunks(frame_count, fps, max_workers) <= max_workers,
        frame_count == 0 ==> spec_num_chunks(frame_count, fps, max_workers) == 0,
        frame_count >= 1 ==> spec_num_chunks(frame_count, fps, max_workers) >= 1,
        frame_count >= 1 ==> spec_chunk_size(frame_count, fps, max_workers) >= 1,
        1 <= frame_count <= fps ==> spec_num_chunks(frame_count, fps, max_workers) == 1,
{
    if frame_count == 0 {
        assert(spec_plan(frame_count, fps, max_workers) =~= Seq::<Chunk>::empty());
    } else {
        let fc = frame_count;
        let mcs = spec_min_chunk_size(fps);
        assert(mcs >= 90 && mcs >= fps) by (nonlinear_arith)
            requires
                1 <= fps,
                mcs == fps * 90,
        ;
        let des = spec_desired_chunks(fc, fps);
        lemma_div_ceil_bounds(fc, mcs);
        let cc = spec_chunk_count(fc, fps, max_workers);
        assert(1 <= cc && cc <= max_workers && cc <= des);
        let cs = spec_chunk_size(fc, fps, max_workers);
        lemma_div_ceil_bounds(fc, cc);
        assert(1 <= cs && fc <= cc * cs);
        let num = spec_num_chunks(fc, fps, max_workers);
        lemma_div_ceil_bounds(fc, cs);
        assert(1 <= num && fc <= cs * num && cs * (num - 1) < fc);
        lemma_div_ceil_le(fc, cs, cc);
        assert(num <= cc);

        let chunks = spec_plan(fc, fps, max_workers);
        assert forall|k: int| 0 <= k < num implies (#[trigger] chunks[k]).start as int == k * cs
            && chunks[k].end as int == vstd::math::min((k + 1) * cs, fc)
            && chunks[k].start < chunks[k].end by {
            lemma_mul_inequality(k, num - 1, cs);
            assert(k * cs <= (num - 1) * cs);
            assert((num - 1) * cs == cs * (num - 1)) by (nonlinear_arith);
            assert(k * cs < fc);
            assert(0 <= k * cs && (k + 1) * cs == k * cs + cs) by (nonlinear_arith)
                requires
                    0 <= k,
                    1 <= cs,
            ;
            assert(0 <= k * cs < fc <= u64::MAX);
            assert(0 <= vstd::math::min((k + 1) * cs, fc) <= fc <= u64::MAX);
            assert(k * cs < vstd::math::min((k + 1) * cs, fc));
        }
        assert forall|k: int| 1 <= k < num implies (#[trigger] chunks[k]).start == chunks[k - 1].end by {
            assert(chunks[k].start as int == k * cs);
            assert(k * cs < fc);
            assert(vstd::math::min(k * cs, fc) == k * cs);
            assert(chunks[k - 1].end as int == vstd::math::min(k * cs, fc));
        }
        assert(chunks[0].start as int == 0) by {
            assert(0 * cs == 0) by (nonlinear_arith);
        }
        assert(chunks[num - 1].end as int == fc) by {
            assert((num - 1 + 1) * cs == cs * num) by (nonlinear_arith);
            assert(vstd::math::min(num * cs, fc) == fc);
        }

        if fc <= fps {
            lemma_div_ceil_exact(fc, mcs, 1);
            assert(des == 1);
            assert(cc == 1);
            lemma_div_ceil_exact(fc, 1, fc);
            assert(cs == fc);
            lemma_div_ceil_exact(fc, fc, 1);
            assert(num == 1);
        }
    }
}

/// Executable ceiling division.
fn div_ceil_u64(a: u64, b: u64) -> (r: u64)
    requires
        b >= 1,
    ensures
        r as int == spec_div_ceil(a as int, b as int),
{
    let q = a / b;
    let rem = a % b;
    if rem == 0 {
        q
    } else {
        proof {
            lemma_fundamental_div_mod(a as int, b as int);
            assert(q < u64::MAX) by (nonlinear_arith)
                requires
                    a as int == b as int * q as int + rem as int,
                    2 <= b,
                    0 < rem,
                    a <= u64::MAX,
            ;
        }
        q + 1
    }
}

/// Plans the partition of `[0, frame_count)` into contiguous chunks.
///
/// The chunk size amortizes decoder startup (at least ninety seconds of
/// footage per chunk where the video is long enough), the chunk count is
/// capped by `max_workers`, an empty video is planned as no chunks, and a
/// video no longer than one second's worth of frames gets a single chunk.
pub fn plan(frame_count: u64, fps: u64, max_workers: u64) -> (r: Vec<Chunk>)
    requires
        fps >= 1,
        max_workers >= 1,
        fps as int * 90 <= u64::MAX as int,
    ensures
        r@ == spec_plan(frame_count as int, fps as int, max_workers as int),
        contiguous_cover(r@, 0, frame_count as int),
        r@.len() == spec_num_chunks(frame_count as int, fps as int, max_workers as int),
        r@.len() <= max_workers,
        frame_count == 0 ==> r@.len() == 0,
        frame_count >= 1 ==> r@.len() >= 1,
        1 <= frame_count <= fps ==> r@.len() == 1,
{
    let ghost fc = frame_count as int;
    let ghost fpsg = fps as int;
    let ghost mwg = max_workers as int;
    proof {
        lemma_plan_covers(fc, fpsg, mwg);
    }
    let mut chunks: Vec<Chunk> = Vec::new();
    if frame_count == 0 {
        proof {
            assert(chunks@ =~= spec_plan(fc, fpsg, mwg));
        }
        return chunks;
    }

    let mcs = fps * 90;
    let desired = div_ceil_u64(frame_count, mcs);
    proof {
        lemma_div_ceil_bounds(fc, fpsg * 90);
    }
    let cc = if max_workers < desired {
        max_workers
    } else {
        desired
    };
    assert(cc as int == spec_chunk_count(fc, fpsg, mwg));
    let cs = div_ceil_u64(frame_count, cc);
    let ghost csg = cs as int;
    assert(csg == spec_chunk_size(fc, fpsg, mwg));
    let ghost num = spec_num_chunks(fc, fpsg, mwg);
    proof {
        lemma_div_ceil_bounds(fc, csg);
    }

    let mut start: u64 = 0;
    while start < frame_count
        invariant
            fc == frame_count as int,
            fpsg == fps as int,
            mwg == max_workers as int,
            1 <= fpsg,
            1 <= mwg,
            fpsg * 90 <= u64::MAX as int,
            1 <= fc <= u64::MAX,
            csg == cs as int,
            csg == spec_chunk_size(fc, fpsg, mwg),
            1 <= csg,
            num == spec_num_chunks(fc, fpsg, mwg),
            fc <= csg * num,
            chunks@.len() <= num,
            chunks@ == spec_plan(fc, fpsg, mwg).take(chunks@.len() as int),
            start as int == vstd::math::min(chunks@.len() as int * csg, fc),
            chunks@.len() > 0 ==> (chunks@.len() as int - 1) * csg < fc,
            chunks@.len() == 0 ==> start == 0,
        decreases fc - start,
    {
        let ghost n = chunks@.len() as int;
        proof {
            assert(start as int == n * csg);
            lemma_plan_covers(fc, fpsg, mwg);
            assert(n < num) by (nonlinear_arith)
                requires
                    n * csg < fc,
                    fc <= csg * num,
                    1 <= csg,
                    0 <= n,
            ;
        }
        let end = if frame_count - start > cs {
            start + cs
        } else {
            frame_count
        };
        proof {
            assert((n + 1) * csg == n * csg + csg) by (nonlinear_arith);
            assert(end as int == vstd::math::min((n + 1) * csg, fc));
        }
        chunks.push(Chunk { start, end });
        start = end;
        proof {
            let p = spec_plan(fc, fpsg, mwg);
            assert(p[n].start as int == n * csg && p[n].end as int
                == vstd::math::min((n + 1) * csg, fc)) by {
                assert(0 <= n * csg < fc <= u64::MAX);
                assert(0 <= vstd::math::min((n + 1) * csg, fc) <= fc);
            }
            assert(chunks@ =~= p.take(n).push(p[n]));
            assert(p.take(n).push(p[n]) =~= p.take(n + 1));
        }
    }
    proof {
        let n = chunks@.len() as int;
        assert(start as int == fc);
        assert(n >= 1) by {
            if n == 0 {
                assert(start == 0);
            }
        }
        assert(n == num) by {
            assert(vstd::math::min(n * csg, fc) == fc);
            assert((n - 1) * csg < fc);
            assert(fc <= n * csg);
            lemma_div_ceil_exact(fc, csg, n);
        }
        assert(chunks@ =~= spec_plan(fc, fpsg, mwg));
    }
    chunks
}

} // verus!
