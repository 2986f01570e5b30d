//! The concurrency coordinator's verifiable half: the worker-count policy
//! and the merge of per-chunk worker results. Dispatching the workers is
//! the caller's business; whatever order they complete in, the merge
//! below propagates the first failure (a failed chunk fails the whole
//! run, no partial track survives) or concatenates the chunk results in
//! chunk order.

use vstd::prelude::*;

use crate::errors::ExtractError;
use crate::types::SampledColor;

verus! {

/// The concurrency bound: all but one of the available parallel contexts,
/// reserving one for coordination, and never less than one worker.
pub open spec fn spec_worker_count(parallelism: int) -> int {
    vstd::math::max(1, parallelism - 1)
}

/// Executable worker-count policy.
pub fn worker_count(parallelism: u64) -> (r: u64)
    ensures
        r as int == spec_worker_count(parallelism as int),
        r >= 1,
{
    if parallelism <= 2 {
        1
    } else {
        parallelism - 1
    }
}

/// Did every chunk's worker succeed?
pub open spec fn all_chunks_ok(rs: Seq<Result<Vec<SampledColor>, ExtractError>>) -> bool {
    forall|k: int| 0 <= k < rs.len() ==> (#[trigger] rs[k]) is Ok
}

/// The samples of the successful chunk results, concatenated in chunk
/// order (failed entries contribute nothing).
pub open spec fn concat_samples(rs: Seq<Result<Vec<SampledColor>, ExtractError>>) -> Seq<
    SampledColor,
>
    decreases rs.len(),
{
    if rs.len() == 0 {
        Seq::empty()
    } else {
        (if rs[0] is Ok {
            rs[0]->Ok_0@
        } else {
            Seq::empty()
        }) + concat_samples(rs.drop_first())
    }
}

/// Appending one more chunk result appends its samples.
pub proof fn lemma_concat_samples_push(
    rs: Seq<Result<Vec<SampledColor>, ExtractError>>,
    x: Result<Vec<SampledColor>, ExtractError>,
)
    ensures
        concat_samples(rs.push(x)) == concat_samples(rs) + (if x is Ok {
            x->Ok_0@
        } else {
            Seq::empty()
        }),
    decreases rs.len(),
{
    let tail = if x is Ok {
        x->Ok_0@
    } else {
        Seq::<SampledColor>::empty()
    };
    if rs.len() == 0 {
        assert(rs.push(x).drop_first() =~= Seq::<Result<Vec<SampledColor>, ExtractError>>::empty());
        assert(rs.push(x)[0] == x);
        assert(tail + concat_samples(Seq::empty()) =~= tail);
        assert(concat_samples(rs) + tail =~= tail);
    } else {
        assert(rs.push(x).drop_first() =~= rs.drop_first().push(x));
        assert(rs.push(x)[0] == rs[0]);
        lemma_concat_samples_push(rs.drop_first(), x);
        let head = if rs[0] is Ok {
            rs[0]->Ok_0@
        } else {
            Seq::<SampledColor>::empty()
        };
        assert(head + (concat_samples(rs.drop_first()) + tail)
            =~= (head + concat_samples(rs.drop_first())) + tail);
    }
}

/// Merges the per-chunk worker results. Succeeds exactly when every chunk
/// succeeded, yielding all samples in chunk order; otherwise fails with
/// the first chunk's error, so a failure anywhere fails the whole
/// extraction and no partial result escapes.
pub fn collect_results(results: &Vec<Result<Vec<SampledColor>, ExtractError>>) -> (r: Result<
    Vec<SampledColor>,
    ExtractError,
>)
    ensures
        r is Ok <==> all_chunks_ok(results@),
        r is Ok ==> r->Ok_0@ == concat_samples(results@),
        r is Err ==> exists|k: int|
            0 <= k < results@.len() && (#[trigger] results@[k]) is Err && r->Err_0 == results@[k]->Err_0
                && (forall|j: int| 0 <= j < k ==> results@[j] is Ok),
{
    let mut acc: Vec<SampledColor> = Vec::new();
    let mut k: usize = 0;
    proof {
        assert(acc@ =~= concat_samples(results@.take(0)));
    }
    while k < results.len()
        invariant
            k <= results@.len(),
            forall|j: int| 0 <= j < k as int ==> (#[trigger] results@[j]) is Ok,
            acc@ == concat_samples(results@.take(k as int)),
        decreases results@.len() - k,
    {
        let ghost prefix = results@.take(k as int);
        match &results[k] {
            Ok(v) => {
                let ghost acc0 = acc@;
                let mut t: usize = 0;
                while t < v.len()
                    invariant
                        t <= v@.len(),
                        acc@ == acc0 + v@.take(t as int),
                    decreases v@.len() - t,
                {
                    acc.push(v[t]);
                    proof {
                        assert(acc0 + v@.take(t as int + 1)
                            =~= (acc0 + v@.take(t as int)).push(v@[t as int]));
                    }
                    t = t + 1;
                }
                proof {
                    assert(v@.take(v@.len() as int) =~= v@);
                    assert(results@.take(k as int + 1) =~= prefix.push(results@[k as int]));
                    lemma_concat_samples_push(prefix, results@[k as int]);
                }
            },
            Err(e) => {
                return Err(*e);
            },
        }
        k = k + 1;
    }
    proof {
        assert(results@.take(results@.len() as int) =~= results@);
    }
    Ok(acc)
}

} // verus!
