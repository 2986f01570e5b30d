//! The result assembler: restores temporal order from out-of-order worker
//! completions. It sorts the collected samples by frame index, rejects a
//! duplicate or out-of-range index loudly (such an index signals a
//! coordination bug and is never silently corrected), and projects the
//! colors into the final track.

use vstd::prelude::*;
use vstd::seq_lib::group_to_multiset_ensures;
use vstd::seq_lib::to_multiset_insert;

use crate::errors::ExtractError;
use crate::types::{Rgb8, SampledColor};

verus! {

/// Frame indices strictly increase along the sequence (so in particular
/// no index repeats).
pub open spec fn strictly_sorted_by_index(s: Seq<SampledColor>) -> bool {
    forall|i: int, j: int| #![trigger s[i], s[j]] 0 <= i < j < s.len() ==> s[i].index < s[j].index
}

/// No two positions carry the same frame index.
pub open spec fn distinct_indices(s: Seq<SampledColor>) -> bool {
    forall|i: int, j: int| #![trigger s[i], s[j]] 0 <= i < j < s.len() ==> s[i].index != s[j].index
}

/// Some frame index appears at two positions.
pub open spec fn has_duplicate_index(s: Seq<SampledColor>) -> bool {
    exists|i: int, j: int| #![trigger s[i], s[j]] 0 <= i < j < s.len() && s[i].index == s[j].index
}

/// Every frame index lies below `bound`.
pub open spec fn indices_below(s: Seq<SampledColor>, bound: int) -> bool {
    forall|k: int| 0 <= k < s.len() ==> (#[trigger] s[k]).index < bound
}

/// Strict index order plus equal contents leave no freedom: two strictly
/// sorted sequences holding the same samples are equal. This is why the
/// assembled track cannot depend on the order workers completed in.
pub proof fn lemma_strictly_sorted_unique(a: Seq<SampledColor>, b: Seq<SampledColor>)
    requires
        strictly_sorted_by_index(a),
        strictly_sorted_by_index(b),
        a.to_multiset() == b.to_multiset(),
    ensures
        a == b,
    decreases a.len(),
{
    broadcast use group_to_multiset_ensures;

    assert(a.to_multiset().len() == a.len());
    assert(b.to_multiset().len() == b.len());
    if a.len() == 0 {
        assert(b.len() == 0);
        assert(a =~= b);
    } else {
        assert(a.contains(a[0])) by {
            assert(a[0] == a[0]);
        }
        assert(b.len() > 0);
        assert(a.to_multiset().count(a[0]) > 0);
        assert(b.to_multiset().count(a[0]) > 0);
        assert(b.contains(a[0]));
        let p = choose|p: int| 0 <= p < b.len() && b[p] == a[0];
        assert(b.contains(b[0])) by {
            assert(b[0] == b[0]);
        }
        assert(b.to_multiset().count(b[0]) > 0);
        assert(a.to_multiset().count(b[0]) > 0);
        assert(a.contains(b[0]));
        let q = choose|q: int| 0 <= q < a.len() && a[q] == b[0];
        if p > 0 && q > 0 {
            assert(b[0].index < b[p].index);
            assert(a[0].index < a[q].index);
            assert(false);
        }
        assert(a[0] == b[0]);
        assert(a.remove(0).to_multiset() == a.to_multiset().remove(a[0]));
        assert(b.remove(0).to_multiset() == b.to_multiset().remove(b[0]));
        assert(a.remove(0) =~= a.drop_first());
        assert(b.remove(0) =~= b.drop_first());
        assert(strictly_sorted_by_index(a.drop_first())) by {
            assert forall|i: int, j: int| 0 <= i < j < a.drop_first().len()
                implies (#[trigger] a.drop_first()[i]).index < (#[trigger] a.drop_first()[j]).index by {
                assert(a.drop_first()[i] == a[i + 1]);
                assert(a.drop_first()[j] == a[j + 1]);
            }
        }
        assert(strictly_sorted_by_index(b.drop_first())) by {
            assert forall|i: int, j: int| 0 <= i < j < b.drop_first().len()
                implies (#[trigger] b.drop_first()[i]).index < (#[trigger] b.drop_first()[j]).index by {
                assert(b.drop_first()[i] == b[i + 1]);
                assert(b.drop_first()[j] == b[j + 1]);
            }
        }
        lemma_strictly_sorted_unique(a.drop_first(), b.drop_first());
        assert forall|i: int| 0 <= i < a.len() implies a[i] == b[i] by {
            if i > 0 {
                assert(a.drop_first()[i - 1] == a[i]);
                assert(b.drop_first()[i - 1] == b[i]);
            }
        }
        assert(a =~= b);
    }
}

/// Sorts the collected samples into ascending frame-index order; a
/// duplicate index is an assembly-invariant violation and fails the run.
/// On success the result holds exactly the input samples, strictly
/// ordered by index.
pub fn sort_samples(samples: &Vec<SampledColor>) -> (r: Result<Vec<SampledColor>, ExtractError>)
    ensures
        r is Ok <==> !has_duplicate_index(samples@),
        r is Ok ==> strictly_sorted_by_index(r->Ok_0@)
            && r->Ok_0@.to_multiset() == samples@.to_multiset()
            && r->Ok_0@.len() == samples@.len(),
        r is Err ==> exists|i: int, j: int|
            #![trigger samples@[i], samples@[j]]
            0 <= i < j < samples@.len() && samples@[i].index == samples@[j].index
                && r->Err_0 == (ExtractError::AssemblyInvariant { index: samples@[i].index }),
{
    broadcast use group_to_multiset_ensures;
    broadcast use to_multiset_insert;

    let mut out: Vec<SampledColor> = Vec::new();
    let mut i: usize = 0;
    proof {
        assert(samples@.take(0) =~= Seq::<SampledColor>::empty());
        assert(out@ =~= Seq::<SampledColor>::empty());
    }
    while i < samples.len()
        invariant
            i <= samples@.len(),
            out@.len() == i,
            strictly_sorted_by_index(out@),
            out@.to_multiset() == samples@.take(i as int).to_multiset(),
            distinct_indices(samples@.take(i as int)),
        decreases samples@.len() - i,
    {
        broadcast use group_to_multiset_ensures;
        broadcast use to_multiset_insert;

        let ghost prefix = samples@.take(i as int);
        let val = samples[i];
        let mut p: usize = 0;
        while p < out.len() && out[p].index < val.index
            invariant
                p <= out@.len(),
                forall|q: int| 0 <= q < p as int ==> (#[trigger] out@[q]).index < val.index,
            decreases out@.len() - p,
        {
            p = p + 1;
        }
        if p < out.len() && out[p].index == val.index {
            proof {
                let e = out@[p as int];
                assert(out@.contains(e)) by {
                    assert(out@[p as int] == e);
                }
                assert(prefix.to_multiset().contains(e));
                assert(prefix.contains(e));
                let kk = choose|kk: int| 0 <= kk < prefix.len() && prefix[kk] == e;
                assert(samples@[kk] == e);
                assert(samples@[kk].index == samples@[i as int].index);
            }
            return Err(ExtractError::AssemblyInvariant { index: val.index });
        }
        proof {
            assert forall|kk: int| 0 <= kk < i as int implies (#[trigger] samples@[kk]).index
                != val.index by {
                if samples@[kk].index == val.index {
                    let e = prefix[kk];
                    assert(prefix.contains(e)) by {
                        assert(prefix[kk] == e);
                    }
                    assert(prefix.to_multiset().contains(e));
                    assert(out@.contains(e));
                    let q = choose|q: int| 0 <= q < out@.len() && out@[q] == e;
                    if q < p as int {
                        assert(out@[q].index < val.index);
                    } else {
                        assert((p as int) < out@.len());
                        assert(out@[p as int].index > val.index);
                        if q > p as int {
                            assert(out@[p as int].index < out@[q].index);
                        }
                    }
                    assert(false);
                }
            }
        }
        let ghost out0 = out@;
        out.insert(p, val);
        proof {
            out0.insert_ensures(p as int, val);
            assert(strictly_sorted_by_index(out@)) by {
                assert forall|x: int, y: int| 0 <= x < y < out@.len()
                    implies (#[trigger] out@[x]).index < (#[trigger] out@[y]).index by {
                    if y < p as int {
                    } else if x > p as int {
                        assert(out@[x] == out0[x - 1]);
                        assert(out@[y] == out0[y - 1]);
                    } else if x == p as int {
                        assert(out@[x] == val);
                        assert(out@[y] == out0[y - 1]);
                        assert(out0[y - 1].index >= out0[p as int].index);
                        assert(out0[p as int].index > val.index);
                    } else if y == p as int {
                        assert(out@[x] == out0[x]);
                        assert(out@[x].index < val.index);
                    } else {
                        assert(x < p as int && y > p as int);
                        assert(out@[x] == out0[x]);
                        assert(out@[y] == out0[y - 1]);
                        if y - 1 == p as int {
                            assert(out0[p as int].index > val.index);
                            assert(out@[x].index < val.index);
                        } else {
                            assert(out@[x].index < val.index);
                            assert(out0[p as int].index > val.index || p as int == out0.len());
                            if (p as int) < out0.len() {
                                assert(out0[p as int].index <= out0[y - 1].index);
                            } else {
                                assert(y - 1 < p as int);
                                assert(false);
                            }
                        }
                    }
                }
            }
            assert(out@.to_multiset() == samples@.take(i as int + 1).to_multiset()) by {
                assert(out@ == out0.insert(p as int, val));
                assert(out@.to_multiset() =~= out0.to_multiset().insert(val));
                assert(samples@.take(i as int + 1) =~= prefix.push(val));
                assert(prefix.push(val).to_multiset() =~= prefix.to_multiset().insert(val));
            }
            assert(distinct_indices(samples@.take(i as int + 1))) by {
                let next = samples@.take(i as int + 1);
                assert forall|x: int, y: int| 0 <= x < y < next.len()
                    implies (#[trigger] next[x]).index != (#[trigger] next[y]).index by {
                    assert(next[x] == samples@[x]);
                    assert(next[y] == samples@[y]);
                    if y < i as int {
                        assert(prefix[x] == samples@[x]);
                        assert(prefix[y] == samples@[y]);
                    } else {
                        assert(y == i as int);
                        assert(samples@[x].index != val.index);
                    }
                }
            }
        }
        i = i + 1;
    }
    proof {
        assert(samples@.take(samples@.len() as int) =~= samples@);
    }
    Ok(out)
}

/// Assembles the final color track: sorts the samples by frame index,
/// fails loudly on a duplicate or out-of-range index, and projects the
/// colors. On success the track is the color projection of the one
/// strictly ordered arrangement of the collected samples, whatever order
/// they arrived in.
pub fn assemble(samples: &Vec<SampledColor>, frame_count: u64) -> (r: Result<
    Vec<Rgb8>,
    ExtractError,
>)
    ensures
        r is Ok <==> (!has_duplicate_index(samples@) && indices_below(
            samples@,
            frame_count as int,
        )),
        r is Ok ==> forall|p: Seq<SampledColor>|
            strictly_sorted_by_index(p) && #[trigger] p.to_multiset() == samples@.to_multiset()
                ==> r->Ok_0@ == p.map_values(|sc: SampledColor| sc.color),
        r is Err ==> r->Err_0 is AssemblyInvariant,
{
    broadcast use group_to_multiset_ensures;

    let sorted = match sort_samples(samples) {
        Ok(s) => s,
        Err(e) => {
            return Err(e);
        },
    };
    let mut track: Vec<Rgb8> = Vec::new();
    let mut k: usize = 0;
    proof {
        assert(track@ =~= sorted@.take(0).map_values(|sc: SampledColor| sc.color));
    }
    while k < sorted.len()
        invariant
            k <= sorted@.len(),
            strictly_sorted_by_index(sorted@),
            sorted@.to_multiset() == samples@.to_multiset(),
            track@ == sorted@.take(k as int).map_values(|sc: SampledColor| sc.color),
            forall|t: int| 0 <= t < k as int ==> (#[trigger] sorted@[t]).index < frame_count,
        decreases sorted@.len() - k,
    {
        broadcast use group_to_multiset_ensures;

        if sorted[k].index >= frame_count {
            proof {
                let e = sorted@[k as int];
                assert(sorted@.contains(e)) by {
                    assert(sorted@[k as int] == e);
                }
                assert(sorted@.to_multiset().contains(e));
                assert(samples@.contains(e));
                let t = choose|t: int| 0 <= t < samples@.len() && samples@[t] == e;
                assert(samples@[t].index >= frame_count);
            }
            return Err(ExtractError::AssemblyInvariant { index: sorted[k].index });
        }
        track.push(sorted[k].color);
        proof {
            assert(sorted@.take(k as int + 1).map_values(|sc: SampledColor| sc.color)
                =~= sorted@.take(k as int).map_values(|sc: SampledColor| sc.color).push(
                sorted@[k as int].color,
            ));
        }
        k = k + 1;
    }
    proof {
        assert(sorted@.take(sorted@.len() as int) =~= sorted@);
        assert(indices_below(samples@, frame_count as int)) by {
            assert forall|t: int| 0 <= t < samples@.len()
                implies (#[trigger] samples@[t]).index < frame_count by {
                let e = samples@[t];
                assert(samples@.contains(e)) by {
                    assert(samples@[t] == e);
                }
                assert(samples@.to_multiset().contains(e));
                assert(sorted@.contains(e));
                let q = choose|q: int| 0 <= q < sorted@.len() && sorted@[q] == e;
                assert(sorted@[q].index < frame_count);
            }
        }
        assert forall|p: Seq<SampledColor>|
            strictly_sorted_by_index(p) && #[trigger] p.to_multiset() == samples@.to_multiset()
                implies track@ == p.map_values(|sc: SampledColor| sc.color) by {
            lemma_strictly_sorted_unique(p, sorted@);
        }
    }
    Ok(track)
}

} // verus!
