//! The sampling policy: one frame per second of footage. A frame index is
//! sampled exactly when it is a multiple of the (integer) frame rate, so
//! the first frame of each one-second window is inspected and every other
//! frame is skipped.

use vstd::prelude::*;

verus! {

/// The sampling rule itself: frame `index` is inspected iff it falls on a
/// one-second boundary under the integer frame rate `fps`.
pub open spec fn spec_is_sampled(index: int, fps: int) -> bool {
    index % fps == 0
}

/// Executable form of the sampling rule.
pub fn is_sampled(index: u64, fps: u64) -> (r: bool)
    requires
        fps >= 1,
    ensures
        r == spec_is_sampled(index as int, fps as int),
{
    index % fps == 0
}

/// The sampled frame indices inside `[lo, hi)`, in ascending order.
pub open spec fn sampled_between(lo: int, hi: int, fps: int) -> Seq<int>
    decreases hi - lo,
{
    if lo >= hi {
        Seq::empty()
    } else if spec_is_sampled(lo, fps) {
        seq![lo] + sampled_between(lo + 1, hi, fps)
    } else {
        sampled_between(lo + 1, hi, fps)
    }
}

/// Splitting a range splits its sampled indices: the samples of `[lo, hi)`
/// are the samples of `[lo, mid)` followed by those of `[mid, hi)`.
pub proof fn lemma_sampled_split(lo: int, mid: int, hi: int, fps: int)
    requires
        lo <= mid <= hi,
    ensures
        sampled_between(lo, hi, fps) == sampled_between(lo, mid, fps) + sampled_between(mid, hi, fps),
    decreases mid - lo,
{
    if lo == mid {
        assert(sampled_between(lo, mid, fps) == Seq::<int>::empty());
        assert(sampled_between(lo, mid, fps) + sampled_between(mid, hi, fps)
            =~= sampled_between(mid, hi, fps));
    } else {
        lemma_sampled_split(lo + 1, mid, hi, fps);
        if spec_is_sampled(lo, fps) {
            assert(seq![lo] + (sampled_between(lo + 1, mid, fps) + sampled_between(mid, hi, fps))
                =~= (seq![lo] + sampled_between(lo + 1, mid, fps)) + sampled_between(mid, hi, fps));
        }
    }
}

/// Every sampled index of `[lo, hi)` lies in the range and on a one-second
/// boundary, and the sequence is strictly increasing.
pub proof fn lemma_sampled_props(lo: int, hi: int, fps: int)
    requires
        fps >= 1,
    ensures
        forall|j: int| 0 <= j < sampled_between(lo, hi, fps).len()
            ==> lo <= #[trigger] sampled_between(lo, hi, fps)[j] < hi
                && spec_is_sampled(sampled_between(lo, hi, fps)[j], fps),
        forall|i: int, j: int| 0 <= i < j < sampled_between(lo, hi, fps).len()
            ==> #[trigger] sampled_between(lo, hi, fps)[i] < #[trigger] sampled_between(lo, hi, fps)[j],
    decreases hi - lo,
{
    if lo < hi {
        lemma_sampled_props(lo + 1, hi, fps);
        let tail = sampled_between(lo + 1, hi, fps);
        let s = sampled_between(lo, hi, fps);
        if spec_is_sampled(lo, fps) {
            assert(s == seq![lo] + tail);
            assert forall|j: int| 1 <= j < s.len() implies s[j] == tail[j - 1] by {}
            assert forall|i: int, j: int| 0 <= i < j < s.len() implies s[i] < s[j] by {
                if i == 0 {
                    assert(s[j] == tail[j - 1]);
                    assert(lo + 1 <= tail[j - 1]);
                }
            }
        } else {
            assert(s == tail);
        }
    }
}

/// Below the frame rate there are no one-second boundaries other than 0:
/// a range starting past 0 and ending at or before `fps` has no samples.
pub proof fn lemma_no_samples_below_fps(lo: int, hi: int, fps: int)
    requires
        fps >= 1,
        1 <= lo,
        hi <= fps,
    ensures
        sampled_between(lo, hi, fps) == Seq::<int>::empty(),
    decreases hi - lo,
{
    if lo < hi {
        assert(!spec_is_sampled(lo, fps)) by {
            assert(0 < lo < fps);
            vstd::arithmetic::div_mod::lemma_small_mod(lo as nat, fps as nat);
        };
        lemma_no_samples_below_fps(lo + 1, hi, fps);
    }
}

/// A video shorter than one second samples exactly frame 0.
pub proof fn lemma_single_sample(hi: int, fps: int)
    requires
        fps >= 1,
        1 <= hi <= fps,
    ensures
        sampled_between(0, hi, fps) == seq![0int],
{
    assert(spec_is_sampled(0, fps));
    lemma_no_samples_below_fps(1, hi, fps);
    assert(seq![0int] + Seq::<int>::empty() =~= seq![0int]);
}

} // verus!
