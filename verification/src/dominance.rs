//! Dominance reduction: given decision model headers, keep exactly those that
//! no other header of the set strictly exceeds in the partial order.  Pairs
//! that are equal or incomparable eliminate nothing, and headers of different
//! categories never eliminate one another.

use core::cmp::Ordering;
use vstd::prelude::*;

use crate::headers::decision_cmp;
use crate::headers::DecisionHeaderView;
use crate::headers::DecisionModelHeader;

verus! {

/// Whether some member of `s` is strictly greater than `h`.
pub open spec fn dominated_in(h: DecisionHeaderView, s: Set<DecisionHeaderView>) -> bool {
    exists|o: DecisionHeaderView| s.contains(o) && decision_cmp(h, o) == Some(Ordering::Less)
}

/// The Pareto-maximal subset of `s`: the members that nothing in `s`
/// strictly exceeds.
pub open spec fn dominant_set(s: Set<DecisionHeaderView>) -> Set<DecisionHeaderView> {
    s.filter(|h: DecisionHeaderView| !dominated_in(h, s))
}

/// Whether no entry of the sequence `all` is strictly greater than `h`.
pub open spec fn is_maximal_in(h: DecisionHeaderView, all: Seq<DecisionHeaderView>) -> bool {
    forall|j: int| 0 <= j < all.len() ==> decision_cmp(h, #[trigger] all[j]) != Some(Ordering::Less)
}

/// Maximality over a sequence says the same as non-domination over the set of
/// its entries.
pub proof fn lemma_maximal_iff_not_dominated(h: DecisionHeaderView, all: Seq<DecisionHeaderView>)
    ensures
        is_maximal_in(h, all) <==> !dominated_in(h, all.to_set()),
{
    if is_maximal_in(h, all) {
        assert forall|o: DecisionHeaderView|
            all.to_set().contains(o) implies decision_cmp(h, o) != Some(Ordering::Less) by {
            let j = choose|j: int| 0 <= j < all.len() && all[j] == o;
            assert(decision_cmp(h, all[j]) != Some(Ordering::Less));
        }
    }
    if !dominated_in(h, all.to_set()) {
        assert forall|j: int|
            0 <= j < all.len() implies decision_cmp(h, #[trigger] all[j]) != Some(
            Ordering::Less,
        ) by {
            assert(all.to_set().contains(all[j]));
        }
    }
}

/// The headers of `headers` that no other header of `headers` strictly
/// exceeds, in their original order; duplicates of a kept header are kept.
pub fn compute_dominant_decision_models(headers: &Vec<DecisionModelHeader>) -> (r: Vec<
    DecisionModelHeader,
>)
    ensures
        r.deep_view() == headers.deep_view().filter(
            |h: DecisionHeaderView| is_maximal_in(h, headers.deep_view()),
        ),
        r.deep_view().to_set() == dominant_set(headers.deep_view().to_set()),
{
    let ghost all = headers.deep_view();
    let ghost pred = |h: DecisionHeaderView| is_maximal_in(h, all);
    let mut r: Vec<DecisionModelHeader> = Vec::new();
    let mut i: usize = 0;
    while i < headers.len()
        invariant
            i <= headers.len(),
            all == headers.deep_view(),
            pred == (|h: DecisionHeaderView| is_maximal_in(h, all)),
            r.deep_view() == all.take(i as int).filter(pred),
        decreases headers.len() - i,
    {
        let mut keep = true;
        let mut j: usize = 0;
        while j < headers.len()
            invariant
                i < headers.len(),
                j <= headers.len(),
                all == headers.deep_view(),
                keep == (forall|k: int|
                    0 <= k < j ==> decision_cmp(all[i as int], #[trigger] all[k]) != Some(
                        Ordering::Less,
                    )),
            decreases headers.len() - j,
        {
            if keep {
                let c = headers[i].partial_cmp(&headers[j]);
                proof {
                    assert(all[i as int] == headers@[i as int]@);
                    assert(all[j as int] == headers@[j as int]@);
                    assert(c == decision_cmp(all[i as int], all[j as int]));
                }
                match c {
                    Some(Ordering::Less) => {
                        keep = false;
                    },
                    _ => (),
                }
            }
            j += 1;
        }
        proof {
            assert(keep == pred(all[i as int]));
            assert(all.take(i as int + 1).drop_last() =~= all.take(i as int));
            assert(all.take(i as int + 1).last() == all[i as int]);
            reveal(Seq::filter);
        }
        if keep {
            r.push(headers[i].clone());
            proof {
                assert(r.deep_view() =~= all.take(i as int).filter(pred).push(all[i as int]));
            }
        }
        i += 1;
    }
    proof {
        assert(all.take(headers@.len() as int) =~= all);
        assert(r.deep_view() == all.filter(pred));
        lemma_dominant_seq_set(headers.deep_view(), r.deep_view());
    }
    r
}

/// A sequence that filters a base sequence by maximality collects, as a set,
/// exactly the dominant subset of the base entries.
proof fn lemma_dominant_seq_set(all: Seq<DecisionHeaderView>, kept: Seq<DecisionHeaderView>)
    requires
        kept == all.filter(|h: DecisionHeaderView| is_maximal_in(h, all)),
    ensures
        kept.to_set() == dominant_set(all.to_set()),
{
    let pred = |h: DecisionHeaderView| is_maximal_in(h, all);
    broadcast use Seq::lemma_filter_pred, Seq::lemma_filter_contains, Seq::lemma_filter_len;

    assert forall|h: DecisionHeaderView| kept.to_set().contains(h) implies dominant_set(
        all.to_set(),
    ).contains(h) by {
        let j = choose|j: int| 0 <= j < kept.len() && kept[j] == h;
        assert(pred(kept[j]));
        lemma_maximal_iff_not_dominated(h, all);
        lemma_filter_is_subseq_member(all, pred, j);
        assert(all.to_set().contains(h));
    }
    assert forall|h: DecisionHeaderView| dominant_set(all.to_set()).contains(h) implies kept
        .to_set()
        .contains(h) by {
        assert(all.to_set().contains(h));
        let j = choose|j: int| 0 <= j < all.len() && all[j] == h;
        lemma_maximal_iff_not_dominated(h, all);
        assert(pred(all[j]));
        assert(all.filter(pred).contains(all[j]));
    }
    assert(kept.to_set() =~= dominant_set(all.to_set()));
}

/// Every entry of a filtered sequence is an entry of the base sequence.
proof fn lemma_filter_is_subseq_member(
    all: Seq<DecisionHeaderView>,
    pred: spec_fn(DecisionHeaderView) -> bool,
    j: int,
)
    requires
        0 <= j < all.filter(pred).len(),
    ensures
        all.contains(all.filter(pred)[j]),
    decreases all.len(),
{
    reveal(Seq::filter);
    if all.len() > 0 {
        let sub = all.drop_last().filter(pred);
        if j < sub.len() {
            lemma_filter_is_subseq_member(all.drop_last(), pred, j);
            let k = choose|k: int|
                0 <= k < all.drop_last().len() && all.drop_last()[k] == all.filter(pred)[j];
            assert(all[k] == all.filter(pred)[j]);
        } else {
            assert(all[all.len() - 1] == all.filter(pred)[j]);
        }
    }
}

/// Reducing a set to its dominant subset is idempotent: reducing the result
/// once more changes nothing.
pub proof fn lemma_dominance_idempotent(s: Set<DecisionHeaderView>)
    ensures
        dominant_set(dominant_set(s)) == dominant_set(s),
{
    let d = dominant_set(s);
    assert forall|h: DecisionHeaderView| d.contains(h) implies !dominated_in(h, d) by {
        if dominated_in(h, d) {
            let o = choose|o: DecisionHeaderView|
                d.contains(o) && decision_cmp(h, o) == Some(Ordering::Less);
            assert(s.contains(o));
            assert(dominated_in(h, s));
        }
    }
    assert(dominant_set(d) =~= d);
}

} // verus!
