//! Exploration bids: a module's self-reported ability to explore a decision
//! model, with named quality criteria.  Criterion levels are kept as plain
//! ordered integers.  Two bids compare only when their exploration abilities
//! match and their criteria name their keys identically; then they order
//! componentwise: strictly greater on every criterion, equal on every one,
//! or strictly less on every one — anything mixed is incomparable.

use core::cmp::Ordering;
use vstd::prelude::*;

verus! {

/// Mathematical value of a bid: the ability flag and the named levels in
/// declaration order.
pub ghost struct BidView {
    pub can_explore: bool,
    pub criteria: Seq<(Seq<char>, u64)>,
}

/// An exploration module's bid for one decision model.
pub struct ExplorationBid {
    pub can_explore: bool,
    pub criteria: Vec<(String, u64)>,
}

/// The capability description exchanged with an exploration module is the
/// same value as a bid.
pub type ExplorationCombinationDescription = ExplorationBid;

impl View for ExplorationBid {
    type V = BidView;

    open spec fn view(&self) -> BidView {
        BidView {
            can_explore: self.can_explore,
            criteria: self.criteria@.map_values(|p: (String, u64)| (p.0@, p.1)),
        }
    }
}

/// The level of the first criterion named `k`, if any.
pub open spec fn lookup_value(s: Seq<(Seq<char>, u64)>, k: Seq<char>) -> Option<u64>
    decreases s.len(),
{
    if s.len() == 0 {
        None
    } else if s.first().0 == k {
        Some(s.first().1)
    } else {
        lookup_value(s.drop_first(), k)
    }
}

/// Every criterion name of `a` also names a criterion of `b`.
pub open spec fn all_keys_contained(a: Seq<(Seq<char>, u64)>, b: Seq<(Seq<char>, u64)>) -> bool {
    forall|i: int| 0 <= i < a.len() ==> lookup_value(b, (#[trigger] a[i]).0) is Some
}

/// Every criterion of `a` strictly exceeds the like-named criterion of `b`.
pub open spec fn all_gt(a: Seq<(Seq<char>, u64)>, b: Seq<(Seq<char>, u64)>) -> bool {
    forall|i: int|
        0 <= i < a.len() ==> match lookup_value(b, (#[trigger] a[i]).0) {
            Some(v) => a[i].1 > v,
            None => true,
        }
}

/// Every criterion of `a` equals the like-named criterion of `b`.
pub open spec fn all_eq(a: Seq<(Seq<char>, u64)>, b: Seq<(Seq<char>, u64)>) -> bool {
    forall|i: int|
        0 <= i < a.len() ==> match lookup_value(b, (#[trigger] a[i]).0) {
            Some(v) => a[i].1 == v,
            None => true,
        }
}

/// Every criterion of `a` is strictly below the like-named criterion of `b`.
pub open spec fn all_lt(a: Seq<(Seq<char>, u64)>, b: Seq<(Seq<char>, u64)>) -> bool {
    forall|i: int|
        0 <= i < a.len() ==> match lookup_value(b, (#[trigger] a[i]).0) {
            Some(v) => a[i].1 < v,
            None => true,
        }
}

/// Whether the two bids name the same criteria.
pub open spec fn bid_keys_equal(a: BidView, b: BidView) -> bool {
    all_keys_contained(a.criteria, b.criteria) && all_keys_contained(b.criteria, a.criteria)
}

/// Two bids are the same when their ability flags agree, they name the same
/// criteria, and every criterion carries the same level.
pub open spec fn bid_eq(a: BidView, b: BidView) -> bool {
    a.can_explore == b.can_explore && bid_keys_equal(a, b) && all_eq(a.criteria, b.criteria)
        && all_eq(b.criteria, a.criteria)
}

/// Partial comparison of two bids.
pub open spec fn bid_cmp(a: BidView, b: BidView) -> Option<Ordering> {
    if a.can_explore != b.can_explore {
        None
    } else if !bid_keys_equal(a, b) {
        None
    } else if all_gt(a.criteria, b.criteria) {
        Some(Ordering::Greater)
    } else if all_eq(a.criteria, b.criteria) {
        Some(Ordering::Equal)
    } else if all_lt(a.criteria, b.criteria) {
        Some(Ordering::Less)
    } else {
        None
    }
}

/// The level of the first criterion of `v` named like `key`, if any.
pub fn lookup_criteria(v: &Vec<(String, u64)>, key: &String) -> (r: Option<u64>)
    ensures
        r == lookup_value(v@.map_values(|p: (String, u64)| (p.0@, p.1)), key@),
{
    let ghost s = v@.map_values(|p: (String, u64)| (p.0@, p.1));
    proof {
        assert(s.skip(0) =~= s);
    }
    let mut i: usize = 0;
    while i < v.len()
        invariant
            i <= v.len(),
            s == v@.map_values(|p: (String, u64)| (p.0@, p.1)),
            lookup_value(s, key@) == lookup_value(s.skip(i as int), key@),
        decreases v.len() - i,
    {
        proof {
            assert(s.skip(i as int).first() == s[i as int]);
        }
        if v[i].0.eq(key) {
            return Some(v[i].1);
        }
        proof {
            assert(s.skip(i as int).drop_first() =~= s.skip(i as int + 1));
        }
        i += 1;
    }
    proof {
        assert(s.skip(v.len() as int) =~= Seq::<(Seq<char>, u64)>::empty());
    }
    None
}

/// Whether every criterion name of `a` also names a criterion of `b`.
fn keys_contained(a: &Vec<(String, u64)>, b: &Vec<(String, u64)>) -> (r: bool)
    ensures
        r == all_keys_contained(
            a@.map_values(|p: (String, u64)| (p.0@, p.1)),
            b@.map_values(|p: (String, u64)| (p.0@, p.1)),
        ),
{
    let ghost sa = a@.map_values(|p: (String, u64)| (p.0@, p.1));
    let ghost sb = b@.map_values(|p: (String, u64)| (p.0@, p.1));
    let mut i: usize = 0;
    while i < a.len()
        invariant
            i <= a.len(),
            sa == a@.map_values(|p: (String, u64)| (p.0@, p.1)),
            sb == b@.map_values(|p: (String, u64)| (p.0@, p.1)),
            forall|j: int| 0 <= j < i ==> lookup_value(sb, (#[trigger] sa[j]).0) is Some,
        decreases a.len() - i,
    {
        let found = lookup_criteria(b, &a[i].0);
        if found.is_none() {
            assert(lookup_value(sb, sa[i as int].0) is None);
            return false;
        }
        i += 1;
    }
    true
}

/// Compare the criteria of `a` against the like-named criteria of `b`:
/// whether all are strictly above, all equal, and all strictly below.
fn compare_criteria(a: &Vec<(String, u64)>, b: &Vec<(String, u64)>) -> (r: (bool, bool, bool))
    ensures
        r.0 == all_gt(
            a@.map_values(|p: (String, u64)| (p.0@, p.1)),
            b@.map_values(|p: (String, u64)| (p.0@, p.1)),
        ),
        r.1 == all_eq(
            a@.map_values(|p: (String, u64)| (p.0@, p.1)),
            b@.map_values(|p: (String, u64)| (p.0@, p.1)),
        ),
        r.2 == all_lt(
            a@.map_values(|p: (String, u64)| (p.0@, p.1)),
            b@.map_values(|p: (String, u64)| (p.0@, p.1)),
        ),
{
    let ghost sa = a@.map_values(|p: (String, u64)| (p.0@, p.1));
    let ghost sb = b@.map_values(|p: (String, u64)| (p.0@, p.1));
    let mut gt = true;
    let mut eq = true;
    let mut lt = true;
    let mut i: usize = 0;
    while i < a.len()
        invariant
            i <= a.len(),
            sa == a@.map_values(|p: (String, u64)| (p.0@, p.1)),
            sb == b@.map_values(|p: (String, u64)| (p.0@, p.1)),
            gt == (forall|j: int|
                0 <= j < i ==> match lookup_value(sb, (#[trigger] sa[j]).0) {
                    Some(v) => sa[j].1 > v,
                    None => true,
                }),
            eq == (forall|j: int|
                0 <= j < i ==> match lookup_value(sb, (#[trigger] sa[j]).0) {
                    Some(v) => sa[j].1 == v,
                    None => true,
                }),
            lt == (forall|j: int|
                0 <= j < i ==> match lookup_value(sb, (#[trigger] sa[j]).0) {
                    Some(v) => sa[j].1 < v,
                    None => true,
                }),
        decreases a.len() - i,
    {
        let found = lookup_criteria(b, &a[i].0);
        match found {
            Some(v) => {
                let level = a[i].1;
                proof {
                    assert(sa[i as int].1 == a@[i as int].1);
                }
                let new_gt = gt && level > v;
                let new_eq = eq && level == v;
                let new_lt = lt && level < v;
                gt = new_gt;
                eq = new_eq;
                lt = new_lt;
            },
            None => (),
        }
        i += 1;
    }
    (gt, eq, lt)
}

impl Clone for ExplorationBid {
    fn clone(&self) -> (res: Self)
        ensures
            res@ == self@,
    {
        let mut criteria: Vec<(String, u64)> = Vec::new();
        let mut i: usize = 0;
        while i < self.criteria.len()
            invariant
                i <= self.criteria.len(),
                criteria@ =~= self.criteria@.take(i as int),
            decreases self.criteria.len() - i,
        {
            let name = self.criteria[i].0.clone();
            let level = self.criteria[i].1;
            criteria.push((name, level));
            proof {
                assert(criteria@ =~= self.criteria@.take(i as int + 1));
            }
            i += 1;
        }
        proof {
            assert(self.criteria@.take(self.criteria@.len() as int) =~= self.criteria@);
        }
        ExplorationBid { can_explore: self.can_explore, criteria }
    }
}

impl PartialEq for ExplorationBid {
    fn eq(&self, other: &Self) -> (r: bool) {
        if self.can_explore != other.can_explore {
            return false;
        }
        if !(keys_contained(&self.criteria, &other.criteria) && keys_contained(
            &other.criteria,
            &self.criteria,
        )) {
            return false;
        }
        let (_, eq_ab, _) = compare_criteria(&self.criteria, &other.criteria);
        let (_, eq_ba, _) = compare_criteria(&other.criteria, &self.criteria);
        eq_ab && eq_ba
    }
}

impl Eq for ExplorationBid {

}

impl vstd::std_specs::cmp::PartialEqSpecImpl for ExplorationBid {
    open spec fn obeys_eq_spec() -> bool {
        true
    }

    open spec fn eq_spec(&self, other: &Self) -> bool {
        bid_eq(self@, other@)
    }
}

impl PartialOrd for ExplorationBid {
    fn partial_cmp(&self, other: &Self) -> (r: Option<Ordering>) {
        if self.can_explore != other.can_explore {
            return None;
        }
        if !(keys_contained(&self.criteria, &other.criteria) && keys_contained(
            &other.criteria,
            &self.criteria,
        )) {
            return None;
        }
        let (gt, eq, lt) = compare_criteria(&self.criteria, &other.criteria);
        if gt {
            Some(Ordering::Greater)
        } else if eq {
            Some(Ordering::Equal)
        } else if lt {
            Some(Ordering::Less)
        } else {
            None
        }
    }
}

impl vstd::std_specs::cmp::PartialOrdSpecImpl for ExplorationBid {
    open spec fn obeys_partial_cmp_spec() -> bool {
        true
    }

    open spec fn partial_cmp_spec(&self, other: &Self) -> Option<Ordering> {
        bid_cmp(self@, other@)
    }
}


/// An exploration module: an external program that searches for concrete
/// solutions of one decision model, subject to explicit bounds.  What such a
/// module returns is decided outside this library, so its methods promise
/// nothing.
pub trait ExplorationModule {
    /// Stable identifier of the module.
    fn unique_identifier(&self) -> String;

    /// The quality criteria this module reports for a decision model.
    fn available_criterias(&self, m: &crate::headers::DecisionModelHeader) -> Vec<(String, u64)>;

    /// The module's bid for the given decision model.
    fn get_combination(
        &self,
        m: &crate::headers::DecisionModelHeader,
    ) -> ExplorationCombinationDescription;

    /// Drive a bounded search: collect at most `max_sols` solutions (a bound
    /// of zero or less meaning unbounded up to the timeout), within the
    /// given wall-clock timeout and sampling resolutions.  Stopping early
    /// must release the external process rather than leak it; that duty
    /// lies with the implementor.
    fn explore(
        &self,
        m: &crate::headers::DecisionModelHeader,
        max_sols: i64,
        total_timeout: i64,
        time_resolution: i64,
        memory_resolution: i64,
    ) -> Vec<crate::headers::DecisionModelHeader>;
}

/// Whether no eligible bid of `all` is strictly above `b`.
pub open spec fn bid_maximal_in(b: BidView, all: Seq<BidView>) -> bool {
    forall|j: int|
        0 <= j < all.len() && (#[trigger] all[j]).can_explore ==> bid_cmp(b, all[j]) != Some(
            Ordering::Less,
        )
}

/// Select the exploration module to drive: among the bids that can explore,
/// the first one that no other eligible bid strictly exceeds.  The lowest
/// index is the deterministic tie-break among mutually incomparable bids.
pub fn choose_exploration_bid(bids: &Vec<ExplorationBid>) -> (r: Option<usize>)
    ensures
        match r {
            Some(i) => {
                &&& i < bids@.len()
                &&& bids@[i as int]@.can_explore
                &&& bid_maximal_in(bids@[i as int]@, bids@.map_values(|b: ExplorationBid| b@))
                &&& forall|k: int|
                    0 <= k < i ==> !((#[trigger] bids@[k]@).can_explore && bid_maximal_in(
                        bids@[k]@,
                        bids@.map_values(|b: ExplorationBid| b@),
                    ))
            },
            None => forall|k: int|
                0 <= k < bids@.len() ==> !((#[trigger] bids@[k]@).can_explore && bid_maximal_in(
                    bids@[k]@,
                    bids@.map_values(|b: ExplorationBid| b@),
                )),
        },
{
    let ghost all = bids@.map_values(|b: ExplorationBid| b@);
    let mut i: usize = 0;
    while i < bids.len()
        invariant
            i <= bids.len(),
            all == bids@.map_values(|b: ExplorationBid| b@),
            forall|k: int|
                0 <= k < i ==> !((#[trigger] bids@[k]@).can_explore && bid_maximal_in(
                    bids@[k]@,
                    all,
                )),
        decreases bids.len() - i,
    {
        if bids[i].can_explore {
            let mut maximal = true;
            let mut j: usize = 0;
            while j < bids.len()
                invariant
                    i < bids.len(),
                    j <= bids.len(),
                    all == bids@.map_values(|b: ExplorationBid| b@),
                    maximal == (forall|k: int|
                        0 <= k < j && (#[trigger] all[k]).can_explore ==> bid_cmp(
                            all[i as int],
                            all[k],
                        ) != Some(Ordering::Less)),
                decreases bids.len() - j,
            {
                if maximal && bids[j].can_explore {
                    let c = bids[i].partial_cmp(&bids[j]);
                    proof {
                        assert(all[i as int] == bids@[i as int]@);
                        assert(all[j as int] == bids@[j as int]@);
                    }
                    match c {
                        Some(Ordering::Less) => {
                            maximal = false;
                        },
                        _ => (),
                    }
                }
                j += 1;
            }
            if maximal {
                return Some(i);
            }
        }
        i += 1;
    }
    None
}

} // verus!
