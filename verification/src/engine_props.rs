//! Laws of the identification fixpoint for modules that are pure functions
//! of the accumulated set: the engine terminates within as many passes as
//! the finite universe of headers has members, the final set is a fixed
//! point, and the order in which the modules are applied does not change
//! the outcome of a pass or of a whole run.

use vstd::prelude::*;
use vstd::set_lib::lemma_len_subset;

use crate::headers::DecisionHeaderView;

verus! {

/// Everything the rules of one step contribute on top of the accumulated
/// set `a`: the union of every rule's output on `a`.
pub open spec fn step_contribution(
    rules: Seq<spec_fn(Set<DecisionHeaderView>) -> Set<DecisionHeaderView>>,
    a: Set<DecisionHeaderView>,
) -> Set<DecisionHeaderView>
    decreases rules.len(),
{
    if rules.len() == 0 {
        Set::empty()
    } else {
        rules.first()(a).union(step_contribution(rules.drop_first(), a))
    }
}

/// One engine pass: every rule sees the same accumulated set and the results
/// are joined into it.
pub open spec fn engine_pass(
    rules: Seq<spec_fn(Set<DecisionHeaderView>) -> Set<DecisionHeaderView>>,
    a: Set<DecisionHeaderView>,
) -> Set<DecisionHeaderView> {
    a.union(step_contribution(rules, a))
}

/// Run passes until one contributes nothing new, or until `fuel` passes
/// have run.
pub open spec fn engine_run(
    rules: Seq<spec_fn(Set<DecisionHeaderView>) -> Set<DecisionHeaderView>>,
    a: Set<DecisionHeaderView>,
    fuel: nat,
) -> Set<DecisionHeaderView>
    decreases fuel,
{
    if fuel == 0 {
        a
    } else {
        let n = engine_pass(rules, a);
        if n == a {
            a
        } else {
            engine_run(rules, n, (fuel - 1) as nat)
        }
    }
}

/// Whether every rule maps every subset of `universe` into `universe`.
pub open spec fn rules_confined(
    rules: Seq<spec_fn(Set<DecisionHeaderView>) -> Set<DecisionHeaderView>>,
    universe: Set<DecisionHeaderView>,
) -> bool {
    forall|i: int, s: Set<DecisionHeaderView>|
        0 <= i < rules.len() && s.subset_of(universe) ==> (#[trigger] rules[i](s)).subset_of(
            universe,
        )
}

/// A header is contributed by a step exactly when some rule outputs it.
pub proof fn lemma_contribution_membership(
    rules: Seq<spec_fn(Set<DecisionHeaderView>) -> Set<DecisionHeaderView>>,
    a: Set<DecisionHeaderView>,
    x: DecisionHeaderView,
)
    ensures
        step_contribution(rules, a).contains(x) <==> exists|i: int|
            0 <= i < rules.len() && (#[trigger] rules[i])(a).contains(x),
    decreases rules.len(),
{
    if rules.len() > 0 {
        lemma_contribution_membership(rules.drop_first(), a, x);
        if step_contribution(rules, a).contains(x) {
            if rules.first()(a).contains(x) {
                assert(rules[0](a).contains(x));
            } else {
                let i = choose|i: int|
                    0 <= i < rules.drop_first().len() && (#[trigger] rules.drop_first()[i])(
                        a,
                    ).contains(x);
                assert(rules[i + 1](a).contains(x));
            }
        }
        if exists|i: int| 0 <= i < rules.len() && (#[trigger] rules[i])(a).contains(x) {
            let i = choose|i: int| 0 <= i < rules.len() && (#[trigger] rules[i])(a).contains(x);
            if i == 0 {
                assert(rules.first()(a).contains(x));
            } else {
                assert(rules.drop_first()[i - 1](a).contains(x));
                assert(step_contribution(rules.drop_first(), a).contains(x));
            }
        }
    }
}

/// At a fixed point of a pass, applying any single rule once more produces
/// nothing that is not already accumulated.
pub proof fn lemma_fixpoint_rules_exhausted(
    rules: Seq<spec_fn(Set<DecisionHeaderView>) -> Set<DecisionHeaderView>>,
    a: Set<DecisionHeaderView>,
)
    requires
        engine_pass(rules, a) == a,
    ensures
        forall|i: int| 0 <= i < rules.len() ==> (#[trigger] rules[i])(a).subset_of(a),
{
    assert forall|i: int| 0 <= i < rules.len() implies (#[trigger] rules[i])(a).subset_of(a) by {
        assert forall|x: DecisionHeaderView| rules[i](a).contains(x) implies a.contains(x) by {
            lemma_contribution_membership(rules, a, x);
            assert(step_contribution(rules, a).contains(x));
            assert(engine_pass(rules, a).contains(x));
        }
    }
}

/// Fixpoint termination: starting inside a finite universe that the rules
/// never leave, a run with as much fuel as the universe has members still
/// missing reaches a set that a further pass leaves unchanged, and stays
/// inside the universe.
pub proof fn lemma_fixpoint_termination(
    rules: Seq<spec_fn(Set<DecisionHeaderView>) -> Set<DecisionHeaderView>>,
    a0: Set<DecisionHeaderView>,
    universe: Set<DecisionHeaderView>,
    fuel: nat,
)
    requires
        universe.finite(),
        a0.subset_of(universe),
        rules_confined(rules, universe),
        fuel + a0.len() >= universe.len(),
    ensures
        engine_run(rules, a0, fuel).subset_of(universe),
        engine_pass(rules, engine_run(rules, a0, fuel)) == engine_run(rules, a0, fuel),
    decreases fuel,
{
    let n = engine_pass(rules, a0);
    assert forall|x: DecisionHeaderView| n.contains(x) implies universe.contains(x) by {
        if !a0.contains(x) {
            lemma_contribution_membership(rules, a0, x);
            let i = choose|i: int| 0 <= i < rules.len() && (#[trigger] rules[i])(a0).contains(x);
            assert(rules[i](a0).subset_of(universe));
        }
    }
    if n == a0 {
        assert(engine_run(rules, a0, fuel) == a0);
    } else {
        assert(a0.subset_of(n));
        assert(exists|x: DecisionHeaderView| n.contains(x) && !a0.contains(x)) by {
            if forall|x: DecisionHeaderView| #[trigger]
                n.contains(x) ==> a0.contains(x) {
                assert(n =~= a0);
            }
        }
        let elt = choose|x: DecisionHeaderView| n.contains(x) && !a0.contains(x);
        lemma_len_subset(n, universe);
        a0.lemma_subset_not_in_lt(n, elt);
        lemma_len_subset(a0, universe);
        assert(fuel >= 1);
        lemma_fixpoint_termination(rules, n, universe, (fuel - 1) as nat);
        assert(engine_run(rules, a0, fuel) == engine_run(rules, n, (fuel - 1) as nat));
    }
}

/// A pass contributes the same set whichever order the rules stand in: only
/// which rules are applied matters, since every rule sees the same
/// accumulated set and the results are joined.
pub proof fn lemma_pass_order_independent(
    rules_a: Seq<spec_fn(Set<DecisionHeaderView>) -> Set<DecisionHeaderView>>,
    rules_b: Seq<spec_fn(Set<DecisionHeaderView>) -> Set<DecisionHeaderView>>,
    a: Set<DecisionHeaderView>,
)
    requires
        rules_a.to_set() == rules_b.to_set(),
    ensures
        engine_pass(rules_a, a) == engine_pass(rules_b, a),
{
    assert forall|x: DecisionHeaderView|
        step_contribution(rules_a, a).contains(x) == step_contribution(rules_b, a).contains(
            x,
        ) by {
        lemma_contribution_membership(rules_a, a, x);
        lemma_contribution_membership(rules_b, a, x);
        if step_contribution(rules_a, a).contains(x) {
            let i = choose|i: int|
                0 <= i < rules_a.len() && (#[trigger] rules_a[i])(a).contains(x);
            assert(rules_a.to_set().contains(rules_a[i]));
            assert(rules_b.contains(rules_a[i]));
            let j = choose|j: int| 0 <= j < rules_b.len() && rules_b[j] == rules_a[i];
            assert(rules_b[j](a).contains(x));
        }
        if step_contribution(rules_b, a).contains(x) {
            let i = choose|i: int|
                0 <= i < rules_b.len() && (#[trigger] rules_b[i])(a).contains(x);
            assert(rules_b.to_set().contains(rules_b[i]));
            assert(rules_a.contains(rules_b[i]));
            let j = choose|j: int| 0 <= j < rules_a.len() && rules_a[j] == rules_b[i];
            assert(rules_a[j](a).contains(x));
        }
    }
    assert(step_contribution(rules_a, a) =~= step_contribution(rules_b, a));
}

/// Module-order independence of a whole run: two runs over the same rules in
/// different orders, from the same seed and with the same fuel, accumulate
/// the same set.
pub proof fn lemma_run_order_independent(
    rules_a: Seq<spec_fn(Set<DecisionHeaderView>) -> Set<DecisionHeaderView>>,
    rules_b: Seq<spec_fn(Set<DecisionHeaderView>) -> Set<DecisionHeaderView>>,
    a: Set<DecisionHeaderView>,
    fuel: nat,
)
    requires
        rules_a.to_set() == rules_b.to_set(),
    ensures
        engine_run(rules_a, a, fuel) == engine_run(rules_b, a, fuel),
    decreases fuel,
{
    lemma_pass_order_independent(rules_a, rules_b, a);
    if fuel > 0 {
        let n = engine_pass(rules_a, a);
        if n != a {
            lemma_run_order_independent(rules_a, rules_b, n, (fuel - 1) as nat);
        }
    }
}

} // verus!
