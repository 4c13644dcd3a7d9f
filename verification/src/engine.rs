//! The identification engine: repeatedly asks every identification module to
//! contribute decision model headers given the current accumulated set, and
//! merges the contributions by set union, until a step contributes nothing
//! new.  Module invocation order never affects which headers accumulate,
//! only possibly the number of steps taken.

use vstd::prelude::*;

use crate::headers::decision_eq;
use crate::headers::DecisionHeaderView;
use crate::headers::DecisionModelHeader;
use crate::headers::DesignModelHeader;

verus! {

/// Whether `s` holds a header that is the same fact as `h`.
pub open spec fn holds_equal_header(s: Seq<DecisionHeaderView>, h: DecisionHeaderView) -> bool {
    exists|i: int| 0 <= i < s.len() && decision_eq(#[trigger] s[i], h)
}

/// Whether no two entries of `s` are the same fact.
pub open spec fn distinct_headers(s: Seq<DecisionHeaderView>) -> bool {
    forall|i: int, j: int|
        0 <= i < j < s.len() ==> !decision_eq(#[trigger] s[i], #[trigger] s[j])
}

/// An identification module: an external program that, given the current run
/// state, proposes new decision models.  What such a module returns is
/// decided outside this library, so its methods promise nothing.
pub trait IdentificationModule {
    /// Stable identifier of the module, used for registry deduplication.
    fn unique_identifier(&self) -> String;

    /// One identification step: given the step number, the known design
    /// models and the accumulated decision models, propose decision models.
    fn identification_step(
        &self,
        iteration: u32,
        design_models: &Vec<DesignModelHeader>,
        decision_models: &Vec<DecisionModelHeader>,
    ) -> Vec<DecisionModelHeader>;

    /// Translate a decision model back into design model form, in the
    /// context of a given design model.
    fn reverse_identification(
        &self,
        design_model: &DesignModelHeader,
        decision_model: &DecisionModelHeader,
    ) -> Vec<DesignModelHeader>;
}


/// A classification of an in-process identification rule by what it reads:
/// only design models, only decision models, only decision models of the
/// named categories, or anything.
pub enum MarkedIdentificationRule<F> {
    DesignModelOnlyIdentificationRule(F),
    DecisionModelOnlyIdentificationRule(F),
    SpecificDecisionModelIdentificationRule(Vec<String>, F),
    GenericIdentificationRule(F),
}

/// Whether `v` holds a header equal (as a fact) to `h`.
pub fn contains_equal_header(v: &Vec<DecisionModelHeader>, h: &DecisionModelHeader) -> (r: bool)
    ensures
        r == holds_equal_header(v.deep_view(), h@),
{
    let mut i: usize = 0;
    while i < v.len()
        invariant
            i <= v.len(),
            forall|j: int| 0 <= j < i ==> !decision_eq(#[trigger] v.deep_view()[j], h@),
        decreases v.len() - i,
    {
        if v[i].eq(h) {
            assert(decision_eq(v.deep_view()[i as int], h@));
            return true;
        }
        i += 1;
    }
    false
}

/// Merge newly contributed headers into the accumulated set: a contribution
/// already present as a fact is dropped, every other contribution is
/// appended.  Returns how many headers were appended.
pub fn merge_decision_headers(
    acc: &mut Vec<DecisionModelHeader>,
    incoming: &Vec<DecisionModelHeader>,
) -> (added: usize)
    requires
        distinct_headers(old(acc).deep_view()),
    ensures
        distinct_headers(final(acc).deep_view()),
        final(acc).deep_view().len() == old(acc).deep_view().len() + added,
        final(acc).deep_view().take(old(acc).deep_view().len() as int) == old(acc).deep_view(),
        forall|k: int|
            old(acc).deep_view().len() <= k < final(acc).deep_view().len() ==> incoming.deep_view()
                .contains(#[trigger] final(acc).deep_view()[k]),
        forall|h: DecisionHeaderView|
            #[trigger] holds_equal_header(final(acc).deep_view(), h) == (holds_equal_header(
                old(acc).deep_view(),
                h,
            ) || holds_equal_header(incoming.deep_view(), h)),
        added == 0 ==> final(acc).deep_view() == old(acc).deep_view(),
{
    let ghost orig = acc.deep_view();
    let mut added: usize = 0;
    let mut i: usize = 0;
    while i < incoming.len()
        invariant
            i <= incoming.len(),
            added <= i,
            distinct_headers(acc.deep_view()),
            acc.deep_view().len() == orig.len() + added,
            acc.deep_view().take(orig.len() as int) == orig,
            forall|k: int|
                orig.len() <= k < acc.deep_view().len() ==> incoming.deep_view().contains(
                    #[trigger] acc.deep_view()[k],
                ),
            forall|h: DecisionHeaderView|
                #[trigger] holds_equal_header(acc.deep_view(), h) == (holds_equal_header(orig, h)
                    || exists|j: int|
                    0 <= j < i && decision_eq(#[trigger] incoming.deep_view()[j], h)),
            added == 0 ==> acc.deep_view() == orig,
        decreases incoming.len() - i,
    {
        let ghost before = acc.deep_view();
        let present = contains_equal_header(acc, &incoming[i]);
        if !present {
            acc.push(incoming[i].clone());
            added += 1;
            proof {
                let m = incoming.deep_view()[i as int];
                assert(acc.deep_view() =~= before.push(m));
                assert(acc.deep_view().take(orig.len() as int) =~= before.take(orig.len() as int));
                assert(incoming.deep_view().contains(m));
                assert forall|h: DecisionHeaderView| #[trigger]
                    holds_equal_header(acc.deep_view(), h) implies (holds_equal_header(orig, h)
                    || exists|j: int|
                    0 <= j < i + 1 && decision_eq(#[trigger] incoming.deep_view()[j], h)) by {
                    let k = choose|k: int|
                        0 <= k < acc.deep_view().len() && decision_eq(acc.deep_view()[k], h);
                    if k < before.len() {
                        assert(holds_equal_header(before, h));
                    } else {
                        assert(decision_eq(incoming.deep_view()[i as int], h));
                    }
                }
                assert forall|h: DecisionHeaderView|
                    (holds_equal_header(orig, h) || exists|j: int|
                        0 <= j < i + 1 && decision_eq(
                            #[trigger] incoming.deep_view()[j],
                            h,
                        )) implies #[trigger] holds_equal_header(acc.deep_view(), h) by {
                    if holds_equal_header(before, h) {
                        let k = choose|k: int|
                            0 <= k < before.len() && decision_eq(before[k], h);
                        assert(decision_eq(acc.deep_view()[k], h));
                    } else {
                        let j = choose|j: int|
                            0 <= j < i + 1 && decision_eq(incoming.deep_view()[j], h);
                        if j < i {
                            assert(holds_equal_header(before, h));
                        } else {
                            lemma_decision_eq_transitive_here(
                                acc.deep_view()[before.len() as int],
                                incoming.deep_view()[i as int],
                                h,
                            );
                            assert(decision_eq(acc.deep_view()[before.len() as int], h));
                        }
                    }
                }
                assert forall|a: int, b: int|
                    0 <= a < b < acc.deep_view().len() implies !decision_eq(
                    #[trigger] acc.deep_view()[a],
                    #[trigger] acc.deep_view()[b],
                ) by {
                    if b == acc.deep_view().len() - 1 {
                        if decision_eq(acc.deep_view()[a], acc.deep_view()[b]) {
                            lemma_decision_eq_symmetric_here(
                                acc.deep_view()[a],
                                acc.deep_view()[b],
                            );
                            assert(holds_equal_header(before, m));
                        }
                    }
                }
            }
        } else {
            proof {
                let h0 = incoming.deep_view()[i as int];
                assert forall|h: DecisionHeaderView|
                    (holds_equal_header(orig, h) || exists|j: int|
                        0 <= j < i + 1 && decision_eq(
                            #[trigger] incoming.deep_view()[j],
                            h,
                        )) implies #[trigger] holds_equal_header(acc.deep_view(), h) by {
                    if !holds_equal_header(orig, h) {
                        let j = choose|j: int|
                            0 <= j < i + 1 && decision_eq(incoming.deep_view()[j], h);
                        if j == i {
                            let k = choose|k: int|
                                0 <= k < acc.deep_view().len() && decision_eq(
                                    acc.deep_view()[k],
                                    h0,
                                );
                            lemma_decision_eq_transitive_here(acc.deep_view()[k], h0, h);
                        }
                    }
                }
            }
        }
        i += 1;
    }
    proof {
        assert forall|h: DecisionHeaderView| #[trigger]
            holds_equal_header(incoming.deep_view(), h) implies (exists|j: int|
            0 <= j < incoming.deep_view().len() && decision_eq(
                #[trigger] incoming.deep_view()[j],
                h,
            )) by {}
    }
    added
}

/// Sameness of headers is symmetric.
proof fn lemma_decision_eq_symmetric_here(a: DecisionHeaderView, b: DecisionHeaderView)
    requires
        decision_eq(a, b),
    ensures
        decision_eq(b, a),
{
}

/// Sameness of headers is transitive.
proof fn lemma_decision_eq_transitive_here(
    a: DecisionHeaderView,
    b: DecisionHeaderView,
    c: DecisionHeaderView,
)
    requires
        decision_eq(a, b),
        decision_eq(b, c),
    ensures
        decision_eq(a, c),
{
}

/// Drive the identification fixpoint: starting from the headers already
/// known, ask every module for contributions at each step and merge them,
/// until a whole step adds nothing new or `max_steps` steps have run.
/// Returns the accumulated headers, the number of steps run, and whether the
/// fixpoint was reached.
pub fn identification_procedure<M: IdentificationModule>(
    imodules: &Vec<M>,
    design_models: &Vec<DesignModelHeader>,
    initial: &Vec<DecisionModelHeader>,
    max_steps: u32,
) -> (r: (Vec<DecisionModelHeader>, u32, bool))
    ensures
        distinct_headers(r.0.deep_view()),
        forall|h: DecisionHeaderView|
            #[trigger] holds_equal_header(initial.deep_view(), h) ==> holds_equal_header(
                r.0.deep_view(),
                h,
            ),
        r.1 <= max_steps,
{
    let mut accumulated: Vec<DecisionModelHeader> = Vec::new();
    merge_decision_headers(&mut accumulated, initial);
    let mut step: u32 = 0;
    let mut fixpoint = false;
    while !fixpoint && step < max_steps
        invariant
            distinct_headers(accumulated.deep_view()),
            forall|h: DecisionHeaderView|
                #[trigger] holds_equal_header(initial.deep_view(), h) ==> holds_equal_header(
                    accumulated.deep_view(),
                    h,
                ),
            step <= max_steps,
        decreases max_steps - step,
    {
        let mut batch: Vec<DecisionModelHeader> = Vec::new();
        let mut m: usize = 0;
        while m < imodules.len()
            invariant
                distinct_headers(accumulated.deep_view()),
                forall|h: DecisionHeaderView|
                    #[trigger] holds_equal_header(initial.deep_view(), h) ==> holds_equal_header(
                        accumulated.deep_view(),
                        h,
                    ),
            decreases imodules.len() - m,
        {
            let mut potential = imodules[m].identification_step(step, design_models, &accumulated);
            batch.append(&mut potential);
            m += 1;
        }
        let ghost before = accumulated.deep_view();
        let added = merge_decision_headers(&mut accumulated, &batch);
        proof {
            assert forall|h: DecisionHeaderView| #[trigger]
                holds_equal_header(initial.deep_view(), h) implies holds_equal_header(
                accumulated.deep_view(),
                h,
            ) by {
                assert(holds_equal_header(before, h));
            }
        }
        fixpoint = added == 0;
        step += 1;
    }
    (accumulated, step, fixpoint)
}

} // verus!
