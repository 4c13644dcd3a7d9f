//! Header summaries of design and decision models: a category tag, the set of
//! covered element identifiers, the set of covered labelled relations, and the
//! location of the full payload.  Headers of one category are partially
//! ordered by joint set inclusion of their elements and relations; headers of
//! different categories are incomparable.

use core::cmp::Ordering;
use vstd::prelude::*;

verus! {

/// Mathematical value of one labelled directed edge between two elements.
#[verifier::ext_equal]
pub ghost struct ArcView {
    pub src: Seq<char>,
    pub src_port: Option<Seq<char>>,
    pub label: Option<Seq<char>>,
    pub dst: Seq<char>,
    pub dst_port: Option<Seq<char>>,
}

/// Mathematical value of a design model header.
#[verifier::ext_equal]
pub ghost struct DesignHeaderView {
    pub category: Seq<char>,
    pub model_paths: Seq<Seq<char>>,
    pub elements: Seq<Seq<char>>,
    pub relations: Seq<ArcView>,
}

/// Mathematical value of a decision model header.
#[verifier::ext_equal]
pub ghost struct DecisionHeaderView {
    pub category: Seq<char>,
    pub body_path: Option<Seq<char>>,
    pub covered_elements: Seq<Seq<char>>,
    pub covered_relations: Seq<ArcView>,
}

/// A labelled directed edge `src -> dst`; ports and label are optional and
/// compared by value when present.
pub struct LabelledArcWithPorts {
    pub src: String,
    pub src_port: Option<String>,
    pub label: Option<String>,
    pub dst: String,
    pub dst_port: Option<String>,
}

/// Summary of a design model: its category, the locations of its full
/// payloads, and the elements and relations it makes statements about.
pub struct DesignModelHeader {
    pub category: String,
    pub model_paths: Vec<String>,
    pub elements: Vec<String>,
    pub relations: Vec<LabelledArcWithPorts>,
}

/// Summary of a decision model: its category, the optional location of its
/// full payload, and the elements and relations it covers.
pub struct DecisionModelHeader {
    pub category: String,
    pub body_path: Option<String>,
    pub covered_elements: Vec<String>,
    pub covered_relations: Vec<LabelledArcWithPorts>,
}

impl View for LabelledArcWithPorts {
    type V = ArcView;

    open spec fn view(&self) -> ArcView {
        ArcView {
            src: self.src@,
            src_port: self.src_port.deep_view(),
            label: self.label.deep_view(),
            dst: self.dst@,
            dst_port: self.dst_port.deep_view(),
        }
    }
}

impl DeepView for LabelledArcWithPorts {
    type V = ArcView;

    open spec fn deep_view(&self) -> ArcView {
        self.view()
    }
}

impl DeepView for DesignModelHeader {
    type V = DesignHeaderView;

    open spec fn deep_view(&self) -> DesignHeaderView {
        self.view()
    }
}

impl DeepView for DecisionModelHeader {
    type V = DecisionHeaderView;

    open spec fn deep_view(&self) -> DecisionHeaderView {
        self.view()
    }
}

impl View for DesignModelHeader {
    type V = DesignHeaderView;

    open spec fn view(&self) -> DesignHeaderView {
        DesignHeaderView {
            category: self.category@,
            model_paths: self.model_paths.deep_view(),
            elements: self.elements.deep_view(),
            relations: self.relations.deep_view(),
        }
    }
}

impl View for DecisionModelHeader {
    type V = DecisionHeaderView;

    open spec fn view(&self) -> DecisionHeaderView {
        DecisionHeaderView {
            category: self.category@,
            body_path: self.body_path.deep_view(),
            covered_elements: self.covered_elements.deep_view(),
            covered_relations: self.covered_relations.deep_view(),
        }
    }
}

// ---------------------------------------------------------------------------
// The partial order on headers: joint set inclusion of elements and relations
// within one category.  Identity never includes payload locations.
// ---------------------------------------------------------------------------

/// One coverage is included in another when both its element set and its
/// relation set are included.
pub open spec fn coverage_subset(
    elems_a: Set<Seq<char>>,
    rels_a: Set<ArcView>,
    elems_b: Set<Seq<char>>,
    rels_b: Set<ArcView>,
) -> bool {
    elems_a.subset_of(elems_b) && rels_a.subset_of(rels_b)
}

/// Partial comparison of two same-shaped coverages; `cat_eq` says whether the
/// two headers carry the same category.  Cross-category comparison is `None`.
pub open spec fn coverage_cmp(
    cat_eq: bool,
    elems_a: Set<Seq<char>>,
    rels_a: Set<ArcView>,
    elems_b: Set<Seq<char>>,
    rels_b: Set<ArcView>,
) -> Option<Ordering> {
    if !cat_eq {
        None
    } else {
        let superset = coverage_subset(elems_b, rels_b, elems_a, rels_a);
        let subset = coverage_subset(elems_a, rels_a, elems_b, rels_b);
        if superset && subset {
            Some(Ordering::Equal)
        } else if superset {
            Some(Ordering::Greater)
        } else if subset {
            Some(Ordering::Less)
        } else {
            None
        }
    }
}

pub open spec fn decision_elem_set(h: DecisionHeaderView) -> Set<Seq<char>> {
    h.covered_elements.to_set()
}

pub open spec fn decision_rel_set(h: DecisionHeaderView) -> Set<ArcView> {
    h.covered_relations.to_set()
}

pub open spec fn design_elem_set(h: DesignHeaderView) -> Set<Seq<char>> {
    h.elements.to_set()
}

pub open spec fn design_rel_set(h: DesignHeaderView) -> Set<ArcView> {
    h.relations.to_set()
}

/// Two decision headers are the same fact when category, element set and
/// relation set agree; the payload location is not part of identity.
pub open spec fn decision_eq(a: DecisionHeaderView, b: DecisionHeaderView) -> bool {
    a.category == b.category && decision_elem_set(a) == decision_elem_set(b)
        && decision_rel_set(a) == decision_rel_set(b)
}

pub open spec fn design_eq(a: DesignHeaderView, b: DesignHeaderView) -> bool {
    a.category == b.category && design_elem_set(a) == design_elem_set(b)
        && design_rel_set(a) == design_rel_set(b)
}

pub open spec fn decision_cmp(a: DecisionHeaderView, b: DecisionHeaderView) -> Option<Ordering> {
    coverage_cmp(
        a.category == b.category,
        decision_elem_set(a),
        decision_rel_set(a),
        decision_elem_set(b),
        decision_rel_set(b),
    )
}

pub open spec fn design_cmp(a: DesignHeaderView, b: DesignHeaderView) -> Option<Ordering> {
    coverage_cmp(
        a.category == b.category,
        design_elem_set(a),
        design_rel_set(a),
        design_elem_set(b),
        design_rel_set(b),
    )
}

// ---------------------------------------------------------------------------
// Executable membership and inclusion tests over the vectors that carry the
// sets.
// ---------------------------------------------------------------------------

/// Whether some element of `v` has the same characters as `x`.
pub fn vec_contains_string(v: &Vec<String>, x: &String) -> (r: bool)
    ensures
        r == v.deep_view().to_set().contains(x@),
{
    let mut i: usize = 0;
    while i < v.len()
        invariant
            i <= v.len(),
            forall|j: int| 0 <= j < i ==> v.deep_view()[j] != x@,
        decreases v.len() - i,
    {
        if v[i].eq(x) {
            assert(v.deep_view()[i as int] == x@);
            assert(v.deep_view().contains(x@));
            return true;
        }
        i += 1;
    }
    assert(!v.deep_view().contains(x@));
    false
}

/// Whether some element of `v` is the same arc as `x`.
pub fn vec_contains_arc(v: &Vec<LabelledArcWithPorts>, x: &LabelledArcWithPorts) -> (r: bool)
    ensures
        r == v.deep_view().to_set().contains(x@),
{
    let mut i: usize = 0;
    while i < v.len()
        invariant
            i <= v.len(),
            forall|j: int| 0 <= j < i ==> v.deep_view()[j] != x@,
        decreases v.len() - i,
    {
        if v[i].eq(x) {
            assert(v.deep_view()[i as int] == x@);
            assert(v.deep_view().contains(x@));
            return true;
        }
        i += 1;
    }
    assert(!v.deep_view().contains(x@));
    false
}

/// Whether every string of `a` also occurs in `b`.
pub fn strings_subset(a: &Vec<String>, b: &Vec<String>) -> (r: bool)
    ensures
        r == a.deep_view().to_set().subset_of(b.deep_view().to_set()),
{
    let mut i: usize = 0;
    while i < a.len()
        invariant
            i <= a.len(),
            forall|j: int| 0 <= j < i ==> b.deep_view().to_set().contains(a.deep_view()[j]),
        decreases a.len() - i,
    {
        if !vec_contains_string(b, &a[i]) {
            assert(a.deep_view().to_set().contains(a.deep_view()[i as int]));
            return false;
        }
        i += 1;
    }
    assert forall|x: Seq<char>| a.deep_view().to_set().contains(x) implies b.deep_view()
        .to_set()
        .contains(x) by {
        let j = choose|j: int| 0 <= j < a.deep_view().len() && a.deep_view()[j] == x;
        assert(b.deep_view().to_set().contains(a.deep_view()[j]));
    }
    true
}

/// Whether every arc of `a` also occurs in `b`.
pub fn arcs_subset(a: &Vec<LabelledArcWithPorts>, b: &Vec<LabelledArcWithPorts>) -> (r: bool)
    ensures
        r == a.deep_view().to_set().subset_of(b.deep_view().to_set()),
{
    let mut i: usize = 0;
    while i < a.len()
        invariant
            i <= a.len(),
            forall|j: int| 0 <= j < i ==> b.deep_view().to_set().contains(a.deep_view()[j]),
        decreases a.len() - i,
    {
        if !vec_contains_arc(b, &a[i]) {
            assert(a.deep_view().to_set().contains(a.deep_view()[i as int]));
            return false;
        }
        i += 1;
    }
    assert forall|x: ArcView| a.deep_view().to_set().contains(x) implies b.deep_view()
        .to_set()
        .contains(x) by {
        let j = choose|j: int| 0 <= j < a.deep_view().len() && a.deep_view()[j] == x;
        assert(b.deep_view().to_set().contains(a.deep_view()[j]));
    }
    true
}

/// Equality of two optional strings by value.
pub fn opt_string_eq(a: &Option<String>, b: &Option<String>) -> (r: bool)
    ensures
        r == (a.deep_view() == b.deep_view()),
{
    match (a, b) {
        (Some(x), Some(y)) => {
            let r = x.eq(y);
            proof {
                if x@ == y@ {
                    assert(a.deep_view() =~= b.deep_view());
                }
            }
            r
        },
        (None, None) => true,
        _ => false,
    }
}

/// Copy of an optional string.
pub fn clone_opt_string(a: &Option<String>) -> (r: Option<String>)
    ensures
        r == *a,
{
    match a {
        Some(x) => Some(x.clone()),
        None => None,
    }
}

/// Copy of a vector of strings.
pub fn clone_string_vec(v: &Vec<String>) -> (r: Vec<String>)
    ensures
        r@ == v@,
{
    let mut r: Vec<String> = Vec::new();
    let mut i: usize = 0;
    while i < v.len()
        invariant
            i <= v.len(),
            r@ =~= v@.take(i as int),
        decreases v.len() - i,
    {
        r.push(v[i].clone());
        i += 1;
    }
    proof {
        assert(r@ =~= v@);
    }
    r
}

/// Copy of a vector of arcs.
pub fn clone_arc_vec(v: &Vec<LabelledArcWithPorts>) -> (r: Vec<LabelledArcWithPorts>)
    ensures
        r@ == v@,
{
    let mut r: Vec<LabelledArcWithPorts> = Vec::new();
    let mut i: usize = 0;
    while i < v.len()
        invariant
            i <= v.len(),
            r@ =~= v@.take(i as int),
        decreases v.len() - i,
    {
        r.push(v[i].clone());
        i += 1;
    }
    proof {
        assert(r@ =~= v@);
    }
    r
}

// ---------------------------------------------------------------------------
// std trait implementations, each with its specification.
// ---------------------------------------------------------------------------

impl Clone for LabelledArcWithPorts {
    fn clone(&self) -> (res: Self)
        ensures
            res == *self,
    {
        LabelledArcWithPorts {
            src: self.src.clone(),
            src_port: clone_opt_string(&self.src_port),
            label: clone_opt_string(&self.label),
            dst: self.dst.clone(),
            dst_port: clone_opt_string(&self.dst_port),
        }
    }
}

impl PartialEq for LabelledArcWithPorts {
    fn eq(&self, other: &Self) -> (r: bool) {
        let r = self.src.eq(&other.src) && self.dst.eq(&other.dst) && opt_string_eq(
            &self.src_port,
            &other.src_port,
        ) && opt_string_eq(&self.dst_port, &other.dst_port) && opt_string_eq(
            &self.label,
            &other.label,
        );
        proof {
            if r {
                assert(self@ =~= other@);
            }
        }
        r
    }
}

impl Eq for LabelledArcWithPorts {

}

impl vstd::std_specs::cmp::PartialEqSpecImpl for LabelledArcWithPorts {
    open spec fn obeys_eq_spec() -> bool {
        true
    }

    open spec fn eq_spec(&self, other: &Self) -> bool {
        self@ == other@
    }
}

impl Clone for DesignModelHeader {
    fn clone(&self) -> (res: Self)
        ensures
            res@ == self@,
    {
        DesignModelHeader {
            category: self.category.clone(),
            model_paths: clone_string_vec(&self.model_paths),
            elements: clone_string_vec(&self.elements),
            relations: clone_arc_vec(&self.relations),
        }
    }
}

impl Clone for DecisionModelHeader {
    fn clone(&self) -> (res: Self)
        ensures
            res@ == self@,
    {
        DecisionModelHeader {
            category: self.category.clone(),
            body_path: clone_opt_string(&self.body_path),
            covered_elements: clone_string_vec(&self.covered_elements),
            covered_relations: clone_arc_vec(&self.covered_relations),
        }
    }
}

impl PartialEq for DesignModelHeader {
    fn eq(&self, o: &Self) -> (r: bool) {
        let cat = self.category.eq(&o.category);
        let e_ab = strings_subset(&self.elements, &o.elements);
        let e_ba = strings_subset(&o.elements, &self.elements);
        let r_ab = arcs_subset(&self.relations, &o.relations);
        let r_ba = arcs_subset(&o.relations, &self.relations);
        proof {
            if e_ab && e_ba {
                assert(design_elem_set(self@) =~= design_elem_set(o@));
            }
            if r_ab && r_ba {
                assert(design_rel_set(self@) =~= design_rel_set(o@));
            }
        }
        cat && e_ab && e_ba && r_ab && r_ba
    }
}

impl Eq for DesignModelHeader {

}

impl vstd::std_specs::cmp::PartialEqSpecImpl for DesignModelHeader {
    open spec fn obeys_eq_spec() -> bool {
        true
    }

    open spec fn eq_spec(&self, o: &Self) -> bool {
        design_eq(self@, o@)
    }
}

impl PartialEq for DecisionModelHeader {
    fn eq(&self, o: &Self) -> (r: bool) {
        let cat = self.category.eq(&o.category);
        let e_ab = strings_subset(&self.covered_elements, &o.covered_elements);
        let e_ba = strings_subset(&o.covered_elements, &self.covered_elements);
        let r_ab = arcs_subset(&self.covered_relations, &o.covered_relations);
        let r_ba = arcs_subset(&o.covered_relations, &self.covered_relations);
        proof {
            if e_ab && e_ba {
                assert(decision_elem_set(self@) =~= decision_elem_set(o@));
            }
            if r_ab && r_ba {
                assert(decision_rel_set(self@) =~= decision_rel_set(o@));
            }
        }
        cat && e_ab && e_ba && r_ab && r_ba
    }
}

impl Eq for DecisionModelHeader {

}

impl vstd::std_specs::cmp::PartialEqSpecImpl for DecisionModelHeader {
    open spec fn obeys_eq_spec() -> bool {
        true
    }

    open spec fn eq_spec(&self, o: &Self) -> bool {
        decision_eq(self@, o@)
    }
}

impl PartialOrd for DesignModelHeader {
    fn partial_cmp(&self, o: &Self) -> (r: Option<Ordering>) {
        if !self.category.eq(&o.category) {
            return None;
        }
        let superset = strings_subset(&o.elements, &self.elements) && arcs_subset(
            &o.relations,
            &self.relations,
        );
        let subset = strings_subset(&self.elements, &o.elements) && arcs_subset(
            &self.relations,
            &o.relations,
        );
        match (superset, subset) {
            (true, true) => Some(Ordering::Equal),
            (true, false) => Some(Ordering::Greater),
            (false, true) => Some(Ordering::Less),
            _ => None,
        }
    }
}

impl vstd::std_specs::cmp::PartialOrdSpecImpl for DesignModelHeader {
    open spec fn obeys_partial_cmp_spec() -> bool {
        true
    }

    open spec fn partial_cmp_spec(&self, o: &Self) -> Option<Ordering> {
        design_cmp(self@, o@)
    }
}

impl PartialOrd for DecisionModelHeader {
    fn partial_cmp(&self, o: &Self) -> (r: Option<Ordering>) {
        if !self.category.eq(&o.category) {
            return None;
        }
        let superset = strings_subset(&o.covered_elements, &self.covered_elements) && arcs_subset(
            &o.covered_relations,
            &self.covered_relations,
        );
        let subset = strings_subset(&self.covered_elements, &o.covered_elements) && arcs_subset(
            &self.covered_relations,
            &o.covered_relations,
        );
        match (superset, subset) {
            (true, true) => Some(Ordering::Equal),
            (true, false) => Some(Ordering::Greater),
            (false, true) => Some(Ordering::Less),
            _ => None,
        }
    }
}

impl vstd::std_specs::cmp::PartialOrdSpecImpl for DecisionModelHeader {
    open spec fn obeys_partial_cmp_spec() -> bool {
        true
    }

    open spec fn partial_cmp_spec(&self, o: &Self) -> Option<Ordering> {
        decision_cmp(self@, o@)
    }
}

// ---------------------------------------------------------------------------
// Laws of the partial order.
// ---------------------------------------------------------------------------

/// Comparison of a decision header with itself yields `Equal`.
pub proof fn lemma_decision_cmp_reflexive(a: DecisionHeaderView)
    ensures
        decision_cmp(a, a) == Some(Ordering::Equal),
{
}

/// Two same-category decision headers compare `Equal` exactly when they are
/// the same fact, `Greater` exactly when the right coverage is a strict
/// subset of the left one, and symmetrically; `Greater` one way is `Less`
/// the other way.
pub proof fn lemma_decision_cmp_antisymmetric(a: DecisionHeaderView, b: DecisionHeaderView)
    ensures
        (decision_cmp(a, b) == Some(Ordering::Equal)) <==> decision_eq(a, b),
        (decision_cmp(a, b) == Some(Ordering::Greater)) <==> (a.category == b.category
            && coverage_subset(
            decision_elem_set(b),
            decision_rel_set(b),
            decision_elem_set(a),
            decision_rel_set(a),
        ) && !coverage_subset(
            decision_elem_set(a),
            decision_rel_set(a),
            decision_elem_set(b),
            decision_rel_set(b),
        )),
        (decision_cmp(a, b) == Some(Ordering::Greater)) <==> (decision_cmp(b, a) == Some(
            Ordering::Less,
        )),
{
    if a.category == b.category {
        let sup = coverage_subset(
            decision_elem_set(b),
            decision_rel_set(b),
            decision_elem_set(a),
            decision_rel_set(a),
        );
        let sub = coverage_subset(
            decision_elem_set(a),
            decision_rel_set(a),
            decision_elem_set(b),
            decision_rel_set(b),
        );
        if sup && sub {
            assert(decision_elem_set(a) =~= decision_elem_set(b));
            assert(decision_rel_set(a) =~= decision_rel_set(b));
        }
        if decision_eq(a, b) {
            assert(sup && sub);
        }
    }
}

/// Headers of different categories are incomparable.
pub proof fn lemma_decision_cmp_cross_category(a: DecisionHeaderView, b: DecisionHeaderView)
    requires
        a.category != b.category,
    ensures
        decision_cmp(a, b) == None::<Ordering>,
{
}


/// Comparison of a design header with itself yields `Equal`.
pub proof fn lemma_design_cmp_reflexive(a: DesignHeaderView)
    ensures
        design_cmp(a, a) == Some(Ordering::Equal),
{
}

/// Two same-category design headers compare `Equal` exactly when they are
/// the same fact, and `Greater` one way exactly when `Less` the other way.
pub proof fn lemma_design_cmp_antisymmetric(a: DesignHeaderView, b: DesignHeaderView)
    ensures
        (design_cmp(a, b) == Some(Ordering::Equal)) <==> design_eq(a, b),
        (design_cmp(a, b) == Some(Ordering::Greater)) <==> (design_cmp(b, a) == Some(
            Ordering::Less,
        )),
{
    if a.category == b.category {
        let sup = coverage_subset(
            design_elem_set(b),
            design_rel_set(b),
            design_elem_set(a),
            design_rel_set(a),
        );
        let sub = coverage_subset(
            design_elem_set(a),
            design_rel_set(a),
            design_elem_set(b),
            design_rel_set(b),
        );
        if sup && sub {
            assert(design_elem_set(a) =~= design_elem_set(b));
            assert(design_rel_set(a) =~= design_rel_set(b));
        }
        if design_eq(a, b) {
            assert(sup && sub);
        }
    }
}

/// Design headers of different categories are incomparable.
pub proof fn lemma_design_cmp_cross_category(a: DesignHeaderView, b: DesignHeaderView)
    requires
        a.category != b.category,
    ensures
        design_cmp(a, b) == None::<Ordering>,
{
}

} // verus!
