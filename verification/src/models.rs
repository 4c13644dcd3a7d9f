//! Capability contracts of model types: any design or decision model can
//! produce its own header on demand and report its category; a decision model
//! can be asked whether it dominates another.  Every cross-model operation is
//! expressed in terms of headers alone, never of the concrete payload.

use core::cmp::Ordering;
use vstd::prelude::*;

use crate::headers::decision_cmp;
use crate::headers::DecisionHeaderView;
use crate::headers::DecisionModelHeader;
use crate::headers::DesignHeaderView;
use crate::headers::DesignModelHeader;

verus! {

/// A design model: an input description of a system, reduced to a header for
/// orchestration purposes.
pub trait DesignModel {
    /// The header this model stands for.
    spec fn design_view(&self) -> DesignHeaderView;

    /// The model's category, its stable schema identifier.
    fn unique_identifier(&self) -> (r: String)
        ensures
            r@ == self.design_view().category,
    ;

    /// The header summarising this model.
    fn header(&self) -> (r: DesignModelHeader)
        ensures
            r@ == self.design_view(),
    ;
}

/// A decision model: a formalised, analyzable fact set, reduced to a header;
/// decision models of one category can dominate one another.
pub trait DecisionModel {
    /// The header this model stands for.
    spec fn decision_view(&self) -> DecisionHeaderView;

    /// The model's category, its stable schema identifier.
    fn unique_identifier(&self) -> (r: String)
        ensures
            r@ == self.decision_view().category,
    ;

    /// The header summarising this model.
    fn header(&self) -> (r: DecisionModelHeader)
        ensures
            r@ == self.decision_view(),
    ;

    /// True exactly when both models have the same category and this model's
    /// coverage strictly exceeds the header `o` of the other model.
    fn dominates(&self, o: &DecisionModelHeader) -> (r: bool)
        ensures
            r == (decision_cmp(self.decision_view(), o@) == Some(Ordering::Greater)),
    ;
}

impl DesignModel for DesignModelHeader {
    open spec fn design_view(&self) -> DesignHeaderView {
        self@
    }

    fn unique_identifier(&self) -> (r: String)
        ensures
            r@ == self.design_view().category,
    {
        self.category.clone()
    }

    fn header(&self) -> (r: DesignModelHeader)
        ensures
            r@ == self.design_view(),
    {
        self.clone()
    }
}

impl DecisionModel for DecisionModelHeader {
    open spec fn decision_view(&self) -> DecisionHeaderView {
        self@
    }

    fn unique_identifier(&self) -> (r: String)
        ensures
            r@ == self.decision_view().category,
    {
        self.category.clone()
    }

    fn header(&self) -> (r: DecisionModelHeader)
        ensures
            r@ == self.decision_view(),
    {
        self.clone()
    }

    fn dominates(&self, o: &DecisionModelHeader) -> (r: bool)
        ensures
            r == (decision_cmp(self.decision_view(), o@) == Some(Ordering::Greater)),
    {
        match self.partial_cmp(o) {
            Some(Ordering::Greater) => true,
            _ => false,
        }
    }
}

} // verus!
