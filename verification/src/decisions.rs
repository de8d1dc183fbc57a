//! Decisions and the component filters attached to them.
use crate::considerations::Consideration;
use crate::ids::type_ids_equal;
use crate::filter_definition::{filter_set_holds, filter_set_satisfied};
use crate::utils::{trim_type_name, trimmed_type_name};
use std::any::TypeId;
use vstd::prelude::*;

verus! {

/// A requirement on the components of an entity.
#[derive(Debug, Copy, Clone)]
pub enum Filter {
    /// Entity must contain the Component with this TypeId
    Inclusive(TypeId),
    /// Entity must not contain the Component with this TypeId
    Exclusive(TypeId),
}

impl Filter {
    /// The component type this filter speaks of.
    pub open spec fn spec_component_type_id(self) -> TypeId {
        match self {
            Filter::Inclusive(t) => t,
            Filter::Exclusive(t) => t,
        }
    }

    pub fn component_type_id(&self) -> (t: TypeId)
        ensures
            t == self.spec_component_type_id(),
    {
        match self {
            Filter::Inclusive(t) => *t,
            Filter::Exclusive(t) => *t,
        }
    }
}

impl PartialEq for Filter {
    fn eq(&self, other: &Filter) -> (r: bool) {
        match (self, other) {
            (Filter::Inclusive(a), Filter::Inclusive(b)) => type_ids_equal(a, b),
            (Filter::Exclusive(a), Filter::Exclusive(b)) => type_ids_equal(a, b),
            _ => false,
        }
    }
}

impl Eq for Filter {}

impl vstd::std_specs::cmp::PartialEqSpecImpl for Filter {
    open spec fn obeys_eq_spec() -> bool {
        true
    }

    /// Two filters are equal where they have the same polarity and the same
    /// component type.
    open spec fn eq_spec(&self, other: &Filter) -> bool {
        *self == *other
    }
}

/// A possible action of an AI, with the considerations it is scored from and
/// the filters on the entities it applies to.
pub struct Decision {
    pub action_name: String,
    /// The type of the action component.
    pub action: TypeId,
    pub is_targeted: bool,
    pub considerations: Vec<Consideration>,
    /// Filters on the subject entity.
    pub subject_filters: Vec<Filter>,
    /// Filters on the target entities; only targeted decisions have them.
    pub target_filters: Vec<Filter>,
}

impl Decision {
    /// A decision with no considerations and no filters.
    fn construct(action_type_name: &str, action: TypeId, is_targeted: bool) -> (r: Decision)
        ensures
            r.action_name@ == trimmed_type_name(action_type_name@),
            r.action == action,
            r.is_targeted == is_targeted,
            r.considerations@.len() == 0,
            r.subject_filters@.len() == 0,
            r.target_filters@.len() == 0,
    {
        let name = trim_type_name(action_type_name);
        Decision {
            action_name: name.to_owned(),
            action,
            is_targeted,
            considerations: Vec::new(),
            subject_filters: Vec::new(),
            target_filters: Vec::new(),
        }
    }

    /// An untargeted decision for the action whose type is `action`, named
    /// after the short form of `action_type_name`.
    pub fn simple(action_type_name: &str, action: TypeId) -> (r: Decision)
        ensures
            r.action_name@ == trimmed_type_name(action_type_name@),
            r.action == action,
            !r.is_targeted,
            r.considerations@.len() == 0,
            r.subject_filters@.len() == 0,
            r.target_filters@.len() == 0,
    {
        Decision::construct(action_type_name, action, false)
    }

    /// A targeted decision for the action whose type is `action`, named
    /// after the short form of `action_type_name`.
    pub fn targeted(action_type_name: &str, action: TypeId) -> (r: Decision)
        ensures
            r.action_name@ == trimmed_type_name(action_type_name@),
            r.action == action,
            r.is_targeted,
            r.considerations@.len() == 0,
            r.subject_filters@.len() == 0,
            r.target_filters@.len() == 0,
    {
        Decision::construct(action_type_name, action, true)
    }

    pub fn add_consideration(self, consideration: Consideration) -> (r: Decision)
        ensures
            r.action_name == self.action_name,
            r.action == self.action,
            r.is_targeted == self.is_targeted,
            r.considerations@ == self.considerations@.push(consideration),
            r.subject_filters@ == self.subject_filters@,
            r.target_filters@ == self.target_filters@,
    {
        let mut d = self;
        d.considerations.push(consideration);
        d
    }

    /// The subject must have a component of type `component`.
    pub fn subject_filter_include(self, component: TypeId) -> (r: Decision)
        ensures
            r.action_name == self.action_name,
            r.action == self.action,
            r.is_targeted == self.is_targeted,
            r.considerations@ == self.considerations@,
            r.subject_filters@ == self.subject_filters@.push(Filter::Inclusive(component)),
            r.target_filters@ == self.target_filters@,
    {
        let mut d = self;
        d.subject_filters.push(Filter::Inclusive(component));
        d
    }

    /// The subject must not have a component of type `component`.
    pub fn subject_filter_exclude(self, component: TypeId) -> (r: Decision)
        ensures
            r.action_name == self.action_name,
            r.action == self.action,
            r.is_targeted == self.is_targeted,
            r.considerations@ == self.considerations@,
            r.subject_filters@ == self.subject_filters@.push(Filter::Exclusive(component)),
            r.target_filters@ == self.target_filters@,
    {
        let mut d = self;
        d.subject_filters.push(Filter::Exclusive(component));
        d
    }

    /// A target must have a component of type `component`. Only targeted
    /// decisions may have target filters.
    pub fn target_filter_include(self, component: TypeId) -> (r: Decision)
        requires
            self.is_targeted,
        ensures
            r.action_name == self.action_name,
            r.action == self.action,
            r.is_targeted == self.is_targeted,
            r.considerations@ == self.considerations@,
            r.subject_filters@ == self.subject_filters@,
            r.target_filters@ == self.target_filters@.push(Filter::Inclusive(component)),
    {
        let mut d = self;
        d.target_filters.push(Filter::Inclusive(component));
        d
    }

    /// A target must not have a component of type `component`. Only targeted
    /// decisions may have target filters.
    pub fn target_filter_exclude(self, component: TypeId) -> (r: Decision)
        requires
            self.is_targeted,
        ensures
            r.action_name == self.action_name,
            r.action == self.action,
            r.is_targeted == self.is_targeted,
            r.considerations@ == self.considerations@,
            r.subject_filters@ == self.subject_filters@,
            r.target_filters@ == self.target_filters@.push(Filter::Exclusive(component)),
    {
        let mut d = self;
        d.target_filters.push(Filter::Exclusive(component));
        d
    }

    /// Whether a subject whose components have the types in `present`
    /// satisfies every subject filter of this decision.
    pub fn matches_subject(&self, present: &Vec<TypeId>) -> (r: bool)
        ensures
            r == filter_set_holds(self.subject_filters@, present@.to_set()),
    {
        filter_set_satisfied(&self.subject_filters, present)
    }
}

} // verus!
