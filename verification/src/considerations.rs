//! Considerations: the inputs a decision is scored from.
use crate::utils::{trim_type_name, trimmed_type_name};
use std::any::TypeId;
use vstd::prelude::*;

verus! {

/// Whether an input scores the subject alone or the subject against each target.
#[derive(Copy, Clone, Debug, PartialEq, Eq, Structural)]
pub enum ConsiderationType {
    Simple,
    Targeted,
}

/// One input of a decision: which input system provides the score, and how.
/// The response curve and the input system itself are attached by the
/// application layer.
pub struct Consideration {
    pub input_name: String,
    pub input: TypeId,
    pub consideration_type: ConsiderationType,
}

impl Consideration {
    /// A consideration of the input whose type is `input`, named after the
    /// short form of `input_type_name`.
    fn construct(
        input_type_name: &str,
        input: TypeId,
        consideration_type: ConsiderationType,
    ) -> (r: Consideration)
        ensures
            r.input_name@ == trimmed_type_name(input_type_name@),
            r.input == input,
            r.consideration_type == consideration_type,
    {
        let name = trim_type_name(input_type_name);
        Consideration { input_name: name.to_owned(), input, consideration_type }
    }

    /// A consideration of an input that scores the subject alone.
    pub fn simple(input_type_name: &str, input: TypeId) -> (r: Consideration)
        ensures
            r.input_name@ == trimmed_type_name(input_type_name@),
            r.input == input,
            r.consideration_type == ConsiderationType::Simple,
    {
        Consideration::construct(input_type_name, input, ConsiderationType::Simple)
    }

    /// A consideration of an input that scores the subject against each target.
    pub fn targeted(input_type_name: &str, input: TypeId) -> (r: Consideration)
        ensures
            r.input_name@ == trimmed_type_name(input_type_name@),
            r.input == input,
            r.consideration_type == ConsiderationType::Targeted,
    {
        Consideration::construct(input_type_name, input, ConsiderationType::Targeted)
    }

    /// The same consideration under another name.
    pub fn set_input_name(self, input_name: String) -> (r: Consideration)
        ensures
            r.input_name@ == input_name@,
            r.input == self.input,
            r.consideration_type == self.consideration_type,
    {
        Consideration { input_name, ..self }
    }
}

} // verus!
