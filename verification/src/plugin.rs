//! The phases of the AI in each update.
use vstd::prelude::*;

verus! {

/// The phases of the AI, run in this order in every update: the input
/// systems calculate the inputs, then the decisions are made, then the
/// actions are updated.
#[derive(Copy, Clone, Debug, PartialEq, Eq, Hash, Structural)]
pub enum UtililityAISet {
    CalculateInputs,
    MakeDecisions,
    UpdateActions,
}

/// The ordering constraints between the phases: each pair runs first
/// element before second element.
pub fn phase_order() -> (r: Vec<(UtililityAISet, UtililityAISet)>)
    ensures
        r@ == seq![
            (UtililityAISet::CalculateInputs, UtililityAISet::MakeDecisions),
            (UtililityAISet::MakeDecisions, UtililityAISet::UpdateActions),
        ],
{
    let mut r = Vec::new();
    r.push((UtililityAISet::CalculateInputs, UtililityAISet::MakeDecisions));
    r.push((UtililityAISet::MakeDecisions, UtililityAISet::UpdateActions));
    r
}

} // verus!
