//! The per-entity state of an AI: its definition and its current action.
use std::any::TypeId;
use vstd::prelude::*;

verus! {

/// The bit pattern of the score `-1.0` that an entity has before its first
/// decision: below every score that a decision can reach.
pub const NO_SCORE_BITS: u32 = 0xBF80_0000u32;

/// The state the decision making keeps for one entity. Scores are held as
/// the bit patterns of their `f32` values; the scores of the inputs are kept
/// by the application layer beside it.
pub struct AIMeta {
    /// The type of the marker component of the AI; it names the entity's
    /// `AIDefinition`.
    pub ai_definition: TypeId,
    /// The type of the entity's current action component.
    pub current_action: Option<TypeId>,
    /// The bit pattern of the score of the current action.
    pub current_action_score_bits: u32,
    /// The name of the current action.
    pub current_action_name: String,
    /// The current target (an entity, as its bits), where the current action
    /// is a targeted one.
    pub current_target: Option<u64>,
}

/// The mathematical value of an [`AIMeta`].
pub struct AIMetaView {
    pub ai_definition: TypeId,
    pub current_action: Option<TypeId>,
    pub current_action_score_bits: u32,
    pub current_action_name: Seq<char>,
    pub current_target: Option<u64>,
}

impl View for AIMeta {
    type V = AIMetaView;

    open spec fn view(&self) -> AIMetaView {
        AIMetaView {
            ai_definition: self.ai_definition,
            current_action: self.current_action,
            current_action_score_bits: self.current_action_score_bits,
            current_action_name: self.current_action_name@,
            current_target: self.current_target,
        }
    }
}

impl AIMeta {
    /// The state of a fresh entity of the AI whose marker type is
    /// `ai_definition`: no action, no target, an empty action name and the
    /// score `-1.0`.
    pub fn new(ai_definition: TypeId) -> (r: AIMeta)
        ensures
            r@ == (AIMetaView {
                ai_definition,
                current_action: None,
                current_action_score_bits: NO_SCORE_BITS,
                current_action_name: Seq::empty(),
                current_target: None,
            }),
    {
        AIMeta {
            ai_definition,
            current_action: None,
            current_action_score_bits: NO_SCORE_BITS,
            current_action_name: String::new(),
            current_target: None,
        }
    }
}

} // verus!
