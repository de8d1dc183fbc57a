//! A utility-AI decision engine: an AI is a set of decisions, each scored
//! from inputs; the best scoring decision becomes the entity's action.

pub mod ai_definition;
pub mod ai_meta;
pub mod considerations;
pub mod decisions;
pub mod define_ai;
pub mod filter_definition;
pub mod game;
pub mod ids;
pub mod make_decisions;
pub mod plugin;
pub mod signature;
pub mod table;
pub mod update_action;
pub mod utils;

pub use crate::ai_definition::{AIDefinition, AIDefinitions, TargetedInputRequirements};
pub use crate::ai_meta::AIMeta;
pub use crate::considerations::{Consideration, ConsiderationType};
pub use crate::decisions::{Decision, Filter};
pub use crate::define_ai::DefineAI;
pub use crate::filter_definition::FilterDefinition;
