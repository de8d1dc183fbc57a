//! Applying a change of action to an entity: which components go and come.
use crate::ids::type_ids_equal;
use crate::make_decisions::UpdateEntityAction;
use std::any::TypeId;
use vstd::prelude::*;

verus! {

/// One change to an entity's components.
#[derive(Copy, Clone, Debug)]
pub enum ActionStep {
    /// Remove the action component of this type.
    RemoveAction(TypeId),
    /// Insert the default value of the action component of this type.
    InsertAction(TypeId),
    /// Remove the entity's target component, where it has one.
    RemoveTarget,
    /// Insert a target component pointing at this entity (as its bits).
    InsertTarget(u64),
}

/// The steps that carry out an update: where the action changes, the old
/// action component (if any) is removed and the new one inserted; where the
/// target changes, the target component is removed and the new target (if
/// any) inserted.
pub open spec fn planned_steps(update: UpdateEntityAction) -> Seq<ActionStep> {
    let action_steps = if update.old_action != Some(update.new_action) {
        (match update.old_action {
            Some(prev) => seq![ActionStep::RemoveAction(prev)],
            None => Seq::<ActionStep>::empty(),
        }) + seq![ActionStep::InsertAction(update.new_action)]
    } else {
        Seq::<ActionStep>::empty()
    };
    let target_steps = if update.old_target != update.new_target {
        seq![ActionStep::RemoveTarget] + (match update.new_target {
            Some(t) => seq![ActionStep::InsertTarget(t)],
            None => Seq::<ActionStep>::empty(),
        })
    } else {
        Seq::<ActionStep>::empty()
    };
    action_steps + target_steps
}

/// Each step of a plan is called for by the update: action components are
/// touched only where the action changes (removing the old one, inserting
/// the new one), the target only where the target changes (inserting only
/// the new target); and a change of action inserts the new action, a change
/// of target removes the old target component.
pub proof fn lemma_plan_touches_only_changes(update: UpdateEntityAction)
    ensures
        ({
            let steps = planned_steps(update);
            &&& forall|i: int| 0 <= i < steps.len() ==> match #[trigger] steps[i] {
                ActionStep::RemoveAction(t) => update.old_action == Some(t) && t != update.new_action,
                ActionStep::InsertAction(t) => t == update.new_action && update.old_action != Some(t),
                ActionStep::RemoveTarget => update.old_target != update.new_target,
                ActionStep::InsertTarget(t) => update.new_target == Some(t) && update.old_target != Some(t),
            }
            &&& update.old_action != Some(update.new_action) ==> exists|i: int|
                0 <= i < steps.len() && #[trigger] steps[i] == ActionStep::InsertAction(update.new_action)
            &&& update.old_target != update.new_target ==> exists|i: int|
                0 <= i < steps.len() && #[trigger] steps[i] == ActionStep::RemoveTarget
        }),
{
    let steps = planned_steps(update);
    let a = if update.old_action != Some(update.new_action) {
        (match update.old_action {
            Some(prev) => seq![ActionStep::RemoveAction(prev)],
            None => Seq::<ActionStep>::empty(),
        }) + seq![ActionStep::InsertAction(update.new_action)]
    } else {
        Seq::<ActionStep>::empty()
    };
    let t = if update.old_target != update.new_target {
        seq![ActionStep::RemoveTarget] + (match update.new_target {
            Some(x) => seq![ActionStep::InsertTarget(x)],
            None => Seq::<ActionStep>::empty(),
        })
    } else {
        Seq::<ActionStep>::empty()
    };
    assert(steps == a + t);
    if update.old_action != Some(update.new_action) {
        assert(steps[a.len() - 1] == ActionStep::InsertAction(update.new_action));
    }
    if update.old_target != update.new_target {
        assert(steps[a.len() as int] == ActionStep::RemoveTarget);
    }
}

/// The steps that carry out `update` on its entity.
pub fn plan_action_update(update: &UpdateEntityAction) -> (r: Vec<ActionStep>)
    ensures
        r@ == planned_steps(*update),
        update.old_target == update.new_target ==> forall|i: int|
            0 <= i < r@.len() ==> !(#[trigger] r@[i] is RemoveTarget) && !(r@[i] is InsertTarget),
        update.old_action == Some(update.new_action) ==> forall|i: int|
            0 <= i < r@.len() ==> !(#[trigger] r@[i] is RemoveAction) && !(r@[i] is InsertAction),
{
    proof {
        lemma_plan_touches_only_changes(*update);
    }
    let mut steps: Vec<ActionStep> = Vec::new();
    let same_action = match &update.old_action {
        Some(prev) => type_ids_equal(prev, &update.new_action),
        None => false,
    };
    if !same_action {
        if let Some(prev) = update.old_action {
            steps.push(ActionStep::RemoveAction(prev));
        }
        steps.push(ActionStep::InsertAction(update.new_action));
    }
    let ghost after_action = steps@;
    let same_target = match (update.old_target, update.new_target) {
        (None, None) => true,
        (Some(a), Some(b)) => a == b,
        _ => false,
    };
    if !same_target {
        steps.push(ActionStep::RemoveTarget);
        if let Some(t) = update.new_target {
            steps.push(ActionStep::InsertTarget(t));
        }
    }
    assert(steps@ =~= planned_steps(*update));
    steps
}

/// The action components and the target of an entity.
pub struct EntityActions {
    pub actions: Set<TypeId>,
    pub target: Option<u64>,
}

/// The entity after one step.
pub open spec fn apply_step(e: EntityActions, step: ActionStep) -> EntityActions {
    match step {
        ActionStep::RemoveAction(t) => EntityActions { actions: e.actions.remove(t), ..e },
        ActionStep::InsertAction(t) => EntityActions { actions: e.actions.insert(t), ..e },
        ActionStep::RemoveTarget => EntityActions { target: None, ..e },
        ActionStep::InsertTarget(t) => EntityActions { target: Some(t), ..e },
    }
}

/// The entity after the steps, in order.
pub open spec fn apply_steps(e: EntityActions, steps: Seq<ActionStep>) -> EntityActions
    decreases steps.len(),
{
    if steps.len() == 0 {
        e
    } else {
        apply_step(apply_steps(e, steps.drop_last()), steps.last())
    }
}

/// Carrying out an update on an entity that is as the update says it was
/// leaves it as the update says it will be: the new action component is
/// there, the old one (if another) is gone, all other action components are
/// untouched, and the target is the new target.
pub proof fn lemma_update_reaches_new_state(update: UpdateEntityAction, actions: Set<TypeId>)
    ensures
        ({
            let after = apply_steps(
                EntityActions { actions, target: update.old_target },
                planned_steps(update),
            );
            &&& after.target == update.new_target
            &&& (update.old_action != Some(update.new_action) ==> after.actions.contains(update.new_action))
            &&& (update.old_action == Some(update.new_action) ==> after.actions == actions)
            &&& (update.old_action matches Some(prev) ==> (prev != update.new_action ==> !after.actions.contains(prev)))
            &&& forall|t: TypeId|
                Some(t) != update.old_action && t != update.new_action ==> (#[trigger] after.actions.contains(t)
                    == actions.contains(t))
        }),
{
    reveal_with_fuel(apply_steps, 5);
}

} // verus!
