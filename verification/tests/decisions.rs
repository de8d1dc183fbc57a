use std::any::TypeId;

use bevy_utility_ai::ai_meta::NO_SCORE_BITS;
use bevy_utility_ai::considerations::{Consideration, ConsiderationType};
use bevy_utility_ai::decisions::{Decision, Filter};
use bevy_utility_ai::make_decisions::{
    collect_candidates, make_decision, score_rank_of, select_best, Candidate, DecisionScores,
};
use bevy_utility_ai::update_action::{plan_action_update, ActionStep};
use bevy_utility_ai::AIMeta;

struct AI;
struct ActionOne;
struct ActionTwo;
struct SomeData;
struct SomeOtherData;
struct AA;
struct BB;

fn candidate(decision_index: usize, target: Option<u64>, score: f32) -> Candidate {
    Candidate { decision_index, target, score_bits: score.to_bits() }
}

fn two_simple_decisions() -> Vec<Decision> {
    vec![
        Decision::simple("tests::ActionOne", TypeId::of::<ActionOne>())
            .add_consideration(Consideration::simple("tests::utility_input_low", TypeId::of::<SomeData>())),
        Decision::simple("tests::ActionTwo", TypeId::of::<ActionTwo>())
            .add_consideration(Consideration::simple("tests::utility_input_high", TypeId::of::<SomeOtherData>())),
    ]
}

#[test]
fn decision_builders_record_what_they_are_given() {
    let d = Decision::targeted("my_game::actions::Attack", TypeId::of::<ActionOne>())
        .subject_filter_include(TypeId::of::<AA>())
        .subject_filter_exclude(TypeId::of::<BB>())
        .target_filter_include(TypeId::of::<BB>())
        .target_filter_exclude(TypeId::of::<AA>())
        .add_consideration(Consideration::targeted("crate::inputs::distance", TypeId::of::<SomeData>()));
    assert_eq!(d.action_name, "Attack");
    assert!(d.is_targeted);
    assert_eq!(d.action, TypeId::of::<ActionOne>());
    assert_eq!(d.considerations.len(), 1);
    assert_eq!(d.considerations[0].input_name, "distance");
    assert!(d.considerations[0].consideration_type == ConsiderationType::Targeted);
    assert!(matches!(d.subject_filters[0], Filter::Inclusive(t) if t == TypeId::of::<AA>()));
    assert!(matches!(d.subject_filters[1], Filter::Exclusive(t) if t == TypeId::of::<BB>()));
    assert!(matches!(d.target_filters[0], Filter::Inclusive(t) if t == TypeId::of::<BB>()));
    assert!(matches!(d.target_filters[1], Filter::Exclusive(t) if t == TypeId::of::<AA>()));
    let s = Decision::simple("Idle", TypeId::of::<ActionTwo>());
    assert!(!s.is_targeted);
    assert_eq!(s.action_name, "Idle");
}

#[test]
fn consideration_can_be_renamed() {
    let c = Consideration::simple("a::b::utility_input_low", TypeId::of::<SomeData>())
        .set_input_name("low".to_string());
    assert_eq!(c.input_name, "low");
    assert_eq!(c.input, TypeId::of::<SomeData>());
    assert!(c.consideration_type == ConsiderationType::Simple);
}

#[test]
fn subject_filters_respect_inclusion_and_exclusion() {
    let d = Decision::simple("A", TypeId::of::<ActionOne>())
        .subject_filter_include(TypeId::of::<AA>())
        .subject_filter_exclude(TypeId::of::<BB>());
    assert!(d.matches_subject(&vec![TypeId::of::<AA>()]));
    assert!(d.matches_subject(&vec![TypeId::of::<SomeData>(), TypeId::of::<AA>()]));
    assert!(!d.matches_subject(&vec![TypeId::of::<AA>(), TypeId::of::<BB>()]));
    assert!(!d.matches_subject(&vec![]));
    let free = Decision::simple("B", TypeId::of::<ActionTwo>());
    assert!(free.matches_subject(&vec![]));
}

#[test]
fn score_rank_follows_total_cmp() {
    let values = [
        f32::NEG_INFINITY, -2.5, -1.0, -0.0, 0.0, 0.25, 0.75, 1.0, 7.0, f32::INFINITY, f32::NAN, -f32::NAN,
        f32::MIN_POSITIVE, -f32::MIN_POSITIVE, f32::MAX, f32::MIN,
    ];
    for a in values.iter() {
        for b in values.iter() {
            let ra = score_rank_of(a.to_bits());
            let rb = score_rank_of(b.to_bits());
            assert_eq!(ra.cmp(&rb), a.total_cmp(b), "{} vs {}", a, b);
        }
    }
    assert_eq!(score_rank_of(0.0f32.to_bits()), 0);
    assert_eq!(score_rank_of((-0.0f32).to_bits()), -1);
}

#[test]
fn select_best_picks_first_highest() {
    assert_eq!(select_best(&vec![]), None);
    let c = vec![candidate(0, None, 0.25), candidate(1, None, 0.75), candidate(2, None, 0.5)];
    assert_eq!(select_best(&c), Some(1));
    let tie = vec![candidate(0, None, 0.5), candidate(1, None, 0.75), candidate(2, None, 0.75)];
    assert_eq!(select_best(&tie), Some(1));
    let neg = vec![candidate(0, None, -1.0), candidate(1, None, -0.5), candidate(2, None, -0.0)];
    assert_eq!(select_best(&neg), Some(2));
    let zeros = vec![candidate(0, None, -0.0), candidate(1, None, 0.0)];
    assert_eq!(select_best(&zeros), Some(1));
}

#[test]
fn simple_considerations_trivial() {
    let decisions = two_simple_decisions();
    let mut meta = AIMeta::new(TypeId::of::<AI>());
    assert_eq!(meta.current_action_score_bits, NO_SCORE_BITS);
    assert_eq!(f32::from_bits(NO_SCORE_BITS), -1.0);
    let candidates = vec![candidate(0, None, 0.25), candidate(1, None, 0.75)];
    let change = make_decision(&mut meta, 7, &decisions, &candidates).expect("a change");
    assert_eq!(f32::from_bits(meta.current_action_score_bits), 0.75);
    assert_eq!(meta.current_action, Some(TypeId::of::<ActionTwo>()));
    assert_eq!(meta.current_action_name, "ActionTwo");
    assert_eq!(meta.current_target, None);
    assert_eq!(change.update.entity_id, 7);
    assert_eq!(change.update.old_action, None);
    assert_eq!(change.update.new_action, TypeId::of::<ActionTwo>());
    assert_eq!(change.event.prev_action, "");
    assert_eq!(change.event.new_action, "ActionTwo");
    assert_eq!(f32::from_bits(change.event.prev_score_bits), -1.0);
    assert_eq!(f32::from_bits(change.event.new_score_bits), 0.75);
}

#[test]
fn deciding_again_keeps_action_and_updates_score() {
    let decisions = two_simple_decisions();
    let mut meta = AIMeta::new(TypeId::of::<AI>());
    let first = vec![candidate(0, None, 0.25), candidate(1, None, 0.75)];
    assert!(make_decision(&mut meta, 1, &decisions, &first).is_some());
    assert!(make_decision(&mut meta, 1, &decisions, &first).is_none());
    let second = vec![candidate(0, None, 0.25), candidate(1, None, 0.5)];
    assert!(make_decision(&mut meta, 1, &decisions, &second).is_none());
    assert_eq!(f32::from_bits(meta.current_action_score_bits), 0.5);
    assert_eq!(meta.current_action, Some(TypeId::of::<ActionTwo>()));
    let third = vec![candidate(0, None, 0.6), candidate(1, None, 0.5)];
    let change = make_decision(&mut meta, 1, &decisions, &third).expect("a change");
    assert_eq!(change.event.prev_action, "ActionTwo");
    assert_eq!(change.event.new_action, "ActionOne");
    assert_eq!(f32::from_bits(change.event.prev_score_bits), 0.5);
    assert_eq!(change.update.old_action, Some(TypeId::of::<ActionTwo>()));
}

#[test]
fn no_candidates_changes_nothing() {
    let decisions = two_simple_decisions();
    let mut meta = AIMeta::new(TypeId::of::<AI>());
    assert!(make_decision(&mut meta, 1, &decisions, &vec![]).is_none());
    assert_eq!(meta.current_action, None);
    assert_eq!(meta.current_action_score_bits, NO_SCORE_BITS);
}

#[test]
fn targeted_trivial() {
    let decisions = vec![Decision::targeted("ActionOne", TypeId::of::<ActionOne>())
        .add_consideration(Consideration::targeted("targeted_utility_input", TypeId::of::<SomeData>()))];
    let mut meta = AIMeta::new(TypeId::of::<AI>());
    // distances 0.9*sqrt(2) and 0.1*sqrt(2), through `1 - x`
    let near = 1.0 - 0.1f32 * 2f32.sqrt();
    let far = (1.0 - 0.9f32 * 2f32.sqrt()).clamp(0.0, 1.0);
    let candidates = vec![candidate(0, Some(10), far), candidate(0, Some(11), near)];
    let change = make_decision(&mut meta, 3, &decisions, &candidates).expect("a change");
    assert_eq!(meta.current_action, Some(TypeId::of::<ActionOne>()));
    assert_eq!(meta.current_target, Some(11));
    assert_eq!(change.update.new_target, Some(11));
    // Same action, new target: a change of target only.
    let moved = vec![candidate(0, Some(10), 0.9), candidate(0, Some(11), near)];
    let change = make_decision(&mut meta, 3, &decisions, &moved).expect("a change");
    assert_eq!(change.update.old_action, Some(TypeId::of::<ActionOne>()));
    assert_eq!(change.update.new_action, TypeId::of::<ActionOne>());
    assert_eq!(change.update.old_target, Some(11));
    assert_eq!(change.update.new_target, Some(10));
}

#[test]
fn action_update_plans() {
    let update = make_update(None, TypeId::of::<ActionOne>(), None, None);
    let steps = plan_action_update(&update);
    assert_eq!(steps.len(), 1);
    assert!(matches!(steps[0], ActionStep::InsertAction(t) if t == TypeId::of::<ActionOne>()));

    let update = make_update(Some(TypeId::of::<ActionOne>()), TypeId::of::<ActionTwo>(), Some(4), None);
    let steps = plan_action_update(&update);
    assert_eq!(steps.len(), 3);
    assert!(matches!(steps[0], ActionStep::RemoveAction(t) if t == TypeId::of::<ActionOne>()));
    assert!(matches!(steps[1], ActionStep::InsertAction(t) if t == TypeId::of::<ActionTwo>()));
    assert!(matches!(steps[2], ActionStep::RemoveTarget));

    let update = make_update(Some(TypeId::of::<ActionOne>()), TypeId::of::<ActionOne>(), Some(4), Some(5));
    let steps = plan_action_update(&update);
    assert_eq!(steps.len(), 2);
    assert!(matches!(steps[0], ActionStep::RemoveTarget));
    assert!(matches!(steps[1], ActionStep::InsertTarget(5)));

    let update = make_update(Some(TypeId::of::<ActionOne>()), TypeId::of::<ActionOne>(), None, None);
    assert_eq!(plan_action_update(&update).len(), 0);
}

fn make_update(
    old_action: Option<TypeId>,
    new_action: TypeId,
    old_target: Option<u64>,
    new_target: Option<u64>,
) -> bevy_utility_ai::make_decisions::UpdateEntityAction {
    bevy_utility_ai::make_decisions::UpdateEntityAction { entity_id: 1, old_action, new_action, old_target, new_target }
}

#[test]
fn candidates_follow_decisions_and_filters() {
    let decisions = vec![
        Decision::simple("A", TypeId::of::<ActionOne>()),
        Decision::simple("B", TypeId::of::<ActionTwo>()).subject_filter_include(TypeId::of::<AA>()),
        Decision::targeted("C", TypeId::of::<ActionOne>()),
    ];
    let scores = vec![
        DecisionScores { simple_score_bits: 0.5f32.to_bits(), targeted: vec![] },
        DecisionScores { simple_score_bits: 0.9f32.to_bits(), targeted: vec![] },
        DecisionScores {
            simple_score_bits: 1.0f32.to_bits(),
            targeted: vec![(20, 0.3f32.to_bits()), (21, 0.6f32.to_bits())],
        },
    ];
    let c = collect_candidates(&decisions, &vec![], &scores);
    assert_eq!(c.len(), 3);
    assert_eq!((c[0].decision_index, c[0].target, c[0].score_bits), (0, None, 0.5f32.to_bits()));
    assert_eq!((c[1].decision_index, c[1].target, c[1].score_bits), (2, Some(20), 0.3f32.to_bits()));
    assert_eq!((c[2].decision_index, c[2].target, c[2].score_bits), (2, Some(21), 0.6f32.to_bits()));
    let c = collect_candidates(&decisions, &vec![TypeId::of::<AA>()], &scores);
    assert_eq!(c.len(), 4);
    assert_eq!((c[1].decision_index, c[1].target), (1, None));
    let mut meta = AIMeta::new(TypeId::of::<AI>());
    let change = make_decision(&mut meta, 1, &decisions, &c).expect("a change");
    assert_eq!(change.event.new_action, "B");
}

#[test]
fn filter_equality() {
    assert!(Filter::Inclusive(TypeId::of::<AA>()) == Filter::Inclusive(TypeId::of::<AA>()));
    assert!(Filter::Inclusive(TypeId::of::<AA>()) != Filter::Exclusive(TypeId::of::<AA>()));
    assert!(Filter::Inclusive(TypeId::of::<AA>()) != Filter::Inclusive(TypeId::of::<BB>()));
    assert_eq!(Filter::Exclusive(TypeId::of::<BB>()).component_type_id(), TypeId::of::<BB>());
}
