use std::any::TypeId;

use bevy_utility_ai::ai_definition::AIDefinitions;
use bevy_utility_ai::considerations::Consideration;
use bevy_utility_ai::decisions::{Decision, Filter};
use bevy_utility_ai::define_ai::{AddedSystemTracker, DefineAI};
use bevy_utility_ai::filter_definition::FilterDefinition;
use bevy_utility_ai::game::{select_planet_companies, GameViewState, InGameState};
use bevy_utility_ai::plugin::{phase_order, UtililityAISet};
use bevy_utility_ai::utils::{trim_type_name, type_id_of};

struct AI1;
struct AI2;
struct ActionOne;
struct ActionTwo;
struct InputOne;
struct InputTwo;
struct TargetedOne;
struct TargetedTwo;
struct AA;
struct BB;

#[test]
fn trim_type_name_keeps_last_segment() {
    assert_eq!(trim_type_name("bevy_utility_ai::decisions::Decision"), "Decision");
    assert_eq!(trim_type_name("Decision"), "Decision");
    assert_eq!(trim_type_name(""), "");
    assert_eq!(trim_type_name("a:::b"), "b");
    assert_eq!(trim_type_name("a::"), "");
    assert_eq!(trim_type_name("a:b"), "a:b");
    assert_eq!(trim_type_name("::x"), "x");
    assert_eq!(trim_type_name("crate::Wrapper<crate::Inner>"), "Inner>");
}

#[test]
fn type_id_of_names_the_value_type() {
    let x: u32 = 5;
    assert_eq!(type_id_of(&x), TypeId::of::<u32>());
    assert_ne!(type_id_of(&x), TypeId::of::<u64>());
}

#[test]
fn merge_of_filter_definitions() {
    let mut any = FilterDefinition::Any;
    let filtered = FilterDefinition::Filtered(vec![vec![Filter::Inclusive(TypeId::of::<AA>())]]);
    assert!(matches!(any.merge(&filtered), FilterDefinition::Any));
    assert!(matches!(any, FilterDefinition::Any));
    let mut f1 = FilterDefinition::Filtered(vec![vec![Filter::Inclusive(TypeId::of::<AA>())]]);
    assert!(matches!(f1.merge(&FilterDefinition::Any), FilterDefinition::Any));
    let f2 = FilterDefinition::Filtered(vec![vec![Filter::Exclusive(TypeId::of::<BB>())], vec![]]);
    match f1.merge(&f2) {
        FilterDefinition::Filtered(sets) => {
            assert_eq!(sets.len(), 3);
            assert!(matches!(sets[0][0], Filter::Inclusive(t) if t == TypeId::of::<AA>()));
            assert!(matches!(sets[1][0], Filter::Exclusive(t) if t == TypeId::of::<BB>()));
            assert!(sets[2].is_empty());
        }
        FilterDefinition::Any => panic!("expected a filtered definition"),
    }
    // merge leaves its receiver as it was
    match f1 {
        FilterDefinition::Filtered(sets) => assert_eq!(sets.len(), 1),
        FilterDefinition::Any => panic!("receiver changed"),
    }
}

#[test]
fn merged_definition_admits_what_either_admits() {
    let only_aa = FilterDefinition::Filtered(vec![vec![Filter::Inclusive(TypeId::of::<AA>())]]);
    let only_not_bb = FilterDefinition::Filtered(vec![vec![Filter::Exclusive(TypeId::of::<BB>())]]);
    let mut a = FilterDefinition::Filtered(vec![vec![Filter::Inclusive(TypeId::of::<AA>())]]);
    let merged = a.merge(&only_not_bb);
    let cases = vec![
        vec![],
        vec![TypeId::of::<AA>()],
        vec![TypeId::of::<BB>()],
        vec![TypeId::of::<AA>(), TypeId::of::<BB>()],
    ];
    for present in cases.iter() {
        assert_eq!(
            merged.admits_components(present),
            only_aa.admits_components(present) || only_not_bb.admits_components(present)
        );
    }
    assert!(!merged.admits_components(&vec![TypeId::of::<BB>()]));
    assert!(FilterDefinition::Any.admits_components(&vec![]));
    assert!(!FilterDefinition::Filtered(vec![]).admits_components(&vec![TypeId::of::<AA>()]));
}

#[test]
fn define_ai_collects_inputs() {
    let ai = DefineAI::new()
        .add_decision(
            Decision::simple("ActionOne", TypeId::of::<ActionOne>())
                .add_consideration(Consideration::simple("input_one", TypeId::of::<InputOne>()))
                .add_consideration(Consideration::simple("input_one", TypeId::of::<InputOne>())),
        )
        .add_decision(
            Decision::targeted("ActionTwo", TypeId::of::<ActionTwo>())
                .target_filter_include(TypeId::of::<AA>())
                .add_consideration(Consideration::simple("input_two", TypeId::of::<InputTwo>()))
                .add_consideration(Consideration::targeted("targeted_one", TypeId::of::<TargetedOne>())),
        )
        .add_decision(
            Decision::targeted("ActionOne", TypeId::of::<ActionOne>())
                .target_filter_include(TypeId::of::<BB>())
                .add_consideration(Consideration::targeted("targeted_one", TypeId::of::<TargetedOne>()))
                .add_consideration(Consideration::targeted("targeted_two", TypeId::of::<TargetedTwo>())),
        );
    assert_eq!(ai.decisions().len(), 3);
    let def = ai.into_definition();
    assert_eq!(def.simple_inputs.len(), 2);
    assert!(def.requires_simple_input(&TypeId::of::<InputOne>()));
    assert!(def.requires_simple_input(&TypeId::of::<InputTwo>()));
    assert!(!def.requires_simple_input(&TypeId::of::<TargetedOne>()));
    assert!(def.requires_targeted_input(&TypeId::of::<TargetedOne>()));
    assert!(def.requires_targeted_input(&TypeId::of::<TargetedTwo>()));
    assert!(!def.requires_targeted_input(&TypeId::of::<InputOne>()));
    assert_eq!(def.targeted_inputs.len(), 2);
    // targeted_one is needed by two decisions: targets with AA or with BB
    let req = def.get_targeted_input_requirements(&TypeId::of::<TargetedOne>());
    match &req.target_filter {
        FilterDefinition::Filtered(sets) => assert_eq!(sets.len(), 2),
        FilterDefinition::Any => panic!("expected filters"),
    }
    assert!(def.scores_target(&TypeId::of::<TargetedOne>(), 1, 2, &vec![TypeId::of::<AA>()]));
    assert!(def.scores_target(&TypeId::of::<TargetedOne>(), 1, 2, &vec![TypeId::of::<BB>()]));
    assert!(!def.scores_target(&TypeId::of::<TargetedOne>(), 1, 2, &vec![]));
    assert!(!def.scores_target(&TypeId::of::<TargetedOne>(), 2, 2, &vec![TypeId::of::<AA>()]));
    assert!(!def.scores_target(&TypeId::of::<TargetedTwo>(), 1, 2, &vec![TypeId::of::<AA>()]));
    assert!(!def.scores_target(&TypeId::of::<InputOne>(), 1, 2, &vec![TypeId::of::<AA>()]));
}

#[test]
fn unfiltered_targeted_decision_needs_every_target() {
    let def = DefineAI::default()
        .add_decision(
            Decision::targeted("ActionOne", TypeId::of::<ActionOne>())
                .target_filter_include(TypeId::of::<AA>())
                .add_consideration(Consideration::targeted("t", TypeId::of::<TargetedOne>())),
        )
        .add_decision(
            Decision::targeted("ActionTwo", TypeId::of::<ActionTwo>())
                .add_consideration(Consideration::targeted("t", TypeId::of::<TargetedOne>())),
        )
        .into_definition();
    let req = def.get_targeted_input_requirements(&TypeId::of::<TargetedOne>());
    assert!(matches!(req.target_filter, FilterDefinition::Any));
}

#[test]
fn definitions_are_registered_once() {
    let mut defs = AIDefinitions::default();
    assert!(!defs.contains(&TypeId::of::<AI1>()));
    assert!(defs.insert_new(TypeId::of::<AI1>(), DefineAI::new().into_definition()));
    assert!(defs.contains(&TypeId::of::<AI1>()));
    assert!(!defs.contains(&TypeId::of::<AI2>()));
    let second = DefineAI::new()
        .add_decision(Decision::simple("ActionOne", TypeId::of::<ActionOne>()))
        .into_definition();
    assert!(!defs.insert_new(TypeId::of::<AI1>(), second));
    assert_eq!(defs.get(&TypeId::of::<AI1>()).unwrap().decisions.len(), 0);
    assert!(defs.get(&TypeId::of::<AI2>()).is_none());
}

#[test]
fn each_input_system_is_added_once() {
    let mut tracker = AddedSystemTracker::new();
    let first = vec![
        Consideration::simple("a", TypeId::of::<InputOne>()),
        Consideration::targeted("b", TypeId::of::<TargetedOne>()),
        Consideration::simple("a", TypeId::of::<InputOne>()),
    ];
    assert_eq!(tracker.select_new_systems(&first), vec![0, 1]);
    let second = vec![
        Consideration::simple("c", TypeId::of::<InputTwo>()),
        Consideration::targeted("b", TypeId::of::<TargetedOne>()),
    ];
    assert_eq!(tracker.select_new_systems(&second), vec![0]);
    assert_eq!(tracker.select_new_systems(&second), Vec::<usize>::new());
    assert!(tracker.contains(&TypeId::of::<InputOne>()));
    assert!(tracker.contains(&TypeId::of::<InputTwo>()));
    assert!(tracker.contains(&TypeId::of::<TargetedOne>()));
    assert!(!tracker.contains(&TypeId::of::<TargetedTwo>()));
}

#[test]
fn game_view_and_phases() {
    assert!(GameViewState::default() == GameViewState::System);
    let _state = InGameState::default();
    let order = phase_order();
    assert_eq!(
        order,
        vec![
            (UtililityAISet::CalculateInputs, UtililityAISet::MakeDecisions),
            (UtililityAISet::MakeDecisions, UtililityAISet::UpdateActions),
        ]
    );
}

#[test]
fn planet_companies_are_selected_in_order() {
    assert_eq!(select_planet_companies(3, &vec![3, 1, 3, 2]), vec![0, 2]);
    assert_eq!(select_planet_companies(9, &vec![3, 1]), Vec::<usize>::new());
    assert_eq!(select_planet_companies(9, &vec![]), Vec::<usize>::new());
}

#[test]
fn merge_is_associative_on_values() {
    let make = |t: TypeId| FilterDefinition::Filtered(vec![vec![Filter::Inclusive(t)]]);
    let mut a = make(TypeId::of::<AA>());
    let mut b = make(TypeId::of::<BB>());
    let c = make(TypeId::of::<AI1>());
    let mut ab = a.merge(&b);
    let left = ab.merge(&c);
    let bc = b.merge(&c);
    let right = a.merge(&bc);
    match (left, right) {
        (FilterDefinition::Filtered(l), FilterDefinition::Filtered(r)) => assert_eq!(l, r),
        _ => panic!("expected filtered definitions"),
    }
}
