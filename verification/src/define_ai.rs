//! Declaring an AI: its decisions, and from them the inputs it needs.
use crate::ai_definition::{
    lemma_push_entry, lemma_replace_entry, requirements_map, AIDefinition,
    TargetedInputRequirements, TargetedInputs,
};
use crate::considerations::{Consideration, ConsiderationType};
use crate::decisions::Decision;
use crate::filter_definition::{
    admits, copy_filters, filter_sets_view, lemma_merge_admits_either, merged, FilterDefinition,
    FilterDefinitionView,
};
use crate::filter_definition::{contains_type_id, filter_set_holds, some_set_holds};
use crate::table::find_entry;
use std::any::TypeId;
use vstd::prelude::*;

verus! {

/// The targets a decision's targeted considerations need: any target where
/// the decision has no target filters, else those that satisfy all of them.
pub open spec fn decision_filter(d: Decision) -> FilterDefinitionView {
    if d.target_filters@.len() == 0 {
        FilterDefinitionView::Any
    } else {
        FilterDefinitionView::Filtered(seq![d.target_filters@])
    }
}

/// A decision's target filter definition admits exactly the targets that
/// satisfy every one of its target filters.
pub proof fn lemma_decision_filter_admits(d: Decision, present: Set<TypeId>)
    ensures
        admits(decision_filter(d), present) == filter_set_holds(d.target_filters@, present),
{
    let f = d.target_filters@;
    if f.len() > 0 {
        let sets = seq![f];
        if filter_set_holds(f, present) {
            assert(filter_set_holds(sets[0], present));
        }
        if some_set_holds(sets, present) {
            let i = choose|i: int| 0 <= i < sets.len() && #[trigger] filter_set_holds(sets[i], present);
            assert(i == 0);
        }
    }
}

/// The filter definition of a decision's targets, as [`decision_filter`] gives it.
pub fn target_filter_definition(decision: &Decision) -> (r: FilterDefinition)
    ensures
        r@ == decision_filter(*decision),
        forall|present: Set<TypeId>|
            #[trigger] admits(r@, present) == filter_set_holds(decision.target_filters@, present),
{
    proof {
        assert forall|present: Set<TypeId>|
            #[trigger] admits(decision_filter(*decision), present) == filter_set_holds(
                decision.target_filters@,
                present,
            ) by {
            lemma_decision_filter_admits(*decision, present);
        }
    }
    if decision.target_filters.len() == 0 {
        FilterDefinition::Any
    } else {
        let sets = vec![copy_filters(&decision.target_filters)];
        assert(filter_sets_view(sets@) =~= seq![decision.target_filters@]);
        FilterDefinition::Filtered(sets)
    }
}

/// Consideration `i` of `cs` is of type `ty` and for the input `input`.
pub open spec fn considers(cs: Seq<Consideration>, i: int, ty: ConsiderationType, input: TypeId) -> bool {
    0 <= i < cs.len() && cs[i].consideration_type == ty && cs[i].input == input
}

/// The simple inputs `s`, with those of the considerations `cs` added.
pub open spec fn with_simple_inputs(s: Set<TypeId>, cs: Seq<Consideration>) -> Set<TypeId> {
    s.union(
        Set::new(
            |input: TypeId| exists|i: int| #[trigger] considers(cs, i, ConsiderationType::Simple, input),
        ),
    )
}

/// The targeted inputs `m`, with those of the considerations `cs` added in
/// order: a new input gets the filter definition `f`, an input already
/// there gets its definition merged with `f`.
pub open spec fn with_targeted_inputs(
    m: Map<TypeId, FilterDefinitionView>,
    cs: Seq<Consideration>,
    f: FilterDefinitionView,
) -> Map<TypeId, FilterDefinitionView>
    decreases cs.len(),
{
    if cs.len() == 0 {
        m
    } else {
        let before = with_targeted_inputs(m, cs.drop_last(), f);
        let c = cs.last();
        if c.consideration_type == ConsiderationType::Targeted {
            if before.contains_key(c.input) {
                before.insert(c.input, merged(before[c.input], f))
            } else {
                before.insert(c.input, f)
            }
        } else {
            before
        }
    }
}

/// Adding the targeted considerations `cs` with filter definition `f`:
/// the inputs afterwards are those before and those of `cs`, and an input's
/// definition admits a target where it admitted it before, or where the
/// input is one of `cs` and `f` admits it.
pub proof fn lemma_with_targeted_inputs(
    m: Map<TypeId, FilterDefinitionView>,
    cs: Seq<Consideration>,
    f: FilterDefinitionView,
    input: TypeId,
    present: Set<TypeId>,
)
    ensures
        ({
            let r = with_targeted_inputs(m, cs, f);
            let in_cs = exists|i: int| #[trigger] considers(cs, i, ConsiderationType::Targeted, input);
            &&& r.contains_key(input) == (m.contains_key(input) || in_cs)
            &&& r.contains_key(input) ==> (admits(r[input], present) == ((m.contains_key(input)
                && admits(m[input], present)) || (in_cs && admits(f, present))))
        }),
    decreases cs.len(),
{
    if cs.len() > 0 {
        let p = cs.drop_last();
        lemma_with_targeted_inputs(m, p, f, input, present);
        let n = cs.len() - 1;
        let before = with_targeted_inputs(m, p, f);
        let c = cs.last();
        let in_p = exists|i: int| #[trigger] considers(p, i, ConsiderationType::Targeted, input);
        let in_cs = exists|i: int| #[trigger] considers(cs, i, ConsiderationType::Targeted, input);
        if in_p {
            let w = choose|i: int| #[trigger] considers(p, i, ConsiderationType::Targeted, input);
            assert(considers(cs, w, ConsiderationType::Targeted, input));
        }
        if in_cs {
            let w = choose|i: int| #[trigger] considers(cs, i, ConsiderationType::Targeted, input);
            if w < n {
                assert(considers(p, w, ConsiderationType::Targeted, input));
            }
        }
        if c.consideration_type == ConsiderationType::Targeted && c.input == input {
            assert(considers(cs, n, ConsiderationType::Targeted, input));
            if before.contains_key(input) {
                lemma_merge_admits_either(before[input], f, present);
            }
        }
    }
}

/// The mathematical value of a [`DefineAI`].
pub struct DefineAIView {
    pub decisions: Seq<Decision>,
    pub simple_inputs: Set<TypeId>,
    pub targeted_inputs: Map<TypeId, FilterDefinitionView>,
}

/// Decision `k` of `ds` has a consideration of type `ty` for `input`.
pub open spec fn decision_considers(ds: Seq<Decision>, k: int, ty: ConsiderationType, input: TypeId) -> bool {
    0 <= k < ds.len() && exists|i: int| #[trigger] considers(ds[k].considerations@, i, ty, input)
}

/// The inputs of an AI are exactly those its decisions consider; a targeted
/// input is calculated for a target exactly where one of the decisions that
/// consider it could target it.
pub open spec fn inputs_follow_decisions(v: DefineAIView) -> bool {
    &&& forall|input: TypeId|
        #[trigger] v.simple_inputs.contains(input) == exists|k: int|
            decision_considers(v.decisions, k, ConsiderationType::Simple, input)
    &&& forall|input: TypeId|
        #[trigger] v.targeted_inputs.contains_key(input) == exists|k: int|
            decision_considers(v.decisions, k, ConsiderationType::Targeted, input)
    &&& forall|input: TypeId, present: Set<TypeId>|
        #[trigger] v.targeted_inputs.contains_key(input) ==> (#[trigger] admits(
            v.targeted_inputs[input],
            present,
        ) == exists|k: int|
            decision_considers(v.decisions, k, ConsiderationType::Targeted, input) && #[trigger] admits(
                decision_filter(v.decisions[k]),
                present,
            ))
}

/// A builder which declares an AI decision by decision.
pub struct DefineAI {
    /// The decisions that make up this AI's logic.
    decisions: Vec<Decision>,
    /// The simple inputs used for this AI.
    simple_inputs: Vec<TypeId>,
    /// The targeted inputs used for this AI.
    targeted_inputs: TargetedInputs,
}

impl View for DefineAI {
    type V = DefineAIView;

    closed spec fn view(&self) -> DefineAIView {
        DefineAIView {
            decisions: self.decisions@,
            simple_inputs: self.simple_inputs@.to_set(),
            targeted_inputs: requirements_map(self.targeted_inputs@),
        }
    }
}

impl DefineAI {
    /// An AI with no decisions.
    pub fn new() -> (r: DefineAI)
        ensures
            r@.decisions.len() == 0,
            r@.simple_inputs == Set::<TypeId>::empty(),
            r@.targeted_inputs == Map::<TypeId, FilterDefinitionView>::empty(),
            inputs_follow_decisions(r@),
    {
        let r = DefineAI { decisions: Vec::new(), simple_inputs: Vec::new(), targeted_inputs: Vec::new() };
        assert(r@.simple_inputs =~= Set::<TypeId>::empty());
        assert(r@.targeted_inputs =~= Map::<TypeId, FilterDefinitionView>::empty());
        r
    }

    /// Adds a decision: its simple inputs join the AI's simple inputs, and
    /// each of its targeted inputs joins the targeted inputs with the
    /// decision's target filter, merged into the filter of an input that is
    /// already there.
    pub fn add_decision(self, decision: Decision) -> (r: DefineAI)
        ensures
            r@ == (DefineAIView {
                decisions: self@.decisions.push(decision),
                simple_inputs: with_simple_inputs(self@.simple_inputs, decision.considerations@),
                targeted_inputs: with_targeted_inputs(
                    self@.targeted_inputs,
                    decision.considerations@,
                    decision_filter(decision),
                ),
            }),
            inputs_follow_decisions(self@) ==> inputs_follow_decisions(r@),
    {
        let DefineAI { decisions, simple_inputs, targeted_inputs } = self;
        let mut decisions = decisions;
        let mut simple_inputs = simple_inputs;
        let mut targeted_inputs = targeted_inputs;
        let ghost cs = decision.considerations@;
        let ghost f = decision_filter(decision);
        let ghost s0 = simple_inputs@.to_set();
        let ghost m0 = requirements_map(targeted_inputs@);
        let mut i: usize = 0;
        while i < decision.considerations.len()
            invariant
                i <= cs.len(),
                cs == decision.considerations@,
                f == decision_filter(decision),
                simple_inputs@.to_set() == with_simple_inputs(s0, cs.take(i as int)),
                requirements_map(targeted_inputs@) == with_targeted_inputs(m0, cs.take(i as int), f),
            decreases cs.len() - i,
        {
            let c = &decision.considerations[i];
            let ghost before_s = simple_inputs@.to_set();
            proof {
                assert(cs.take(i + 1).drop_last() =~= cs.take(i as int));
                assert(cs.take(i + 1).last() == cs[i as int]);
            }
            match c.consideration_type {
                ConsiderationType::Simple => {
                    if !contains_type_id(&simple_inputs, &c.input) {
                        proof {
                            simple_inputs@.lemma_push_to_set_commute(c.input);
                        }
                        simple_inputs.push(c.input);
                    }
                    proof {
                        assert(simple_inputs@.to_set() =~= before_s.insert(c.input));
                    }
                },
                ConsiderationType::Targeted => {
                    let filter_definition = target_filter_definition(&decision);
                    match find_entry(&targeted_inputs, &c.input) {
                        Some(idx) => {
                            let merged_filter = targeted_inputs[idx].1.target_filter.merged_with(
                                &filter_definition,
                            );
                            let ghost t = targeted_inputs@;
                            let entry = (c.input, TargetedInputRequirements { target_filter: merged_filter });
                            proof {
                                lemma_replace_entry(t, idx as int, entry);
                            }
                            targeted_inputs.set(idx, entry);
                        },
                        None => {
                            let ghost t = targeted_inputs@;
                            let entry = (c.input, TargetedInputRequirements { target_filter: filter_definition });
                            proof {
                                lemma_push_entry(t, entry);
                            }
                            targeted_inputs.push(entry);
                        },
                    }
                    proof {
                        assert(simple_inputs@.to_set() =~= before_s);
                    }
                },
            }
            proof {
                let s_new = with_simple_inputs(s0, cs.take(i + 1));
                let s_old = with_simple_inputs(s0, cs.take(i as int));
                assert forall|input: TypeId| s_new.contains(input) == (s_old.contains(input) || (
                cs[i as int].consideration_type == ConsiderationType::Simple && cs[i as int].input
                    == input)) by {
                    let a = cs.take(i + 1);
                    let b = cs.take(i as int);
                    if exists|j: int| #[trigger] considers(a, j, ConsiderationType::Simple, input) {
                        let w = choose|j: int| #[trigger] considers(a, j, ConsiderationType::Simple, input);
                        if w < i {
                            assert(considers(b, w, ConsiderationType::Simple, input));
                        }
                    }
                    if exists|j: int| #[trigger] considers(b, j, ConsiderationType::Simple, input) {
                        let w = choose|j: int| #[trigger] considers(b, j, ConsiderationType::Simple, input);
                        assert(considers(a, w, ConsiderationType::Simple, input));
                    }
                    if cs[i as int].consideration_type == ConsiderationType::Simple && cs[i as int].input == input {
                        assert(considers(a, i as int, ConsiderationType::Simple, input));
                    }
                }
                assert(simple_inputs@.to_set() =~= s_new);
            }
            i = i + 1;
        }
        proof {
            assert(cs.take(cs.len() as int) =~= cs);
        }
        let ghost old_decisions = decisions@;
        decisions.push(decision);
        let r = DefineAI { decisions, simple_inputs, targeted_inputs };
        proof {
            let v = DefineAIView { decisions: old_decisions, simple_inputs: s0, targeted_inputs: m0 };
            if inputs_follow_decisions(v) {
                lemma_add_decision_keeps_law(v, decision);
            }
        }
        r
    }

    /// The decisions declared so far.
    pub fn decisions(&self) -> (r: &Vec<Decision>)
        ensures
            r@ == self@.decisions,
    {
        &self.decisions
    }

    /// The definition to register: the decisions and the inputs they need.
    pub fn into_definition(self) -> (r: AIDefinition)
        ensures
            r.decisions@ == self@.decisions,
            r.simple_input_set() == self@.simple_inputs,
            r.targeted_requirements() == self@.targeted_inputs,
    {
        AIDefinition {
            decisions: self.decisions,
            simple_inputs: self.simple_inputs,
            targeted_inputs: self.targeted_inputs,
        }
    }
}

impl Default for DefineAI {
    fn default() -> (r: DefineAI)
        ensures
            r@.decisions.len() == 0,
            r@.simple_inputs == Set::<TypeId>::empty(),
            r@.targeted_inputs == Map::<TypeId, FilterDefinitionView>::empty(),
            inputs_follow_decisions(r@),
    {
        DefineAI::new()
    }
}

/// Where the inputs of an AI follow its decisions, a targeted input is
/// calculated for a target exactly where some decision that considers the
/// input has target filters that the target satisfies, all of them.
pub proof fn lemma_targeted_input_needs_all_filters(v: DefineAIView, input: TypeId, present: Set<TypeId>)
    requires
        inputs_follow_decisions(v),
        v.targeted_inputs.contains_key(input),
    ensures
        admits(v.targeted_inputs[input], present) == exists|k: int|
            decision_considers(v.decisions, k, ConsiderationType::Targeted, input) && #[trigger] filter_set_holds(
                v.decisions[k].target_filters@,
                present,
            ),
{
    let lhs = admits(v.targeted_inputs[input], present);
    assert(lhs == exists|k: int|
        decision_considers(v.decisions, k, ConsiderationType::Targeted, input) && #[trigger] admits(
            decision_filter(v.decisions[k]),
            present,
        ));
    if lhs {
        let k = choose|k: int|
            decision_considers(v.decisions, k, ConsiderationType::Targeted, input) && #[trigger] admits(
                decision_filter(v.decisions[k]),
                present,
            );
        lemma_decision_filter_admits(v.decisions[k], present);
        assert(filter_set_holds(v.decisions[k].target_filters@, present));
    }
    if exists|k: int|
        decision_considers(v.decisions, k, ConsiderationType::Targeted, input) && #[trigger] filter_set_holds(
            v.decisions[k].target_filters@,
            present,
        ) {
        let k = choose|k: int|
            decision_considers(v.decisions, k, ConsiderationType::Targeted, input) && #[trigger] filter_set_holds(
                v.decisions[k].target_filters@,
                present,
            );
        lemma_decision_filter_admits(v.decisions[k], present);
        assert(admits(decision_filter(v.decisions[k]), present));
    }
}

/// Adding a decision keeps the inputs of an AI in step with its decisions.
pub proof fn lemma_add_decision_keeps_law(v: DefineAIView, decision: Decision)
    requires
        inputs_follow_decisions(v),
    ensures
        inputs_follow_decisions(
            DefineAIView {
                decisions: v.decisions.push(decision),
                simple_inputs: with_simple_inputs(v.simple_inputs, decision.considerations@),
                targeted_inputs: with_targeted_inputs(
                    v.targeted_inputs,
                    decision.considerations@,
                    decision_filter(decision),
                ),
            },
        ),
{
    let ds = v.decisions.push(decision);
    let n = v.decisions.len() as int;
    let cs = decision.considerations@;
    let f = decision_filter(decision);
    let w = DefineAIView {
        decisions: ds,
        simple_inputs: with_simple_inputs(v.simple_inputs, cs),
        targeted_inputs: with_targeted_inputs(v.targeted_inputs, cs, f),
    };
    assert forall|k: int, ty: ConsiderationType, input: TypeId|
        #[trigger] decision_considers(ds, k, ty, input) == (decision_considers(v.decisions, k, ty, input)
            || (k == n && exists|i: int| #[trigger] considers(cs, i, ty, input))) by {
        if 0 <= k < n {
            assert(ds[k] == v.decisions[k]);
        }
        if k == n {
            assert(ds[k] == decision);
        }
    }
    assert forall|input: TypeId| #[trigger] w.simple_inputs.contains(input) == exists|k: int|
        decision_considers(ds, k, ConsiderationType::Simple, input) by {
        if w.simple_inputs.contains(input) {
            if v.simple_inputs.contains(input) {
                let k = choose|k: int| decision_considers(v.decisions, k, ConsiderationType::Simple, input);
                assert(decision_considers(ds, k, ConsiderationType::Simple, input));
            } else {
                assert(decision_considers(ds, n, ConsiderationType::Simple, input));
            }
        }
        if exists|k: int| decision_considers(ds, k, ConsiderationType::Simple, input) {
            let k = choose|k: int| decision_considers(ds, k, ConsiderationType::Simple, input);
            if k < n {
                assert(decision_considers(v.decisions, k, ConsiderationType::Simple, input));
            }
        }
    }
    assert forall|input: TypeId, present: Set<TypeId>|
        #[trigger] w.targeted_inputs.contains_key(input) implies (#[trigger] admits(
            w.targeted_inputs[input],
            present,
        ) == exists|k: int|
            decision_considers(ds, k, ConsiderationType::Targeted, input) && #[trigger] admits(
                decision_filter(ds[k]),
                present,
            )) by {
        lemma_with_targeted_inputs(v.targeted_inputs, cs, f, input, present);
        let rhs = exists|k: int|
            decision_considers(ds, k, ConsiderationType::Targeted, input) && #[trigger] admits(
                decision_filter(ds[k]),
                present,
            );
        if admits(w.targeted_inputs[input], present) {
            if v.targeted_inputs.contains_key(input) && admits(v.targeted_inputs[input], present) {
                let k = choose|k: int|
                    decision_considers(v.decisions, k, ConsiderationType::Targeted, input) && #[trigger] admits(
                        decision_filter(v.decisions[k]),
                        present,
                    );
                assert(decision_considers(ds, k, ConsiderationType::Targeted, input));
                assert(ds[k] == v.decisions[k]);
            } else {
                assert(decision_considers(ds, n, ConsiderationType::Targeted, input));
                assert(ds[n] == decision);
            }
        }
        if rhs {
            let k = choose|k: int|
                decision_considers(ds, k, ConsiderationType::Targeted, input) && #[trigger] admits(
                    decision_filter(ds[k]),
                    present,
                );
            if k < n {
                assert(decision_considers(v.decisions, k, ConsiderationType::Targeted, input));
                assert(ds[k] == v.decisions[k]);
                assert(v.targeted_inputs.contains_key(input));
            } else {
                assert(ds[k] == decision);
            }
        }
    }
    assert forall|input: TypeId| #[trigger] w.targeted_inputs.contains_key(input) == exists|k: int|
        decision_considers(ds, k, ConsiderationType::Targeted, input) by {
        lemma_with_targeted_inputs(v.targeted_inputs, cs, f, input, Set::empty());
        if w.targeted_inputs.contains_key(input) {
            if v.targeted_inputs.contains_key(input) {
                let k = choose|k: int| decision_considers(v.decisions, k, ConsiderationType::Targeted, input);
                assert(decision_considers(ds, k, ConsiderationType::Targeted, input));
            } else {
                assert(decision_considers(ds, n, ConsiderationType::Targeted, input));
            }
        }
        if exists|k: int| decision_considers(ds, k, ConsiderationType::Targeted, input) {
            let k = choose|k: int| decision_considers(ds, k, ConsiderationType::Targeted, input);
            if k < n {
                assert(decision_considers(v.decisions, k, ConsiderationType::Targeted, input));
            }
        }
    }
}

/// Among the considerations `cs`, the positions of the first consideration
/// of each input that is not in `seen`, in order.
pub open spec fn new_systems(seen: Set<TypeId>, cs: Seq<Consideration>) -> Seq<usize>
    decreases cs.len(),
{
    if cs.len() == 0 {
        Seq::empty()
    } else {
        let p = cs.drop_last();
        let input = cs.last().input;
        if seen.contains(input) || exists|j: int| 0 <= j < p.len() && #[trigger] p[j].input == input {
            new_systems(seen, p)
        } else {
            new_systems(seen, p).push((cs.len() - 1) as usize)
        }
    }
}

/// The inputs of the considerations `cs`.
pub open spec fn inputs_of(cs: Seq<Consideration>) -> Set<TypeId> {
    Set::new(|input: TypeId| exists|j: int| 0 <= j < cs.len() && #[trigger] cs[j].input == input)
}

/// Each input system is added once: the positions chosen are in order,
/// their inputs are new and distinct, and every input of `cs` is either
/// among those seen before or the input of a chosen position.
pub proof fn lemma_new_systems_once(seen: Set<TypeId>, cs: Seq<Consideration>)
    requires
        cs.len() <= usize::MAX,
    ensures
        ({
            let r = new_systems(seen, cs);
            &&& forall|a: int| 0 <= a < r.len() ==> #[trigger] r[a] < cs.len()
            &&& forall|a: int, b: int| 0 <= a < b < r.len() ==> #[trigger] r[a] < #[trigger] r[b]
            &&& forall|a: int| 0 <= a < r.len() ==> !seen.contains(#[trigger] cs[r[a] as int].input)
            &&& forall|a: int, b: int|
                0 <= a < b < r.len() ==> #[trigger] cs[r[a] as int].input != #[trigger] cs[r[b] as int].input
            &&& forall|j: int|
                0 <= j < cs.len() ==> seen.contains(#[trigger] cs[j].input) || exists|a: int|
                    0 <= a < r.len() && cs[#[trigger] r[a] as int].input == cs[j].input
        }),
    decreases cs.len(),
{
    if cs.len() > 0 {
        let p = cs.drop_last();
        lemma_new_systems_once(seen, p);
        let rp = new_systems(seen, p);
        let r = new_systems(seen, cs);
        let n = cs.len() - 1;
        assert forall|j: int| 0 <= j < p.len() implies p[j] == cs[j] by {}
        let input = cs.last().input;
        if seen.contains(input) || exists|j: int| 0 <= j < p.len() && #[trigger] p[j].input == input {
            assert(r == rp);
            assert forall|j: int| 0 <= j < cs.len() implies seen.contains(#[trigger] cs[j].input) || exists|a: int|
                0 <= a < r.len() && cs[#[trigger] r[a] as int].input == cs[j].input by {
                if j == n && !seen.contains(input) {
                    let w = choose|w: int| 0 <= w < p.len() && #[trigger] p[w].input == input;
                    assert(p[w] == cs[w]);
                    if !seen.contains(cs[w].input) {
                        let a = choose|a: int| 0 <= a < rp.len() && p[#[trigger] rp[a] as int].input == p[w].input;
                        assert(p[rp[a] as int] == cs[rp[a] as int]);
                    }
                } else if j < n {
                    assert(p[j] == cs[j]);
                    if !seen.contains(cs[j].input) {
                        let a = choose|a: int| 0 <= a < rp.len() && p[#[trigger] rp[a] as int].input == p[j].input;
                        assert(p[rp[a] as int] == cs[rp[a] as int]);
                    }
                }
            }
        } else {
            assert(r == rp.push(n as usize));
            assert forall|a: int| 0 <= a < rp.len() implies cs[#[trigger] rp[a] as int] == p[rp[a] as int] by {}
            assert forall|a: int| 0 <= a < r.len() implies !seen.contains(#[trigger] cs[r[a] as int].input) by {
                if a < rp.len() {
                    assert(r[a] == rp[a]);
                    assert(rp[a] < p.len());
                    assert(cs[rp[a] as int] == p[rp[a] as int]);
                    assert(!seen.contains(p[rp[a] as int].input));
                } else {
                    assert(r[a] == n);
                }
            }
            assert forall|a: int, b: int| 0 <= a < b < r.len() implies #[trigger] cs[r[a] as int].input
                != #[trigger] cs[r[b] as int].input by {
                assert(r[a] == rp[a]);
                assert(rp[a] < p.len());
                assert(cs[rp[a] as int] == p[rp[a] as int]);
                if b < rp.len() {
                    assert(r[b] == rp[b]);
                    assert(rp[b] < p.len());
                    assert(cs[rp[b] as int] == p[rp[b] as int]);
                    assert(p[rp[a] as int].input != p[rp[b] as int].input);
                } else {
                    assert(r[b] == n);
                    let ja = rp[a] as int;
                    assert(!(0 <= ja < p.len() && p[ja].input == input));
                    assert(p[rp[a] as int].input != input);
                }
            }
            assert forall|a: int, b: int| 0 <= a < b < r.len() implies #[trigger] r[a] < #[trigger] r[b] by {
                assert(r[a] == rp[a]);
                if b < rp.len() {
                    assert(r[b] == rp[b]);
                }
            }
            assert forall|j: int| 0 <= j < cs.len() implies seen.contains(#[trigger] cs[j].input) || exists|a: int|
                0 <= a < r.len() && cs[#[trigger] r[a] as int].input == cs[j].input by {
                if j == n {
                    assert(r[rp.len() as int] == n);
                } else if !seen.contains(cs[j].input) {
                    assert(p[j] == cs[j]);
                    let a = choose|a: int| 0 <= a < rp.len() && p[#[trigger] rp[a] as int].input == p[j].input;
                    assert(r[a] == rp[a]);
                }
            }
        }
    }
}

/// The inputs whose systems have been added to the app already, across
/// all AIs: each input system is added once.
pub struct AddedSystemTracker {
    systems: Vec<TypeId>,
}

impl View for AddedSystemTracker {
    type V = Set<TypeId>;

    closed spec fn view(&self) -> Set<TypeId> {
        self.systems@.to_set()
    }
}

impl AddedSystemTracker {
    /// No system added yet.
    pub fn new() -> (r: AddedSystemTracker)
        ensures
            r@ == Set::<TypeId>::empty(),
    {
        let r = AddedSystemTracker { systems: Vec::new() };
        assert(r@ =~= Set::<TypeId>::empty());
        r
    }

    /// Whether the system of `input` has been added.
    pub fn contains(&self, input: &TypeId) -> (r: bool)
        ensures
            r == self@.contains(*input),
    {
        contains_type_id(&self.systems, input)
    }

    /// Chooses which input systems of a decision's considerations to add:
    /// the first consideration of each input not added yet. Their inputs
    /// are recorded as added.
    pub fn select_new_systems(&mut self, considerations: &Vec<Consideration>) -> (r: Vec<usize>)
        ensures
            r@ == new_systems(old(self)@, considerations@),
            final(self)@ == old(self)@.union(inputs_of(considerations@)),
    {
        let ghost seen = self@;
        let ghost cs = considerations@;
        let mut r: Vec<usize> = Vec::new();
        let mut i: usize = 0;
        while i < considerations.len()
            invariant
                i <= cs.len(),
                cs == considerations@,
                r@ == new_systems(seen, cs.take(i as int)),
                self@ == seen.union(inputs_of(cs.take(i as int))),
            decreases cs.len() - i,
        {
            let input = considerations[i].input;
            let ghost p = cs.take(i as int);
            proof {
                assert(cs.take(i + 1).drop_last() =~= p);
                assert(cs.take(i + 1).last() == cs[i as int]);
                assert(seen.union(inputs_of(p)).contains(input) == (seen.contains(input) || exists|j: int|
                    0 <= j < p.len() && #[trigger] p[j].input == input));
            }
            if !self.contains(&input) {
                proof {
                    self.systems@.lemma_push_to_set_commute(input);
                }
                self.systems.push(input);
                r.push(i);
            }
            proof {
                assert forall|t: TypeId| #[trigger] inputs_of(cs.take(i + 1)).contains(t) == (inputs_of(p).contains(t) || t == input) by {
                    let q = cs.take(i + 1);
                    if inputs_of(q).contains(t) {
                        let w = choose|w: int| 0 <= w < q.len() && #[trigger] q[w].input == t;
                        if w < i {
                            assert(p[w] == q[w]);
                        }
                    }
                    if inputs_of(p).contains(t) {
                        let w = choose|w: int| 0 <= w < p.len() && #[trigger] p[w].input == t;
                        assert(p[w] == q[w]);
                    }
                    if t == input {
                        assert(q[i as int].input == t);
                    }
                }
                assert(self@ =~= seen.union(inputs_of(cs.take(i + 1))));
            }
            i = i + 1;
        }
        assert(cs.take(cs.len() as int) =~= cs);
        r
    }
}

} // verus!
