//! Choosing the best scoring decision and switching an entity's action to it.
use crate::ai_meta::{AIMeta, AIMetaView};
use crate::decisions::Decision;
use crate::filter_definition::filter_set_holds;
use crate::ids::type_ids_equal;
use std::any::TypeId;
use vstd::prelude::*;

verus! {

/// One scored way to act: a decision of the AI, the target it is scored
/// against where it is targeted, and the bit pattern of its `f32` score.
#[derive(Copy, Clone, Debug)]
pub struct Candidate {
    pub decision_index: usize,
    pub target: Option<u64>,
    pub score_bits: u32,
}

/// The rank of an `f32` score given by its bits, in the total order of
/// `f32::total_cmp`: non-negative values rank by their bits, negative values
/// below them and in reverse order of their bits.
pub open spec fn score_rank(bits: u32) -> int {
    if bits < 0x8000_0000u32 {
        bits as int
    } else {
        0x7FFF_FFFFint - bits as int
    }
}

/// The rank of a score, computed as `f32::total_cmp` does: the bits read as
/// an `i32`, with the low 31 bits flipped where the sign bit is set.
pub fn score_rank_of(bits: u32) -> (r: i32)
    ensures
        r as int == score_rank(bits),
{
    let left: i32 = bits as i32;
    let flip: i32 = (((left >> 31u32) as u32) >> 1u32) as i32;
    let r: i32 = left ^ flip;
    assert(r as int == (if bits < 0x8000_0000u32 { bits as int } else { 0x7FFF_FFFFint - bits as int }))
        by (bit_vector)
        requires
            left == bits as i32,
            flip == (((left >> 31u32) as u32) >> 1u32) as i32,
            r == left ^ flip,
    ;
    r
}

/// The scores of one decision for one subject: its base score times the
/// scores of its simple considerations, and for a targeted decision the
/// score against each target (an entity, as its bits). Scores are the bit patterns of their
/// `f32` values.
pub struct DecisionScores {
    pub simple_score_bits: u32,
    pub targeted: Vec<(u64, u32)>,
}

/// The candidates decision `index` gives: none where the subject fails its
/// subject filters; else one without target for an untargeted decision,
/// and one per scored target, in order, for a targeted one.
pub open spec fn decision_candidates(
    d: Decision,
    index: usize,
    present: Set<TypeId>,
    scores: DecisionScores,
) -> Seq<Candidate> {
    if !filter_set_holds(d.subject_filters@, present) {
        Seq::empty()
    } else if !d.is_targeted {
        seq![Candidate { decision_index: index, target: None, score_bits: scores.simple_score_bits }]
    } else {
        scores.targeted@.map_values(
            |t: (u64, u32)| Candidate { decision_index: index, target: Some(t.0), score_bits: t.1 },
        )
    }
}

/// The candidates of the first `k` decisions, in order.
pub open spec fn collected_candidates(
    ds: Seq<Decision>,
    present: Set<TypeId>,
    scores: Seq<DecisionScores>,
    k: int,
) -> Seq<Candidate>
    decreases k,
{
    if k <= 0 {
        Seq::empty()
    } else {
        collected_candidates(ds, present, scores, k - 1) + decision_candidates(
            ds[k - 1],
            (k - 1) as usize,
            present,
            scores[k - 1],
        )
    }
}

/// Every candidate of the first `k` decisions comes from one of them whose
/// subject filters the subject satisfies; it has a target exactly where its
/// decision is targeted. Every such untargeted decision gives its simple
/// score, and every such targeted decision gives one candidate per scored
/// target, with that target's score.
pub proof fn lemma_candidates_follow_decisions(
    ds: Seq<Decision>,
    present: Set<TypeId>,
    scores: Seq<DecisionScores>,
    k: int,
)
    requires
        0 <= k <= ds.len(),
        k <= scores.len(),
        ds.len() <= usize::MAX,
    ensures
        ({
            let cs = collected_candidates(ds, present, scores, k);
            &&& forall|i: int| 0 <= i < cs.len() ==> {
                let c = #[trigger] cs[i];
                &&& c.decision_index < k
                &&& filter_set_holds(ds[c.decision_index as int].subject_filters@, present)
                &&& (c.target is Some <==> ds[c.decision_index as int].is_targeted)
            }
            &&& forall|j: int|
                0 <= j < k && !(#[trigger] ds[j]).is_targeted && filter_set_holds(ds[j].subject_filters@, present)
                    ==> exists|i: int|
                    0 <= i < cs.len() && cs[i] == (Candidate {
                        decision_index: j as usize,
                        target: None,
                        score_bits: scores[j].simple_score_bits,
                    })
            &&& forall|j: int, t: int|
                #![trigger ds[j], scores[j].targeted@[t]]
                0 <= j < k && ds[j].is_targeted && filter_set_holds(ds[j].subject_filters@, present)
                    && 0 <= t < scores[j].targeted@.len() ==> exists|i: int|
                    0 <= i < cs.len() && cs[i] == (Candidate {
                        decision_index: j as usize,
                        target: Some(scores[j].targeted@[t].0),
                        score_bits: scores[j].targeted@[t].1,
                    })
        }),
    decreases k,
{
    if k > 0 {
        lemma_candidates_follow_decisions(ds, present, scores, k - 1);
        let prev = collected_candidates(ds, present, scores, k - 1);
        let d = ds[k - 1];
        let idx = (k - 1) as usize;
        let mine = decision_candidates(d, idx, present, scores[k - 1]);
        let cs = collected_candidates(ds, present, scores, k);
        assert(cs == prev + mine);
        assert(idx as int == k - 1);
        assert forall|i: int| 0 <= i < mine.len() implies {
            let c = #[trigger] mine[i];
            &&& c.decision_index == idx
            &&& filter_set_holds(d.subject_filters@, present)
            &&& (c.target is Some <==> d.is_targeted)
        } by {}
        assert forall|i: int| 0 <= i < cs.len() implies {
            let c = #[trigger] cs[i];
            &&& c.decision_index < k
            &&& filter_set_holds(ds[c.decision_index as int].subject_filters@, present)
            &&& (c.target is Some <==> ds[c.decision_index as int].is_targeted)
        } by {
            if i < prev.len() {
                assert(cs[i] == prev[i]);
            } else {
                assert(cs[i] == mine[i - prev.len()]);
            }
        }
        assert forall|j: int|
            0 <= j < k && !(#[trigger] ds[j]).is_targeted && filter_set_holds(ds[j].subject_filters@, present)
                implies exists|i: int|
                0 <= i < cs.len() && cs[i] == (Candidate {
                    decision_index: j as usize,
                    target: None,
                    score_bits: scores[j].simple_score_bits,
                }) by {
            if j < k - 1 {
                let i = choose|i: int|
                    0 <= i < prev.len() && prev[i] == (Candidate {
                        decision_index: j as usize,
                        target: None,
                        score_bits: scores[j].simple_score_bits,
                    });
                assert(cs[i] == prev[i]);
            } else {
                assert(cs[prev.len() as int] == mine[0]);
            }
        }
        assert forall|j: int, t: int|
            #![trigger ds[j], scores[j].targeted@[t]]
            0 <= j < k && ds[j].is_targeted && filter_set_holds(ds[j].subject_filters@, present)
                && 0 <= t < scores[j].targeted@.len() implies exists|i: int|
                0 <= i < cs.len() && cs[i] == (Candidate {
                    decision_index: j as usize,
                    target: Some(scores[j].targeted@[t].0),
                    score_bits: scores[j].targeted@[t].1,
                }) by {
            if j < k - 1 {
                let i = choose|i: int|
                    0 <= i < prev.len() && prev[i] == (Candidate {
                        decision_index: j as usize,
                        target: Some(scores[j].targeted@[t].0),
                        score_bits: scores[j].targeted@[t].1,
                    });
                assert(cs[i] == prev[i]);
            } else {
                assert(cs[prev.len() + t] == mine[t]);
            }
        }
    }
}

/// Lists the candidates of a subject whose components have the types in
/// `subject_components`, decision by decision, as [`collected_candidates`]
/// says; each names the decision it comes from.
pub fn collect_candidates(
    decisions: &Vec<Decision>,
    subject_components: &Vec<TypeId>,
    scores: &Vec<DecisionScores>,
) -> (r: Vec<Candidate>)
    requires
        scores@.len() == decisions@.len(),
    ensures
        r@ == collected_candidates(decisions@, subject_components@.to_set(), scores@, decisions@.len() as int),
        candidates_name_decisions(decisions@, r@),
        forall|i: int| 0 <= i < r@.len() ==> {
            let c = #[trigger] r@[i];
            &&& filter_set_holds(decisions@[c.decision_index as int].subject_filters@, subject_components@.to_set())
            &&& (c.target is Some <==> decisions@[c.decision_index as int].is_targeted)
        },
{
    let n = decisions.len();
    proof {
        lemma_candidates_follow_decisions(decisions@, subject_components@.to_set(), scores@, n as int);
    }
    let ghost present = subject_components@.to_set();
    let mut r: Vec<Candidate> = Vec::new();
    let mut idx: usize = 0;
    while idx < decisions.len()
        invariant
            idx <= decisions@.len(),
            scores@.len() == decisions@.len(),
            present == subject_components@.to_set(),
            r@ == collected_candidates(decisions@, present, scores@, idx as int),
            candidates_name_decisions(decisions@, r@),
        decreases decisions.len() - idx,
    {
        let decision = &decisions[idx];
        let ghost before = r@;
        if decision.matches_subject(subject_components) {
            if !decision.is_targeted {
                r.push(Candidate { decision_index: idx, target: None, score_bits: scores[idx].simple_score_bits });
                proof {
                    assert(r@ =~= before + decision_candidates(*decision, idx, present, scores@[idx as int]));
                }
            } else {
                let targeted = &scores[idx].targeted;
                let mut j: usize = 0;
                while j < targeted.len()
                    invariant
                        j <= targeted@.len(),
                        idx < decisions@.len(),
                        r@ == before + targeted@.take(j as int).map_values(
                            |t: (u64, u32)| Candidate { decision_index: idx, target: Some(t.0), score_bits: t.1 },
                        ),
                        candidates_name_decisions(decisions@, r@),
                    decreases targeted.len() - j,
                {
                    let (t, b) = targeted[j];
                    r.push(Candidate { decision_index: idx, target: Some(t), score_bits: b });
                    proof {
                        assert(targeted@.take(j + 1) =~= targeted@.take(j as int).push(targeted@[j as int]));
                        assert(r@ =~= before + targeted@.take(j + 1).map_values(
                            |t: (u64, u32)| Candidate { decision_index: idx, target: Some(t.0), score_bits: t.1 },
                        ));
                    }
                    j = j + 1;
                }
                proof {
                    assert(targeted@.take(targeted@.len() as int) =~= targeted@);
                }
            }
        } else {
            proof {
                assert(r@ =~= before + decision_candidates(*decision, idx, present, scores@[idx as int]));
            }
        }
        idx = idx + 1;
    }
    r
}

/// `i` is the first of the candidates with the highest score.
pub open spec fn is_best(s: Seq<Candidate>, i: int) -> bool {
    &&& 0 <= i < s.len()
    &&& forall|j: int|
        0 <= j < s.len() ==> score_rank(#[trigger] s[j].score_bits) <= score_rank(s[i].score_bits)
    &&& forall|j: int| 0 <= j < i ==> score_rank(#[trigger] s[j].score_bits) < score_rank(s[i].score_bits)
}

/// The first of the candidates with the highest score.
pub open spec fn best_index(s: Seq<Candidate>) -> int {
    choose|i: int| is_best(s, i)
}

/// Of a non-empty sequence of candidates exactly one is the best, and
/// `best_index` names it.
pub proof fn lemma_best_exists_unique(s: Seq<Candidate>)
    requires
        s.len() > 0,
    ensures
        is_best(s, best_index(s)),
        forall|i: int| #[trigger] is_best(s, i) ==> i == best_index(s),
    decreases s.len(),
{
    let n = s.len() as int;
    if n == 1 {
        assert(is_best(s, 0));
    } else {
        let p = s.drop_last();
        lemma_best_exists_unique(p);
        let b = best_index(p);
        assert(forall|j: int| 0 <= j < p.len() ==> p[j] == s[j]);
        if score_rank(s[n - 1].score_bits) > score_rank(s[b].score_bits) {
            assert forall|j: int| 0 <= j < n implies score_rank(#[trigger] s[j].score_bits)
                <= score_rank(s[n - 1].score_bits) by {
                if j < n - 1 {
                    assert(score_rank(p[j].score_bits) <= score_rank(p[b].score_bits));
                }
            }
            assert forall|j: int| 0 <= j < n - 1 implies score_rank(#[trigger] s[j].score_bits)
                < score_rank(s[n - 1].score_bits) by {
                assert(score_rank(p[j].score_bits) <= score_rank(p[b].score_bits));
            }
            assert(is_best(s, n - 1));
        } else {
            assert forall|j: int| 0 <= j < n implies score_rank(#[trigger] s[j].score_bits)
                <= score_rank(s[b].score_bits) by {
                if j < n - 1 {
                    assert(score_rank(p[j].score_bits) <= score_rank(p[b].score_bits));
                }
            }
            assert forall|j: int| 0 <= j < b implies score_rank(#[trigger] s[j].score_bits)
                < score_rank(s[b].score_bits) by {
                assert(score_rank(p[j].score_bits) < score_rank(p[b].score_bits));
            }
            assert(is_best(s, b));
        }
        assert forall|i: int| #[trigger] is_best(s, i) implies i == best_index(s) by {
            let c = best_index(s);
            assert(is_best(s, c));
            if i < c {
                assert(score_rank(s[i].score_bits) < score_rank(s[c].score_bits));
                assert(score_rank(s[c].score_bits) <= score_rank(s[i].score_bits));
            } else if c < i {
                assert(score_rank(s[c].score_bits) < score_rank(s[i].score_bits));
                assert(score_rank(s[i].score_bits) <= score_rank(s[c].score_bits));
            }
        }
    }
}

/// The index of the first candidate with the highest score, in the order of
/// `f32::total_cmp`; `None` where there is no candidate.
pub fn select_best(candidates: &Vec<Candidate>) -> (r: Option<usize>)
    ensures
        match r {
            None => candidates@.len() == 0,
            Some(i) => is_best(candidates@, i as int) && i as int == best_index(candidates@),
        },
{
    if candidates.len() == 0 {
        return None;
    }
    let mut best: usize = 0;
    let mut best_rank: i32 = score_rank_of(candidates[0].score_bits);
    let mut i: usize = 1;
    while i < candidates.len()
        invariant
            1 <= i <= candidates@.len(),
            best < i,
            best_rank as int == score_rank(candidates@[best as int].score_bits),
            forall|j: int|
                0 <= j < i ==> score_rank(#[trigger] candidates@[j].score_bits) <= best_rank,
            forall|j: int|
                0 <= j < best ==> score_rank(#[trigger] candidates@[j].score_bits) < best_rank,
        decreases candidates.len() - i,
    {
        let rank = score_rank_of(candidates[i].score_bits);
        if rank > best_rank {
            best = i;
            best_rank = rank;
        }
        i = i + 1;
    }
    proof {
        lemma_best_exists_unique(candidates@);
        assert(is_best(candidates@, best as int));
    }
    Some(best)
}

/// Tells the action updater to change an entity's action and target.
#[derive(Copy, Clone, Debug)]
pub struct UpdateEntityAction {
    pub entity_id: u64,
    pub old_action: Option<TypeId>,
    pub new_action: TypeId,
    pub old_target: Option<u64>,
    pub new_target: Option<u64>,
}

/// Tells the users of the library that an entity changed its action or its
/// target. Scores are the bit patterns of their `f32` values.
pub struct EntityActionChangeEvent {
    pub entity_id: u64,
    pub prev_action: String,
    pub new_action: String,
    pub prev_target: Option<u64>,
    pub new_target: Option<u64>,
    pub prev_score_bits: u32,
    pub new_score_bits: u32,
}

/// The mathematical value of an [`EntityActionChangeEvent`].
pub struct EntityActionChangeEventView {
    pub entity_id: u64,
    pub prev_action: Seq<char>,
    pub new_action: Seq<char>,
    pub prev_target: Option<u64>,
    pub new_target: Option<u64>,
    pub prev_score_bits: u32,
    pub new_score_bits: u32,
}

impl View for EntityActionChangeEvent {
    type V = EntityActionChangeEventView;

    open spec fn view(&self) -> EntityActionChangeEventView {
        EntityActionChangeEventView {
            entity_id: self.entity_id,
            prev_action: self.prev_action@,
            new_action: self.new_action@,
            prev_target: self.prev_target,
            new_target: self.new_target,
            prev_score_bits: self.prev_score_bits,
            new_score_bits: self.new_score_bits,
        }
    }
}

/// What a change of action sends: the instruction to the action updater
/// and the public event.
pub struct ActionChange {
    pub update: UpdateEntityAction,
    pub event: EntityActionChangeEvent,
}

/// The mathematical value of an [`ActionChange`].
pub struct ActionChangeView {
    pub update: UpdateEntityAction,
    pub event: EntityActionChangeEventView,
}

impl View for ActionChange {
    type V = ActionChangeView;

    open spec fn view(&self) -> ActionChangeView {
        ActionChangeView { update: self.update, event: self.event@ }
    }
}

/// The state of an entity after a decision on `candidates`, and the change
/// it sends, if any. Without candidates nothing changes. Where the best
/// candidate has the current action and the current target, only the score
/// is updated. Otherwise the entity switches to the best candidate's action,
/// target and score, and the change reports both the old and the new ones.
pub open spec fn decided(
    meta: AIMetaView,
    entity_id: u64,
    decisions: Seq<Decision>,
    candidates: Seq<Candidate>,
) -> (AIMetaView, Option<ActionChangeView>) {
    if candidates.len() == 0 {
        (meta, None)
    } else {
        let best = candidates[best_index(candidates)];
        let decision = decisions[best.decision_index as int];
        if meta.current_action == Some(decision.action) && meta.current_target == best.target {
            (AIMetaView { current_action_score_bits: best.score_bits, ..meta }, None)
        } else {
            (
                AIMetaView {
                    current_action: Some(decision.action),
                    current_action_name: decision.action_name@,
                    current_action_score_bits: best.score_bits,
                    current_target: best.target,
                    ..meta
                },
                Some(
                    ActionChangeView {
                        update: UpdateEntityAction {
                            entity_id,
                            old_action: meta.current_action,
                            new_action: decision.action,
                            old_target: meta.current_target,
                            new_target: best.target,
                        },
                        event: EntityActionChangeEventView {
                            entity_id,
                            prev_action: meta.current_action_name,
                            new_action: decision.action_name@,
                            prev_target: meta.current_target,
                            new_target: best.target,
                            prev_score_bits: meta.current_action_score_bits,
                            new_score_bits: best.score_bits,
                        },
                    },
                ),
            )
        }
    }
}

/// Every candidate names a decision of the AI.
pub open spec fn candidates_name_decisions(decisions: Seq<Decision>, candidates: Seq<Candidate>) -> bool {
    forall|i: int| 0 <= i < candidates.len() ==> #[trigger] candidates[i].decision_index < decisions.len()
}

/// Deciding again on the same candidates keeps what the first decision
/// chose: the state stays as it is and no change is sent.
pub proof fn lemma_decision_is_stable(
    meta: AIMetaView,
    entity_id: u64,
    decisions: Seq<Decision>,
    candidates: Seq<Candidate>,
)
    requires
        candidates_name_decisions(decisions, candidates),
    ensures
        decided(decided(meta, entity_id, decisions, candidates).0, entity_id, decisions, candidates)
            == (decided(meta, entity_id, decisions, candidates).0, None::<ActionChangeView>),
{
}

/// After a decision on a non-empty set of candidates, the entity's score is
/// that of a candidate, and no candidate has a higher score.
pub proof fn lemma_decision_takes_top_score(
    meta: AIMetaView,
    entity_id: u64,
    decisions: Seq<Decision>,
    candidates: Seq<Candidate>,
)
    requires
        candidates.len() > 0,
        candidates_name_decisions(decisions, candidates),
    ensures
        ({
            let after = decided(meta, entity_id, decisions, candidates).0;
            &&& exists|i: int|
                0 <= i < candidates.len() && #[trigger] candidates[i].score_bits
                    == after.current_action_score_bits
            &&& forall|j: int|
                0 <= j < candidates.len() ==> score_rank(#[trigger] candidates[j].score_bits)
                    <= score_rank(after.current_action_score_bits)
        }),
{
    lemma_best_exists_unique(candidates);
    let b = best_index(candidates);
    assert(candidates[b].score_bits == decided(meta, entity_id, decisions, candidates).0.current_action_score_bits);
}

/// A change is sent only where the action or the target changes, and the
/// state after it is what the change announces.
pub proof fn lemma_change_is_real(
    meta: AIMetaView,
    entity_id: u64,
    decisions: Seq<Decision>,
    candidates: Seq<Candidate>,
)
    requires
        candidates_name_decisions(decisions, candidates),
    ensures
        ({
            let (after, change) = decided(meta, entity_id, decisions, candidates);
            change matches Some(c) ==> {
                &&& (c.update.old_action != Some(c.update.new_action) || c.update.old_target
                    != c.update.new_target)
                &&& after.current_action == Some(c.update.new_action)
                &&& after.current_target == c.update.new_target
                &&& after.current_action_name == c.event.new_action
                &&& after.current_action_score_bits == c.event.new_score_bits
            }
        }),
{
}

/// Successive changes of one entity chain up: what the second change
/// reports as previous is what the first reported as new, whatever
/// decisions that kept the action lay between them (they update the score
/// only, and the second change reports that score).
pub proof fn lemma_changes_chain(
    meta: AIMetaView,
    entity_id: u64,
    decisions: Seq<Decision>,
    first: Seq<Candidate>,
    second: Seq<Candidate>,
)
    requires
        candidates_name_decisions(decisions, first),
        candidates_name_decisions(decisions, second),
    ensures
        ({
            let (mid, c1) = decided(meta, entity_id, decisions, first);
            let (_, c2) = decided(mid, entity_id, decisions, second);
            (c1 is Some && c2 is Some) ==> {
                let a = c1.unwrap();
                let b = c2.unwrap();
                &&& b.event.prev_action == a.event.new_action
                &&& b.event.prev_target == a.event.new_target
                &&& b.event.prev_score_bits == a.event.new_score_bits
                &&& b.update.old_action == Some(a.update.new_action)
                &&& b.update.old_target == a.update.new_target
            }
        }),
{
}

/// After a decision on a non-empty set of candidates, the entity does what
/// the first candidate with the highest score says: its action is that
/// candidate's decision's action, its target that candidate's target and
/// its score that candidate's score, whether or not a change is sent; a
/// change is sent exactly where the action or the target was another.
pub proof fn lemma_decision_follows_best(
    meta: AIMetaView,
    entity_id: u64,
    decisions: Seq<Decision>,
    candidates: Seq<Candidate>,
)
    requires
        candidates.len() > 0,
        candidates_name_decisions(decisions, candidates),
    ensures
        ({
            let (after, change) = decided(meta, entity_id, decisions, candidates);
            let b = best_index(candidates);
            let best = candidates[b];
            let action = decisions[best.decision_index as int].action;
            &&& is_best(candidates, b)
            &&& after.current_action == Some(action)
            &&& after.current_target == best.target
            &&& after.current_action_score_bits == best.score_bits
            &&& after.ai_definition == meta.ai_definition
            &&& (change is None <==> (meta.current_action == Some(action) && meta.current_target
                == best.target))
        }),
{
    lemma_best_exists_unique(candidates);
}

/// Whether two optional targets are the same.
fn same_target(a: Option<u64>, b: Option<u64>) -> (r: bool)
    ensures
        r == (a == b),
{
    match (a, b) {
        (None, None) => true,
        (Some(x), Some(y)) => x == y,
        _ => false,
    }
}

/// Whether the current action is `action`.
fn is_current_action(current: &Option<TypeId>, action: &TypeId) -> (r: bool)
    ensures
        r == (*current == Some(*action)),
{
    match current {
        None => false,
        Some(c) => type_ids_equal(c, action),
    }
}

/// Makes the decision for one entity: picks the first of the candidates
/// with the highest score, keeps the current action if the best candidate
/// has the same action and target (updating the score), and switches to the
/// best candidate otherwise, returning the change to send.
pub fn make_decision(
    ai_meta: &mut AIMeta,
    entity_id: u64,
    decisions: &Vec<Decision>,
    candidates: &Vec<Candidate>,
) -> (r: Option<ActionChange>)
    requires
        candidates_name_decisions(decisions@, candidates@),
    ensures
        (final(ai_meta)@, match r {
            None => None,
            Some(c) => Some(c@),
        }) == decided(old(ai_meta)@, entity_id, decisions@, candidates@),
        candidates@.len() == 0 ==> r is None && final(ai_meta)@ == old(ai_meta)@,
        candidates@.len() > 0 ==> {
            let best = candidates@[best_index(candidates@)];
            &&& is_best(candidates@, best_index(candidates@))
            &&& final(ai_meta).current_action == Some(decisions@[best.decision_index as int].action)
            &&& final(ai_meta).current_target == best.target
            &&& final(ai_meta).current_action_score_bits == best.score_bits
        },
{
    proof {
        if candidates@.len() > 0 {
            lemma_decision_follows_best(old(ai_meta)@, entity_id, decisions@, candidates@);
        }
    }
    let best = match select_best(candidates) {
        None => return None,
        Some(i) => i,
    };
    let candidate = candidates[best];
    let decision = &decisions[candidate.decision_index];
    let keep_current_action = is_current_action(&ai_meta.current_action, &decision.action);
    let keep_current_target = same_target(candidate.target, ai_meta.current_target);
    if keep_current_action && keep_current_target {
        ai_meta.current_action_score_bits = candidate.score_bits;
        return None;
    }
    let update = UpdateEntityAction {
        entity_id,
        old_action: ai_meta.current_action,
        new_action: decision.action,
        old_target: ai_meta.current_target,
        new_target: candidate.target,
    };
    let event = EntityActionChangeEvent {
        entity_id,
        prev_action: ai_meta.current_action_name.clone(),
        new_action: decision.action_name.clone(),
        prev_target: ai_meta.current_target,
        new_target: candidate.target,
        prev_score_bits: ai_meta.current_action_score_bits,
        new_score_bits: candidate.score_bits,
    };
    ai_meta.current_action = Some(decision.action);
    ai_meta.current_action_name = decision.action_name.clone();
    ai_meta.current_action_score_bits = candidate.score_bits;
    ai_meta.current_target = candidate.target;
    Some(ActionChange { update, event })
}

} // verus!
