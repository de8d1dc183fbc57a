//! The registered definition of an AI: its decisions and the inputs they need.
use crate::decisions::Decision;
use crate::filter_definition::{admits, contains_type_id, FilterDefinition, FilterDefinitionView};
use crate::table::{entries_map, lemma_push_new_entry, find_entry, first_entry, has_entry, is_first_entry, lemma_first_entry, lemma_has_first_entry};
use std::any::TypeId;
use vstd::prelude::*;

verus! {

/// What a targeted input needs: the targets it has to be calculated for.
pub struct TargetedInputRequirements {
    pub target_filter: FilterDefinition,
}

/// The table of targeted inputs: each input with its requirements.
pub type TargetedInputs = Vec<(TypeId, TargetedInputRequirements)>;

/// The table as a map from each input to the filter definition of its
/// (first) entry.
pub open spec fn requirements_map(table: Seq<(TypeId, TargetedInputRequirements)>) -> Map<
    TypeId,
    FilterDefinitionView,
> {
    Map::new(
        |input: TypeId| has_entry(table, input),
        |input: TypeId| table[first_entry(table, input)].1.target_filter@,
    )
}

/// Replacing the filter definition of the first entry of an input changes
/// the map at that input only.
pub proof fn lemma_replace_entry(
    table: Seq<(TypeId, TargetedInputRequirements)>,
    i: int,
    entry: (TypeId, TargetedInputRequirements),
)
    requires
        is_first_entry(table, entry.0, i),
    ensures
        requirements_map(table.update(i, entry)) == requirements_map(table).insert(
            entry.0,
            entry.1.target_filter@,
        ),
{
    let t2 = table.update(i, entry);
    let m1 = requirements_map(table);
    let m2 = requirements_map(t2);
    assert forall|k: TypeId| has_entry(t2, k) == (has_entry(table, k) || k == entry.0) by {
        if has_entry(t2, k) {
            let w = choose|w: int| 0 <= w < t2.len() && #[trigger] t2[w].0 == k;
            assert(table[w].0 == t2[w].0);
        }
        if has_entry(table, k) {
            let w = choose|w: int| 0 <= w < table.len() && #[trigger] table[w].0 == k;
            assert(table[w].0 == t2[w].0);
        }
        if k == entry.0 {
            assert(t2[i].0 == k);
        }
    }
    assert forall|k: TypeId| #[trigger] m2.contains_key(k) implies m2[k] == m1.insert(
        entry.0,
        entry.1.target_filter@,
    )[k] by {
        lemma_has_first_entry(t2, k);
        let f = first_entry(t2, k);
        assert forall|j: int| 0 <= j < f implies #[trigger] table[j].0 != k by {
            assert(t2[j].0 == table[j].0);
        }
        assert(is_first_entry(table, k, f));
        lemma_first_entry(table, k, f);
        if k == entry.0 {
            lemma_first_entry(table, k, i);
        }
    }
    assert(m2 =~= m1.insert(entry.0, entry.1.target_filter@));
}

/// Adding an entry for an input that has none extends the map by it.
pub proof fn lemma_push_entry(
    table: Seq<(TypeId, TargetedInputRequirements)>,
    entry: (TypeId, TargetedInputRequirements),
)
    requires
        !has_entry(table, entry.0),
    ensures
        requirements_map(table.push(entry)) == requirements_map(table).insert(
            entry.0,
            entry.1.target_filter@,
        ),
{
    let t2 = table.push(entry);
    let m1 = requirements_map(table);
    let m2 = requirements_map(t2);
    let n = table.len() as int;
    assert forall|k: TypeId| has_entry(t2, k) == (has_entry(table, k) || k == entry.0) by {
        if has_entry(t2, k) {
            let w = choose|w: int| 0 <= w < t2.len() && #[trigger] t2[w].0 == k;
            if w < n {
                assert(table[w].0 == k);
            }
        }
        if has_entry(table, k) {
            let w = choose|w: int| 0 <= w < table.len() && #[trigger] table[w].0 == k;
            assert(t2[w].0 == k);
        }
        if k == entry.0 {
            assert(t2[n].0 == k);
        }
    }
    assert forall|k: TypeId| #[trigger] m2.contains_key(k) implies m2[k] == m1.insert(
        entry.0,
        entry.1.target_filter@,
    )[k] by {
        if k == entry.0 {
            assert forall|j: int| 0 <= j < n implies #[trigger] t2[j].0 != k by {
                assert(t2[j] == table[j]);
            }
            lemma_first_entry(t2, k, n);
        } else {
            lemma_has_first_entry(table, k);
            let f = first_entry(table, k);
            assert forall|j: int| 0 <= j < f implies #[trigger] t2[j].0 != k by {
                assert(t2[j] == table[j]);
            }
            assert(t2[f] == table[f]);
            lemma_first_entry(t2, k, f);
        }
    }
    assert(m2 =~= m1.insert(entry.0, entry.1.target_filter@));
}

/// The definition of one AI, registered under the type of its marker
/// component.
pub struct AIDefinition {
    /// The decisions that make up this AI.
    pub decisions: Vec<Decision>,
    /// The simple inputs used by this AI.
    pub simple_inputs: Vec<TypeId>,
    /// The targeted inputs used by this AI, each with its requirements.
    pub targeted_inputs: TargetedInputs,
}

impl AIDefinition {
    /// The simple inputs, as a set.
    pub open spec fn simple_input_set(&self) -> Set<TypeId> {
        self.simple_inputs@.to_set()
    }

    /// The targeted inputs, each with the targets it is needed for.
    pub open spec fn targeted_requirements(&self) -> Map<TypeId, FilterDefinitionView> {
        requirements_map(self.targeted_inputs@)
    }

    pub fn requires_targeted_input(&self, input: &TypeId) -> (r: bool)
        ensures
            r == self.targeted_requirements().contains_key(*input),
    {
        find_entry(&self.targeted_inputs, input).is_some()
    }

    pub fn requires_simple_input(&self, input: &TypeId) -> (r: bool)
        ensures
            r == self.simple_input_set().contains(*input),
    {
        contains_type_id(&self.simple_inputs, input)
    }

    pub fn get_targeted_input_requirements(&self, input: &TypeId) -> (r: &TargetedInputRequirements)
        requires
            self.targeted_requirements().contains_key(*input),
        ensures
            r.target_filter@ == self.targeted_requirements()[*input],
    {
        match find_entry(&self.targeted_inputs, input) {
            Some(i) => &self.targeted_inputs[i].1,
            None => {
                proof {
                    assert(has_entry(self.targeted_inputs@, *input));
                }
                &self.targeted_inputs[0].1
            },
        }
    }

    /// Whether the targeted input `input` is to be calculated for `subject`
    /// against `target`, where the components of the target have the types
    /// in `target_components`: the AI needs the input, the target is not
    /// the subject itself, and the input's target filter admits the target.
    pub fn scores_target(
        &self,
        input: &TypeId,
        subject: u64,
        target: u64,
        target_components: &Vec<TypeId>,
    ) -> (r: bool)
        ensures
            r == (self.targeted_requirements().contains_key(*input) && subject != target && admits(
                self.targeted_requirements()[*input],
                target_components@.to_set(),
            )),
    {
        if !self.requires_targeted_input(input) {
            return false;
        }
        let requirements = self.get_targeted_input_requirements(input);
        requirements.target_filter.admits_components(target_components) && subject != target
    }
}

/// The definitions of all AIs, each under the type of its marker component.
pub struct AIDefinitions {
    definitions: Vec<(TypeId, AIDefinition)>,
}

impl View for AIDefinitions {
    type V = Map<TypeId, AIDefinition>;

    closed spec fn view(&self) -> Map<TypeId, AIDefinition> {
        entries_map(self.definitions@)
    }
}

impl AIDefinitions {
    /// No definitions.
    pub fn new() -> (r: AIDefinitions)
        ensures
            r@ == Map::<TypeId, AIDefinition>::empty(),
    {
        let r = AIDefinitions { definitions: Vec::new() };
        assert(r@ =~= Map::<TypeId, AIDefinition>::empty());
        r
    }

    /// Whether an AI is defined for the marker type `marker`.
    pub fn contains(&self, marker: &TypeId) -> (r: bool)
        ensures
            r == self@.contains_key(*marker),
    {
        find_entry(&self.definitions, marker).is_some()
    }

    /// The definition of the AI whose marker type is `marker`.
    pub fn get(&self, marker: &TypeId) -> (r: Option<&AIDefinition>)
        ensures
            match r {
                None => !self@.contains_key(*marker),
                Some(d) => self@.contains_key(*marker) && *d == self@[*marker],
            },
    {
        match find_entry(&self.definitions, marker) {
            None => None,
            Some(i) => Some(&self.definitions[i].1),
        }
    }

    /// Adds the definition of the AI whose marker type is `marker`, unless
    /// one is defined already: then nothing changes and `false` is returned.
    pub fn insert_new(&mut self, marker: TypeId, definition: AIDefinition) -> (r: bool)
        ensures
            r == !old(self)@.contains_key(marker),
            r ==> final(self)@ == old(self)@.insert(marker, definition),
            !r ==> final(self)@ == old(self)@,
    {
        if self.contains(&marker) {
            return false;
        }
        proof {
            lemma_push_new_entry(self.definitions@, (marker, definition));
        }
        self.definitions.push((marker, definition));
        true
    }
}

impl Default for AIDefinitions {
    fn default() -> (r: AIDefinitions)
        ensures
            r@ == Map::<TypeId, AIDefinition>::empty(),
    {
        AIDefinitions::new()
    }
}

} // verus!
