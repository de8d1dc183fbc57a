//! Which targets a targeted input is calculated for.
use crate::decisions::Filter;
use crate::ids::type_ids_equal;
use std::any::TypeId;
use vstd::prelude::*;

verus! {

/// The set of targets a targeted input has to be calculated for: every
/// entity, or the entities that satisfy every filter of at least one of the
/// filter sets.
#[derive(Debug)]
pub enum FilterDefinition {
    Any,
    Filtered(Vec<Vec<Filter>>),
}

/// The mathematical value of a [`FilterDefinition`].
pub enum FilterDefinitionView {
    Any,
    Filtered(Seq<Seq<Filter>>),
}

/// The filter sets of a `Vec` of filter sets, as sequences.
pub open spec fn filter_sets_view(v: Seq<Vec<Filter>>) -> Seq<Seq<Filter>> {
    v.map_values(|s: Vec<Filter>| s@)
}

impl View for FilterDefinition {
    type V = FilterDefinitionView;

    open spec fn view(&self) -> FilterDefinitionView {
        match self {
            FilterDefinition::Any => FilterDefinitionView::Any,
            FilterDefinition::Filtered(sets) => FilterDefinitionView::Filtered(
                filter_sets_view(sets@),
            ),
        }
    }
}

/// Merging two definitions: `Any` absorbs, two filtered definitions join
/// their filter sets, those of `a` first.
pub open spec fn merged(a: FilterDefinitionView, b: FilterDefinitionView) -> FilterDefinitionView {
    match (a, b) {
        (FilterDefinitionView::Filtered(x), FilterDefinitionView::Filtered(y)) => {
            FilterDefinitionView::Filtered(x + y)
        },
        _ => FilterDefinitionView::Any,
    }
}

/// An entity whose components have the types in `present` satisfies `f`.
pub open spec fn filter_holds(f: Filter, present: Set<TypeId>) -> bool {
    match f {
        Filter::Inclusive(t) => present.contains(t),
        Filter::Exclusive(t) => !present.contains(t),
    }
}

/// Every filter of the set holds.
pub open spec fn filter_set_holds(s: Seq<Filter>, present: Set<TypeId>) -> bool {
    forall|i: int| 0 <= i < s.len() ==> #[trigger] filter_holds(s[i], present)
}

/// The definition admits an entity whose components have the types in `present`.
pub open spec fn admits(d: FilterDefinitionView, present: Set<TypeId>) -> bool {
    match d {
        FilterDefinitionView::Any => true,
        FilterDefinitionView::Filtered(sets) => some_set_holds(sets, present),
    }
}

/// At least one of the filter sets holds.
pub open spec fn some_set_holds(sets: Seq<Seq<Filter>>, present: Set<TypeId>) -> bool {
    exists|i: int| 0 <= i < sets.len() && #[trigger] filter_set_holds(sets[i], present)
}

/// A merged definition admits exactly the targets that either of the two
/// merged definitions admits.
pub proof fn lemma_merge_admits_either(
    a: FilterDefinitionView,
    b: FilterDefinitionView,
    present: Set<TypeId>,
)
    ensures
        admits(merged(a, b), present) == (admits(a, present) || admits(b, present)),
{
    if let (FilterDefinitionView::Filtered(x), FilterDefinitionView::Filtered(y)) = (a, b) {
        let xy = x + y;
        if some_set_holds(xy, present) {
            let i = choose|i: int| 0 <= i < xy.len() && #[trigger] filter_set_holds(xy[i], present);
            if i < x.len() {
                assert(xy[i] == x[i]);
            } else {
                assert(xy[i] == y[i - x.len()]);
            }
        }
        if some_set_holds(x, present) {
            let i = choose|i: int| 0 <= i < x.len() && #[trigger] filter_set_holds(x[i], present);
            assert(xy[i] == x[i]);
        }
        if some_set_holds(y, present) {
            let i = choose|i: int| 0 <= i < y.len() && #[trigger] filter_set_holds(y[i], present);
            assert(xy[x.len() + i] == y[i]);
        }
    }
}

/// `Any` absorbs: merging with an unfiltered definition, on either side,
/// gives an unfiltered definition.
pub proof fn lemma_merge_any_absorbs(a: FilterDefinitionView)
    ensures
        merged(FilterDefinitionView::Any, a) == FilterDefinitionView::Any,
        merged(a, FilterDefinitionView::Any) == FilterDefinitionView::Any,
{
}

/// Merging is associative: the order in which definitions are merged
/// pairwise does not change the result.
pub proof fn lemma_merge_associative(
    a: FilterDefinitionView,
    b: FilterDefinitionView,
    c: FilterDefinitionView,
)
    ensures
        merged(merged(a, b), c) == merged(a, merged(b, c)),
{
    if let (
        FilterDefinitionView::Filtered(x),
        FilterDefinitionView::Filtered(y),
        FilterDefinitionView::Filtered(z),
    ) = (a, b, c) {
        assert((x + y) + z =~= x + (y + z));
    }
}

/// A copy of a sequence of filters.
pub fn copy_filters(v: &Vec<Filter>) -> (r: Vec<Filter>)
    ensures
        r@ == v@,
{
    let mut r: Vec<Filter> = Vec::new();
    let mut i: usize = 0;
    while i < v.len()
        invariant
            i <= v.len(),
            r@ == v@.subrange(0, i as int),
        decreases v.len() - i,
    {
        r.push(v[i]);
        i = i + 1;
    }
    assert(r@ =~= v@);
    r
}

/// A copy of a sequence of filter sets.
fn copy_filter_sets(v: &Vec<Vec<Filter>>) -> (r: Vec<Vec<Filter>>)
    ensures
        filter_sets_view(r@) == filter_sets_view(v@),
{
    let mut r: Vec<Vec<Filter>> = Vec::new();
    let mut i: usize = 0;
    while i < v.len()
        invariant
            i <= v.len(),
            r@.len() == i,
            forall|k: int| 0 <= k < i ==> #[trigger] r@[k]@ == v@[k]@,
        decreases v.len() - i,
    {
        let s = copy_filters(&v[i]);
        r.push(s);
        i = i + 1;
    }
    assert(filter_sets_view(r@) =~= filter_sets_view(v@));
    r
}

impl FilterDefinition {
    /// Joins two definitions into one that admits what either admits.
    /// `self` is left as it was.
    pub fn merge(&mut self, other: &FilterDefinition) -> (r: FilterDefinition)
        ensures
            *final(self) == *old(self),
            r@ == merged(old(self)@, other@),
    {
        self.merged_with(other)
    }

    /// The merge of `self` and `other`, as [`FilterDefinition::merge`] gives it.
    pub fn merged_with(&self, other: &FilterDefinition) -> (r: FilterDefinition)
        ensures
            r@ == merged(self@, other@),
    {
        match (self, other) {
            (FilterDefinition::Filtered(x), FilterDefinition::Filtered(y)) => {
                let mut joined = copy_filter_sets(x);
                let mut tail = copy_filter_sets(y);
                let ghost jv = filter_sets_view(joined@);
                let ghost tv = filter_sets_view(tail@);
                joined.append(&mut tail);
                assert(filter_sets_view(joined@) =~= jv + tv);
                FilterDefinition::Filtered(joined)
            },
            _ => FilterDefinition::Any,
        }
    }

    /// Whether a target whose components have the types in `present` is admitted.
    pub fn admits_components(&self, present: &Vec<TypeId>) -> (r: bool)
        ensures
            r == admits(self@, present@.to_set()),
    {
        match self {
            FilterDefinition::Any => true,
            FilterDefinition::Filtered(sets) => {
                let mut i: usize = 0;
                while i < sets.len()
                    invariant
                        i <= sets.len(),
                        self@ == FilterDefinitionView::Filtered(filter_sets_view(sets@)),
                        forall|k: int|
                            0 <= k < i ==> !#[trigger] filter_set_holds(
                                filter_sets_view(sets@)[k],
                                present@.to_set(),
                            ),
                    decreases sets.len() - i,
                {
                    if filter_set_satisfied(&sets[i], present) {
                        assert(filter_sets_view(sets@)[i as int] == sets@[i as int]@);
                        let ghost fs = filter_sets_view(sets@);
                        assert(filter_set_holds(fs[i as int], present@.to_set()));
                        assert(0 <= i < fs.len());
                        assert(admits(FilterDefinitionView::Filtered(fs), present@.to_set()));
                        return true;
                    }
                    assert(filter_sets_view(sets@)[i as int] == sets@[i as int]@);
                    i = i + 1;
                }
                false
            },
        }
    }
}

/// Whether `t` is among `present`.
pub fn contains_type_id(present: &Vec<TypeId>, t: &TypeId) -> (r: bool)
    ensures
        r == present@.contains(*t),
        r == present@.to_set().contains(*t),
{
    let mut i: usize = 0;
    while i < present.len()
        invariant
            i <= present.len(),
            forall|k: int| 0 <= k < i ==> present@[k] != *t,
        decreases present.len() - i,
    {
        if type_ids_equal(&present[i], t) {
            assert(present@.to_set().contains(*t)) by {
                assert(present@.contains(present@[i as int]));
            }
            return true;
        }
        i = i + 1;
    }
    assert(!present@.to_set().contains(*t));
    false
}

/// Whether every filter of `filters` holds for an entity whose components
/// have the types in `present`.
pub fn filter_set_satisfied(filters: &Vec<Filter>, present: &Vec<TypeId>) -> (r: bool)
    ensures
        r == filter_set_holds(filters@, present@.to_set()),
{
    let mut i: usize = 0;
    while i < filters.len()
        invariant
            i <= filters.len(),
            forall|k: int| 0 <= k < i ==> #[trigger] filter_holds(filters@[k], present@.to_set()),
        decreases filters.len() - i,
    {
        let holds = match &filters[i] {
            Filter::Inclusive(t) => contains_type_id(present, t),
            Filter::Exclusive(t) => !contains_type_id(present, t),
        };
        if !holds {
            assert(!filter_holds(filters@[i as int], present@.to_set()));
            return false;
        }
        i = i + 1;
    }
    true
}

} // verus!
