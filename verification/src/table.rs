//! Tables of entries keyed by type identity, read by their first entry per key.
use crate::ids::type_ids_equal;
use std::any::TypeId;
use vstd::prelude::*;

verus! {

/// `i` is the first entry of the table for `input`.
pub open spec fn is_first_entry<T>(
    table: Seq<(TypeId, T)>,
    input: TypeId,
    i: int,
) -> bool {
    &&& 0 <= i < table.len()
    &&& table[i].0 == input
    &&& forall|j: int| 0 <= j < i ==> #[trigger] table[j].0 != input
}

/// The index of the first entry of the table for `input`.
pub open spec fn first_entry<T>(table: Seq<(TypeId, T)>, input: TypeId) -> int {
    choose|i: int| is_first_entry(table, input, i)
}

/// The table has an entry for `input`.
pub open spec fn has_entry<T>(table: Seq<(TypeId, T)>, input: TypeId) -> bool {
    exists|i: int| 0 <= i < table.len() && #[trigger] table[i].0 == input
}

/// An input that has an entry has exactly one first entry.
pub proof fn lemma_first_entry<T>(table: Seq<(TypeId, T)>, input: TypeId, i: int)
    requires
        is_first_entry(table, input, i),
    ensures
        first_entry(table, input) == i,
{
    let c = first_entry(table, input);
    assert(is_first_entry(table, input, c));
    if c < i {
        assert(table[c].0 != input);
    } else if i < c {
        assert(table[i].0 != input);
    }
}

/// Where the table has an entry for `input`, it has a first one.
pub proof fn lemma_has_first_entry<T>(table: Seq<(TypeId, T)>, input: TypeId)
    requires
        has_entry(table, input),
    ensures
        is_first_entry(table, input, first_entry(table, input)),
    decreases table.len(),
{
    let p = table.drop_last();
    if has_entry(p, input) {
        lemma_has_first_entry(p, input);
        let f = first_entry(p, input);
        assert(p[f] == table[f]);
        assert forall|j: int| 0 <= j < f implies #[trigger] table[j].0 != input by {
            assert(p[j] == table[j]);
        }
        assert(is_first_entry(table, input, f));
    } else {
        let n = table.len() - 1;
        assert forall|j: int| 0 <= j < n implies #[trigger] table[j].0 != input by {
            assert(p[j] == table[j]);
        }
        assert(is_first_entry(table, input, n));
    }
}

/// The index of the first entry of the table for `input`, if any.
pub fn find_entry<T>(table: &Vec<(TypeId, T)>, input: &TypeId) -> (r: Option<usize>)
    ensures
        match r {
            None => !has_entry(table@, *input),
            Some(i) => is_first_entry(table@, *input, i as int) && first_entry(table@, *input)
                == i as int,
        },
{
    let mut i: usize = 0;
    while i < table.len()
        invariant
            i <= table.len(),
            forall|j: int| 0 <= j < i ==> #[trigger] table@[j].0 != *input,
        decreases table.len() - i,
    {
        if type_ids_equal(&table[i].0, input) {
            proof {
                lemma_first_entry(table@, *input, i as int);
            }
            return Some(i);
        }
        i = i + 1;
    }
    None
}

/// The table as a map from each key to the value of its first entry.
pub open spec fn entries_map<T>(table: Seq<(TypeId, T)>) -> Map<TypeId, T> {
    Map::new(|key: TypeId| has_entry(table, key), |key: TypeId| table[first_entry(table, key)].1)
}

/// Adding an entry for a key that has none extends the map by it.
pub proof fn lemma_push_new_entry<T>(table: Seq<(TypeId, T)>, entry: (TypeId, T))
    requires
        !has_entry(table, entry.0),
    ensures
        entries_map(table.push(entry)) == entries_map(table).insert(entry.0, entry.1),
{
    let t2 = table.push(entry);
    let m1 = entries_map(table);
    let m2 = entries_map(t2);
    let n = table.len() as int;
    assert forall|k: TypeId| has_entry(t2, k) == (has_entry(table, k) || k == entry.0) by {
        if has_entry(t2, k) {
            let w = choose|w: int| 0 <= w < t2.len() && #[trigger] t2[w].0 == k;
            if w < n {
                assert(table[w].0 == k);
            }
        }
        if has_entry(table, k) {
            let w = choose|w: int| 0 <= w < table.len() && #[trigger] table[w].0 == k;
            assert(t2[w].0 == k);
        }
        if k == entry.0 {
            assert(t2[n].0 == k);
        }
    }
    assert forall|k: TypeId| #[trigger] m2.contains_key(k) implies m2[k] == m1.insert(entry.0, entry.1)[k] by {
        if k == entry.0 {
            assert forall|j: int| 0 <= j < n implies #[trigger] t2[j].0 != k by {
                assert(t2[j] == table[j]);
            }
            lemma_first_entry(t2, k, n);
        } else {
            lemma_has_first_entry(table, k);
            let f = first_entry(table, k);
            assert forall|j: int| 0 <= j < f implies #[trigger] t2[j].0 != k by {
                assert(t2[j] == table[j]);
            }
            assert(t2[f] == table[f]);
            lemma_first_entry(t2, k, f);
        }
    }
    assert(m2 =~= m1.insert(entry.0, entry.1));
}

} // verus!
