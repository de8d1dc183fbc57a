//! Type identities and the short form of type names.
use std::any::TypeId;
use vstd::prelude::*;

verus! {

/// `TypeId::of`: the identity of a type. Nothing is stated of the value,
/// which the compiler chooses.
pub assume_specification<T: ?Sized + 'static>[ TypeId::of::<T> ]() -> TypeId;

/// There is a path separator `::` at position `k` of `s`.
pub open spec fn separator_at(s: Seq<char>, k: int) -> bool {
    0 <= k && k + 2 <= s.len() && s[k] == ':' && s[k + 1] == ':'
}

/// What follows the last `::` of `s`, or all of `s` where it has none.
pub open spec fn trimmed_type_name(s: Seq<char>) -> Seq<char>
    decreases s.len(),
{
    if s.len() < 2 {
        s
    } else if s[s.len() - 2] == ':' && s[s.len() - 1] == ':' {
        Seq::empty()
    } else {
        trimmed_type_name(s.drop_last()).push(s.last())
    }
}

/// Where no separator starts at or after `m - 1`, trimming `s` trims its
/// first `m` characters and keeps the rest.
proof fn lemma_trimmed_tail(s: Seq<char>, m: int)
    requires
        1 <= m <= s.len(),
        forall|k: int| m - 1 <= k ==> !#[trigger] separator_at(s, k),
    ensures
        trimmed_type_name(s) == trimmed_type_name(s.take(m)) + s.subrange(m, s.len() as int),
    decreases s.len() - m,
{
    if s.len() == m {
        assert(s.take(m) =~= s);
        assert(s.subrange(m, s.len() as int) =~= Seq::<char>::empty());
    } else {
        let d = s.drop_last();
        assert(!separator_at(s, s.len() - 2));
        assert forall|k: int| m - 1 <= k implies !#[trigger] separator_at(d, k) by {
            if separator_at(d, k) {
                assert(separator_at(s, k));
            }
        }
        lemma_trimmed_tail(d, m);
        assert(d.take(m) =~= s.take(m));
        assert(d.subrange(m, d.len() as int).push(s.last()) =~= s.subrange(m, s.len() as int));
    }
}

/// Returns the part of a type name after its last `::`, or the whole name
/// where it has no `::`.
pub fn trim_type_name(name: &str) -> (r: &str)
    ensures
        r@ == trimmed_type_name(name@),
{
    let n = name.unicode_len();
    let mut i: usize = n;
    while i >= 2
        invariant
            n == name@.len(),
            i <= n,
            forall|k: int| i - 1 <= k ==> !#[trigger] separator_at(name@, k),
        decreases i,
    {
        if name.get_char(i - 2) == ':' && name.get_char(i - 1) == ':' {
            let ghost s = name@;
            proof {
                let m = i as int;
                if m < n {
                    lemma_trimmed_tail(s, m);
                }
                assert(s.take(m).last() == ':' && s.take(m)[m - 2] == ':');
                assert(trimmed_type_name(s.take(m)) == Seq::<char>::empty());
                if m == n {
                    assert(trimmed_type_name(s) == Seq::<char>::empty());
                }
            }
            return name.substring_char(i, n);
        }
        i = i - 1;
    }
    proof {
        let s = name@;
        if n >= 1 {
            lemma_trimmed_tail(s, 1);
            assert(s.take(1) + s.subrange(1, n as int) =~= s);
        }
    }
    name
}

/// The identity of the type of a value.
pub fn type_id_of<T: 'static>(_value: &T) -> TypeId {
    TypeId::of::<T>()
}

} // verus!
