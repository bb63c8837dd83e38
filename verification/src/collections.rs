//! Insertion ordered maps and sets of strings, as `indexmap` provides them.

use vstd::prelude::*;

use indexmap::{IndexMap, IndexSet};

use crate::types::string_views;

verus! {

#[verifier::external_type_specification]
#[verifier::external_body]
#[verifier::reject_recursive_types(K)]
#[verifier::reject_recursive_types(V)]
#[verifier::reject_recursive_types(S)]
pub struct ExIndexMap<K, V, S>(IndexMap<K, V, S>);

#[verifier::external_type_specification]
#[verifier::external_body]
#[verifier::reject_recursive_types(T)]
#[verifier::reject_recursive_types(S)]
pub struct ExIndexSet<T, S>(IndexSet<T, S>);

/// The values of a string set, in insertion order.
pub uninterp spec fn set_values(s: IndexSet<String>) -> Seq<Seq<char>>;

/// The entries of a map from strings to string sets, in insertion order: each key with the
/// values of its set.
pub uninterp spec fn group_entries(m: IndexMap<String, IndexSet<String>>) -> Seq<
    (Seq<char>, Seq<Seq<char>>),
>;

/// The values of a set after adding `x`: a new value goes last, an existing one stays.
pub open spec fn set_add(s: Seq<Seq<char>>, x: Seq<char>) -> Seq<Seq<char>> {
    if s.contains(x) {
        s
    } else {
        s.push(x)
    }
}

/// The values of a set after adding each of `xs` in turn.
pub open spec fn set_extended(s: Seq<Seq<char>>, xs: Seq<Seq<char>>) -> Seq<Seq<char>>
    decreases xs.len(),
{
    if xs.len() == 0 {
        s
    } else {
        set_add(set_extended(s, xs.drop_last()), xs.last())
    }
}

/// Whether some entry has the key `k`.
pub open spec fn has_group(e: Seq<(Seq<char>, Seq<Seq<char>>)>, k: Seq<char>) -> bool {
    exists|p: int| 0 <= p < e.len() && (#[trigger] e[p]).0 == k
}

/// The position of the entry with the key `k`, where there is one.
pub open spec fn group_pos(e: Seq<(Seq<char>, Seq<Seq<char>>)>, k: Seq<char>) -> int {
    choose|p: int| 0 <= p < e.len() && (#[trigger] e[p]).0 == k
}

/// The values stored for `k`, if any.
pub open spec fn group_get(e: Seq<(Seq<char>, Seq<Seq<char>>)>, k: Seq<char>) -> Option<
    Seq<Seq<char>>,
> {
    if has_group(e, k) {
        Some(e[group_pos(e, k)].1)
    } else {
        None
    }
}

/// The values stored for `k`, none if it has no entry.
pub open spec fn group_values(e: Seq<(Seq<char>, Seq<Seq<char>>)>, k: Seq<char>) -> Seq<
    Seq<char>,
> {
    match group_get(e, k) {
        Some(v) => v,
        None => seq![],
    }
}

/// The entries after storing `v` for `k`: an existing entry keeps its place, a new one goes
/// last.
pub open spec fn group_insert(
    e: Seq<(Seq<char>, Seq<Seq<char>>)>,
    k: Seq<char>,
    v: Seq<Seq<char>>,
) -> Seq<(Seq<char>, Seq<Seq<char>>)> {
    if has_group(e, k) {
        e.update(group_pos(e, k), (k, v))
    } else {
        e.push((k, v))
    }
}

/// An empty string set (`IndexSet::new`).
#[verifier::external_body]
pub(crate) fn set_new() -> (s: IndexSet<String>)
    ensures
        set_values(s) == Seq::<Seq<char>>::empty(),
{
    IndexSet::new()
}

/// Adds a value with `IndexSet::insert`: a new one goes last, an existing one stays.
#[verifier::external_body]
pub(crate) fn set_insert(s: &mut IndexSet<String>, v: String)
    ensures
        set_values(*final(s)) == set_add(set_values(*old(s)), v@),
{
    s.insert(v);
}

/// Whether the set holds `v` (`IndexSet::contains`).
#[verifier::external_body]
pub(crate) fn set_contains(s: &IndexSet<String>, v: &str) -> (r: bool)
    ensures
        r == set_values(*s).contains(v@),
{
    s.contains(v)
}

/// Whether two sets share no value (`IndexSet::is_disjoint`).
#[verifier::external_body]
pub(crate) fn set_is_disjoint(a: &IndexSet<String>, b: &IndexSet<String>) -> (r: bool)
    ensures
        r == forall|x: Seq<char>| !(set_values(*a).contains(x) && set_values(*b).contains(x)),
{
    a.is_disjoint(b)
}

/// Removes and returns the last value (`IndexSet::pop`); the others keep their order.
#[verifier::external_body]
pub(crate) fn set_pop(s: &mut IndexSet<String>) -> (r: Option<String>)
    ensures
        match r {
            Some(x) => set_values(*old(s)).len() > 0 && x@ == set_values(*old(s)).last()
                && set_values(*final(s)) == set_values(*old(s)).drop_last(),
            None => set_values(*old(s)).len() == 0 && set_values(*final(s)) == set_values(
                *old(s),
            ),
        },
{
    s.pop()
}

/// Adds the values of `vals` in their order (`IndexSet::extend`).
#[verifier::external_body]
pub(crate) fn set_extend(s: &mut IndexSet<String>, vals: IndexSet<String>)
    ensures
        set_values(*final(s)) == set_extended(set_values(*old(s)), set_values(vals)),
{
    s.extend(vals);
}

/// The values in order (`IndexSet::iter`), cloned.
#[verifier::external_body]
pub(crate) fn set_items(s: &IndexSet<String>) -> (v: Vec<String>)
    ensures
        string_views(v@) == set_values(*s),
{
    s.iter().cloned().collect()
}

/// An empty map of string sets (`IndexMap::new`).
#[verifier::external_body]
pub(crate) fn groups_new() -> (m: IndexMap<String, IndexSet<String>>)
    ensures
        group_entries(m) == Seq::<(Seq<char>, Seq<Seq<char>>)>::empty(),
{
    IndexMap::new()
}

/// Stores a set for a key with `IndexMap::insert`: an existing key keeps its place and takes
/// the new set; a new key goes last.
#[verifier::external_body]
pub(crate) fn groups_insert(
    m: &mut IndexMap<String, IndexSet<String>>,
    k: String,
    v: IndexSet<String>,
)
    ensures
        group_entries(*final(m)) == group_insert(group_entries(*old(m)), k@, set_values(v)),
{
    m.insert(k, v);
}

/// The set stored for `k` (`IndexMap::get`), cloned.
#[verifier::external_body]
pub(crate) fn groups_get(m: &IndexMap<String, IndexSet<String>>, k: &str) -> (r: Option<
    IndexSet<String>,
>)
    ensures
        match r {
            Some(s) => group_get(group_entries(*m), k@) == Some(set_values(s)),
            None => group_get(group_entries(*m), k@) is None,
        },
{
    m.get(k).cloned()
}

/// The entries in order (`IndexMap::iter`), cloned.
#[verifier::external_body]
pub(crate) fn groups_iter(m: &IndexMap<String, IndexSet<String>>) -> (v: Vec<
    (String, IndexSet<String>),
>)
    ensures
        v@.len() == group_entries(*m).len(),
        forall|p: int|
            0 <= p < v@.len() ==> ((#[trigger] v@[p]).0@, set_values(v@[p].1)) == group_entries(
                *m,
            )[p],
{
    m.iter().map(|(k, v)| (k.clone(), v.clone())).collect()
}

} // verus!
