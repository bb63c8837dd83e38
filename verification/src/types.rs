//! Collection types used by restrictions.

use vstd::prelude::*;

use crate::text::str_eq;

verus! {

/// The views of a sequence of strings.
pub open spec fn string_views(v: Seq<String>) -> Seq<Seq<char>> {
    Seq::new(v.len(), |i: int| v[i]@)
}

/// `s` without repeats, each value kept where it first occurs.
pub open spec fn dedup(s: Seq<Seq<char>>) -> Seq<Seq<char>>
    decreases s.len(),
{
    if s.len() == 0 {
        seq![]
    } else if dedup(s.drop_last()).contains(s.last()) {
        dedup(s.drop_last())
    } else {
        dedup(s.drop_last()).push(s.last())
    }
}

/// An insertion ordered set of strings.
#[derive(Debug, Clone, PartialEq, Eq, Hash)]
pub struct OrderedSet {
    items: Vec<String>,
}

impl View for OrderedSet {
    type V = Seq<Seq<char>>;

    closed spec fn view(&self) -> Seq<Seq<char>> {
        string_views(self.items@)
    }
}

impl OrderedSet {
    /// The values of the set, regardless of order.
    pub open spec fn values(self) -> Set<Seq<char>> {
        self@.to_set()
    }

    /// An empty set.
    pub fn new() -> (s: OrderedSet)
        ensures
            s@ == Seq::<Seq<char>>::empty(),
    {
        let s = OrderedSet { items: Vec::new() };
        assert(s@ =~= Seq::<Seq<char>>::empty());
        s
    }

    /// Whether the set holds `x`.
    pub fn contains(&self, x: &str) -> (b: bool)
        ensures
            b == self@.contains(x@),
    {
        let mut i: usize = 0;
        while i < self.items.len()
            invariant
                0 <= i <= self.items@.len(),
                forall|k: int| 0 <= k < i ==> self@[k] != x@,
            decreases self.items@.len() - i,
        {
            assert(self@[i as int] == self.items@[i as int]@);
            if str_eq(self.items[i].as_str(), x) {
                return true;
            }
            i += 1;
        }
        false
    }

    /// Adds `x` at the end unless the set already holds it.
    pub fn insert(&mut self, x: &str) -> (added: bool)
        ensures
            added == !old(self)@.contains(x@),
            final(self)@ == if added {
                old(self)@.push(x@)
            } else {
                old(self)@
            },
    {
        if self.contains(x) {
            false
        } else {
            let ghost before = self@;
            self.items.push(x.to_owned());
            assert(self@ =~= before.push(x@));
            true
        }
    }

    /// The set of the given values, in order of first occurrence.
    pub fn from_strs(vals: &[&str]) -> (s: OrderedSet)
        ensures
            s@ == dedup(vals@.map_values(|v: &str| v@)),
    {
        let ghost all = vals@.map_values(|v: &str| v@);
        let mut s = OrderedSet::new();
        let mut i: usize = 0;
        assert(all.take(0) =~= Seq::<Seq<char>>::empty());
        while i < vals.len()
            invariant
                0 <= i <= vals@.len(),
                all == vals@.map_values(|v: &str| v@),
                s@ == dedup(all.take(i as int)),
            decreases vals@.len() - i,
        {
            assert(all.take(i + 1).drop_last() =~= all.take(i as int));
            assert(all.take(i + 1).last() == vals@[i as int]@);
            s.insert(vals[i]);
            i += 1;
        }
        assert(all.take(vals@.len() as int) =~= all);
        s
    }

    /// The number of values.
    pub fn len(&self) -> (n: usize)
        ensures
            n == self@.len(),
    {
        self.items.len()
    }

    /// Whether the set has no values.
    pub fn is_empty(&self) -> (b: bool)
        ensures
            b == (self@.len() == 0),
    {
        self.items.len() == 0
    }

    /// The value at position `i`.
    pub fn get(&self, i: usize) -> (x: &str)
        requires
            i < self@.len(),
        ensures
            x@ == self@[i as int],
    {
        self.items[i].as_str()
    }

    /// Whether every value of `self` is in `other`.
    pub fn is_subset(&self, other: &OrderedSet) -> (b: bool)
        ensures
            b == self.values().subset_of(other.values()),
    {
        let mut i: usize = 0;
        while i < self.items.len()
            invariant
                0 <= i <= self.items@.len(),
                forall|k: int| 0 <= k < i ==> other@.contains(#[trigger] self@[k]),
            decreases self.items@.len() - i,
        {
            assert(self@[i as int] == self.items@[i as int]@);
            if !other.contains(self.items[i].as_str()) {
                assert(self.values().contains(self@[i as int]));
                return false;
            }
            i += 1;
        }
        assert forall|x: Seq<char>| self.values().contains(x) implies other.values().contains(x) by {
            let k = choose|k: int| 0 <= k < self@.len() && self@[k] == x;
        }
        true
    }

    /// Whether every value of `other` is in `self`.
    pub fn is_superset(&self, other: &OrderedSet) -> (b: bool)
        ensures
            b == other.values().subset_of(self.values()),
    {
        other.is_subset(self)
    }

    /// Whether `self` and `other` share no value.
    pub fn is_disjoint(&self, other: &OrderedSet) -> (b: bool)
        ensures
            b == self.values().disjoint(other.values()),
    {
        let mut i: usize = 0;
        while i < self.items.len()
            invariant
                0 <= i <= self.items@.len(),
                forall|k: int| 0 <= k < i ==> !other@.contains(#[trigger] self@[k]),
            decreases self.items@.len() - i,
        {
            assert(self@[i as int] == self.items@[i as int]@);
            if other.contains(self.items[i].as_str()) {
                assert(self.values().contains(self@[i as int]));
                assert(other.values().contains(self@[i as int]));
                return false;
            }
            i += 1;
        }
        assert forall|x: Seq<char>| self.values().contains(x) implies !other.values().contains(x) by {
            let k = choose|k: int| 0 <= k < self@.len() && self@[k] == x;
        }
        true
    }

    /// Whether `self` and `other` hold the same values, in whatever order.
    pub fn set_eq(&self, other: &OrderedSet) -> (b: bool)
        ensures
            b == (self.values() == other.values()),
    {
        let b = self.is_subset(other) && other.is_subset(self);
        assert(b == (self.values() =~= other.values()));
        b
    }
}

}
