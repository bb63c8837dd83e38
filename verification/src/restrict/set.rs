//! Restrictions on ordered sets of strings.

use vstd::prelude::*;

use crate::types::OrderedSet;

verus! {

/// Restrictions on an ordered set of strings, comparing it as a set.
#[derive(Debug, Clone, PartialEq, Eq, Hash)]
pub enum OrderedSetRestrict {
    Empty,
    Contains(String),
    Disjoint(OrderedSet),
    Equal(OrderedSet),
    Subset(OrderedSet),
    ProperSubset(OrderedSet),
    Superset(OrderedSet),
    ProperSuperset(OrderedSet),
}

/// The mathematical form of a set restriction: each set by its values in order.
pub enum OrderedSetRestrictView {
    Empty,
    Contains(Seq<char>),
    Disjoint(Seq<Seq<char>>),
    Equal(Seq<Seq<char>>),
    Subset(Seq<Seq<char>>),
    ProperSubset(Seq<Seq<char>>),
    Superset(Seq<Seq<char>>),
    ProperSuperset(Seq<Seq<char>>),
}

impl View for OrderedSetRestrict {
    type V = OrderedSetRestrictView;

    open spec fn view(&self) -> OrderedSetRestrictView {
        match self {
            OrderedSetRestrict::Empty => OrderedSetRestrictView::Empty,
            OrderedSetRestrict::Contains(x) => OrderedSetRestrictView::Contains(x@),
            OrderedSetRestrict::Disjoint(s) => OrderedSetRestrictView::Disjoint(s@),
            OrderedSetRestrict::Equal(s) => OrderedSetRestrictView::Equal(s@),
            OrderedSetRestrict::Subset(s) => OrderedSetRestrictView::Subset(s@),
            OrderedSetRestrict::ProperSubset(s) => OrderedSetRestrictView::ProperSubset(s@),
            OrderedSetRestrict::Superset(s) => OrderedSetRestrictView::Superset(s@),
            OrderedSetRestrict::ProperSuperset(s) => OrderedSetRestrictView::ProperSuperset(s@),
        }
    }
}

/// Whether a set with the values `v` satisfies the restriction `r`.
pub open spec fn spec_set_matches(r: OrderedSetRestrict, v: Set<Seq<char>>) -> bool {
    match r {
        OrderedSetRestrict::Empty => v =~= Set::empty(),
        OrderedSetRestrict::Contains(x) => v.contains(x@),
        OrderedSetRestrict::Disjoint(s) => v.disjoint(s.values()),
        OrderedSetRestrict::Equal(s) => v == s.values(),
        OrderedSetRestrict::Subset(s) => v.subset_of(s.values()),
        OrderedSetRestrict::ProperSubset(s) => v.subset_of(s.values()) && v != s.values(),
        OrderedSetRestrict::Superset(s) => s.values().subset_of(v),
        OrderedSetRestrict::ProperSuperset(s) => s.values().subset_of(v) && v != s.values(),
    }
}

impl OrderedSetRestrict {
    /// Whether the set `val` satisfies the restriction.
    pub fn matches(&self, val: &OrderedSet) -> (b: bool)
        ensures
            b == spec_set_matches(*self, val.values()),
    {
        match self {
            OrderedSetRestrict::Empty => {
                let b = val.is_empty();
                proof {
                    if !b {
                        assert(val.values().contains(val@[0]));
                    } else {
                        assert(val.values() =~= Set::empty());
                    }
                }
                b
            },
            OrderedSetRestrict::Contains(s) => {
                let b = val.contains(s.as_str());
                proof {
                    if b {
                        let k = choose|k: int| 0 <= k < val@.len() && val@[k] == s@;
                        assert(val.values().contains(val@[k]));
                    }
                }
                b
            },
            OrderedSetRestrict::Disjoint(s) => val.is_disjoint(s),
            OrderedSetRestrict::Equal(s) => val.set_eq(s),
            OrderedSetRestrict::Subset(s) => val.is_subset(s),
            OrderedSetRestrict::ProperSubset(s) => val.is_subset(s) && !val.set_eq(s),
            OrderedSetRestrict::Superset(s) => val.is_superset(s),
            OrderedSetRestrict::ProperSuperset(s) => val.is_superset(s) && !val.set_eq(s),
        }
    }
}

impl<'a> crate::restrict::Restriction<&'a OrderedSet> for OrderedSetRestrict {
    fn matches(&self, val: &'a OrderedSet) -> (b: bool)
        ensures
            b == spec_set_matches(*self, val.values()),
    {
        OrderedSetRestrict::matches(self, val)
    }
}

}
