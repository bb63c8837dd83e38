//! Restrictions on dependency sets: on any of their flattened values, or on the text of
//! any of their nodes.

use vstd::prelude::*;

use super::str::{Restrict as StrRestrict, StrRestrictView};

verus! {

/// A restriction on a dependency set whose values are restricted by `T`.
#[derive(Debug, PartialEq, Eq, Hash)]
pub enum Restrict<T> {
    /// Some flattened value satisfies the inner restriction.
    Any(T),
    /// The text of some node, nested groups included, satisfies the string restriction.
    Contains(StrRestrict),
}

/// The mathematical form of a dependency set restriction.
pub enum DepSetRestrictView<V> {
    Any(V),
    Contains(StrRestrictView),
}

impl<T: View> View for Restrict<T> {
    type V = DepSetRestrictView<T::V>;

    open spec fn view(&self) -> DepSetRestrictView<T::V> {
        match self {
            Restrict::Any(r) => DepSetRestrictView::Any(r@),
            Restrict::Contains(r) => DepSetRestrictView::Contains(r@),
        }
    }
}

}
