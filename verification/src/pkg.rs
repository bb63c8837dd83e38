//! Restrictions on packages: their repository, EAPI and ebuild metadata.

use vstd::prelude::*;

use crate::restrict::dep::{DepRestrictView, Restrict as DepRestrict};
use crate::restrict::depset::{DepSetRestrictView, Restrict as DepSetRestrict};
use crate::restrict::set::{OrderedSetRestrict, OrderedSetRestrictView};
use crate::restrict::str::{LenOrder, Restrict as StrRestrict, StrRestrictView};

verus! {

/// Restrictions on an EAPI.
#[derive(Debug, PartialEq, Eq, Hash)]
pub enum EapiRestrict {
    /// On the EAPI's identifier.
    Id(StrRestrict),
}

/// The mathematical form of an EAPI restriction.
pub enum EapiRestrictView {
    Id(StrRestrictView),
}

impl View for EapiRestrict {
    type V = EapiRestrictView;

    open spec fn view(&self) -> EapiRestrictView {
        match self {
            EapiRestrict::Id(r) => EapiRestrictView::Id(r@),
        }
    }
}

/// Restrictions on an ordered sequence of values of which each is restricted by `T`.
#[derive(Debug, PartialEq, Eq, Hash)]
pub enum OrderedRestrict<T> {
    /// Some value satisfies the restriction.
    Any(T),
    /// Every value satisfies the restriction.
    All(T),
    /// The first value satisfies the restriction.
    First(T),
    /// The last value satisfies the restriction.
    Last(T),
    /// The number of values compares to the given size in one of the given ways.
    Count(Vec<LenOrder>, usize),
}

/// The mathematical form of an ordered restriction.
pub enum OrderedRestrictView<V> {
    Any(V),
    All(V),
    First(V),
    Last(V),
    Count(Seq<LenOrder>, usize),
}

impl<T: View> View for OrderedRestrict<T> {
    type V = OrderedRestrictView<T::V>;

    open spec fn view(&self) -> OrderedRestrictView<T::V> {
        match self {
            OrderedRestrict::Any(r) => OrderedRestrictView::Any(r@),
            OrderedRestrict::All(r) => OrderedRestrictView::All(r@),
            OrderedRestrict::First(r) => OrderedRestrictView::First(r@),
            OrderedRestrict::Last(r) => OrderedRestrictView::Last(r@),
            OrderedRestrict::Count(c, n) => OrderedRestrictView::Count(c@, *n),
        }
    }
}

/// Restrictions on a package maintainer.
#[derive(Debug, PartialEq, Eq, Hash)]
pub enum MaintainerRestrict {
    Email(StrRestrict),
    /// On the name, or, with `None`, that there is none.
    Name(Option<StrRestrict>),
    /// On the description, or, with `None`, that there is none.
    Description(Option<StrRestrict>),
    Type(StrRestrict),
    Proxied(StrRestrict),
    False,
    True,
    And(Vec<Box<Self>>),
    Or(Vec<Box<Self>>),
    Xor(Vec<Box<Self>>),
    Not(Box<Self>),
}

/// The mathematical form of a maintainer restriction.
pub enum MaintainerRestrictView {
    Email(StrRestrictView),
    Name(Option<StrRestrictView>),
    Description(Option<StrRestrictView>),
    Type(StrRestrictView),
    Proxied(StrRestrictView),
    False,
    True,
    And(Seq<MaintainerRestrictView>),
    Or(Seq<MaintainerRestrictView>),
    Xor(Seq<MaintainerRestrictView>),
    Not(Box<MaintainerRestrictView>),
}

/// The view of an optional string restriction.
pub open spec fn opt_str_view(o: Option<StrRestrict>) -> Option<StrRestrictView> {
    match o {
        Some(r) => Some(r@),
        None => None,
    }
}

impl MaintainerRestrict {
    /// The view of a maintainer restriction.
    pub open spec fn spec_view(self) -> MaintainerRestrictView
        decreases self,
    {
        match self {
            MaintainerRestrict::Email(r) => MaintainerRestrictView::Email(r@),
            MaintainerRestrict::Name(r) => MaintainerRestrictView::Name(opt_str_view(r)),
            MaintainerRestrict::Description(r) => MaintainerRestrictView::Description(
                opt_str_view(r),
            ),
            MaintainerRestrict::Type(r) => MaintainerRestrictView::Type(r@),
            MaintainerRestrict::Proxied(r) => MaintainerRestrictView::Proxied(r@),
            MaintainerRestrict::False => MaintainerRestrictView::False,
            MaintainerRestrict::True => MaintainerRestrictView::True,
            MaintainerRestrict::And(vals) => MaintainerRestrictView::And(
                Seq::new(
                    vals@.len(),
                    |i: int|
                        if 0 <= i < vals@.len() {
                            vals@[i].spec_view()
                        } else {
                            MaintainerRestrictView::False
                        },
                ),
            ),
            MaintainerRestrict::Or(vals) => MaintainerRestrictView::Or(
                Seq::new(
                    vals@.len(),
                    |i: int|
                        if 0 <= i < vals@.len() {
                            vals@[i].spec_view()
                        } else {
                            MaintainerRestrictView::False
                        },
                ),
            ),
            MaintainerRestrict::Xor(vals) => MaintainerRestrictView::Xor(
                Seq::new(
                    vals@.len(),
                    |i: int|
                        if 0 <= i < vals@.len() {
                            vals@[i].spec_view()
                        } else {
                            MaintainerRestrictView::False
                        },
                ),
            ),
            MaintainerRestrict::Not(r) => MaintainerRestrictView::Not(Box::new(r.spec_view())),
        }
    }
}

impl View for MaintainerRestrict {
    type V = MaintainerRestrictView;

    open spec fn view(&self) -> MaintainerRestrictView {
        self.spec_view()
    }
}

/// The views of a sequence of maintainer restrictions.
pub open spec fn maintainer_views(v: Seq<MaintainerRestrict>) -> Seq<MaintainerRestrictView> {
    Seq::new(v.len(), |i: int| v[i]@)
}

/// Restrictions on the metadata of an ebuild package.
#[derive(Debug, PartialEq, Eq, Hash)]
pub enum EbuildRestrict {
    Ebuild(StrRestrict),
    Description(StrRestrict),
    Slot(StrRestrict),
    Subslot(StrRestrict),
    RawSubslot(Option<StrRestrict>),
    Dependencies(Option<DepSetRestrict<DepRestrict>>),
    Depend(Option<DepSetRestrict<DepRestrict>>),
    Bdepend(Option<DepSetRestrict<DepRestrict>>),
    Idepend(Option<DepSetRestrict<DepRestrict>>),
    Pdepend(Option<DepSetRestrict<DepRestrict>>),
    Rdepend(Option<DepSetRestrict<DepRestrict>>),
    License(Option<DepSetRestrict<StrRestrict>>),
    Properties(Option<DepSetRestrict<StrRestrict>>),
    RequiredUse(Option<DepSetRestrict<StrRestrict>>),
    Restrict(Option<DepSetRestrict<StrRestrict>>),
    SrcUri(Option<DepSetRestrict<StrRestrict>>),
    Homepage(Option<OrderedSetRestrict>),
    DefinedPhases(Option<OrderedSetRestrict>),
    Keywords(Option<OrderedSetRestrict>),
    Iuse(Option<OrderedSetRestrict>),
    Inherit(Option<OrderedSetRestrict>),
    Inherited(Option<OrderedSetRestrict>),
    LongDescription(Option<StrRestrict>),
    Maintainers(Option<OrderedRestrict<MaintainerRestrict>>),
}

/// The view of an optional dependency set restriction.
pub open spec fn opt_depset_view<T: View>(o: Option<DepSetRestrict<T>>) -> Option<
    DepSetRestrictView<T::V>,
> {
    match o {
        Some(r) => Some(r@),
        None => None,
    }
}

/// The view of an optional set restriction.
pub open spec fn opt_set_view(o: Option<OrderedSetRestrict>) -> Option<OrderedSetRestrictView> {
    match o {
        Some(r) => Some(r@),
        None => None,
    }
}

/// The mathematical form of an ebuild metadata restriction.
pub enum EbuildRestrictView {
    Ebuild(StrRestrictView),
    Description(StrRestrictView),
    Slot(StrRestrictView),
    Subslot(StrRestrictView),
    RawSubslot(Option<StrRestrictView>),
    Dependencies(Option<DepSetRestrictView<DepRestrictView>>),
    Depend(Option<DepSetRestrictView<DepRestrictView>>),
    Bdepend(Option<DepSetRestrictView<DepRestrictView>>),
    Idepend(Option<DepSetRestrictView<DepRestrictView>>),
    Pdepend(Option<DepSetRestrictView<DepRestrictView>>),
    Rdepend(Option<DepSetRestrictView<DepRestrictView>>),
    License(Option<DepSetRestrictView<StrRestrictView>>),
    Properties(Option<DepSetRestrictView<StrRestrictView>>),
    RequiredUse(Option<DepSetRestrictView<StrRestrictView>>),
    Restrict(Option<DepSetRestrictView<StrRestrictView>>),
    SrcUri(Option<DepSetRestrictView<StrRestrictView>>),
    Homepage(Option<OrderedSetRestrictView>),
    DefinedPhases(Option<OrderedSetRestrictView>),
    Keywords(Option<OrderedSetRestrictView>),
    Iuse(Option<OrderedSetRestrictView>),
    Inherit(Option<OrderedSetRestrictView>),
    Inherited(Option<OrderedSetRestrictView>),
    LongDescription(Option<StrRestrictView>),
    Maintainers(Option<OrderedRestrictView<MaintainerRestrictView>>),
}

impl View for EbuildRestrict {
    type V = EbuildRestrictView;

    open spec fn view(&self) -> EbuildRestrictView {
        match self {
            EbuildRestrict::Ebuild(r) => EbuildRestrictView::Ebuild(r@),
            EbuildRestrict::Description(r) => EbuildRestrictView::Description(r@),
            EbuildRestrict::Slot(r) => EbuildRestrictView::Slot(r@),
            EbuildRestrict::Subslot(r) => EbuildRestrictView::Subslot(r@),
            EbuildRestrict::RawSubslot(r) => EbuildRestrictView::RawSubslot(opt_str_view(*r)),
            EbuildRestrict::Dependencies(r) => EbuildRestrictView::Dependencies(opt_depset_view(*r)),
            EbuildRestrict::Depend(r) => EbuildRestrictView::Depend(opt_depset_view(*r)),
            EbuildRestrict::Bdepend(r) => EbuildRestrictView::Bdepend(opt_depset_view(*r)),
            EbuildRestrict::Idepend(r) => EbuildRestrictView::Idepend(opt_depset_view(*r)),
            EbuildRestrict::Pdepend(r) => EbuildRestrictView::Pdepend(opt_depset_view(*r)),
            EbuildRestrict::Rdepend(r) => EbuildRestrictView::Rdepend(opt_depset_view(*r)),
            EbuildRestrict::License(r) => EbuildRestrictView::License(opt_depset_view(*r)),
            EbuildRestrict::Properties(r) => EbuildRestrictView::Properties(opt_depset_view(*r)),
            EbuildRestrict::RequiredUse(r) => EbuildRestrictView::RequiredUse(opt_depset_view(*r)),
            EbuildRestrict::Restrict(r) => EbuildRestrictView::Restrict(opt_depset_view(*r)),
            EbuildRestrict::SrcUri(r) => EbuildRestrictView::SrcUri(opt_depset_view(*r)),
            EbuildRestrict::Homepage(r) => EbuildRestrictView::Homepage(opt_set_view(*r)),
            EbuildRestrict::DefinedPhases(r) => EbuildRestrictView::DefinedPhases(opt_set_view(*r)),
            EbuildRestrict::Keywords(r) => EbuildRestrictView::Keywords(opt_set_view(*r)),
            EbuildRestrict::Iuse(r) => EbuildRestrictView::Iuse(opt_set_view(*r)),
            EbuildRestrict::Inherit(r) => EbuildRestrictView::Inherit(opt_set_view(*r)),
            EbuildRestrict::Inherited(r) => EbuildRestrictView::Inherited(opt_set_view(*r)),
            EbuildRestrict::LongDescription(r) => EbuildRestrictView::LongDescription(
                opt_str_view(*r),
            ),
            EbuildRestrict::Maintainers(r) => EbuildRestrictView::Maintainers(
                match r {
                    Some(x) => Some(x@),
                    None => None,
                },
            ),
        }
    }
}

/// Restrictions on a package.
#[derive(Debug, PartialEq, Eq, Hash)]
pub enum PkgRestrict {
    /// On the package's EAPI.
    Eapi(EapiRestrict),
    /// On the identifier of the package's repository.
    Repo(StrRestrict),
    /// On the package's ebuild metadata.
    Ebuild(EbuildRestrict),
}

/// The mathematical form of a package restriction.
pub enum PkgRestrictView {
    Eapi(EapiRestrictView),
    Repo(StrRestrictView),
    Ebuild(EbuildRestrictView),
}

impl View for PkgRestrict {
    type V = PkgRestrictView;

    open spec fn view(&self) -> PkgRestrictView {
        match self {
            PkgRestrict::Eapi(r) => PkgRestrictView::Eapi(r@),
            PkgRestrict::Repo(r) => PkgRestrictView::Repo(r@),
            PkgRestrict::Ebuild(r) => PkgRestrictView::Ebuild(r@),
        }
    }
}

}
