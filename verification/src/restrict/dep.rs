//! Restrictions on the components of package dependencies.

use vstd::prelude::*;

use crate::dep::version::version_satisfies;
use crate::dep::{Blocker, Cpn, Cpv, CpvView, UseDep, UseDepView, Version, VersionView};

use crate::error::Error;
use crate::restrict::parse::dep::{
    spec_use_deps_str, spec_version_str, use_deps_str, use_views, version_str,
};

use super::str::{spec_matches as str_matches, Restrict as StrRestrict, StrRestrictView};

verus! {

/// Restrictions on one component of a package dependency.
#[derive(Debug, PartialEq, Eq, Hash)]
pub enum Restrict {
    Category(StrRestrict),
    Package(StrRestrict),
    Blocker(Option<Blocker>),
    Version(Option<Version>),
    Slot(Option<StrRestrict>),
    Subslot(Option<StrRestrict>),
    UseDeps(Option<Vec<UseDep>>),
    Repo(Option<StrRestrict>),
}

/// The mathematical form of a dependency component restriction.
pub enum DepRestrictView {
    Category(StrRestrictView),
    Package(StrRestrictView),
    Blocker(Option<Blocker>),
    Version(Option<VersionView>),
    Slot(Option<StrRestrictView>),
    Subslot(Option<StrRestrictView>),
    UseDeps(Option<Seq<UseDepView>>),
    Repo(Option<StrRestrictView>),
}

/// The view of an optional string restriction.
pub open spec fn opt_view(o: Option<StrRestrict>) -> Option<StrRestrictView> {
    match o {
        Some(r) => Some(r@),
        None => None,
    }
}

impl View for Restrict {
    type V = DepRestrictView;

    open spec fn view(&self) -> DepRestrictView {
        match self {
            Restrict::Category(r) => DepRestrictView::Category(r@),
            Restrict::Package(r) => DepRestrictView::Package(r@),
            Restrict::Blocker(b) => DepRestrictView::Blocker(*b),
            Restrict::Version(v) => DepRestrictView::Version(
                match v {
                    Some(v) => Some(v@),
                    None => None,
                },
            ),
            Restrict::Slot(r) => DepRestrictView::Slot(opt_view(*r)),
            Restrict::Subslot(r) => DepRestrictView::Subslot(opt_view(*r)),
            Restrict::UseDeps(u) => DepRestrictView::UseDeps(
                match u {
                    Some(u) => Some(u@.map_values(|d: UseDep| d@)),
                    None => None,
                },
            ),
            Restrict::Repo(r) => DepRestrictView::Repo(opt_view(*r)),
        }
    }
}

/// Whether a bare string `s` satisfies a dependency component restriction: only the
/// restrictions on named string components apply to one.
pub open spec fn spec_matches_str(r: DepRestrictView, s: Seq<char>) -> bool {
    match r {
        DepRestrictView::Category(r) => str_matches(r, s),
        DepRestrictView::Package(r) => str_matches(r, s),
        DepRestrictView::Slot(Some(r)) => str_matches(r, s),
        DepRestrictView::Subslot(Some(r)) => str_matches(r, s),
        DepRestrictView::Repo(Some(r)) => str_matches(r, s),
        _ => false,
    }
}

/// Whether the package `c`/`p` satisfies a dependency component restriction: the
/// category and name restrictions apply to it, and the other components, which a package
/// name lacks, match only when they ask for nothing.
pub open spec fn spec_matches_cpn(r: DepRestrictView, c: Seq<char>, p: Seq<char>) -> bool {
    match r {
        DepRestrictView::Category(x) => str_matches(x, c),
        DepRestrictView::Package(x) => str_matches(x, p),
        DepRestrictView::Version(None) => true,
        DepRestrictView::Blocker(None) => true,
        DepRestrictView::Slot(None) => true,
        DepRestrictView::Subslot(None) => true,
        DepRestrictView::UseDeps(None) => true,
        DepRestrictView::Repo(None) => true,
        _ => false,
    }
}

/// Whether the package version `v` satisfies a dependency component restriction: the
/// category, name and version restrictions apply to it, and the other components, which
/// a package version lacks, match only when they ask for nothing.
pub open spec fn spec_matches_cpv(r: DepRestrictView, v: CpvView) -> bool {
    match r {
        DepRestrictView::Category(x) => str_matches(x, v.category),
        DepRestrictView::Package(x) => str_matches(x, v.package),
        DepRestrictView::Version(Some(w)) => version_satisfies(w, v.version),
        DepRestrictView::Blocker(None) => true,
        DepRestrictView::Slot(None) => true,
        DepRestrictView::Subslot(None) => true,
        DepRestrictView::UseDeps(None) => true,
        DepRestrictView::Repo(None) => true,
        _ => false,
    }
}

/// Wraps an optional string in an equality restriction.
fn opt_equal(o: Option<&str>) -> (r: Option<StrRestrict>)
    ensures
        match o {
            Some(s) => opt_view(r) == Some(StrRestrictView::Equal(s@)),
            None => r is None,
        },
{
    match o {
        Some(s) => Some(StrRestrict::equal(s)),
        None => None,
    }
}

impl Restrict {
    /// Restricts the category to equal `s`.
    pub fn category(s: &str) -> (r: Restrict)
        ensures
            r@ == DepRestrictView::Category(StrRestrictView::Equal(s@)),
    {
        Restrict::Category(StrRestrict::equal(s))
    }

    /// Restricts the package name to equal `s`.
    pub fn package(s: &str) -> (r: Restrict)
        ensures
            r@ == DepRestrictView::Package(StrRestrictView::Equal(s@)),
    {
        Restrict::Package(StrRestrict::equal(s))
    }

    /// Restricts the version to the one `s` spells, optionally with an operator; fails
    /// where `s` is no version.
    pub fn version(s: &str) -> (r: crate::Result<Restrict>)
        ensures
            match r {
                Ok(x) => spec_version_str(s@) matches Some(v) && x@ == DepRestrictView::Version(
                    Some(v),
                ),
                Err(e) => spec_version_str(s@) is None && e.spec_message() == "invalid version: "@
                    + s@,
            },
    {
        match version_str(s) {
            Some(v) => Ok(Restrict::Version(Some(v))),
            None => {
                let mut msg = "invalid version: ".to_owned();
                msg.append(s);
                proof {
                    reveal_strlit("invalid version: ");
                }
                Err(Error::InvalidValue(msg))
            },
        }
    }

    /// Restricts the USE dependencies to the comma separated list `s`; fails where `s` is
    /// no such list.
    pub fn use_deps(s: &str) -> (r: crate::Result<Restrict>)
        ensures
            match r {
                Ok(x) => spec_use_deps_str(s@) matches Some(u) && x@ == DepRestrictView::UseDeps(
                    Some(u),
                ),
                Err(e) => spec_use_deps_str(s@) is None && e.spec_message()
                    == "invalid use deps: "@ + s@,
            },
    {
        match use_deps_str(s) {
            Some(u) => {
                let r = Restrict::UseDeps(Some(u));
                assert(u@.map_values(|d: UseDep| d@) =~= use_views(u@));
                Ok(r)
            },
            None => {
                let mut msg = "invalid use deps: ".to_owned();
                msg.append(s);
                proof {
                    reveal_strlit("invalid use deps: ");
                }
                Err(Error::InvalidValue(msg))
            },
        }
    }

    /// Restricts the slot to equal the given one, or to be absent.
    pub fn slot(o: Option<&str>) -> (r: Restrict)
        ensures
            r@ == DepRestrictView::Slot(
                match o {
                    Some(s) => Some(StrRestrictView::Equal(s@)),
                    None => None,
                },
            ),
    {
        Restrict::Slot(opt_equal(o))
    }

    /// Restricts the subslot to equal the given one, or to be absent.
    pub fn subslot(o: Option<&str>) -> (r: Restrict)
        ensures
            r@ == DepRestrictView::Subslot(
                match o {
                    Some(s) => Some(StrRestrictView::Equal(s@)),
                    None => None,
                },
            ),
    {
        Restrict::Subslot(opt_equal(o))
    }

    /// Restricts the repository to equal the given one, or to be absent.
    pub fn repo(o: Option<&str>) -> (r: Restrict)
        ensures
            r@ == DepRestrictView::Repo(
                match o {
                    Some(s) => Some(StrRestrictView::Equal(s@)),
                    None => None,
                },
            ),
    {
        Restrict::Repo(opt_equal(o))
    }

    /// Whether a bare string satisfies the restriction.
    pub fn matches_str(&self, s: &str) -> (b: bool)
        ensures
            b == spec_matches_str(self@, s@),
    {
        match self {
            Restrict::Category(r) => r.matches(s),
            Restrict::Package(r) => r.matches(s),
            Restrict::Slot(Some(r)) => r.matches(s),
            Restrict::Subslot(Some(r)) => r.matches(s),
            Restrict::Repo(Some(r)) => r.matches(s),
            _ => false,
        }
    }

    /// Whether a package version satisfies the restriction.
    pub fn matches_cpv(&self, cpv: &Cpv) -> (b: bool)
        ensures
            b == spec_matches_cpv(self@, cpv@),
    {
        match self {
            Restrict::Category(r) => r.matches(cpv.category.as_str()),
            Restrict::Package(r) => r.matches(cpv.package.as_str()),
            Restrict::Version(Some(v)) => v.satisfied_by(&cpv.version),
            Restrict::Blocker(None) => true,
            Restrict::Slot(None) => true,
            Restrict::Subslot(None) => true,
            Restrict::UseDeps(None) => true,
            Restrict::Repo(None) => true,
            _ => false,
        }
    }

    /// Whether a package satisfies the restriction.
    pub fn matches_cpn(&self, cpn: &Cpn) -> (b: bool)
        ensures
            b == spec_matches_cpn(self@, cpn@.0, cpn@.1),
    {
        match self {
            Restrict::Category(r) => r.matches(cpn.category()),
            Restrict::Package(r) => r.matches(cpn.package()),
            Restrict::Version(None) => true,
            Restrict::Blocker(None) => true,
            Restrict::Slot(None) => true,
            Restrict::Subslot(None) => true,
            Restrict::UseDeps(None) => true,
            Restrict::Repo(None) => true,
            _ => false,
        }
    }
}

}
