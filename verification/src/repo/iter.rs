//! How the packages of a repository are walked for a restriction: which restrictions on
//! the category, package name and version narrow the walk, and in what way.

use vstd::prelude::*;

use crate::dep::version::{
    consistent, flipped, valid_version, version_order, version_order_consistent, version_satisfies,
    version_order_flips, VerOrder,
};
use crate::dep::{Cpn, Cpv, CpvView, Operator, Version, VersionView};
use crate::pkgsh::metadata::{
    lemma_lex_irreflexive, lemma_lex_transitive, lemma_lex_trichotomy, lex_less, str_less,
};
use crate::text::str_eq;
use crate::restrict::dep::{DepRestrictView, Restrict as DepRestrict};
use crate::restrict::str::{
    restrict_views as str_views, BoolOp, Restrict as StrRestrict, StrRestrictView,
};
use crate::restrict::str::spec_matches as str_matches;
use crate::restrict::{
    and_matches_all, combined, flatten, restrict_views, spec_matches_cpn, spec_matches_cpv,
    spec_matches_str,
    Restrict, RestrictView,
};
use crate::types::string_views;

verus! {

/// The members of a restriction that are read separately: those of a conjunction, else the
/// restriction itself.
pub open spec fn members(r: RestrictView) -> Seq<RestrictView> {
    match r {
        RestrictView::And(vs) => vs,
        _ => seq![r],
    }
}

/// The members of an optional restriction.
pub open spec fn opt_members(r: Option<RestrictView>) -> Seq<RestrictView> {
    match r {
        Some(v) => members(v),
        None => seq![],
    }
}

/// In order, the string restrictions that members put on the category.
pub open spec fn category_restricts(ms: Seq<RestrictView>) -> Seq<StrRestrictView>
    decreases ms.len(),
{
    if ms.len() == 0 {
        seq![]
    } else {
        let rest = category_restricts(ms.drop_last());
        match ms.last() {
            RestrictView::Dep(DepRestrictView::Category(x)) => rest.push(x),
            _ => rest,
        }
    }
}

/// In order, the string restrictions that members put on the package name.
pub open spec fn package_restricts(ms: Seq<RestrictView>) -> Seq<StrRestrictView>
    decreases ms.len(),
{
    if ms.len() == 0 {
        seq![]
    } else {
        let rest = package_restricts(ms.drop_last());
        match ms.last() {
            RestrictView::Dep(DepRestrictView::Package(x)) => rest.push(x),
            _ => rest,
        }
    }
}

/// In order, the restrictions that members put on the version.
pub open spec fn version_restricts(ms: Seq<RestrictView>) -> Seq<Option<VersionView>>
    decreases ms.len(),
{
    if ms.len() == 0 {
        seq![]
    } else {
        let rest = version_restricts(ms.drop_last());
        match ms.last() {
            RestrictView::Dep(DepRestrictView::Version(v)) => rest.push(v),
            _ => rest,
        }
    }
}

/// The value of the one restriction in `rs`, when there is exactly one and it asks for
/// equality.
pub open spec fn sole_equal(rs: Seq<StrRestrictView>) -> Option<Seq<char>> {
    if rs.len() == 1 {
        match rs[0] {
            StrRestrictView::Equal(s) => Some(s),
            _ => None,
        }
    } else {
        None
    }
}

/// The conjunction of restrictions, combined as `Restrict::and` combines them.
pub open spec fn conjunction(rs: Seq<RestrictView>) -> RestrictView {
    combined(BoolOp::And, flatten(BoolOp::And, rs))
}

/// String restrictions as restrictions of their own.
pub open spec fn as_str_restricts(rs: Seq<StrRestrictView>) -> Seq<RestrictView> {
    rs.map_values(|x: StrRestrictView| RestrictView::Str(x))
}

/// Category restrictions as dependency restrictions.
pub open spec fn as_category_restricts(rs: Seq<StrRestrictView>) -> Seq<RestrictView> {
    rs.map_values(|x: StrRestrictView| RestrictView::Dep(DepRestrictView::Category(x)))
}

/// Package name restrictions as dependency restrictions.
pub open spec fn as_package_restricts(rs: Seq<StrRestrictView>) -> Seq<RestrictView> {
    rs.map_values(|x: StrRestrictView| RestrictView::Dep(DepRestrictView::Package(x)))
}

/// Version restrictions as dependency restrictions.
pub open spec fn as_version_restricts(rs: Seq<Option<VersionView>>) -> Seq<RestrictView> {
    rs.map_values(|x: Option<VersionView>| RestrictView::Dep(DepRestrictView::Version(x)))
}

/// How the packages (category and name) of a repository are walked.
#[derive(Debug)]
pub enum CpnPlan {
    /// Nothing can match.
    Empty,
    /// Every package of the repository, in order.
    All,
    /// The one package, where the repository holds it.
    Exact { category: String, package: String },
    /// The packages of one category whose names match.
    Package { category: String, restrict: Restrict },
    /// The package of that name in each matching category that holds it.
    Category { package: String, restrict: Restrict },
    /// The matching packages of the matching categories.
    Custom { cat_restrict: Restrict, pkg_restrict: Restrict },
}

/// The mathematical form of a package walk.
pub enum CpnPlanView {
    Empty,
    All,
    Exact(Seq<char>, Seq<char>),
    Package(Seq<char>, RestrictView),
    Category(Seq<char>, RestrictView),
    Custom(RestrictView, RestrictView),
}

impl View for CpnPlan {
    type V = CpnPlanView;

    open spec fn view(&self) -> CpnPlanView {
        match self {
            CpnPlan::Empty => CpnPlanView::Empty,
            CpnPlan::All => CpnPlanView::All,
            CpnPlan::Exact { category, package } => CpnPlanView::Exact(category@, package@),
            CpnPlan::Package { category, restrict } => CpnPlanView::Package(
                category@,
                restrict@,
            ),
            CpnPlan::Category { package, restrict } => CpnPlanView::Category(
                package@,
                restrict@,
            ),
            CpnPlan::Custom { cat_restrict, pkg_restrict } => CpnPlanView::Custom(
                cat_restrict@,
                pkg_restrict@,
            ),
        }
    }
}

/// The package walk for an optional restriction: `False` matches nothing; without
/// restrictions on the category or name every package is walked; a sole equality on both
/// names one package; a sole equality on the category or on the name fixes that part and
/// the other restrictions filter the rest; else both parts are filtered.
pub open spec fn spec_cpn_plan(r: Option<RestrictView>) -> CpnPlanView {
    if r == Some(RestrictView::False) {
        CpnPlanView::Empty
    } else {
        let cats = category_restricts(opt_members(r));
        let pkgs = package_restricts(opt_members(r));
        if cats.len() == 0 && pkgs.len() == 0 {
            CpnPlanView::All
        } else {
            match (sole_equal(cats), sole_equal(pkgs)) {
                (Some(c), Some(p)) => CpnPlanView::Exact(c, p),
                (Some(c), None) => CpnPlanView::Package(c, conjunction(as_str_restricts(pkgs))),
                (None, Some(p)) => CpnPlanView::Category(p, conjunction(as_str_restricts(cats))),
                (None, None) => CpnPlanView::Custom(
                    conjunction(as_str_restricts(cats)),
                    conjunction(as_str_restricts(pkgs)),
                ),
            }
        }
    }
}

/// The views of optional versions.
pub open spec fn opt_version_views(vs: Seq<Option<Version>>) -> Seq<Option<VersionView>> {
    vs.map_values(
        |v: Option<Version>|
            match v {
                Some(x) => Some(x@),
                None => None,
            },
    )
}

/// The restrictions on the category, name and version, in the order they stand.
struct Parts {
    cats: Vec<StrRestrict>,
    pkgs: Vec<StrRestrict>,
    vers: Vec<Option<Version>>,
}

impl Parts {
    spec fn views_are(self, ms: Seq<RestrictView>) -> bool {
        &&& str_views(self.cats@) == category_restricts(ms)
        &&& str_views(self.pkgs@) == package_restricts(ms)
        &&& opt_version_views(self.vers@) == version_restricts(ms)
    }

    /// Files one member under the part it restricts, if any.
    fn add(&mut self, m: Restrict)
        ensures
            forall|ms: Seq<RestrictView>| #[trigger]
                old(self).views_are(ms) ==> final(self).views_are(ms.push(m@)),
    {
        let ghost mv = m@;
        match m {
            Restrict::Dep(DepRestrict::Category(x)) => {
                self.cats.push(x);
            },
            Restrict::Dep(DepRestrict::Package(x)) => {
                self.pkgs.push(x);
            },
            Restrict::Dep(DepRestrict::Version(v)) => {
                self.vers.push(v);
            },
            _ => {},
        }
        assert forall|ms: Seq<RestrictView>| #[trigger]
            old(self).views_are(ms) implies self.views_are(ms.push(mv)) by {
            assert(ms.push(mv).drop_last() =~= ms);
            assert(str_views(self.cats@) =~= category_restricts(ms.push(mv)));
            assert(str_views(self.pkgs@) =~= package_restricts(ms.push(mv)));
            assert(opt_version_views(self.vers@) =~= version_restricts(ms.push(mv)));
        }
    }
}

/// Splits a restriction's members by the part of a package they restrict.
fn split_parts(r: Restrict) -> (p: Parts)
    ensures
        p.views_are(members(r@)),
{
    let mut p = Parts { cats: Vec::new(), pkgs: Vec::new(), vers: Vec::new() };
    assert(p.views_are(Seq::empty())) by {
        assert(str_views(p.cats@) =~= Seq::<StrRestrictView>::empty());
        assert(str_views(p.pkgs@) =~= Seq::<StrRestrictView>::empty());
        assert(opt_version_views(p.vers@) =~= Seq::<Option<VersionView>>::empty());
    }
    let ghost rv = r@;
    match r {
        Restrict::And(vals) => {
            let ghost all = vals@;
            let ghost vs = rv->And_0;
            assert(vs.len() == all.len());
            for b in it: vals
                invariant
                    it.seq() == all,
                    vs.len() == all.len(),
                    forall|i: int| 0 <= i < all.len() ==> vs[i] == all[i]@,
                    p.views_are(vs.take(it.index() as int)),
            {
                let ghost i = it.index() as int;
                assert(vs.take(i + 1) =~= vs.take(i).push(b@));
                p.add(*b);
            }
            assert(vs.take(all.len() as int) =~= vs);
        },
        other => {
            p.add(other);
            assert(Seq::<RestrictView>::empty().push(rv) =~= seq![rv]);
        },
    }
    p
}

/// Whether `rs` is one equality restriction.
fn is_sole_equal(rs: &Vec<StrRestrict>) -> (b: bool)
    ensures
        b == (sole_equal(str_views(rs@)) is Some),
{
    if rs.len() == 1 {
        match &rs[0] {
            StrRestrict::Equal(_) => true,
            _ => false,
        }
    } else {
        false
    }
}

/// The value of the sole equality restriction of `rs`.
fn take_sole_equal(rs: Vec<StrRestrict>) -> (s: String)
    requires
        sole_equal(str_views(rs@)) is Some,
    ensures
        sole_equal(str_views(rs@)) == Some(s@),
{
    let mut rs = rs;
    let ghost v = str_views(rs@);
    match rs.pop() {
        Some(StrRestrict::Equal(s)) => s,
        _ => {
            proof {
                assert(false);
            }
            String::new()
        },
    }
}

/// Wraps string restrictions as restrictions of their own.
fn wrap_str(rs: Vec<StrRestrict>) -> (v: Vec<Restrict>)
    ensures
        restrict_views(v@) == as_str_restricts(str_views(rs@)),
{
    let mut v: Vec<Restrict> = Vec::new();
    let ghost all = rs@;
    for x in it: rs
        invariant
            it.seq() == all,
            restrict_views(v@) == as_str_restricts(str_views(all.take(it.index() as int))),
    {
        let ghost i = it.index() as int;
        assert(x == all[i]);
        let ghost before = v@;
        assert(restrict_views(before).len() == i);
        v.push(Restrict::Str(x));
        assert forall|j: int| 0 <= j < i + 1 implies restrict_views(v@)[j]
            == as_str_restricts(str_views(all.take(i + 1)))[j] by {
            if j < i {
                assert(restrict_views(before)[j] == as_str_restricts(str_views(all.take(i)))[j]);
            } else {
                assert(v@[j] == Restrict::Str(all[i]));
            }
        }
        assert(restrict_views(v@) =~= as_str_restricts(str_views(all.take(i + 1))));
    }
    assert(all.take(all.len() as int) =~= all);
    v
}

/// Wraps category restrictions as dependency restrictions.
fn wrap_categories(rs: Vec<StrRestrict>) -> (v: Vec<Restrict>)
    ensures
        restrict_views(v@) == as_category_restricts(str_views(rs@)),
{
    let mut v: Vec<Restrict> = Vec::new();
    let ghost all = rs@;
    for x in it: rs
        invariant
            it.seq() == all,
            restrict_views(v@) == as_category_restricts(str_views(all.take(it.index() as int))),
    {
        let ghost i = it.index() as int;
        assert(x == all[i]);
        let ghost before = v@;
        assert(restrict_views(before).len() == i);
        v.push(Restrict::Dep(DepRestrict::Category(x)));
        assert forall|j: int| 0 <= j < i + 1 implies restrict_views(v@)[j]
            == as_category_restricts(str_views(all.take(i + 1)))[j] by {
            if j < i {
                assert(restrict_views(before)[j] == as_category_restricts(str_views(all.take(i)))[j]);
            } else {
                assert(v@[j] == Restrict::Dep(DepRestrict::Category(all[i])));
            }
        }
        assert(restrict_views(v@) =~= as_category_restricts(str_views(all.take(i + 1))));
    }
    assert(all.take(all.len() as int) =~= all);
    v
}

/// Wraps package name restrictions as dependency restrictions.
fn wrap_packages(rs: Vec<StrRestrict>) -> (v: Vec<Restrict>)
    ensures
        restrict_views(v@) == as_package_restricts(str_views(rs@)),
{
    let mut v: Vec<Restrict> = Vec::new();
    let ghost all = rs@;
    for x in it: rs
        invariant
            it.seq() == all,
            restrict_views(v@) == as_package_restricts(str_views(all.take(it.index() as int))),
    {
        let ghost i = it.index() as int;
        assert(x == all[i]);
        let ghost before = v@;
        assert(restrict_views(before).len() == i);
        v.push(Restrict::Dep(DepRestrict::Package(x)));
        assert forall|j: int| 0 <= j < i + 1 implies restrict_views(v@)[j]
            == as_package_restricts(str_views(all.take(i + 1)))[j] by {
            if j < i {
                assert(restrict_views(before)[j] == as_package_restricts(str_views(all.take(i)))[j]);
            } else {
                assert(v@[j] == Restrict::Dep(DepRestrict::Package(all[i])));
            }
        }
        assert(restrict_views(v@) =~= as_package_restricts(str_views(all.take(i + 1))));
    }
    assert(all.take(all.len() as int) =~= all);
    v
}

/// Wraps version restrictions as dependency restrictions.
fn wrap_versions(rs: Vec<Option<Version>>) -> (v: Vec<Restrict>)
    ensures
        restrict_views(v@) == as_version_restricts(opt_version_views(rs@)),
{
    let mut v: Vec<Restrict> = Vec::new();
    let ghost all = rs@;
    for x in it: rs
        invariant
            it.seq() == all,
            restrict_views(v@) == as_version_restricts(
                opt_version_views(all.take(it.index() as int)),
            ),
    {
        let ghost i = it.index() as int;
        assert(x == all[i]);
        let ghost before = v@;
        assert(restrict_views(before).len() == i);
        v.push(Restrict::Dep(DepRestrict::Version(x)));
        assert forall|j: int| 0 <= j < i + 1 implies restrict_views(v@)[j]
            == as_version_restricts(opt_version_views(all.take(i + 1)))[j] by {
            if j < i {
                assert(restrict_views(before)[j] == as_version_restricts(opt_version_views(all.take(i)))[j]);
            } else {
                assert(v@[j] == Restrict::Dep(DepRestrict::Version(all[i])));
            }
        }
        assert(restrict_views(v@) =~= as_version_restricts(
            opt_version_views(all.take(i + 1)),
        ));
    }
    assert(all.take(all.len() as int) =~= all);
    v
}

/// The view of an optional restriction.
pub open spec fn opt_view(r: Option<Restrict>) -> Option<RestrictView> {
    match r {
        Some(x) => Some(x@),
        None => None,
    }
}

/// Chooses how to walk the packages of a repository for an optional restriction.
pub fn cpn_plan(restrict: Option<Restrict>) -> (p: CpnPlan)
    ensures
        p@ == spec_cpn_plan(opt_view(restrict)),
{
    let ghost r = opt_view(restrict);
    let parts = match restrict {
        Some(Restrict::False) => {
            return CpnPlan::Empty;
        },
        Some(x) => split_parts(x),
        None => {
            let p = Parts { cats: Vec::new(), pkgs: Vec::new(), vers: Vec::new() };
            assert(str_views(p.cats@) =~= category_restricts(Seq::empty()));
            assert(str_views(p.pkgs@) =~= package_restricts(Seq::empty()));
            assert(opt_version_views(p.vers@) =~= version_restricts(Seq::empty()));
            p
        },
    };
    assert(parts.views_are(opt_members(r)));
    let Parts { cats, pkgs, vers: _ } = parts;
    if cats.len() == 0 && pkgs.len() == 0 {
        return CpnPlan::All;
    }
    let cat_eq = is_sole_equal(&cats);
    let pkg_eq = is_sole_equal(&pkgs);
    if cat_eq && pkg_eq {
        let category = take_sole_equal(cats);
        let package = take_sole_equal(pkgs);
        CpnPlan::Exact { category, package }
    } else if cat_eq {
        let category = take_sole_equal(cats);
        let restrict = Restrict::and(wrap_str(pkgs));
        CpnPlan::Package { category, restrict }
    } else if pkg_eq {
        let package = take_sole_equal(pkgs);
        let restrict = Restrict::and(wrap_str(cats));
        CpnPlan::Category { package, restrict }
    } else {
        let cat_restrict = Restrict::and(wrap_str(cats));
        let pkg_restrict = Restrict::and(wrap_str(pkgs));
        CpnPlan::Custom { cat_restrict, pkg_restrict }
    }
}

/// How the package versions of a repository are walked.
#[derive(Debug)]
pub enum CpvPlan {
    /// Nothing can match.
    Empty,
    /// Every package version of the repository, in order.
    All,
    /// The one version of one package, where the repository holds it.
    Exact { category: String, package: String, version: Version },
    /// The versions of one package that match.
    Versions { category: String, package: String, restrict: Restrict },
    /// The matching versions of the packages of that name, in every category.
    NamedVersions { package: String, restrict: Restrict },
    /// The package versions of the matching categories that match the other restrictions.
    Custom { cat_restrict: Restrict, pkg_restrict: Restrict, ver_restrict: Restrict },
}

/// The mathematical form of a package version walk.
pub enum CpvPlanView {
    Empty,
    All,
    Exact(Seq<char>, Seq<char>, VersionView),
    Versions(Seq<char>, Seq<char>, RestrictView),
    NamedVersions(Seq<char>, RestrictView),
    Custom(RestrictView, RestrictView, RestrictView),
}

impl View for CpvPlan {
    type V = CpvPlanView;

    open spec fn view(&self) -> CpvPlanView {
        match self {
            CpvPlan::Empty => CpvPlanView::Empty,
            CpvPlan::All => CpvPlanView::All,
            CpvPlan::Exact { category, package, version } => CpvPlanView::Exact(
                category@,
                package@,
                version@,
            ),
            CpvPlan::Versions { category, package, restrict } => CpvPlanView::Versions(
                category@,
                package@,
                restrict@,
            ),
            CpvPlan::NamedVersions { package, restrict } => CpvPlanView::NamedVersions(
                package@,
                restrict@,
            ),
            CpvPlan::Custom { cat_restrict, pkg_restrict, ver_restrict } => CpvPlanView::Custom(
                cat_restrict@,
                pkg_restrict@,
                ver_restrict@,
            ),
        }
    }
}

/// The version, without its operator, of the one version restriction in `vs`, when there
/// is exactly one and it names a version with no operator or with `=`.
pub open spec fn sole_exact_version(vs: Seq<Option<VersionView>>) -> Option<VersionView> {
    if vs.len() == 1 {
        match vs[0] {
            Some(v) => if v.op is None || v.op == Some(Operator::Equal) {
                Some(VersionView { op: None, ..v })
            } else {
                None
            },
            None => None,
        }
    } else {
        None
    }
}

/// The package version walk for an optional restriction: `False` matches nothing; without
/// restrictions on the category, name or version every package version is walked; a sole
/// equality on both names with one exact version names one package version; a sole
/// equality on both names otherwise walks that package's versions; a sole equality on the
/// name without category restrictions walks the versions of that name in every category;
/// else every part is filtered.
pub open spec fn spec_cpv_plan(r: Option<RestrictView>) -> CpvPlanView {
    if r == Some(RestrictView::False) {
        CpvPlanView::Empty
    } else {
        let cats = category_restricts(opt_members(r));
        let pkgs = package_restricts(opt_members(r));
        let vers = version_restricts(opt_members(r));
        let ver_restrict = conjunction(as_version_restricts(vers));
        if cats.len() == 0 && pkgs.len() == 0 && vers.len() == 0 {
            CpvPlanView::All
        } else {
            match (sole_equal(cats), sole_equal(pkgs)) {
                (Some(c), Some(p)) => match sole_exact_version(vers) {
                    Some(v) => CpvPlanView::Exact(c, p, v),
                    None => CpvPlanView::Versions(c, p, ver_restrict),
                },
                (None, Some(p)) if cats.len() == 0 => CpvPlanView::NamedVersions(
                    p,
                    ver_restrict,
                ),
                _ => CpvPlanView::Custom(
                    conjunction(as_category_restricts(cats)),
                    conjunction(as_package_restricts(pkgs)),
                    ver_restrict,
                ),
            }
        }
    }
}

/// Whether `vs` is one restriction to an exact version.
fn is_sole_exact_version(vs: &Vec<Option<Version>>) -> (b: bool)
    ensures
        b == (sole_exact_version(opt_version_views(vs@)) is Some),
{
    if vs.len() == 1 {
        match &vs[0] {
            Some(v) => match v.op {
                None => true,
                Some(Operator::Equal) => true,
                _ => false,
            },
            None => false,
        }
    } else {
        false
    }
}

/// The version of the one restriction to an exact version in `vs`, without its operator.
fn take_sole_exact_version(vs: Vec<Option<Version>>) -> (v: Version)
    requires
        sole_exact_version(opt_version_views(vs@)) is Some,
    ensures
        sole_exact_version(opt_version_views(vs@)) == Some(v@),
{
    let mut vs = vs;
    let ghost views = opt_version_views(vs@);
    match vs.pop() {
        Some(Some(v)) => {
            let mut v = v;
            v.op = None;
            v
        },
        _ => {
            proof {
                assert(views[0] is Some);
            }
            Version {
                op: None,
                numbers: Vec::new(),
                letter: None,
                suffixes: Vec::new(),
                revision: crate::dep::Revision::empty(),
            }
        },
    }
}

/// Chooses how to walk the package versions of a repository for an optional restriction.
pub fn cpv_plan(restrict: Option<Restrict>) -> (p: CpvPlan)
    ensures
        p@ == spec_cpv_plan(opt_view(restrict)),
{
    let ghost r = opt_view(restrict);
    let parts = match restrict {
        Some(Restrict::False) => {
            return CpvPlan::Empty;
        },
        Some(x) => split_parts(x),
        None => {
            let p = Parts { cats: Vec::new(), pkgs: Vec::new(), vers: Vec::new() };
            assert(str_views(p.cats@) =~= category_restricts(Seq::empty()));
            assert(str_views(p.pkgs@) =~= package_restricts(Seq::empty()));
            assert(opt_version_views(p.vers@) =~= version_restricts(Seq::empty()));
            p
        },
    };
    assert(parts.views_are(opt_members(r)));
    let Parts { cats, pkgs, vers } = parts;
    if cats.len() == 0 && pkgs.len() == 0 && vers.len() == 0 {
        return CpvPlan::All;
    }
    let cat_eq = is_sole_equal(&cats);
    let pkg_eq = is_sole_equal(&pkgs);
    if cat_eq && pkg_eq {
        let category = take_sole_equal(cats);
        let package = take_sole_equal(pkgs);
        if is_sole_exact_version(&vers) {
            let version = take_sole_exact_version(vers);
            CpvPlan::Exact { category, package, version }
        } else {
            let restrict = Restrict::and(wrap_versions(vers));
            CpvPlan::Versions { category, package, restrict }
        }
    } else if pkg_eq && cats.len() == 0 {
        let package = take_sole_equal(pkgs);
        let restrict = Restrict::and(wrap_versions(vers));
        CpvPlan::NamedVersions { package, restrict }
    } else {
        let cat_restrict = Restrict::and(wrap_categories(cats));
        let pkg_restrict = Restrict::and(wrap_packages(pkgs));
        let ver_restrict = Restrict::and(wrap_versions(vers));
        CpvPlan::Custom { cat_restrict, pkg_restrict, ver_restrict }
    }
}

/// The names among `names` that satisfy `r`, in order.
pub open spec fn matching(r: RestrictView, names: Seq<Seq<char>>) -> Seq<Seq<char>>
    decreases names.len(),
{
    if names.len() == 0 {
        seq![]
    } else if spec_matches_str(r, names[0]) {
        seq![names[0]] + matching(r, names.drop_first())
    } else {
        matching(r, names.drop_first())
    }
}

/// Filtering names one more name long adds that name at the end when it matches.
proof fn matching_push(r: RestrictView, names: Seq<Seq<char>>, x: Seq<char>)
    ensures
        matching(r, names.push(x)) == matching(r, names) + (if spec_matches_str(r, x) {
            seq![x]
        } else {
            seq![]
        }),
    decreases names.len(),
{
    if names.len() == 0 {
        assert(names.push(x).drop_first() =~= Seq::<Seq<char>>::empty());
        assert(matching(r, seq![]) =~= Seq::<Seq<char>>::empty());
    } else {
        assert(names.push(x).drop_first() =~= names.drop_first().push(x));
        matching_push(r, names.drop_first(), x);
        if spec_matches_str(r, names[0]) {
            assert(matching(r, names.push(x)) =~= seq![names[0]] + matching(
                r,
                names.drop_first().push(x),
            ));
        }
    }
}

/// Keeps the names that satisfy a restriction, in order (how the categories of a
/// repository are narrowed for a walk).
pub fn matching_names(restrict: &Restrict, names: Vec<String>) -> (v: Vec<String>)
    ensures
        string_views(v@) == matching(restrict@, string_views(names@)),
{
    let mut v: Vec<String> = Vec::new();
    let ghost all = string_views(names@);
    assert(all.take(0) =~= Seq::<Seq<char>>::empty());
    for name in it: names
        invariant
            all == string_views(it.seq()),
            string_views(v@) == matching(restrict@, all.take(it.index() as int)),
    {
        let ghost i = it.index() as int;
        let ghost before = v@;
        assert(all[i] == name@);
        assert(all.take(i + 1) =~= all.take(i).push(name@));
        proof {
            matching_push(restrict@, all.take(i), name@);
        }
        if restrict.matches_str(name.as_str()) {
            v.push(name);
            assert(string_views(v@) =~= string_views(before) + seq![all[i]]);
        }
    }
    assert(all.take(all.len() as int) =~= all);
    v
}

/// The least position from `pos` on whose name satisfies `r`.
pub open spec fn first_match(r: RestrictView, names: Seq<Seq<char>>, pos: int) -> Option<int>
    decreases names.len() - pos,
{
    if pos < 0 || pos >= names.len() {
        None
    } else if spec_matches_str(r, names[pos]) {
        Some(pos)
    } else {
        first_match(r, names, pos + 1)
    }
}

/// A walk through the packages of a sequence of categories: it asks for the package names
/// of each category in turn and yields those that satisfy its restriction.
pub struct PackageWalk {
    categories: Vec<String>,
    next_category: usize,
    current: Option<(String, Vec<String>, usize)>,
    restrict: Restrict,
}

/// The mathematical form of a package walk: the categories, the index of the next one to
/// list, the category being searched with its names and the position reached, and the
/// restriction on names.
pub struct PackageWalkView {
    pub categories: Seq<Seq<char>>,
    pub next_category: nat,
    pub current: Option<(Seq<char>, Seq<Seq<char>>, nat)>,
    pub restrict: RestrictView,
}

impl View for PackageWalk {
    type V = PackageWalkView;

    closed spec fn view(&self) -> PackageWalkView {
        PackageWalkView {
            categories: string_views(self.categories@),
            next_category: self.next_category as nat,
            current: match self.current {
                Some((c, ps, pos)) => Some((c@, string_views(ps@), pos as nat)),
                None => None,
            },
            restrict: self.restrict@,
        }
    }
}

/// What a walk asks for or yields next.
#[derive(Debug, PartialEq, Eq)]
pub enum WalkStep {
    /// The package names of this category are wanted, through `PackageWalk::enter`.
    List(String),
    /// A matching package: its category and name.
    Found(String, String),
    /// No category is left.
    Done,
}

/// The mathematical form of a walk step.
pub enum WalkStepView {
    List(Seq<char>),
    Found(Seq<char>, Seq<char>),
    Done,
}

impl View for WalkStep {
    type V = WalkStepView;

    open spec fn view(&self) -> WalkStepView {
        match self {
            WalkStep::List(c) => WalkStepView::List(c@),
            WalkStep::Found(c, p) => WalkStepView::Found(c@, p@),
            WalkStep::Done => WalkStepView::Done,
        }
    }
}

/// One step of a walk: the next matching name of the category being searched, if any
/// remains; else that category is dropped and the next category is asked for, or the walk
/// is done.
pub open spec fn spec_step(w: PackageWalkView) -> (PackageWalkView, WalkStepView) {
    let found = match w.current {
        Some((c, ps, pos)) => match first_match(w.restrict, ps, pos as int) {
            Some(j) => Some((c, ps, j)),
            None => None,
        },
        None => None,
    };
    match found {
        Some((c, ps, j)) => (
            PackageWalkView { current: Some((c, ps, (j + 1) as nat)), ..w },
            WalkStepView::Found(c, ps[j]),
        ),
        None => if w.next_category < w.categories.len() {
            (
                PackageWalkView { current: None, next_category: w.next_category + 1, ..w },
                WalkStepView::List(w.categories[w.next_category as int]),
            )
        } else {
            (PackageWalkView { current: None, ..w }, WalkStepView::Done)
        },
    }
}

impl PackageWalk {
    /// A walk through the packages of `categories`, in order, keeping the names that satisfy
    /// `restrict`.
    pub fn new(categories: Vec<String>, restrict: Restrict) -> (w: PackageWalk)
        ensures
            w@ == (PackageWalkView {
                categories: string_views(categories@),
                next_category: 0,
                current: None,
                restrict: restrict@,
            }),
    {
        PackageWalk { categories, next_category: 0, current: None, restrict }
    }

    /// Starts searching the package names of a category, from the first.
    pub fn enter(&mut self, category: String, packages: Vec<String>)
        ensures
            final(self)@ == (PackageWalkView {
                current: Some((category@, string_views(packages@), 0nat)),
                ..old(self)@
            }),
    {
        self.current = Some((category, packages, 0));
    }

    /// Takes one step of the walk.
    pub fn step(&mut self) -> (s: WalkStep)
        ensures
            (final(self)@, s@) == spec_step(old(self)@),
    {
        let ghost w = self@;
        match self.current.take() {
            Some((category, packages, start)) => {
                let mut pos = start;
                while pos < packages.len()
                    invariant
                        w == old(self)@,
                        start <= pos,
                        w.current == Some((category@, string_views(packages@), start as nat)),
                        first_match(self.restrict@, string_views(packages@), start as int)
                            == first_match(self.restrict@, string_views(packages@), pos as int),
                        self.restrict@ == w.restrict,
                        string_views(self.categories@) == w.categories,
                        self.next_category == w.next_category,
                        self.current is None,
                    decreases packages.len() - pos,
                {
                    assert(string_views(packages@)[pos as int] == packages@[pos as int]@);
                    if self.restrict.matches_str(packages[pos].as_str()) {
                        let c = category.clone();
                        let p = packages[pos].clone();
                        self.current = Some((category, packages, pos + 1));
                        return WalkStep::Found(c, p);
                    }
                    pos = pos + 1;
                }
            },
            None => {},
        }
        if self.next_category < self.categories.len() {
            let c = self.categories[self.next_category].clone();
            self.next_category = self.next_category + 1;
            WalkStep::List(c)
        } else {
            WalkStep::Done
        }
    }
}

/// The names matching from `pos` on are the first match followed by those matching after it.
proof fn first_match_splits(r: RestrictView, ps: Seq<Seq<char>>, pos: int)
    requires
        0 <= pos <= ps.len(),
    ensures
        match first_match(r, ps, pos) {
            Some(j) => pos <= j < ps.len() && matching(r, ps.skip(pos)) == seq![ps[j]]
                + matching(r, ps.skip(j + 1)),
            None => matching(r, ps.skip(pos)) == Seq::<Seq<char>>::empty(),
        },
    decreases ps.len() - pos,
{
    if pos == ps.len() {
        assert(ps.skip(pos) =~= Seq::<Seq<char>>::empty());
    } else {
        assert(ps.skip(pos).drop_first() =~= ps.skip(pos + 1));
        assert(ps.skip(pos)[0] == ps[pos]);
        if !spec_matches_str(r, ps[pos]) {
            first_match_splits(r, ps, pos + 1);
        }
    }
}

/// Within the category being searched, each step of a walk yields the first of the names
/// still to be found that satisfy the restriction, and leaves the others to be found in
/// order; once none remains, the category is dropped and nothing is yielded.
pub proof fn walk_yields_remaining_matches(w: PackageWalkView)
    requires
        match w.current {
            Some((_, ps, pos)) => pos <= ps.len(),
            None => false,
        },
    ensures
        match (w.current, spec_step(w)) {
            (Some((c, ps, pos)), (next, s)) => {
                let remaining = matching(w.restrict, ps.skip(pos as int));
                if remaining.len() > 0 {
                    &&& s == WalkStepView::Found(c, remaining[0])
                    &&& next.categories == w.categories
                    &&& next.next_category == w.next_category
                    &&& next.restrict == w.restrict
                    &&& match next.current {
                        Some((c2, ps2, pos2)) => c2 == c && ps2 == ps && pos2 <= ps.len()
                            && matching(w.restrict, ps.skip(pos2 as int))
                            == remaining.drop_first(),
                        None => false,
                    }
                } else {
                    &&& next.current is None
                    &&& !(s is Found)
                }
            },
            _ => true,
        },
{
    match w.current {
        Some((c, ps, pos)) => {
            first_match_splits(w.restrict, ps, pos as int);
            match first_match(w.restrict, ps, pos as int) {
                Some(j) => {
                    let remaining = matching(w.restrict, ps.skip(pos as int));
                    assert(remaining[0] == ps[j]);
                    assert(remaining.drop_first() =~= matching(w.restrict, ps.skip(j + 1)));
                },
                None => {},
            }
        },
        None => {},
    }
}

/// Whether a package walk reaches the package `c`/`p`.
pub open spec fn plan_reaches(plan: CpnPlanView, c: Seq<char>, p: Seq<char>) -> bool {
    match plan {
        CpnPlanView::Empty => false,
        CpnPlanView::All => true,
        CpnPlanView::Exact(c0, p0) => c == c0 && p == p0,
        CpnPlanView::Package(c0, r) => c == c0 && spec_matches_str(r, p),
        CpnPlanView::Category(p0, r) => p == p0 && spec_matches_str(r, c),
        CpnPlanView::Custom(cr, pr) => spec_matches_str(cr, c) && spec_matches_str(pr, p),
    }
}

/// A package that a restriction matches satisfies each of its members.
proof fn members_match(r: RestrictView, c: Seq<char>, p: Seq<char>)
    requires
        spec_matches_cpn(r, c, p),
    ensures
        forall|i: int| 0 <= i < members(r).len() ==> spec_matches_cpn(#[trigger] members(r)[i], c, p),
{
    if !(r is And) {
        assert(members(r) == seq![r]);
    }
}

/// The category restrictions of members that a package satisfies match its category.
proof fn category_restricts_match(ms: Seq<RestrictView>, c: Seq<char>, p: Seq<char>)
    requires
        forall|i: int| 0 <= i < ms.len() ==> spec_matches_cpn(#[trigger] ms[i], c, p),
    ensures
        forall|j: int|
            0 <= j < category_restricts(ms).len() ==> str_matches(
                #[trigger] category_restricts(ms)[j],
                c,
            ),
    decreases ms.len(),
{
    if ms.len() > 0 {
        assert forall|i: int| 0 <= i < ms.drop_last().len() implies spec_matches_cpn(
            #[trigger] ms.drop_last()[i],
            c,
            p,
        ) by {
            assert(ms.drop_last()[i] == ms[i]);
        }
        category_restricts_match(ms.drop_last(), c, p);
        assert(spec_matches_cpn(ms[ms.len() - 1], c, p));
        let rest = category_restricts(ms.drop_last());
        match ms.last() {
            RestrictView::Dep(DepRestrictView::Category(x)) => {
                assert(str_matches(x, c));
                assert forall|j: int| 0 <= j < rest.push(x).len() implies str_matches(
                    #[trigger] rest.push(x)[j],
                    c,
                ) by {
                    if j < rest.len() {
                        assert(rest.push(x)[j] == rest[j]);
                    }
                }
            },
            _ => {},
        }
    }
}

/// The name restrictions of members that a package satisfies match its name.
proof fn package_restricts_match(ms: Seq<RestrictView>, c: Seq<char>, p: Seq<char>)
    requires
        forall|i: int| 0 <= i < ms.len() ==> spec_matches_cpn(#[trigger] ms[i], c, p),
    ensures
        forall|j: int|
            0 <= j < package_restricts(ms).len() ==> str_matches(
                #[trigger] package_restricts(ms)[j],
                p,
            ),
    decreases ms.len(),
{
    if ms.len() > 0 {
        assert forall|i: int| 0 <= i < ms.drop_last().len() implies spec_matches_cpn(
            #[trigger] ms.drop_last()[i],
            c,
            p,
        ) by {
            assert(ms.drop_last()[i] == ms[i]);
        }
        package_restricts_match(ms.drop_last(), c, p);
        assert(spec_matches_cpn(ms[ms.len() - 1], c, p));
        let rest = package_restricts(ms.drop_last());
        match ms.last() {
            RestrictView::Dep(DepRestrictView::Package(x)) => {
                assert(str_matches(x, p));
                assert forall|j: int| 0 <= j < rest.push(x).len() implies str_matches(
                    #[trigger] rest.push(x)[j],
                    p,
                ) by {
                    if j < rest.len() {
                        assert(rest.push(x)[j] == rest[j]);
                    }
                }
            },
            _ => {},
        }
    }
}

/// The conjunction of string restrictions that all match `s` matches it.
proof fn conjunction_matches(xs: Seq<StrRestrictView>, s: Seq<char>)
    requires
        forall|j: int| 0 <= j < xs.len() ==> str_matches(#[trigger] xs[j], s),
    ensures
        spec_matches_str(conjunction(as_str_restricts(xs)), s),
{
    let vs = as_str_restricts(xs);
    and_matches_all(vs, s);
    assert forall|i: int| 0 <= i < vs.len() implies spec_matches_str(#[trigger] vs[i], s) by {
        assert(vs[i] == RestrictView::Str(xs[i]));
        assert(str_matches(xs[i], s));
    }
}

/// The package walk for a restriction reaches every package the restriction matches:
/// narrowing the walk by the category and name restrictions loses no match.
pub proof fn cpn_plan_reaches_matches(r: Option<RestrictView>, c: Seq<char>, p: Seq<char>)
    requires
        match r {
            Some(x) => spec_matches_cpn(x, c, p),
            None => true,
        },
    ensures
        plan_reaches(spec_cpn_plan(r), c, p),
{
    let ms = opt_members(r);
    match r {
        Some(x) => {
            members_match(x, c, p);
        },
        None => {},
    }
    assert forall|i: int| 0 <= i < ms.len() implies spec_matches_cpn(#[trigger] ms[i], c, p) by {}
    category_restricts_match(ms, c, p);
    package_restricts_match(ms, c, p);
    let cats = category_restricts(ms);
    let pkgs = package_restricts(ms);
    conjunction_matches(cats, c);
    conjunction_matches(pkgs, p);
    if sole_equal(cats) is Some {
        assert(str_matches(cats[0], c));
    }
    if sole_equal(pkgs) is Some {
        assert(str_matches(pkgs[0], p));
    }
}

/// Whether `a` sorts before `b`: by category, then by name.
pub open spec fn cpn_less(a: (Seq<char>, Seq<char>), b: (Seq<char>, Seq<char>)) -> bool {
    lex_less(a.0, b.0) || (a.0 == b.0 && lex_less(a.1, b.1))
}

/// Whether packages are in strictly increasing order, hence each listed once.
pub open spec fn cpns_sorted(s: Seq<(Seq<char>, Seq<char>)>) -> bool {
    forall|i: int, j: int| 0 <= i < j < s.len() ==> cpn_less(#[trigger] s[i], #[trigger] s[j])
}

/// The views of packages.
pub open spec fn cpn_views(v: Seq<Cpn>) -> Seq<(Seq<char>, Seq<char>)> {
    v.map_values(|c: Cpn| c@)
}

/// The view of a repository's listing: each category with its package names.
pub open spec fn listing_view(l: Seq<(String, Vec<String>)>) -> Seq<(Seq<char>, Seq<Seq<char>>)> {
    l.map_values(|e: (String, Vec<String>)| (e.0@, string_views(e.1@)))
}

/// Whether the listing holds the package `c`/`p`.
pub open spec fn listed(lv: Seq<(Seq<char>, Seq<Seq<char>>)>, c: Seq<char>, p: Seq<char>) -> bool {
    exists|i: int, j: int|
        0 <= i < lv.len() && 0 <= j < lv[i].1.len() && lv[i].0 == c && #[trigger] lv[i].1[j] == p
}

/// Whether the package `y` stands in the listing before category `i`, name `j`.
pub open spec fn walked(lv: Seq<(Seq<char>, Seq<Seq<char>>)>, i: int, j: int, y: (Seq<char>, Seq<char>)) -> bool {
    exists|i2: int, j2: int|
        0 <= i2 < lv.len() && 0 <= j2 < lv[i2].1.len() && (i2 < i || (i2 == i && j2 < j))
            && lv[i2].0 == y.0 && #[trigger] lv[i2].1[j2] == y.1
}

proof fn lemma_cpn_order(a: (Seq<char>, Seq<char>), b: (Seq<char>, Seq<char>), c: (Seq<char>, Seq<char>))
    ensures
        !cpn_less(a, a),
        !(cpn_less(a, b) && cpn_less(b, a)),
        a != b ==> cpn_less(a, b) || cpn_less(b, a),
        cpn_less(a, b) && cpn_less(b, c) ==> cpn_less(a, c),
{
    lemma_lex_irreflexive(a.0);
    lemma_lex_irreflexive(a.1);
    lemma_lex_trichotomy(a.0, b.0);
    lemma_lex_trichotomy(a.1, b.1);
    if cpn_less(a, b) && cpn_less(b, c) {
        if lex_less(a.0, b.0) && lex_less(b.0, c.0) {
            lemma_lex_transitive(a.0, b.0, c.0);
        }
        if lex_less(a.1, b.1) && lex_less(b.1, c.1) {
            lemma_lex_transitive(a.1, b.1, c.1);
        }
    }
}

/// Whether `a` sorts before `b`.
fn cpn_before(a: &Cpn, b: &Cpn) -> (r: bool)
    ensures
        r == cpn_less(a@, b@),
{
    if str_less(a.category.as_str(), b.category.as_str()) {
        true
    } else if str_eq(a.category.as_str(), b.category.as_str()) {
        str_less(a.package.as_str(), b.package.as_str())
    } else {
        false
    }
}

/// Adds a package to a sorted list of packages, where it is not there yet.
fn insert_sorted(out: &mut Vec<Cpn>, x: Cpn)
    requires
        cpns_sorted(cpn_views(old(out)@)),
    ensures
        cpns_sorted(cpn_views(final(out)@)),
        forall|y: (Seq<char>, Seq<char>)|
            cpn_views(final(out)@).contains(y) <==> (cpn_views(old(out)@).contains(y) || y
                == x@),
{
    let ghost ov = cpn_views(out@);
    let mut k: usize = 0;
    while k < out.len() && cpn_before(&out[k], &x)
        invariant
            k <= out.len(),
            ov == cpn_views(out@),
            forall|i: int| 0 <= i < k ==> cpn_less(#[trigger] ov[i], x@),
        decreases out.len() - k,
    {
        k = k + 1;
    }
    if k < out.len() && str_eq(out[k].category.as_str(), x.category.as_str()) && str_eq(
        out[k].package.as_str(),
        x.package.as_str(),
    ) {
        assert(ov[k as int] == x@);
        assert forall|y: (Seq<char>, Seq<char>)|
            ov.contains(y) <==> (ov.contains(y) || y == x@) by {
            if y == x@ {
                assert(ov[k as int] == y);
            }
        }
        return;
    }
    let ghost xv = x@;
    proof {
        if k < ov.len() {
            lemma_cpn_order(ov[k as int], xv, xv);
        }
        let t = ov.insert(k as int, xv);
        assert forall|a: int, b: int| 0 <= a < b < t.len() implies cpn_less(
            #[trigger] t[a],
            #[trigger] t[b],
        ) by {
            if b < k {
                assert(t[a] == ov[a] && t[b] == ov[b]);
            } else if a > k {
                assert(t[a] == ov[a - 1] && t[b] == ov[b - 1]);
            } else if b == k {
                assert(t[a] == ov[a]);
            } else if a == k {
                assert(t[b] == ov[b - 1]);
                if b - 1 > k {
                    lemma_cpn_order(xv, ov[k as int], ov[b - 1]);
                }
            } else {
                assert(t[a] == ov[a] && t[b] == ov[b - 1]);
            }
        }
        assert forall|y: (Seq<char>, Seq<char>)| t.contains(y) <==> (ov.contains(y) || y == xv) by {
            if t.contains(y) {
                let q = choose|q: int| 0 <= q < t.len() && t[q] == y;
                if q < k {
                    assert(ov[q] == y);
                } else if q > k {
                    assert(ov[q - 1] == y);
                }
            }
            if ov.contains(y) {
                let q = choose|q: int| 0 <= q < ov.len() && ov[q] == y;
                if q < k {
                    assert(t[q] == y);
                } else {
                    assert(t[q + 1] == y);
                }
            }
            if y == xv {
                assert(t[k as int] == y);
            }
        }
    }
    out.insert(k, x);
    assert(cpn_views(out@) =~= ov.insert(k as int, xv));
}

/// Whether a package walk reaches the package `c`/`p`.
fn reaches(plan: &CpnPlan, c: &str, p: &str) -> (b: bool)
    ensures
        b == plan_reaches(plan@, c@, p@),
{
    match plan {
        CpnPlan::Empty => false,
        CpnPlan::All => true,
        CpnPlan::Exact { category, package } => str_eq(c, category.as_str()) && str_eq(
            p,
            package.as_str(),
        ),
        CpnPlan::Package { category, restrict } => str_eq(c, category.as_str())
            && restrict.matches_str(p),
        CpnPlan::Category { package, restrict } => str_eq(p, package.as_str())
            && restrict.matches_str(c),
        CpnPlan::Custom { cat_restrict, pkg_restrict } => cat_restrict.matches_str(c)
            && pkg_restrict.matches_str(p),
    }
}

/// Walks the packages of a repository, given as its categories with their package names,
/// along a plan: the packages the plan reaches that the repository holds, sorted by
/// category and name, each once. A package the plan names exactly is yielded only where
/// the repository holds it.
pub fn walk_cpns(plan: &CpnPlan, listing: &Vec<(String, Vec<String>)>) -> (r: Vec<Cpn>)
    ensures
        cpns_sorted(cpn_views(r@)),
        forall|y: (Seq<char>, Seq<char>)|
            cpn_views(r@).contains(y) <==> (listed(listing_view(listing@), y.0, y.1)
                && plan_reaches(plan@, y.0, y.1)),
{
    let ghost lv = listing_view(listing@);
    let mut out: Vec<Cpn> = Vec::new();
    let mut i: usize = 0;
    while i < listing.len()
        invariant
            i <= listing.len(),
            lv == listing_view(listing@),
            cpns_sorted(cpn_views(out@)),
            forall|y: (Seq<char>, Seq<char>)|
                cpn_views(out@).contains(y) <==> (walked(lv, i as int, 0, y) && plan_reaches(
                    plan@,
                    y.0,
                    y.1,
                )),
        decreases listing.len() - i,
    {
        let category = &listing[i].0;
        let packages = &listing[i].1;
        assert(lv[i as int] == (category@, string_views(packages@)));
        let mut j: usize = 0;
        while j < packages.len()
            invariant
                i < listing.len(),
                j <= packages.len(),
                lv == listing_view(listing@),
                lv[i as int] == (category@, string_views(packages@)),
                cpns_sorted(cpn_views(out@)),
                forall|y: (Seq<char>, Seq<char>)|
                    cpn_views(out@).contains(y) <==> (walked(lv, i as int, j as int, y)
                        && plan_reaches(plan@, y.0, y.1)),
            decreases packages.len() - j,
        {
            let ghost yj = (category@, packages@[j as int]@);
            assert(lv[i as int].1[j as int] == packages@[j as int]@);
            assert forall|y: (Seq<char>, Seq<char>)|
                walked(lv, i as int, j + 1, y) <==> (walked(lv, i as int, j as int, y) || y
                    == yj) by {
                if walked(lv, i as int, j + 1, y) {
                    let (i2, j2) = choose|i2: int, j2: int|
                        0 <= i2 < lv.len() && 0 <= j2 < lv[i2].1.len() && (i2 < i || (i2 == i
                            && j2 < j + 1)) && lv[i2].0 == y.0 && #[trigger] lv[i2].1[j2]
                            == y.1;
                    if !(i2 == i && j2 == j) {
                        assert(walked(lv, i as int, j as int, y));
                    }
                }
                if y == yj {
                    assert(lv[i as int].1[j as int] == y.1);
                }
            }
            if reaches(plan, category.as_str(), packages[j].as_str()) {
                let x = Cpn { category: category.clone(), package: packages[j].clone() };
                insert_sorted(&mut out, x);
            }
            j = j + 1;
        }
        assert forall|y: (Seq<char>, Seq<char>)|
            walked(lv, i + 1, 0, y) <==> walked(lv, i as int, packages.len() as int, y) by {
            if walked(lv, i + 1, 0, y) {
                let (i2, j2) = choose|i2: int, j2: int|
                    0 <= i2 < lv.len() && 0 <= j2 < lv[i2].1.len() && (i2 < i + 1 || (i2 == i
                        + 1 && j2 < 0)) && lv[i2].0 == y.0 && #[trigger] lv[i2].1[j2] == y.1;
                assert(walked(lv, i as int, packages.len() as int, y));
            }
        }
        i = i + 1;
    }
    assert forall|y: (Seq<char>, Seq<char>)|
        walked(lv, i as int, 0, y) <==> listed(lv, y.0, y.1) by {
        if listed(lv, y.0, y.1) {
            let (i2, j2) = choose|i2: int, j2: int|
                0 <= i2 < lv.len() && 0 <= j2 < lv[i2].1.len() && lv[i2].0 == y.0
                    && #[trigger] lv[i2].1[j2] == y.1;
            assert(walked(lv, i as int, 0, y));
        }
    }
    out
}

/// The packages of a repository, given as its categories with their package names, that
/// the walk for an optional restriction yields: sorted by category and name, each once,
/// each held by the repository; every package the restriction matches is among them (the
/// restriction narrows the walk, and the caller filters what remains).
pub fn iter_cpn(restrict: Option<Restrict>, listing: &Vec<(String, Vec<String>)>) -> (r: Vec<Cpn>)
    ensures
        cpns_sorted(cpn_views(r@)),
        forall|y: (Seq<char>, Seq<char>)|
            cpn_views(r@).contains(y) <==> (listed(listing_view(listing@), y.0, y.1)
                && plan_reaches(spec_cpn_plan(opt_view(restrict)), y.0, y.1)),
        forall|y: (Seq<char>, Seq<char>)|
            listed(listing_view(listing@), y.0, y.1) && match opt_view(restrict) {
                Some(x) => spec_matches_cpn(x, y.0, y.1),
                None => true,
            } ==> cpn_views(r@).contains(y),
{
    let ghost rv = opt_view(restrict);
    let plan = cpn_plan(restrict);
    let r = walk_cpns(&plan, listing);
    assert forall|y: (Seq<char>, Seq<char>)|
        listed(listing_view(listing@), y.0, y.1) && match rv {
            Some(x) => spec_matches_cpn(x, y.0, y.1),
            None => true,
        } implies cpn_views(r@).contains(y) by {
        cpn_plan_reaches_matches(rv, y.0, y.1);
    }
    r
}


/// The order of package versions: by category and name, then by version.
#[verifier::opaque]
pub open spec fn cpv_order(a: CpvView, b: CpvView) -> VerOrder {
    if cpn_less((a.category, a.package), (b.category, b.package)) {
        VerOrder::Less
    } else if cpn_less((b.category, b.package), (a.category, a.package)) {
        VerOrder::Greater
    } else {
        version_order(a.version, b.version)
    }
}

/// The views of package versions.
pub open spec fn cpv_views(v: Seq<Cpv>) -> Seq<CpvView> {
    v.map_values(|c: Cpv| c@)
}

/// Whether the `i`th version comes strictly before the next.
pub open spec fn ascends_at(s: Seq<CpvView>, i: int) -> bool {
    cpv_order(s[i], s[i + 1]) == VerOrder::Less
}

/// Whether each version comes strictly before the next, and no two compare equal.
pub open spec fn cpvs_ordered(s: Seq<CpvView>) -> bool {
    &&& forall|i: int| 0 <= i < s.len() - 1 ==> #[trigger] ascends_at(s, i)
    &&& forall|i: int, j: int|
        0 <= i < s.len() && 0 <= j < s.len() && i != j ==> cpv_order(#[trigger] s[i], #[trigger] s[j])
            != VerOrder::Equal
}

/// Whether `s` holds a version that compares equal to `v`.
pub open spec fn has_equal(s: Seq<CpvView>, v: CpvView) -> bool {
    exists|k: int| 0 <= k < s.len() && cpv_order(v, #[trigger] s[k]) == VerOrder::Equal
}

/// Whether an optional restriction lets the version `v` through.
pub open spec fn admits(r: Option<RestrictView>, v: CpvView) -> bool {
    match r {
        Some(x) => spec_matches_cpv(x, v),
        None => true,
    }
}

/// Comparing two package versions the other way round gives the opposite outcome.
pub proof fn cpv_order_flips(a: CpvView, b: CpvView)
    ensures
        cpv_order(b, a) == flipped(cpv_order(a, b)),
        cpv_order(a, a) == VerOrder::Equal,
{
    reveal(cpv_order);
    lemma_cpn_order((a.category, a.package), (b.category, b.package), (a.category, a.package));
    version_order_flips(a.version, b.version);
    version_order_flips(a.version, a.version);
}

/// Whether package versions are in strictly increasing order.
pub open spec fn cpvs_sorted(s: Seq<CpvView>) -> bool {
    forall|i: int, j: int| 0 <= i < j < s.len() ==> cpv_order(#[trigger] s[i], #[trigger] s[j]) == VerOrder::Less
}

/// The order of package versions is consistent on well-formed versions.
pub proof fn cpv_order_consistent(a: CpvView, b: CpvView, c: CpvView)
    requires
        valid_version(a.version),
        valid_version(b.version),
        valid_version(c.version),
    ensures
        consistent(cpv_order(a, b), cpv_order(b, c), cpv_order(a, c)),
{
    reveal(cpv_order);
    let x = (a.category, a.package);
    let y = (b.category, b.package);
    let z = (c.category, c.package);
    lemma_cpn_order(x, y, z);
    lemma_cpn_order(z, y, x);
    lemma_cpn_order(y, z, x);
    lemma_cpn_order(x, z, y);
    lemma_cpn_order(y, x, z);
    lemma_cpn_order(z, x, y);
    version_order_consistent(a.version, b.version, c.version);
}

proof fn lemma_ordered_chain(s: Seq<CpvView>, i: int, j: int)
    requires
        cpvs_ordered(s),
        forall|k: int| 0 <= k < s.len() ==> valid_version(#[trigger] s[k].version),
        0 <= i < j < s.len(),
    ensures
        cpv_order(s[i], s[j]) == VerOrder::Less,
    decreases j - i,
{
    assert(ascends_at(s, j - 1));
    if j > i + 1 {
        lemma_ordered_chain(s, i, j - 1);
        cpv_order_consistent(s[i], s[j - 1], s[j]);
    }
}

/// Versions of well-formed versions that each come strictly before the next are in
/// strictly increasing order throughout.
pub proof fn ordered_cpvs_sorted(s: Seq<CpvView>)
    requires
        cpvs_ordered(s),
        forall|k: int| 0 <= k < s.len() ==> valid_version(#[trigger] s[k].version),
    ensures
        cpvs_sorted(s),
{
    assert forall|i: int, j: int| 0 <= i < j < s.len() implies cpv_order(
        #[trigger] s[i],
        #[trigger] s[j],
    ) == VerOrder::Less by {
        lemma_ordered_chain(s, i, j);
    }
}

/// Compares two package versions.
pub(crate) fn cpv_compare(a: &Cpv, b: &Cpv) -> (c: VerOrder)
    ensures
        c == cpv_order(a@, b@),
{
    reveal(cpv_order);
    let x = a.cpn();
    let y = b.cpn();
    if cpn_before(&x, &y) {
        VerOrder::Less
    } else if cpn_before(&y, &x) {
        VerOrder::Greater
    } else {
        a.version.compare(&b.version)
    }
}

/// Inserting `xv` before the first version it precedes keeps the list ordered.
proof fn lemma_insert_ordered(ov: Seq<CpvView>, xv: CpvView, p: int)
    requires
        cpvs_ordered(ov),
        0 <= p <= ov.len(),
        forall|i: int| 0 <= i < ov.len() ==> cpv_order(xv, #[trigger] ov[i]) != VerOrder::Equal,
        forall|i: int| 0 <= i < p ==> cpv_order(xv, #[trigger] ov[i]) == VerOrder::Greater,
        p < ov.len() ==> cpv_order(xv, ov[p]) == VerOrder::Less,
    ensures
        cpvs_ordered(ov.insert(p, xv)),
        forall|y: CpvView| ov.insert(p, xv).contains(y) <==> (ov.contains(y) || y == xv),
{
        let t = ov.insert(p, xv);
        cpv_order_flips(xv, xv);
        assert forall|i: int| 0 <= i < t.len() - 1 implies #[trigger] ascends_at(t, i) by {
            if i + 1 < p {
                assert(ascends_at(ov, i));
                assert(t[i] == ov[i] && t[i + 1] == ov[i + 1]);
            } else if i + 1 == p {
                assert(t[i] == ov[i] && t[i + 1] == xv);
                cpv_order_flips(xv, ov[i]);
            } else if i == p {
                assert(t[i] == xv && t[i + 1] == ov[i]);
            } else {
                assert(ascends_at(ov, i - 1));
                assert(t[i] == ov[i - 1] && t[i + 1] == ov[i]);
            }
        }
        assert forall|i: int, j: int|
            0 <= i < t.len() && 0 <= j < t.len() && i != j implies cpv_order(
            #[trigger] t[i],
            #[trigger] t[j],
        ) != VerOrder::Equal by {
            let a = if i < p { i } else { i - 1 };
            let b = if j < p { j } else { j - 1 };
            if i == p {
                assert(t[j] == ov[b]);
            } else if j == p {
                assert(t[i] == ov[a]);
                cpv_order_flips(xv, ov[a]);
            } else {
                assert(t[i] == ov[a] && t[j] == ov[b]);
            }
        }
        assert(t[p] == xv);
        assert forall|y: CpvView| t.contains(y) <==> (ov.contains(y) || y == xv) by {
            if t.contains(y) {
                let q = choose|q: int| 0 <= q < t.len() && t[q] == y;
                if q < p {
                    assert(ov[q] == y);
                } else if q > p {
                    assert(ov[q - 1] == y);
                }
            }
            if ov.contains(y) {
                let q = choose|q: int| 0 <= q < ov.len() && ov[q] == y;
                if q < p {
                    assert(t[q] == y);
                } else {
                    assert(t[q + 1] == y);
                }
            }
        }
    }

/// Adds a package version to an ordered list, unless one that compares equal is there.
fn insert_cpv(out: &mut Vec<Cpv>, x: Cpv)
    requires
        cpvs_ordered(cpv_views(old(out)@)),
    ensures
        cpvs_ordered(cpv_views(final(out)@)),
        has_equal(cpv_views(final(out)@), x@),
        forall|y: CpvView|
            cpv_views(final(out)@).contains(y) <==> (cpv_views(old(out)@).contains(y) || (y
                == x@ && !has_equal(cpv_views(old(out)@), x@))),
{
    let ghost ov = cpv_views(out@);
    let ghost xv = x@;
    let mut k: usize = 0;
    while k < out.len()
        invariant
            k <= out.len(),
            ov == cpv_views(out@),
            xv == x@,
            cpvs_ordered(ov),
            forall|i: int| 0 <= i < k ==> cpv_order(xv, #[trigger] ov[i]) != VerOrder::Equal,
        decreases out.len() - k,
    {
        if cpv_compare(&x, &out[k]) == VerOrder::Equal {
            assert(cpv_order(xv, ov[k as int]) == VerOrder::Equal);
            return;
        }
        k = k + 1;
    }
    assert(!has_equal(ov, xv));
    let mut p: usize = 0;
    while p < out.len() && cpv_compare(&x, &out[p]) != VerOrder::Less
        invariant
            p <= out.len(),
            ov == cpv_views(out@),
            xv == x@,
            cpvs_ordered(ov),
            forall|i: int| 0 <= i < ov.len() ==> cpv_order(xv, #[trigger] ov[i]) != VerOrder::Equal,
            forall|i: int| 0 <= i < p ==> cpv_order(xv, #[trigger] ov[i]) == VerOrder::Greater,
        decreases out.len() - p,
    {
        p = p + 1;
    }
    proof {
        lemma_insert_ordered(ov, xv, p as int);
    }
    out.insert(p, x);
    assert(cpv_views(out@) =~= ov.insert(p as int, xv));
    proof {
        cpv_order_flips(xv, xv);
        assert(cpv_views(out@)[p as int] == xv);
    }
}

/// Whether `x` is one of the versions of `cpvs` whose mark in `keep` is set.
pub open spec fn kept_one(cpvs: Seq<CpvView>, keep: Seq<bool>, x: CpvView) -> bool {
    exists|k: int| 0 <= k < cpvs.len() && keep[k] && #[trigger] cpvs[k] == x
}

/// The marked versions of `cpvs` in order: each strictly before the next, no two comparing
/// equal, each a marked one, and for every marked version one that compares equal to it;
/// where every given version is well formed, in strictly increasing order throughout.
fn ordered_kept(cpvs: &Vec<Cpv>, keep: &Vec<bool>) -> (r: Vec<Cpv>)
    requires
        keep.len() == cpvs.len(),
    ensures
        cpvs_ordered(cpv_views(r@)),
        forall|i: int| 0 <= i < r.len() ==> kept_one(cpv_views(cpvs@), keep@, #[trigger] r@[i]@),
        forall|j: int|
            0 <= j < cpvs.len() && keep@[j] ==> has_equal(cpv_views(r@), #[trigger] cpvs@[j]@),
        (forall|j: int| 0 <= j < cpvs.len() ==> valid_version(#[trigger] cpvs@[j]@.version))
            ==> cpvs_sorted(cpv_views(r@)),
{
    let ghost iv = cpv_views(cpvs@);
    let mut out: Vec<Cpv> = Vec::new();
    let mut j: usize = 0;
    while j < cpvs.len()
        invariant
            j <= cpvs.len(),
            keep.len() == cpvs.len(),
            iv == cpv_views(cpvs@),
            cpvs_ordered(cpv_views(out@)),
            forall|i: int| 0 <= i < out.len() ==> kept_one(iv, keep@, #[trigger] out@[i]@),
            forall|k: int|
                0 <= k < j && keep@[k] ==> has_equal(cpv_views(out@), #[trigger] cpvs@[k]@),
        decreases cpvs.len() - j,
    {
        if keep[j] {
            let ghost before = cpv_views(out@);
            let ghost prev = out@;
            let x = cpvs[j].duplicate();
            assert(iv[j as int] == x@);
            insert_cpv(&mut out, x);
            let ghost after = cpv_views(out@);
            assert forall|i: int| 0 <= i < out.len() implies kept_one(
                iv,
                keep@,
                #[trigger] out@[i]@,
            ) by {
                assert(after[i] == out@[i]@);
                assert(after.contains(after[i]));
                if before.contains(after[i]) {
                    let q = choose|q: int| 0 <= q < before.len() && before[q] == after[i];
                    assert(before[q] == prev[q]@);
                    assert(kept_one(iv, keep@, prev[q]@));
                } else {
                    assert(iv[j as int] == after[i]);
                }
            }
            assert forall|k: int| 0 <= k < j + 1 && keep@[k] implies has_equal(
                after,
                #[trigger] cpvs@[k]@,
            ) by {
                if k < j {
                    let q = choose|q: int|
                        0 <= q < before.len() && cpv_order(cpvs@[k]@, #[trigger] before[q])
                            == VerOrder::Equal;
                    assert(before.contains(before[q]));
                    assert(after.contains(before[q]));
                    let q2 = choose|q2: int| 0 <= q2 < after.len() && after[q2] == before[q];
                    assert(cpv_order(cpvs@[k]@, after[q2]) == VerOrder::Equal);
                }
            }
        }
        j = j + 1;
    }
    proof {
        let ov = cpv_views(out@);
        if forall|j: int| 0 <= j < cpvs.len() ==> valid_version(#[trigger] cpvs@[j]@.version) {
            assert forall|k: int| 0 <= k < ov.len() implies valid_version(
                #[trigger] ov[k].version,
            ) by {
                assert(ov[k] == out@[k]@);
                assert(kept_one(iv, keep@, out@[k]@));
                let q = choose|q: int| 0 <= q < iv.len() && keep@[q] && iv[q] == out@[k]@;
                assert(iv[q] == cpvs@[q]@);
            }
            ordered_cpvs_sorted(ov);
        }
    }
    out
}

/// The index of a marked version of `cpvs` whose view is `x`.
proof fn lemma_kept_given(cpvs: Seq<Cpv>, keep: Seq<bool>, x: CpvView) -> (k: int)
    requires
        kept_one(cpv_views(cpvs), keep, x),
    ensures
        0 <= k < cpvs.len(),
        keep[k],
        cpvs[k]@ == x,
        cpv_views(cpvs).contains(x),
{
    let k = choose|k: int| 0 <= k < cpvs.len() && keep[k] && #[trigger] cpv_views(cpvs)[k] == x;
    assert(cpv_views(cpvs)[k] == cpvs[k]@);
    k
}

/// The package versions of a repository, given in any order, that the walk for an
/// optional restriction yields: each strictly before the next by category, name and
/// version, no two comparing equal, each one of those given and let through by the
/// restriction; and for every given version that the restriction lets through, one that
/// compares equal to it. Where every given version is well formed, as parsed ones are,
/// the list is in strictly increasing order throughout.
pub fn iter_cpv(restrict: Option<Restrict>, cpvs: &Vec<Cpv>) -> (r: Vec<Cpv>)
    ensures
        cpvs_ordered(cpv_views(r@)),
        forall|i: int|
            0 <= i < r.len() ==> cpv_views(cpvs@).contains(#[trigger] r@[i]@) && admits(
                opt_view(restrict),
                r@[i]@,
            ),
        forall|j: int|
            0 <= j < cpvs.len() && admits(opt_view(restrict), #[trigger] cpvs@[j]@) ==> has_equal(
                cpv_views(r@),
                cpvs@[j]@,
            ),
        (forall|j: int| 0 <= j < cpvs.len() ==> valid_version(#[trigger] cpvs@[j]@.version))
            ==> cpvs_sorted(cpv_views(r@)),
{
    let ghost rv = opt_view(restrict);
    let mut keep: Vec<bool> = Vec::new();
    let mut j: usize = 0;
    while j < cpvs.len()
        invariant
            j <= cpvs.len(),
            keep.len() == j,
            rv == opt_view(restrict),
            forall|k: int| 0 <= k < j ==> keep@[k] == admits(rv, #[trigger] cpvs@[k]@),
        decreases cpvs.len() - j,
    {
        let b = match &restrict {
            Some(r) => r.matches_cpv(&cpvs[j]),
            None => true,
        };
        keep.push(b);
        j = j + 1;
    }
    let out = ordered_kept(cpvs, &keep);
    proof {
        assert forall|i: int| 0 <= i < out.len() implies cpv_views(cpvs@).contains(
            #[trigger] out@[i]@,
        ) && admits(rv, out@[i]@) by {
            let k = lemma_kept_given(cpvs@, keep@, out@[i]@);
        }
    }
    out
}

/// Whether a package version walk lets the version `x` through: nothing for `Empty`,
/// everything for `All`, the named package at a version comparing equal to the one named
/// for `Exact`, the named package's versions that the restriction matches for `Versions`,
/// the versions of that name in any category that the restriction matches for
/// `NamedVersions`, and those that all three restrictions match for `Custom`.
pub open spec fn plan_admits(p: CpvPlanView, x: CpvView) -> bool {
    match p {
        CpvPlanView::Empty => false,
        CpvPlanView::All => true,
        CpvPlanView::Exact(c, n, v) => x.category == c && x.package == n && version_order(
            x.version,
            v,
        ) == VerOrder::Equal,
        CpvPlanView::Versions(c, n, r) => x.category == c && x.package == n && spec_matches_cpv(
            r,
            x,
        ),
        CpvPlanView::NamedVersions(n, r) => x.package == n && spec_matches_cpv(r, x),
        CpvPlanView::Custom(cr, pr, vr) => spec_matches_cpv(cr, x) && spec_matches_cpv(pr, x)
            && spec_matches_cpv(vr, x),
    }
}

impl CpvPlan {
    /// Whether the walk lets the package version through.
    pub fn admits_cpv(&self, x: &Cpv) -> (b: bool)
        ensures
            b == plan_admits(self@, x@),
    {
        match self {
            CpvPlan::Empty => false,
            CpvPlan::All => true,
            CpvPlan::Exact { category, package, version } => str_eq(
                x.category.as_str(),
                category.as_str(),
            ) && str_eq(x.package.as_str(), package.as_str()) && x.version.compare(version)
                == VerOrder::Equal,
            CpvPlan::Versions { category, package, restrict } => str_eq(
                x.category.as_str(),
                category.as_str(),
            ) && str_eq(x.package.as_str(), package.as_str()) && restrict.matches_cpv(x),
            CpvPlan::NamedVersions { package, restrict } => str_eq(
                x.package.as_str(),
                package.as_str(),
            ) && restrict.matches_cpv(x),
            CpvPlan::Custom { cat_restrict, pkg_restrict, ver_restrict } => cat_restrict.matches_cpv(
                x,
            ) && pkg_restrict.matches_cpv(x) && ver_restrict.matches_cpv(x),
        }
    }
}

/// The package versions of a repository, given in any order, that a version walk yields:
/// each strictly before the next by category, name and version, no two comparing equal,
/// each one of those given and let through by the walk; and for every given version that
/// the walk lets through, one that compares equal to it. Where every given version is
/// well formed, the list is in strictly increasing order throughout.
pub fn walk_cpvs(plan: &CpvPlan, cpvs: &Vec<Cpv>) -> (r: Vec<Cpv>)
    ensures
        cpvs_ordered(cpv_views(r@)),
        forall|i: int|
            0 <= i < r.len() ==> cpv_views(cpvs@).contains(#[trigger] r@[i]@) && plan_admits(
                plan@,
                r@[i]@,
            ),
        forall|j: int|
            0 <= j < cpvs.len() && plan_admits(plan@, #[trigger] cpvs@[j]@) ==> has_equal(
                cpv_views(r@),
                cpvs@[j]@,
            ),
        (forall|j: int| 0 <= j < cpvs.len() ==> valid_version(#[trigger] cpvs@[j]@.version))
            ==> cpvs_sorted(cpv_views(r@)),
{
    let mut keep: Vec<bool> = Vec::new();
    let mut j: usize = 0;
    while j < cpvs.len()
        invariant
            j <= cpvs.len(),
            keep.len() == j,
            forall|k: int| 0 <= k < j ==> keep@[k] == plan_admits(plan@, #[trigger] cpvs@[k]@),
        decreases cpvs.len() - j,
    {
        keep.push(plan.admits_cpv(&cpvs[j]));
        j = j + 1;
    }
    let out = ordered_kept(cpvs, &keep);
    proof {
        assert forall|i: int| 0 <= i < out.len() implies cpv_views(cpvs@).contains(
            #[trigger] out@[i]@,
        ) && plan_admits(plan@, out@[i]@) by {
            let k = lemma_kept_given(cpvs@, keep@, out@[i]@);
        }
    }
    out
}

/// Whether an optional version restriction is present and satisfied by the version `v`.
pub open spec fn version_met(o: Option<VersionView>, v: VersionView) -> bool {
    match o {
        Some(w) => version_satisfies(w, v),
        None => false,
    }
}

/// The members of a restriction that a package version satisfies each match it.
proof fn members_match_cpv(r: RestrictView, x: CpvView)
    requires
        spec_matches_cpv(r, x),
    ensures
        forall|i: int| 0 <= i < members(r).len() ==> spec_matches_cpv(#[trigger] members(r)[i], x),
{
    if !(r is And) {
        assert(members(r) == seq![r]);
    }
}

/// The category, name and version restrictions of members that a package version
/// satisfies each hold of it.
proof fn parts_match_cpv(ms: Seq<RestrictView>, x: CpvView)
    requires
        forall|i: int| 0 <= i < ms.len() ==> spec_matches_cpv(#[trigger] ms[i], x),
    ensures
        forall|j: int|
            0 <= j < category_restricts(ms).len() ==> str_matches(
                #[trigger] category_restricts(ms)[j],
                x.category,
            ),
        forall|j: int|
            0 <= j < package_restricts(ms).len() ==> str_matches(
                #[trigger] package_restricts(ms)[j],
                x.package,
            ),
        forall|j: int|
            0 <= j < version_restricts(ms).len() ==> version_met(
                #[trigger] version_restricts(ms)[j],
                x.version,
            ),
    decreases ms.len(),
{
    if ms.len() > 0 {
        let init = ms.drop_last();
        assert forall|i: int| 0 <= i < init.len() implies spec_matches_cpv(#[trigger] init[i], x) by {
            assert(init[i] == ms[i]);
        }
        parts_match_cpv(init, x);
        assert(spec_matches_cpv(ms[ms.len() - 1], x));
        let cs = category_restricts(init);
        let ps = package_restricts(init);
        let vs = version_restricts(init);
        match ms.last() {
            RestrictView::Dep(DepRestrictView::Category(c)) => {
                assert forall|j: int| 0 <= j < cs.push(c).len() implies str_matches(
                    #[trigger] cs.push(c)[j],
                    x.category,
                ) by {
                    if j < cs.len() {
                        assert(cs.push(c)[j] == cs[j]);
                    }
                }
            },
            RestrictView::Dep(DepRestrictView::Package(p)) => {
                assert forall|j: int| 0 <= j < ps.push(p).len() implies str_matches(
                    #[trigger] ps.push(p)[j],
                    x.package,
                ) by {
                    if j < ps.len() {
                        assert(ps.push(p)[j] == ps[j]);
                    }
                }
            },
            RestrictView::Dep(DepRestrictView::Version(v)) => {
                assert forall|j: int| 0 <= j < vs.push(v).len() implies version_met(
                    #[trigger] vs.push(v)[j],
                    x.version,
                ) by {
                    if j < vs.len() {
                        assert(vs.push(v)[j] == vs[j]);
                    }
                }
            },
            _ => {},
        }
    }
}

/// Splicing nested `And` members into restrictions none of which is an `And` leaves them
/// as they are.
proof fn lemma_flatten_no_and(vs: Seq<RestrictView>)
    requires
        forall|i: int| 0 <= i < vs.len() ==> !((#[trigger] vs[i]) is And),
    ensures
        flatten(BoolOp::And, vs) == vs,
    decreases vs.len(),
{
    if vs.len() > 0 {
        lemma_flatten_no_and(vs.drop_last());
        assert(!(vs[vs.len() - 1] is And));
        assert(flatten(BoolOp::And, vs) =~= vs.drop_last() + seq![vs.last()]);
        assert(vs.drop_last() + seq![vs.last()] =~= vs);
    }
}

/// The conjunction of restrictions, none of them an `And`, that a package version each
/// satisfies is satisfied by it.
proof fn conjunction_matches_cpv(vs: Seq<RestrictView>, x: CpvView)
    requires
        forall|i: int| 0 <= i < vs.len() ==> !((#[trigger] vs[i]) is And),
        forall|i: int| 0 <= i < vs.len() ==> spec_matches_cpv(#[trigger] vs[i], x),
    ensures
        spec_matches_cpv(conjunction(vs), x),
{
    lemma_flatten_no_and(vs);
    if vs.len() == 1 {
        assert(spec_matches_cpv(vs[0], x));
    }
}

/// The version walk for a restriction lets through every package version that the
/// restriction matches: narrowing the walk by the category, name and version restrictions
/// loses no match.
pub proof fn cpv_plan_reaches_matches(r: Option<RestrictView>, x: CpvView)
    requires
        admits(r, x),
    ensures
        plan_admits(spec_cpv_plan(r), x),
{
    let ms = opt_members(r);
    match r {
        Some(y) => {
            members_match_cpv(y, x);
        },
        None => {},
    }
    assert forall|i: int| 0 <= i < ms.len() implies spec_matches_cpv(#[trigger] ms[i], x) by {}
    parts_match_cpv(ms, x);
    let cats = category_restricts(ms);
    let pkgs = package_restricts(ms);
    let vers = version_restricts(ms);
    let cr = as_category_restricts(cats);
    let pr = as_package_restricts(pkgs);
    let vr = as_version_restricts(vers);
    assert forall|i: int| 0 <= i < cr.len() implies !((#[trigger] cr[i]) is And)
        && spec_matches_cpv(cr[i], x) by {
        assert(cr[i] == RestrictView::Dep(DepRestrictView::Category(cats[i])));
        assert(str_matches(cats[i], x.category));
    }
    assert forall|i: int| 0 <= i < pr.len() implies !((#[trigger] pr[i]) is And)
        && spec_matches_cpv(pr[i], x) by {
        assert(pr[i] == RestrictView::Dep(DepRestrictView::Package(pkgs[i])));
        assert(str_matches(pkgs[i], x.package));
    }
    assert forall|i: int| 0 <= i < vr.len() implies !((#[trigger] vr[i]) is And)
        && spec_matches_cpv(vr[i], x) by {
        assert(vr[i] == RestrictView::Dep(DepRestrictView::Version(vers[i])));
        assert(version_met(vers[i], x.version));
    }
    conjunction_matches_cpv(cr, x);
    conjunction_matches_cpv(pr, x);
    conjunction_matches_cpv(vr, x);
    if sole_equal(cats) is Some {
        assert(str_matches(cats[0], x.category));
    }
    if sole_equal(pkgs) is Some {
        assert(str_matches(pkgs[0], x.package));
    }
    if sole_exact_version(vers) is Some {
        assert(version_met(vers[0], x.version));
    }
}

} // verus!
