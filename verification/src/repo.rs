//! Repository formats.

use vstd::prelude::*;

pub mod config;
pub mod iter;
pub mod metadata;
pub mod revdeps;

use vstd::string::StrSliceExecFns;

use crate::restrict::dep::{DepRestrictView, Restrict as DepRestrict};
use crate::restrict::parse::dep::{dep_views, restricts, spec_restricts};
use crate::restrict::str::StrRestrictView;
use crate::restrict::{combined, flatten, restrict_views, Restrict, RestrictView};
use crate::restrict::str::BoolOp;
use crate::text::{has_substr, is_prefix, is_suffix, str_contains, str_eq, str_ends_with, str_starts_with};
use crate::error::Error;
use crate::pkgsh::builtins::ver_test::{parse_version, plain_version};
use crate::dep::{Cpv, CpvView, VersionView};

verus! {

/// A supported repository format; formats order as declared.
#[derive(Debug, Clone, Copy, PartialEq, Eq, Structural, PartialOrd, Ord, Hash)]
pub enum RepoFormat {
    Ebuild,
    Configured,
    Fake,
}

/// The name of a format: its variant name in lower case.
pub open spec fn format_name(f: RepoFormat) -> Seq<char> {
    match f {
        RepoFormat::Ebuild => "ebuild"@,
        RepoFormat::Configured => "configured"@,
        RepoFormat::Fake => "fake"@,
    }
}

impl RepoFormat {
    /// The format's name.
    pub fn as_str(&self) -> (s: &'static str)
        ensures
            s@ == format_name(*self),
    {
        match self {
            RepoFormat::Ebuild => "ebuild",
            RepoFormat::Configured => "configured",
            RepoFormat::Fake => "fake",
        }
    }

    /// All formats, in declaration order.
    pub fn all() -> (v: Vec<RepoFormat>)
        ensures
            v@ == seq![RepoFormat::Ebuild, RepoFormat::Configured, RepoFormat::Fake],
    {
        let v = vec![RepoFormat::Ebuild, RepoFormat::Configured, RepoFormat::Fake];
        assert(v@ =~= seq![RepoFormat::Ebuild, RepoFormat::Configured, RepoFormat::Fake]);
        v
    }

    /// The format named `s`, if any.
    pub fn from_name(s: &str) -> (r: Option<RepoFormat>)
        ensures
            match r {
                Some(f) => format_name(f) == s@,
                None => forall|f: RepoFormat| format_name(f) != s@,
            },
    {
        if str_eq(s, "ebuild") {
            Some(RepoFormat::Ebuild)
        } else if str_eq(s, "configured") {
            Some(RepoFormat::Configured)
        } else if str_eq(s, "fake") {
            Some(RepoFormat::Fake)
        } else {
            None
        }
    }
}

/// A format's name read back with `RepoFormat::from_name` gives the format: distinct
/// formats have distinct names.
pub proof fn format_names_distinct(a: RepoFormat, b: RepoFormat)
    ensures
        (format_name(a) == format_name(b)) == (a == b),
{
    reveal_strlit("ebuild");
    reveal_strlit("configured");
    reveal_strlit("fake");
    if a != b {
        assert(format_name(a)[0] != format_name(b)[0] || format_name(a).len() != format_name(b).len());
    }
}

/// The version of the ebuild file `file` in the package directory `cat/pn`: the file
/// name must end in `.ebuild` and what precedes that read, after `cat/`, as the package
/// `pn` with a version and nothing else.
#[verifier::opaque]
pub open spec fn ebuild_version(cat: Seq<char>, pn: Seq<char>, file: Seq<char>) -> Option<VersionView> {
    if is_suffix(".ebuild"@, file) {
        let p = file.subrange(0, file.len() - 7);
        match spec_restricts(cat + "/"@ + p) {
            Some(rs) => if rs.len() == 3 && rs[0] == DepRestrictView::Category(
                StrRestrictView::Equal(cat),
            ) && rs[1] == DepRestrictView::Package(StrRestrictView::Equal(pn)) {
                match rs[2] {
                    DepRestrictView::Version(Some(v)) => Some(v),
                    _ => None,
                }
            } else {
                None
            },
            None => None,
        }
    } else {
        None
    }
}

/// The dependency restrictions that the components of a path inside a repository stand
/// for: a category directory, a package directory within it, an ebuild file within
/// that; anything else stands for none.
pub open spec fn path_restricts(comps: Seq<Seq<char>>, is_category: bool, is_package: bool) -> Seq<
    DepRestrictView,
> {
    if comps.len() == 0 || !is_category {
        seq![]
    } else if comps.len() == 1 {
        seq![DepRestrictView::Category(StrRestrictView::Equal(comps[0]))]
    } else if !is_package {
        seq![]
    } else if comps.len() == 2 {
        seq![
            DepRestrictView::Category(StrRestrictView::Equal(comps[0])),
            DepRestrictView::Package(StrRestrictView::Equal(comps[1])),
        ]
    } else if comps.len() == 3 && ebuild_version(comps[0], comps[1], comps[2]) is Some {
        seq![
            DepRestrictView::Category(StrRestrictView::Equal(comps[0])),
            DepRestrictView::Package(StrRestrictView::Equal(comps[1])),
            DepRestrictView::Version(ebuild_version(comps[0], comps[1], comps[2])),
        ]
    } else {
        seq![]
    }
}

/// The restriction a path inside a repository stands for: the conjunction of its
/// dependency restrictions where it has any, all packages for the repository's root,
/// none for any other path.
pub open spec fn spec_path_restrict(comps: Seq<Seq<char>>, is_category: bool, is_package: bool) -> RestrictView {
    let rs = path_restricts(comps, is_category, is_package);
    if rs.len() > 0 {
        combined(
            BoolOp::And,
            flatten(BoolOp::And, rs.map_values(|r: DepRestrictView| RestrictView::Dep(r))),
        )
    } else if comps.len() == 0 {
        RestrictView::True
    } else {
        RestrictView::False
    }
}

/// The views of string slices.
pub open spec fn strs_view(v: Seq<&str>) -> Seq<Seq<char>> {
    Seq::new(v.len(), |k: int| v[k]@)
}

/// The version of an ebuild file in the package directory `cat/pn`, if the file is one.
#[verifier::rlimit(60)]
fn ebuild_file_version(cat: &str, pn: &str, file: &str) -> (r: Option<DepRestrict>)
    ensures
        match r {
            Some(d) => ebuild_version(cat@, pn@, file@) is Some && d@ == DepRestrictView::Version(
                ebuild_version(cat@, pn@, file@),
            ),
            None => ebuild_version(cat@, pn@, file@) is None,
        },
{
    proof {
        reveal_strlit(".ebuild");
        reveal_strlit("/");
        reveal(ebuild_version);
    }
    if !str_ends_with(file, ".ebuild") {
        return None;
    }
    let n = file.unicode_len();
    let p = file.substring_char(0, n - 7);
    let mut full = cat.to_owned();
    full.append("/");
    full.append(p);
    let mut rs = match restricts(full.as_str()) {
        Ok(rs) => rs,
        Err(_) => return None,
    };
    let ghost rv = dep_views(rs@);
    assert(full@ == cat@ + "/"@ + file@.subrange(0, file@.len() - 7));
    if rs.len() != 3 {
        return None;
    }
    let is_cat = match &rs[0] {
        DepRestrict::Category(crate::restrict::str::Restrict::Equal(c)) => str_eq(c.as_str(), cat),
        _ => false,
    };
    let is_pn = match &rs[1] {
        DepRestrict::Package(crate::restrict::str::Restrict::Equal(x)) => str_eq(x.as_str(), pn),
        _ => false,
    };
    assert(rv[0] == rs@[0]@ && rv[1] == rs@[1]@ && rv[2] == rs@[2]@);
    if !is_cat || !is_pn {
        return None;
    }
    let v = rs.pop().unwrap();
    match v {
        DepRestrict::Version(Some(_)) => Some(v),
        _ => None,
    }
}

/// Path components joined with `/`.
pub open spec fn slash_joined(cs: Seq<Seq<char>>) -> Seq<char>
    decreases cs.len(),
{
    if cs.len() == 0 {
        seq![]
    } else if cs.len() == 1 {
        cs[0]
    } else {
        slash_joined(cs.drop_last()) + "/"@ + cs.last()
    }
}

/// Whether `cat`/`pn` names a package: it reads as a category and a package name, with
/// no glob.
pub open spec fn valid_cpn(cat: Seq<char>, pn: Seq<char>) -> bool {
    spec_restricts(cat + "/"@ + pn) == Some(
        seq![
            DepRestrictView::Category(StrRestrictView::Equal(cat)),
            DepRestrictView::Package(StrRestrictView::Equal(pn)),
        ],
    )
}

/// The package version that an ebuild's path inside a repository stands for, given its
/// components: exactly a category, a package and a file named after the package, a `-`,
/// a version and `.ebuild`. Each way it can fail has its message.
pub open spec fn spec_cpv_from_components(cs: Seq<Seq<char>>) -> Result<
    (Seq<char>, Seq<char>, VersionView),
    Seq<char>,
> {
    if cs.len() != 3 {
        Err("invalid ebuild path: "@ + slash_joined(cs) + ": mismatched path components"@)
    } else if !valid_cpn(cs[0], cs[1]) {
        Err("invalid package: "@ + cs[0] + "/"@ + cs[1])
    } else if !is_suffix(".ebuild"@, cs[2]) {
        Err("invalid ebuild path: "@ + slash_joined(cs) + ": missing ebuild ext"@)
    } else {
        let p = cs[2].subrange(0, cs[2].len() - 7);
        if !is_prefix(cs[1] + "-"@, p) {
            if has_substr("-"@, p) {
                Err(cs[2] + ": mismatched package name"@)
            } else {
                Err(cs[2] + ": missing version"@)
            }
        } else {
            let v = p.skip(cs[1].len() + 1int);
            match plain_version(v) {
                Some(ver) => Ok((cs[0], cs[1], ver)),
                None => Err(cs[2] + ": invalid version: "@ + v),
            }
        }
    }
}

/// Joins path components with `/`.
fn join_slashed(cs: &[&str]) -> (s: String)
    ensures
        s@ == slash_joined(strs_view(cs@)),
{
    let ghost cv = strs_view(cs@);
    let mut s = String::new();
    let mut i: usize = 0;
    assert(cv.take(0) =~= Seq::<Seq<char>>::empty());
    while i < cs.len()
        invariant
            i <= cs.len(),
            cv == strs_view(cs@),
            s@ == slash_joined(cv.take(i as int)),
        decreases cs.len() - i,
    {
        if i > 0 {
            s.append("/");
        }
        s.append(cs[i]);
        proof {
            reveal_strlit("/");
        }
        assert(cv.take(i + 1).drop_last() =~= cv.take(i as int));
        assert(cv.take(i + 1).last() == cs@[i as int]@);
        if i == 0 {
            assert(cv.take(1) =~= seq![cv[0]]);
        }
        i = i + 1;
    }
    assert(cv.take(cs.len() as int) =~= cv);
    s
}

/// Whether `cat`/`pn` names a package.
#[verifier::rlimit(60)]
fn is_valid_cpn(cat: &str, pn: &str) -> (b: bool)
    ensures
        b == valid_cpn(cat@, pn@),
{
    let mut full = cat.to_owned();
    full.append("/");
    full.append(pn);
    proof {
        reveal_strlit("/");
    }
    assert(full@ == cat@ + "/"@ + pn@);
    let rs = match restricts(full.as_str()) {
        Ok(rs) => rs,
        Err(_) => return false,
    };
    let ghost rv = dep_views(rs@);
    if rs.len() != 2 {
        return false;
    }
    let is_cat = match &rs[0] {
        DepRestrict::Category(crate::restrict::str::Restrict::Equal(c)) => str_eq(c.as_str(), cat),
        _ => false,
    };
    let is_pn = match &rs[1] {
        DepRestrict::Package(crate::restrict::str::Restrict::Equal(x)) => str_eq(x.as_str(), pn),
        _ => false,
    };
    assert(rv[0] == rs@[0]@ && rv[1] == rs@[1]@);
    if is_cat && is_pn {
        assert(rv =~= seq![
            DepRestrictView::Category(StrRestrictView::Equal(cat@)),
            DepRestrictView::Package(StrRestrictView::Equal(pn@)),
        ]);
    }
    is_cat && is_pn
}

/// The package version that an ebuild's path inside a repository stands for, given its
/// components relative to the repository's root.
pub fn cpv_from_components(components: &[&str]) -> (r: crate::Result<Cpv>)
    ensures
        match spec_cpv_from_components(strs_view(components@)) {
            Ok((cat, pn, v)) => r matches Ok(c) && c@ == (CpvView {
                category: cat,
                package: pn,
                version: VersionView { op: None, ..v },
            }),
            Err(m) => r matches Err(e) && e == Error::InvalidValue(e->InvalidValue_0)
                && e.spec_message() == m,
        },
{
    let ghost cv = strs_view(components@);
    proof {
        reveal_strlit("invalid ebuild path: ");
        reveal_strlit(": mismatched path components");
        reveal_strlit("invalid package: ");
        reveal_strlit("/");
        reveal_strlit(": missing ebuild ext");
        reveal_strlit(".ebuild");
        reveal_strlit("-");
        reveal_strlit(": mismatched package name");
        reveal_strlit(": missing version");
        reveal_strlit(": invalid version: ");
    }
    if components.len() != 3 {
        let mut msg = "invalid ebuild path: ".to_owned();
        let path = join_slashed(components);
        msg.append(path.as_str());
        msg.append(": mismatched path components");
        return Err(Error::InvalidValue(msg));
    }
    let cat = components[0];
    let pn = components[1];
    let file = components[2];
    assert(cv[0] == cat@ && cv[1] == pn@ && cv[2] == file@);
    if !is_valid_cpn(cat, pn) {
        let mut msg = "invalid package: ".to_owned();
        msg.append(cat);
        msg.append("/");
        msg.append(pn);
        return Err(Error::InvalidValue(msg));
    }
    if !str_ends_with(file, ".ebuild") {
        let mut msg = "invalid ebuild path: ".to_owned();
        let path = join_slashed(components);
        msg.append(path.as_str());
        msg.append(": missing ebuild ext");
        return Err(Error::InvalidValue(msg));
    }
    let n = file.unicode_len();
    let p = file.substring_char(0, n - 7);
    let mut prefix = pn.to_owned();
    prefix.append("-");
    if !str_starts_with(p, prefix.as_str()) {
        let mut msg = file.to_owned();
        if str_contains(p, "-") {
            msg.append(": mismatched package name");
        } else {
            msg.append(": missing version");
        }
        return Err(Error::InvalidValue(msg));
    }
    let m = p.unicode_len();
    let k = pn.unicode_len() + 1;
    let v = p.substring_char(k, m);
    assert(v@ =~= p@.skip(pn@.len() + 1int));
    match parse_version(v) {
        Ok(ver) => Ok(Cpv::new(cat, pn, ver)),
        Err(_) => {
            let mut msg = file.to_owned();
            msg.append(": invalid version: ");
            msg.append(v);
            Err(Error::InvalidValue(msg))
        },
    }
}

/// The package version that a metadata cache file's path `category/name-version`
/// names, if it names one.
pub open spec fn cache_path_cpv(path: Seq<char>) -> Option<CpvView> {
    match spec_restricts(path) {
        Some(rs) => if rs.len() == 3 {
            match (rs[0], rs[1], rs[2]) {
                (
                    DepRestrictView::Category(StrRestrictView::Equal(c)),
                    DepRestrictView::Package(StrRestrictView::Equal(p)),
                    DepRestrictView::Version(Some(v)),
                ) => if v.op is None {
                    Some(CpvView { category: c, package: p, version: v })
                } else {
                    None
                },
                _ => None,
            }
        } else {
            None
        },
        None => None,
    }
}

/// Whether a metadata cache file at `path`, relative to the cache's root, is kept when the
/// cache is cleaned: its path must name a package version among `cpvs`; files of removed
/// versions and unrelated files go.
pub fn cache_entry_kept(path: &str, cpvs: &Vec<Cpv>) -> (b: bool)
    ensures
        b == match cache_path_cpv(path@) {
            Some(c) => exists|i: int| 0 <= i < cpvs.len() && (#[trigger] cpvs@[i])@ == c,
            None => false,
        },
{
    let rs = match restricts(path) {
        Ok(rs) => rs,
        Err(_) => return false,
    };
    let ghost rv = dep_views(rs@);
    if rs.len() != 3 {
        return false;
    }
    assert(rv[0] == rs@[0]@ && rv[1] == rs@[1]@ && rv[2] == rs@[2]@);
    let c = match &rs[0] {
        DepRestrict::Category(crate::restrict::str::Restrict::Equal(c)) => c,
        _ => return false,
    };
    let p = match &rs[1] {
        DepRestrict::Package(crate::restrict::str::Restrict::Equal(p)) => p,
        _ => return false,
    };
    let v = match &rs[2] {
        DepRestrict::Version(Some(v)) => v,
        _ => return false,
    };
    if v.op.is_some() {
        return false;
    }
    let ghost target = CpvView { category: c@, package: p@, version: v@ };
    assert(rv[0] == DepRestrictView::Category(StrRestrictView::Equal(c@)));
    assert(rv[1] == DepRestrictView::Package(StrRestrictView::Equal(p@)));
    assert(rv[2] == DepRestrictView::Version(Some(v@)));
    assert(cache_path_cpv(path@) == Some(target));
    let mut i: usize = 0;
    while i < cpvs.len()
        invariant
            i <= cpvs.len(),
            target == (CpvView { category: c@, package: p@, version: v@ }),
            cache_path_cpv(path@) == Some(target),
            forall|k: int| 0 <= k < i ==> (#[trigger] cpvs@[k])@ != target,
        decreases cpvs.len() - i,
    {
        let x = &cpvs[i];
        if str_eq(x.category.as_str(), c.as_str()) && str_eq(x.package.as_str(), p.as_str())
            && x.version.same(v) {
            assert(cpvs@[i as int]@ == target);
            return true;
        }
        i = i + 1;
    }
    false
}

/// The dependency restrictions of a path inside a repository.
fn path_dep_restricts(components: &[&str], is_category: bool, is_package: bool) -> (r: Vec<DepRestrict>)
    ensures
        dep_views(r@) == path_restricts(strs_view(components@), is_category, is_package),
{
    let ghost cv = strs_view(components@);
    let n = components.len();
    let mut rs: Vec<DepRestrict> = Vec::new();
    if n == 0 || !is_category {
        assert(dep_views(rs@) =~= Seq::<DepRestrictView>::empty());
        return rs;
    }
    rs.push(DepRestrict::category(components[0]));
    if n == 1 {
        assert(dep_views(rs@) =~= seq![DepRestrictView::Category(StrRestrictView::Equal(cv[0]))]);
        return rs;
    }
    if !is_package {
        let empty: Vec<DepRestrict> = Vec::new();
        assert(dep_views(empty@) =~= Seq::<DepRestrictView>::empty());
        return empty;
    }
    rs.push(DepRestrict::package(components[1]));
    if n == 2 {
        assert(dep_views(rs@) =~= seq![
            DepRestrictView::Category(StrRestrictView::Equal(cv[0])),
            DepRestrictView::Package(StrRestrictView::Equal(cv[1])),
        ]);
        return rs;
    }
    if n == 3 {
        match ebuild_file_version(components[0], components[1], components[2]) {
            Some(v) => {
                rs.push(v);
                assert(dep_views(rs@) =~= seq![
                    DepRestrictView::Category(StrRestrictView::Equal(cv[0])),
                    DepRestrictView::Package(StrRestrictView::Equal(cv[1])),
                    DepRestrictView::Version(ebuild_version(cv[0], cv[1], cv[2])),
                ]);
                return rs;
            },
            None => {},
        }
    }
    let empty: Vec<DepRestrict> = Vec::new();
    assert(dep_views(empty@) =~= Seq::<DepRestrictView>::empty());
    empty
}

/// The restriction that a path inside a repository stands for, given its components
/// relative to the repository's root, whether the first names one of the repository's
/// categories, and whether the second names one of the packages in it.
pub fn restrict_from_components(components: &[&str], is_category: bool, is_package: bool) -> (r: Restrict)
    ensures
        r@ == spec_path_restrict(strs_view(components@), is_category, is_package),
{
    let ds = path_dep_restricts(components, is_category, is_package);
    let ghost dv = dep_views(ds@);
    let n = components.len();
    if ds.len() == 0 {
        if n == 0 {
            return Restrict::True;
        } else {
            return Restrict::False;
        }
    }
    let mut rs: Vec<Restrict> = Vec::new();
    for d in it: ds
        invariant
            it.seq().len() == dv.len(),
            forall|k: int| 0 <= k < dv.len() ==> (#[trigger] it.seq()[k])@ == dv[k],
            restrict_views(rs@) == dv.take(it.index() as int).map_values(
                |x: DepRestrictView| RestrictView::Dep(x),
            ),
    {
        let ghost k = it.index() as int;
        let ghost before = restrict_views(rs@);
        let ghost x = d@;
        rs.push(Restrict::Dep(d));
        assert(restrict_views(rs@) =~= before.push(RestrictView::Dep(x)));
        assert(dv.take(k + 1).map_values(|y: DepRestrictView| RestrictView::Dep(y)) =~= dv.take(
            k,
        ).map_values(|y: DepRestrictView| RestrictView::Dep(y)).push(RestrictView::Dep(dv[k])));
    }
    assert(dv.take(dv.len() as int) =~= dv);
    Restrict::and(rs)
}

}
