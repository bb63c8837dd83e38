use pkgcraft::pkg::{
    EapiRestrict, EbuildRestrict, MaintainerRestrict, OrderedRestrict, PkgRestrict,
};
use pkgcraft::restrict::dep::Restrict as DepRestrict;
use pkgcraft::restrict::depset::Restrict as DepSetRestrict;
use pkgcraft::restrict::parse::dep::{dep, restricts};
use pkgcraft::restrict::parse::pkg::{orderedset_restrict, pkg, str_restrict, str_to_regex_restrict};
use pkgcraft::restrict::set::OrderedSetRestrict;
use pkgcraft::restrict::str::{LenOrder, Restrict as StrRestrict};
use pkgcraft::restrict::{Restrict, TryIntoRestrict};
use pkgcraft::types::OrderedSet;

fn cat(s: &str) -> Restrict {
    Restrict::Dep(DepRestrict::category(s))
}

fn pkgname(s: &str) -> Restrict {
    Restrict::Dep(DepRestrict::package(s))
}

fn ebuild(r: EbuildRestrict) -> Restrict {
    Restrict::Pkg(PkgRestrict::Ebuild(r))
}

#[test]
fn dep_globs() {
    assert_eq!(dep("cat/pkg").unwrap(), Restrict::and(vec![cat("cat"), pkgname("pkg")]));
    assert_eq!(dep("*/*").unwrap(), Restrict::True);
    assert_eq!(dep("pkg").unwrap(), pkgname("pkg"));

    // a glob is an anchored regex
    let r = dep("cat-*/*").unwrap();
    assert!(r.matches_str("cat-abc"));
    assert!(!r.matches_str("xcat-abc"));

    let r = dep(">=cat/pkg-1").unwrap();
    let mut it = r.iter_flatten();
    let mut n = 0;
    while it.next().is_some() {
        n += 1;
    }
    assert_eq!(n, 3);

    let rs = restricts("=cat/pkg-1-r2:3/4::repo").unwrap();
    assert_eq!(rs[0], DepRestrict::category("cat"));
    assert_eq!(rs[1], DepRestrict::package("pkg"));
    assert_eq!(rs.len(), 6);
    assert_eq!(rs[2], DepRestrict::slot(Some("3")));
    assert_eq!(rs[3], DepRestrict::subslot(Some("4")));
    assert_eq!(rs[4], DepRestrict::repo(Some("repo")));
    assert!(matches!(rs[5], DepRestrict::Version(Some(_))));
}

#[test]
fn dep_glob_errors() {
    for s in ["", "cat/", "/pkg", "~cat/pkg-1-r1", "cat/pkg::", "cat/pkg[]"] {
        let e = dep(s).unwrap_err();
        assert_eq!(e.message(), format!("invalid dep restriction: {s}"));
    }
}

#[test]
fn try_into_restrict() {
    let r: Restrict = "cat/pkg".try_into_restrict(&()).unwrap();
    assert_eq!(r, dep("cat/pkg").unwrap());
    assert!("cat/".try_into_restrict(&()).is_err());
    let r = Restrict::True.try_into_restrict(&()).unwrap();
    assert_eq!(r, Restrict::True);
}

#[test]
fn query_helpers() {
    assert_eq!(str_restrict("==", "a").unwrap(), StrRestrict::equal("a"));
    assert_eq!(str_restrict(">=", "a").unwrap(), StrRestrict::substr("a"));
    assert_eq!(str_restrict("!=", "a").unwrap(), StrRestrict::not(StrRestrict::equal("a")));
    assert_eq!(str_restrict("=~", "a+").unwrap(), StrRestrict::regex("a+").unwrap());
    assert_eq!(
        str_restrict("!~", "a+").unwrap(),
        StrRestrict::not(StrRestrict::regex("a+").unwrap())
    );
    assert!(str_restrict("=~", "(").is_err());
    assert!(str_to_regex_restrict("(").is_err());

    let set = OrderedSet::from_strs(&["a", "b"]);
    assert_eq!(orderedset_restrict("<", &["a", "b", "a"]), OrderedSetRestrict::ProperSubset(set.clone()));
    assert_eq!(orderedset_restrict("<=", &["a", "b"]), OrderedSetRestrict::Subset(set.clone()));
    assert_eq!(orderedset_restrict("==", &["a", "b"]), OrderedSetRestrict::Equal(set.clone()));
    assert_eq!(orderedset_restrict(">=", &["a", "b"]), OrderedSetRestrict::Superset(set.clone()));
    assert_eq!(orderedset_restrict(">", &["a", "b"]), OrderedSetRestrict::ProperSuperset(set.clone()));
    assert_eq!(orderedset_restrict("%", &["a", "b"]), OrderedSetRestrict::Disjoint(set));
}

#[test]
fn query_strings() {
    assert_eq!(pkg("category == \"cat\"").unwrap(), cat("cat"));
    assert_eq!(pkg("package=='pkg'").unwrap(), pkgname("pkg"));
    assert_eq!(
        pkg("repo != \"gentoo\"").unwrap(),
        Restrict::Pkg(PkgRestrict::Repo(StrRestrict::not(StrRestrict::equal("gentoo"))))
    );
    assert_eq!(
        pkg("eapi >= '8'").unwrap(),
        Restrict::Pkg(PkgRestrict::Eapi(EapiRestrict::Id(StrRestrict::substr("8"))))
    );
    assert_eq!(
        pkg("slot =~ '^1'").unwrap(),
        ebuild(EbuildRestrict::Slot(StrRestrict::regex("^1").unwrap()))
    );
    assert_eq!(
        pkg("subslot == '2'").unwrap(),
        ebuild(EbuildRestrict::Subslot(StrRestrict::equal("2")))
    );
    assert_eq!(
        pkg("long_description !~ 'x'").unwrap(),
        ebuild(EbuildRestrict::LongDescription(Some(StrRestrict::not(
            StrRestrict::regex("x").unwrap()
        ))))
    );
}

#[test]
fn query_operators() {
    // && binds tighter than ^^, which binds tighter than ||
    assert_eq!(
        pkg("category == 'a' || category == 'b' && package == 'c'").unwrap(),
        Restrict::or(vec![cat("a"), Restrict::and(vec![cat("b"), pkgname("c")])])
    );
    assert_eq!(
        pkg("category == 'a' ^^ category == 'b' && package == 'c'").unwrap(),
        Restrict::xor(vec![cat("a"), Restrict::and(vec![cat("b"), pkgname("c")])])
    );
    assert_eq!(
        pkg("category == 'a' || category == 'b' ^^ package == 'c'").unwrap(),
        Restrict::or(vec![cat("a"), Restrict::xor(vec![cat("b"), pkgname("c")])])
    );

    // left to right, with same operators spliced together
    assert_eq!(
        pkg("category == 'a' || category == 'b' || category == 'c'").unwrap(),
        Restrict::or(vec![cat("a"), cat("b"), cat("c")])
    );

    // ! binds tightest
    assert_eq!(
        pkg("!category == 'a' && package == 'b'").unwrap(),
        Restrict::and(vec![Restrict::not(cat("a")), pkgname("b")])
    );
    assert_eq!(pkg("!!category == 'a'").unwrap(), Restrict::not(Restrict::not(cat("a"))));

    // parentheses group
    assert_eq!(
        pkg("(category == 'a' || category == 'b') && package == 'c'").unwrap(),
        Restrict::and(vec![Restrict::or(vec![cat("a"), cat("b")]), pkgname("c")])
    );
    assert_eq!(
        pkg("!( category == 'a' )").unwrap(),
        Restrict::not(cat("a"))
    );
}

#[test]
fn query_absent_attributes() {
    assert_eq!(pkg("subslot is none").unwrap(), ebuild(EbuildRestrict::RawSubslot(None)));
    assert_eq!(pkg("maintainers is None").unwrap(), ebuild(EbuildRestrict::Maintainers(None)));
    assert_eq!(pkg("inherited is none").unwrap(), ebuild(EbuildRestrict::Inherited(None)));
    assert_eq!(
        pkg("&depend&rdepend is none").unwrap(),
        Restrict::and(vec![ebuild(EbuildRestrict::Depend(None)), ebuild(EbuildRestrict::Rdepend(None))])
    );
    assert_eq!(
        pkg("|depend|rdepend is none").unwrap(),
        Restrict::or(vec![ebuild(EbuildRestrict::Depend(None)), ebuild(EbuildRestrict::Rdepend(None))])
    );
    assert_eq!(
        pkg("&license|homepage|iuse is none").unwrap(),
        Restrict::and(vec![
            ebuild(EbuildRestrict::License(None)),
            Restrict::or(vec![
                ebuild(EbuildRestrict::Homepage(None)),
                ebuild(EbuildRestrict::Iuse(None)),
            ]),
        ])
    );
    // a single item list is no list
    assert!(pkg("&depend is none").is_err());
}

#[test]
fn query_dependencies() {
    assert_eq!(
        pkg("depend any 'cat/pkg'").unwrap(),
        Restrict::and(vec![
            ebuild(EbuildRestrict::Depend(Some(DepSetRestrict::Any(DepRestrict::category("cat"))))),
            ebuild(EbuildRestrict::Depend(Some(DepSetRestrict::Any(DepRestrict::package("pkg"))))),
        ])
    );
    assert_eq!(
        pkg("rdepend any 'pkg'").unwrap(),
        ebuild(EbuildRestrict::Rdepend(Some(DepSetRestrict::Any(DepRestrict::package("pkg")))))
    );
    assert_eq!(
        pkg("bdepend contains == 'cat/pkg'").unwrap(),
        ebuild(EbuildRestrict::Bdepend(Some(DepSetRestrict::Contains(StrRestrict::equal("cat/pkg")))))
    );
    assert_eq!(
        pkg("|depend|pdepend any 'pkg'").unwrap(),
        Restrict::or(vec![
            ebuild(EbuildRestrict::Depend(Some(DepSetRestrict::Any(DepRestrict::package("pkg"))))),
            ebuild(EbuildRestrict::Pdepend(Some(DepSetRestrict::Any(DepRestrict::package("pkg"))))),
        ])
    );
    assert!(pkg("depend any 'cat/'").is_err());
}

#[test]
fn query_string_sets() {
    assert_eq!(
        pkg("license any == 'MIT'").unwrap(),
        ebuild(EbuildRestrict::License(Some(DepSetRestrict::Any(StrRestrict::equal("MIT")))))
    );
    assert_eq!(
        pkg("restrict contains >= 'test'").unwrap(),
        ebuild(EbuildRestrict::Restrict(Some(DepSetRestrict::Contains(StrRestrict::substr("test")))))
    );
    assert_eq!(
        pkg("iuse >= {'a', \"b\"}").unwrap(),
        ebuild(EbuildRestrict::Iuse(Some(OrderedSetRestrict::Superset(OrderedSet::from_strs(&["a", "b"])))))
    );
    assert_eq!(
        pkg("keywords%{}").unwrap(),
        ebuild(EbuildRestrict::Keywords(Some(OrderedSetRestrict::Disjoint(OrderedSet::new()))))
    );
    assert_eq!(
        pkg("inherit < {'a','a'}").unwrap(),
        ebuild(EbuildRestrict::Inherit(Some(OrderedSetRestrict::ProperSubset(OrderedSet::from_strs(&["a"])))))
    );
}

#[test]
fn query_maintainers() {
    assert_eq!(
        pkg("maintainers any email == 'a@b.c'").unwrap(),
        ebuild(EbuildRestrict::Maintainers(Some(OrderedRestrict::Any(MaintainerRestrict::Email(
            StrRestrict::equal("a@b.c")
        )))))
    );
    assert_eq!(
        pkg("maintainers first name is none").unwrap(),
        ebuild(EbuildRestrict::Maintainers(Some(OrderedRestrict::First(MaintainerRestrict::Name(None)))))
    );
    assert_eq!(
        pkg("maintainers all (description is none && type == 'person')").unwrap(),
        ebuild(EbuildRestrict::Maintainers(Some(OrderedRestrict::All(MaintainerRestrict::And(vec![
            Box::new(MaintainerRestrict::Description(None)),
            Box::new(MaintainerRestrict::Type(StrRestrict::equal("person"))),
        ])))))
    );
    assert_eq!(
        pkg("maintainers >= 2").unwrap(),
        ebuild(EbuildRestrict::Maintainers(Some(OrderedRestrict::Count(
            vec![LenOrder::Greater, LenOrder::Equal],
            2
        ))))
    );
    assert_eq!(
        pkg("maintainers!=0").unwrap(),
        ebuild(EbuildRestrict::Maintainers(Some(OrderedRestrict::Count(
            vec![LenOrder::Less, LenOrder::Greater],
            0
        ))))
    );
    assert!(pkg("maintainers >= 99999999999999999999999").is_err());
}

#[test]
fn query_errors() {
    for s in [
        "",
        "category",
        "category == cat",
        "category == ''",
        "category =~ '('",
        "category == 'a' x",
        "category == 'a' &&",
        "(category == 'a'",
        "!",
        "unknown == 'a'",
    ] {
        let e = pkg(s).unwrap_err();
        assert_eq!(e.message(), format!("invalid package query: {s}"));
    }
}

#[test]
fn pkg_query_upstream_absence() {
    // an absence test of `upstream` stands for no restriction and fails like any invalid query
    for q in ["upstream is none", "description is none && upstream is none"] {
        let e = pkg(q).unwrap_err();
        assert_eq!(e.message(), format!("invalid package query: {q}"));
    }
}
