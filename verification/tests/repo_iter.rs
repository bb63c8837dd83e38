use pkgcraft::dep::{Cpn, Cpv, Operator};
use pkgcraft::repo::iter::{
    cpn_plan, cpv_plan, iter_cpn, iter_cpv, matching_names, walk_cpns, walk_cpvs, CpnPlan, CpvPlan,
    PackageWalk,
    WalkStep,
};
use pkgcraft::restrict::dep::Restrict as DepRestrict;
use pkgcraft::restrict::str::Restrict as StrRestrict;
use pkgcraft::repo::{cache_entry_kept, cpv_from_components};
use pkgcraft::restrict::parse::dep::version_str;
use pkgcraft::restrict::Restrict;

fn strings(v: &[&str]) -> Vec<String> {
    v.iter().map(|s| s.to_string()).collect()
}

fn cat(s: &str) -> Restrict {
    Restrict::Dep(DepRestrict::category(s))
}

fn pkg(s: &str) -> Restrict {
    Restrict::Dep(DepRestrict::package(s))
}

#[test]
fn cpn_plans() {
    assert!(matches!(cpn_plan(None), CpnPlan::All));
    assert!(matches!(cpn_plan(Some(Restrict::False)), CpnPlan::Empty));
    assert!(matches!(cpn_plan(Some(Restrict::True)), CpnPlan::All));

    // equality on both names gives the one package
    let r = Restrict::and(vec![cat("cat"), pkg("pkg")]);
    match cpn_plan(Some(r)) {
        CpnPlan::Exact { category, package } => {
            assert_eq!(category, "cat");
            assert_eq!(package, "pkg");
        }
        _ => panic!("expected an exact package"),
    }

    // equality on the category alone
    match cpn_plan(Some(cat("cat"))) {
        CpnPlan::Package { category, restrict } => {
            assert_eq!(category, "cat");
            assert_eq!(restrict, Restrict::True);
        }
        _ => panic!("expected a category walk"),
    }

    // equality on the name with another category restriction
    let r = Restrict::and(vec![
        pkg("pkg"),
        Restrict::Dep(DepRestrict::Category(StrRestrict::prefix("c"))),
    ]);
    match cpn_plan(Some(r)) {
        CpnPlan::Category { package, restrict } => {
            assert_eq!(package, "pkg");
            assert_eq!(restrict, Restrict::Str(StrRestrict::prefix("c")));
            assert!(restrict.matches_str("cat"));
            assert!(!restrict.matches_str("dog"));
        }
        _ => panic!("expected a name walk"),
    }

    // two category restrictions are filtered together
    let r = Restrict::and(vec![cat("a"), cat("b"), pkg("pkg")]);
    match cpn_plan(Some(r)) {
        CpnPlan::Category { package, restrict } => {
            assert_eq!(package, "pkg");
            assert_eq!(
                restrict,
                Restrict::And(vec![
                    Box::new(Restrict::Str(StrRestrict::equal("a"))),
                    Box::new(Restrict::Str(StrRestrict::equal("b"))),
                ])
            );
        }
        _ => panic!("expected a name walk"),
    }

    // no equality at all
    let r = Restrict::Dep(DepRestrict::Package(StrRestrict::suffix("x")));
    match cpn_plan(Some(r)) {
        CpnPlan::Custom { cat_restrict, pkg_restrict } => {
            assert_eq!(cat_restrict, Restrict::True);
            assert_eq!(pkg_restrict, Restrict::Str(StrRestrict::suffix("x")));
        }
        _ => panic!("expected a filtered walk"),
    }

    // restrictions on other parts do not narrow the walk
    let r = Restrict::Dep(DepRestrict::slot(Some("0")));
    assert!(matches!(cpn_plan(Some(r)), CpnPlan::All));
}

#[test]
fn cpv_plans() {
    assert!(matches!(cpv_plan(None), CpvPlan::All));
    assert!(matches!(cpv_plan(Some(Restrict::False)), CpvPlan::Empty));

    // both names and an exact version
    let ver = Restrict::Dep(DepRestrict::version("=1.2").unwrap());
    let r = Restrict::and(vec![cat("cat"), pkg("pkg"), ver]);
    match cpv_plan(Some(r)) {
        CpvPlan::Exact { category, package, version } => {
            assert_eq!(category, "cat");
            assert_eq!(package, "pkg");
            assert_eq!(version.op, None);
            assert_eq!(version.numbers.len(), 2);
        }
        _ => panic!("expected an exact package version"),
    }

    // both names and a version range
    let ver = Restrict::Dep(DepRestrict::version(">=1.2").unwrap());
    let r = Restrict::and(vec![cat("cat"), pkg("pkg"), ver]);
    match cpv_plan(Some(r)) {
        CpvPlan::Versions { category, package, restrict } => {
            assert_eq!(category, "cat");
            assert_eq!(package, "pkg");
            match restrict {
                Restrict::Dep(DepRestrict::Version(Some(v))) => {
                    assert_eq!(v.op, Some(Operator::GreaterOrEqual))
                }
                _ => panic!("expected a version restriction"),
            }
        }
        _ => panic!("expected a package's versions"),
    }

    // both names without a version
    match cpv_plan(Some(Restrict::and(vec![cat("cat"), pkg("pkg")]))) {
        CpvPlan::Versions { restrict, .. } => assert_eq!(restrict, Restrict::True),
        _ => panic!("expected a package's versions"),
    }

    // the name alone
    match cpv_plan(Some(pkg("pkg"))) {
        CpvPlan::NamedVersions { package, restrict } => {
            assert_eq!(package, "pkg");
            assert_eq!(restrict, Restrict::True);
        }
        _ => panic!("expected the versions of a name"),
    }

    // the category alone
    match cpv_plan(Some(cat("cat"))) {
        CpvPlan::Custom { cat_restrict, pkg_restrict, ver_restrict } => {
            assert_eq!(cat_restrict, cat("cat"));
            assert_eq!(pkg_restrict, Restrict::True);
            assert_eq!(ver_restrict, Restrict::True);
        }
        _ => panic!("expected a filtered walk"),
    }
}

#[test]
fn matching_category_names() {
    let r = Restrict::Str(StrRestrict::prefix("dev-"));
    let names = strings(&["dev-lang", "app-misc", "dev-util", "sys-apps"]);
    assert_eq!(matching_names(&r, names), strings(&["dev-lang", "dev-util"]));
    assert!(matching_names(&Restrict::False, strings(&["a", "b"])).is_empty());
    assert_eq!(matching_names(&Restrict::True, strings(&["b", "a"])), strings(&["b", "a"]));
}

#[test]
fn package_walk() {
    let r = Restrict::Str(StrRestrict::prefix("a"));
    let mut walk = PackageWalk::new(strings(&["cat1", "cat2", "cat3"]), r);

    assert_eq!(walk.step(), WalkStep::List("cat1".to_string()));
    walk.enter("cat1".to_string(), strings(&["abc", "xyz", "aaa"]));
    assert_eq!(walk.step(), WalkStep::Found("cat1".to_string(), "abc".to_string()));
    assert_eq!(walk.step(), WalkStep::Found("cat1".to_string(), "aaa".to_string()));

    // a category without matches is passed over
    assert_eq!(walk.step(), WalkStep::List("cat2".to_string()));
    walk.enter("cat2".to_string(), strings(&["x", "y"]));
    assert_eq!(walk.step(), WalkStep::List("cat3".to_string()));
    walk.enter("cat3".to_string(), vec![]);
    assert_eq!(walk.step(), WalkStep::Done);
    assert_eq!(walk.step(), WalkStep::Done);
}

#[test]
fn cpn_matching() {
    let cpn = Cpn::new("cat", "pkg");
    assert_eq!(cpn.category(), "cat");
    assert_eq!(cpn.package(), "pkg");

    let r = Restrict::from_cpn(&cpn);
    assert!(r.matches_cpn(&cpn));
    assert!(!r.matches_cpn(&Cpn::new("cat", "pkga")));
    assert!(!r.matches_cpn(&Cpn::new("cat1", "pkg")));

    // components a package name lacks match only when unset
    assert!(DepRestrict::Version(None).matches_cpn(&cpn));
    assert!(!DepRestrict::slot(Some("0")).matches_cpn(&cpn));
    assert!(DepRestrict::slot(None).matches_cpn(&cpn));
    assert!(!Restrict::Str(StrRestrict::equal("cat")).matches_cpn(&cpn));

    // boolean combinations
    assert!(Restrict::or(vec![cat("cat"), pkg("pkga")]).matches_cpn(&cpn));
    assert!(!Restrict::and(vec![cat("cat"), pkg("pkga")]).matches_cpn(&cpn));
    assert!(Restrict::xor(vec![cat("cat"), pkg("pkga")]).matches_cpn(&cpn));
    assert!(!Restrict::xor(vec![cat("cat"), pkg("pkg")]).matches_cpn(&cpn));
    assert!(!Restrict::not(cat("cat")).matches_cpn(&cpn));

    // the walk planned for a restriction reaches the packages it matches
    let r = Restrict::and(vec![
        cat("cat"),
        Restrict::Dep(DepRestrict::Package(StrRestrict::prefix("p"))),
    ]);
    assert!(r.matches_cpn(&cpn));
    match cpn_plan(Some(r)) {
        CpnPlan::Package { category, restrict } => {
            assert_eq!(category, cpn.category());
            assert!(restrict.matches_str(cpn.package()));
        }
        _ => panic!("expected a category walk"),
    }
}

fn listing(v: &[(&str, &[&str])]) -> Vec<(String, Vec<String>)> {
    v.iter().map(|(c, ps)| (c.to_string(), strings(ps))).collect()
}

fn cpns(v: &[&str]) -> Vec<Cpn> {
    v.iter()
        .map(|s| {
            let (c, p) = s.split_once('/').unwrap();
            Cpn::new(c, p)
        })
        .collect()
}

#[test]
fn iter_cpn_all() {
    // packages come sorted and once each, whatever order the repository lists them in
    let repo = listing(&[("cat2", &["pkg"]), ("cat1", &["pkg", "abc", "pkg"])]);
    assert_eq!(iter_cpn(None, &repo), cpns(&["cat1/abc", "cat1/pkg", "cat2/pkg"]));
    assert!(iter_cpn(Some(Restrict::False), &repo).is_empty());
}

#[test]
fn iter_cpn_restricted() {
    let repo = listing(&[
        ("cat2", &["pkg"]),
        ("cat1", &["pkga", "pkgb"]),
    ]);
    // an exact package is yielded only where the repository holds it
    let r = Restrict::from_cpn(&Cpn::new("cat", "nonexistent"));
    assert!(iter_cpn(Some(r), &repo).is_empty());
    let r = Restrict::from_cpn(&Cpn::new("cat1", "pkga"));
    assert_eq!(iter_cpn(Some(r), &repo), cpns(&["cat1/pkga"]));

    // a category restriction walks that category
    assert_eq!(iter_cpn(Some(cat("cat1")), &repo), cpns(&["cat1/pkga", "cat1/pkgb"]));
    // a name restriction walks every category holding it
    assert_eq!(iter_cpn(Some(pkg("pkg")), &repo), cpns(&["cat2/pkg"]));
    // filtered on both parts
    let r = Restrict::Dep(DepRestrict::Package(StrRestrict::suffix("b")));
    assert_eq!(iter_cpn(Some(r), &repo), cpns(&["cat1/pkgb"]));

    // walking a plan directly
    let plan = CpnPlan::Exact { category: "cat2".to_string(), package: "pkg".to_string() };
    assert_eq!(walk_cpns(&plan, &repo), cpns(&["cat2/pkg"]));
}

fn cpvs(v: &[&str]) -> Vec<Cpv> {
    v.iter()
        .map(|s| {
            let (c, rest) = s.split_once('/').unwrap();
            let at = rest
                .char_indices()
                .find(|&(i, c)| c == '-' && rest[i + 1..].starts_with(|d: char| d.is_ascii_digit()))
                .map(|(i, _)| i)
                .unwrap();
            let (p, ver) = (&rest[..at], &rest[at + 1..]);
            Cpv::new(c, p, version_str(ver).unwrap())
        })
        .collect()
}

#[test]
fn ebuild_iter_cpv() {
    let repo = cpvs(&["cat2/pkg-1", "cat1/pkg-1"]);
    assert_eq!(iter_cpv(None, &repo), cpvs(&["cat1/pkg-1", "cat2/pkg-1"]));
}

#[test]
fn ebuild_iter_cpv_restrict() {
    let repo = cpvs(&[
        "cat2/pkg-1",
        "cat1/pkga-1",
        "cat1/pkga-2",
        "cat1/pkgb-1",
        "cat1/pkgb-2",
        "cat1/pkgb-3",
    ]);

    // matching restriction
    assert_eq!(iter_cpv(Some(Restrict::True), &repo), iter_cpv(None, &repo));

    // non-matching restriction
    assert!(iter_cpv(Some(Restrict::False), &repo).is_empty());

    // single match via Cpv
    let cpv = cpvs(&["cat1/pkga-1"]);
    assert_eq!(iter_cpv(Some(Restrict::from_cpv(&cpv[0])), &repo), cpv);

    // no matches via Cpv
    let cpv = cpvs(&["cat/nonexistent-1"]);
    assert!(iter_cpv(Some(Restrict::from_cpv(&cpv[0])), &repo).is_empty());

    // invalid Cpv restrict
    let cat_restrict = Restrict::Dep(DepRestrict::category("-cat"));
    let pn_restrict = Restrict::Dep(DepRestrict::package("-pkg"));
    let ver_restrict = Restrict::Dep(DepRestrict::version("1").unwrap());
    let restrict = Restrict::and(vec![cat_restrict, pn_restrict, ver_restrict]);
    assert!(iter_cpv(Some(restrict), &repo).is_empty());

    // multiple matches via Cpn
    let r = Restrict::from_cpn(&Cpn::new("cat1", "pkga"));
    assert_eq!(iter_cpv(Some(r), &repo), cpvs(&["cat1/pkga-1", "cat1/pkga-2"]));

    // no matches via Cpn
    let r = Restrict::from_cpn(&Cpn::new("cat", "nonexistent"));
    assert!(iter_cpv(Some(r), &repo).is_empty());

    // multiple matches via package name
    let r = Restrict::Dep(DepRestrict::package("pkgb"));
    assert_eq!(
        iter_cpv(Some(r), &repo),
        cpvs(&["cat1/pkgb-1", "cat1/pkgb-2", "cat1/pkgb-3"])
    );

    // no matches via package name
    let r = Restrict::Dep(DepRestrict::package("nonexistent"));
    assert!(iter_cpv(Some(r), &repo).is_empty());
}

#[test]
fn iter_cpv_orders_versions() {
    // versions come in version order, not as written; equal versions are yielded once
    let repo = cpvs(&["cat/pkg-1.10", "cat/pkg-1.2", "cat/pkg-1.2-r0", "cat/pkg-1_rc1", "a/b-3"]);
    assert_eq!(
        iter_cpv(None, &repo),
        cpvs(&["a/b-3", "cat/pkg-1_rc1", "cat/pkg-1.2", "cat/pkg-1.10"])
    );
}

#[test]
fn ebuild_versions() {
    let ver = |s: &str| version_str(s).unwrap();
    let ebuild = |c: &str, p: &str, f: &str| cpv_from_components(&[c, p, f]);
    assert_eq!(ebuild("cat", "pkg", "pkg-1.ebuild").unwrap(), Cpv::new("cat", "pkg", ver("1")));

    // unmatching ebuilds are refused
    let e = ebuild("cat", "pkg", "foo-2.ebuild").unwrap_err();
    assert_eq!(e.message(), "foo-2.ebuild: mismatched package name");

    // wrongly named files are refused
    let e = ebuild("cat", "pkg", "pkg-2.txt").unwrap_err();
    assert_eq!(e.message(), "invalid ebuild path: cat/pkg/pkg-2.txt: missing ebuild ext");
    let e = ebuild("cat", "pkg", "pkg-2..ebuild").unwrap_err();
    assert_eq!(e.message(), "pkg-2..ebuild: invalid version: 2.");
    assert!(ebuild("cat", "pkg", "pkg-2ebuild").is_err());
    let e = ebuild("cat", "pkg", "pkg.ebuild").unwrap_err();
    assert_eq!(e.message(), "pkg.ebuild: missing version");

    assert_eq!(ebuild("cat", "pkg", "pkg-2.ebuild").unwrap(), Cpv::new("cat", "pkg", ver("2")));
    assert_eq!(
        ebuild("a-cat", "pkg10a", "pkg10a-0-r0.ebuild").unwrap(),
        Cpv::new("a-cat", "pkg10a", ver("0-r0"))
    );

    // paths of another shape are refused
    let e = cpv_from_components(&["cat", "pkg"]).unwrap_err();
    assert_eq!(e.message(), "invalid ebuild path: cat/pkg: mismatched path components");
    assert!(cpv_from_components(&["c@t", "pkg", "pkg-1.ebuild"]).is_err());

    // a listing of such files comes back in version order
    let files = ["pkg-2.ebuild", "pkg-1.ebuild", "foo-2.ebuild", "pkg-2.txt"];
    let listed: Vec<Cpv> = files.iter().filter_map(|f| ebuild("cat", "pkg", f).ok()).collect();
    assert_eq!(
        iter_cpv(None, &listed),
        vec![Cpv::new("cat", "pkg", ver("1")), Cpv::new("cat", "pkg", ver("2"))]
    );
}

#[test]
fn cache_entries_kept_on_clean() {
    let ver = |s: &str| version_str(s).unwrap();
    let listed = vec![Cpv::new("cat", "pkg", ver("1")), Cpv::new("cat", "lib", ver("2-r1"))];
    assert!(cache_entry_kept("cat/pkg-1", &listed));
    assert!(cache_entry_kept("cat/lib-2-r1", &listed));
    assert!(!cache_entry_kept("cat/pkg-2", &listed));
    assert!(!cache_entry_kept("cat/readme", &listed));
    assert!(!cache_entry_kept("cat/.update.1.pkg-1", &listed));
    assert!(!cache_entry_kept("cat/pkg-1*", &listed));
}

#[test]
fn version_walks() {
    let repo = cpvs(&[
        "cat2/pkg-1",
        "cat1/pkga-2",
        "cat1/pkga-1",
        "cat1/pkgb-1",
        "cat1/pkgb-2",
    ]);

    // no restriction walks every version, in order
    assert_eq!(
        walk_cpvs(&cpv_plan(None), &repo),
        cpvs(&["cat1/pkga-1", "cat1/pkga-2", "cat1/pkgb-1", "cat1/pkgb-2", "cat2/pkg-1"])
    );

    // a false restriction walks nothing
    assert!(walk_cpvs(&cpv_plan(Some(Restrict::False)), &repo).is_empty());

    // one exact version of one package
    let ver = Restrict::Dep(DepRestrict::version("=2").unwrap());
    let r = Restrict::and(vec![cat("cat1"), pkg("pkga"), ver]);
    assert_eq!(walk_cpvs(&cpv_plan(Some(r)), &repo), cpvs(&["cat1/pkga-2"]));

    // an exact version that the repository lacks
    let ver = Restrict::Dep(DepRestrict::version("=3").unwrap());
    let r = Restrict::and(vec![cat("cat1"), pkg("pkga"), ver]);
    assert!(walk_cpvs(&cpv_plan(Some(r)), &repo).is_empty());

    // a range of versions of one package
    let ver = Restrict::Dep(DepRestrict::version(">=2").unwrap());
    let r = Restrict::and(vec![cat("cat1"), pkg("pkgb"), ver]);
    assert_eq!(walk_cpvs(&cpv_plan(Some(r)), &repo), cpvs(&["cat1/pkgb-2"]));

    // a name in every category
    assert_eq!(walk_cpvs(&cpv_plan(Some(pkg("pkg"))), &repo), cpvs(&["cat2/pkg-1"]));

    // a category alone filters the categories
    assert_eq!(
        walk_cpvs(&cpv_plan(Some(cat("cat1"))), &repo),
        cpvs(&["cat1/pkga-1", "cat1/pkga-2", "cat1/pkgb-1", "cat1/pkgb-2"])
    );
}

#[test]
fn version_walk_keeps_matches() {
    let repo = cpvs(&["cat1/pkga-1", "cat1/pkga-2", "cat1/pkgb-1", "cat2/pkga-3"]);
    let builders: Vec<fn() -> Restrict> = vec![
        || pkg("pkga"),
        || Restrict::and(vec![cat("cat1"), pkg("pkga")]),
        || {
            let ver = Restrict::Dep(DepRestrict::version("<2").unwrap());
            Restrict::and(vec![pkg("pkga"), ver])
        },
        || Restrict::and(vec![cat("cat1"), Restrict::Dep(DepRestrict::version("=1").unwrap())]),
    ];
    for build in builders {
        let walked = walk_cpvs(&cpv_plan(Some(build())), &repo);
        let matched = iter_cpv(Some(build()), &repo);
        assert!(!matched.is_empty());
        for cpv in &matched {
            assert!(walked.contains(cpv));
        }
    }
}
