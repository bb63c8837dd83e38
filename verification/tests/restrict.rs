use std::collections::hash_map::DefaultHasher;
use std::hash::{Hash, Hasher};

use pkgcraft::restrict::dep::Restrict as DepRestrict;
use pkgcraft::restrict::set::OrderedSetRestrict;
use pkgcraft::restrict::str::Restrict as StrRestrict;
use pkgcraft::restrict::{Restrict, Restriction, Scope};
use pkgcraft::types::OrderedSet;

fn hash<T: Hash>(obj: &T) -> u64 {
    let mut h = DefaultHasher::new();
    obj.hash(&mut h);
    h.finish()
}

#[test]
fn variants() {
    // equal
    let r = StrRestrict::equal("a");
    assert!(r.matches("a"));
    assert!(!r.matches("b"));
    assert_eq!(r, r);
    assert!(hash(&r) != 0);

    // prefix
    let r = StrRestrict::prefix("ab");
    assert!(r.matches("ab"));
    assert!(r.matches("abc"));
    assert!(!r.matches("a"));
    assert!(!r.matches("cab"));
    assert_eq!(r, r);
    assert!(hash(&r) != 0);

    // regex
    let r = StrRestrict::regex("^(a|b)$").unwrap();
    assert!(r.matches("a"));
    assert!(r.matches("b"));
    assert!(!r.matches("ab"));
    assert_eq!(r, r);
    assert!(hash(&r) != 0);

    // substr
    let r = StrRestrict::substr("ab");
    assert!(r.matches("ab"));
    assert!(r.matches("cab"));
    assert!(r.matches("cabo"));
    assert!(!r.matches("acb"));
    assert_eq!(r, r);
    assert!(hash(&r) != 0);

    // suffix
    let r = StrRestrict::suffix("ab");
    assert!(r.matches("ab"));
    assert!(r.matches("cab"));
    assert!(!r.matches("a"));
    assert!(!r.matches("abc"));
    assert_eq!(r, r);
    assert!(hash(&r) != 0);
}

#[test]
fn invalid_regex_is_refused() {
    assert!(StrRestrict::regex("(").is_err());
    assert!(StrRestrict::regex("[a-").is_err());
}

#[test]
fn regex_matches_anywhere() {
    // the regex engine searches, it is not anchored unless asked
    let r = StrRestrict::regex("b+").unwrap();
    assert!(r.matches("abbbc"));
    assert!(!r.matches("ac"));
}

#[test]
fn str_combinations() {
    let and = StrRestrict::and(vec![StrRestrict::prefix("a"), StrRestrict::suffix("c")]);
    assert!(and.matches("abc"));
    assert!(!and.matches("abd"));

    let or = StrRestrict::or(vec![StrRestrict::equal("a"), StrRestrict::equal("b")]);
    assert!(or.matches("a"));
    assert!(or.matches("b"));
    assert!(!or.matches("c"));

    let xor = StrRestrict::xor(vec![StrRestrict::prefix("a"), StrRestrict::suffix("c")]);
    assert!(xor.matches("ab"));
    assert!(xor.matches("bc"));
    assert!(!xor.matches("abc"));
    assert!(!xor.matches("b"));

    let not = StrRestrict::not(StrRestrict::equal("a"));
    assert!(!not.matches("a"));
    assert!(not.matches("b"));
}

#[test]
fn nested_combinations_are_spliced() {
    let inner = StrRestrict::and(vec![StrRestrict::equal("a"), StrRestrict::equal("b")]);
    let outer = StrRestrict::and(vec![inner, StrRestrict::equal("c")]);
    match outer {
        StrRestrict::And(vals) => assert_eq!(vals.len(), 3),
        _ => panic!("expected a conjunction"),
    }

    // one member is the member itself, none is true
    let single = StrRestrict::or(vec![StrRestrict::equal("a")]);
    assert_eq!(single, StrRestrict::equal("a"));
    assert_eq!(StrRestrict::and(vec![]), StrRestrict::True);
}

#[test]
fn base_and_matches_all() {
    let r = Restrict::and(vec![
        Restrict::Str(StrRestrict::prefix("c")),
        Restrict::Str(StrRestrict::suffix("t")),
    ]);
    assert!(r.matches_str("cat"));
    assert!(!r.matches_str("cab"));
    assert!(!r.matches_str("bat"));
}

#[test]
fn base_or_matches_any() {
    let r = Restrict::or(vec![
        Restrict::Str(StrRestrict::equal("a")),
        Restrict::Dep(DepRestrict::category("b")),
    ]);
    assert!(r.matches_str("a"));
    assert!(r.matches_str("b"));
    assert!(!r.matches_str("c"));
}

#[test]
fn base_xor_matches_disagreement() {
    let r = Restrict::xor(vec![
        Restrict::Str(StrRestrict::prefix("a")),
        Restrict::Str(StrRestrict::suffix("z")),
    ]);
    assert!(r.matches_str("ab"));
    assert!(!r.matches_str("az"));
    assert!(!r.matches_str("bb"));
}

#[test]
fn base_not_is_complement() {
    for s in ["a", "b", ""] {
        let r = Restrict::Str(StrRestrict::equal("a"));
        let expected = !r.matches_str(s);
        assert_eq!(Restrict::not(r).matches_str(s), expected);
    }
}

#[test]
fn default_matches_nothing() {
    let r = Restrict::default();
    assert_eq!(r, Restrict::False);
    assert!(!r.matches_str("a"));
    assert!(!r.matches_str(""));
}

#[test]
fn trait_matching() {
    let r = Restrict::from(StrRestrict::equal("x"));
    assert!(Restriction::matches(&r, "x"));
    assert!(!Restriction::matches(&r, "y"));
    let d = DepRestrict::package("pkg");
    assert!(Restriction::matches(&d, "pkg"));
}

#[test]
fn dep_restrict_strings() {
    assert!(DepRestrict::category("cat").matches_str("cat"));
    assert!(DepRestrict::package("pkg").matches_str("pkg"));
    assert!(DepRestrict::slot(Some("1")).matches_str("1"));
    assert!(!DepRestrict::slot(None).matches_str("1"));
    assert!(DepRestrict::subslot(Some("2")).matches_str("2"));
    assert!(DepRestrict::repo(Some("gentoo")).matches_str("gentoo"));
    assert!(!DepRestrict::repo(Some("gentoo")).matches_str("overlay"));
}

#[test]
fn dep_restrict_versions() {
    assert!(DepRestrict::version("1").is_ok());
    assert!(DepRestrict::version("1.2.3b_alpha4-r5").is_ok());
    assert!(DepRestrict::version(">=1.2").is_ok());
    assert!(DepRestrict::version("=1*").is_ok());
    assert!(DepRestrict::version("~1-r1").is_err());
    assert!(DepRestrict::version("~1").is_ok());
    let e = DepRestrict::version("a1").unwrap_err();
    assert_eq!(e.message(), "invalid version: a1");
    assert!(DepRestrict::version("1-").is_err());
    assert!(DepRestrict::version("").is_err());
}

#[test]
fn dep_restrict_use_deps() {
    match DepRestrict::use_deps("u1,-u2,u3(+),!u4?,u5=").unwrap() {
        DepRestrict::UseDeps(Some(u)) => assert_eq!(u.len(), 5),
        r => panic!("unexpected restriction: {r:?}"),
    }
    let e = DepRestrict::use_deps("u1,").unwrap_err();
    assert_eq!(e.message(), "invalid use deps: u1,");
    assert!(DepRestrict::use_deps("").is_err());
}

#[test]
fn flatten_leaves() {
    let r = Restrict::and(vec![
        Restrict::or(vec![
            Restrict::Dep(DepRestrict::category("a")),
            Restrict::Dep(DepRestrict::category("b")),
        ]),
        Restrict::not(Restrict::Dep(DepRestrict::package("c"))),
        Restrict::True,
    ]);
    let mut it = r.iter_flatten();
    let mut leaves = vec![];
    while let Some(x) = it.next() {
        leaves.push(x);
    }
    assert_eq!(leaves.len(), 4);
    assert_eq!(*leaves[0], Restrict::Dep(DepRestrict::category("a")));
    assert_eq!(*leaves[1], Restrict::Dep(DepRestrict::category("b")));
    assert_eq!(*leaves[2], Restrict::not(Restrict::Dep(DepRestrict::package("c"))));
    assert_eq!(*leaves[3], Restrict::True);

    // a plain restriction flattens to itself
    let r = Restrict::True;
    let mut it = r.iter_flatten();
    assert_eq!(it.next(), Some(&Restrict::True));
    assert_eq!(it.next(), None);
}

#[test]
fn scopes() {
    let ver = DepRestrict::version("1").unwrap();
    assert_eq!(Scope::from_restrict(&Restrict::Dep(ver)), Scope::Version);
    let pkg = Restrict::Dep(DepRestrict::package("pkg"));
    assert_eq!(Scope::from(&pkg), Scope::Package);
    let cat = Restrict::Dep(DepRestrict::category("cat"));
    assert_eq!(Scope::from(&cat), Scope::Category);
    let glob = Restrict::Dep(DepRestrict::Package(StrRestrict::prefix("p")));
    assert_eq!(Scope::from(&glob), Scope::Category);
    assert_eq!(Scope::from(&Restrict::True), Scope::Repo);

    // a conjunction is as narrow as its narrowest member, a disjunction as wide as its
    // widest
    let and = Restrict::and(vec![
        Restrict::Dep(DepRestrict::category("cat")),
        Restrict::Dep(DepRestrict::package("pkg")),
    ]);
    assert_eq!(Scope::from(&and), Scope::Package);
    let or = Restrict::or(vec![
        Restrict::Dep(DepRestrict::category("cat")),
        Restrict::Dep(DepRestrict::package("pkg")),
    ]);
    assert_eq!(Scope::from(&or), Scope::Category);

    assert!(Scope::Version < Scope::Package);
    assert!(Scope::Category < Scope::Repo);
    assert_eq!(Scope::Version.as_str(), "version");
    assert_eq!(Scope::Repo.as_str(), "repo");
}

#[test]
fn ordered_sets() {
    let mut s = OrderedSet::new();
    assert!(s.insert("a"));
    assert!(s.insert("b"));
    assert!(!s.insert("a"));
    assert_eq!(s.len(), 2);
    assert_eq!(s.get(0), "a");
    assert_eq!(s.get(1), "b");

    let ab = OrderedSet::from_strs(&["a", "b", "a"]);
    let abc = OrderedSet::from_strs(&["c", "b", "a"]);
    assert_eq!(ab.len(), 2);
    assert!(ab.is_subset(&abc));
    assert!(abc.is_superset(&ab));
    assert!(!ab.set_eq(&abc));
    assert!(OrderedSet::from_strs(&["b", "a"]).set_eq(&ab));
    assert!(ab.is_disjoint(&OrderedSet::from_strs(&["x"])));

    assert!(OrderedSetRestrict::ProperSubset(abc.clone()).matches(&ab));
    assert!(!OrderedSetRestrict::ProperSubset(ab.clone()).matches(&ab));
    assert!(OrderedSetRestrict::Subset(ab.clone()).matches(&ab));
    assert!(OrderedSetRestrict::Superset(ab.clone()).matches(&abc));
    assert!(OrderedSetRestrict::ProperSuperset(ab.clone()).matches(&abc));
    assert!(OrderedSetRestrict::Equal(ab.clone()).matches(&OrderedSet::from_strs(&["b", "a"])));
    assert!(OrderedSetRestrict::Contains("c".to_string()).matches(&abc));
    assert!(OrderedSetRestrict::Empty.matches(&OrderedSet::new()));
    assert!(!OrderedSetRestrict::Empty.matches(&ab));
    assert!(OrderedSetRestrict::Disjoint(OrderedSet::from_strs(&["z"])).matches(&ab));
}
