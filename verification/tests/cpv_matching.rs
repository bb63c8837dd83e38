use pkgcraft::dep::version::VerOrder;
use pkgcraft::dep::{Blocker, Cpn, Cpv, Version};
use pkgcraft::restrict::dep::Restrict as DepRestrict;
use pkgcraft::restrict::parse::dep::version_str;
use pkgcraft::restrict::{Restrict, Restriction};

fn ver(s: &str) -> Version {
    version_str(s).unwrap()
}

fn cpv(category: &str, package: &str, version: &str) -> Cpv {
    Cpv::new(category, package, ver(version))
}

#[test]
fn methods() {
    let cpn = Cpn::new("cat", "pkg");
    let cpv = cpv("cat", "pkg", "1");

    // category
    let r = DepRestrict::category("cat");
    assert!(r.matches(&cpn));
    assert!(r.matches(&cpv));

    // package
    let r = DepRestrict::package("pkg");
    assert!(r.matches(&cpn));
    assert!(r.matches(&cpv));
    let r = DepRestrict::package("pkga");
    assert!(!r.matches(&cpn));
    assert!(!r.matches(&cpv));

    // blocker
    let r = DepRestrict::Blocker(None);
    assert!(r.matches(&cpn));
    assert!(r.matches(&cpv));
    let r = DepRestrict::Blocker(Some(Blocker::Weak));
    assert!(!r.matches(&cpn));
    assert!(!r.matches(&cpv));

    // no version
    let r = DepRestrict::Version(None);
    assert!(r.matches(&cpn));
    assert!(!r.matches(&cpv));

    // version
    let r = DepRestrict::version("1").unwrap();
    assert!(!r.matches(&cpn));
    assert!(r.matches(&cpv));

    // no slot
    let r = DepRestrict::slot(None);
    assert!(r.matches(&cpn));
    assert!(r.matches(&cpv));

    // slot
    let r = DepRestrict::slot(Some("2"));
    assert!(!r.matches(&cpn));
    assert!(!r.matches(&cpv));

    // no subslot
    let r = DepRestrict::subslot(None);
    assert!(r.matches(&cpn));
    assert!(r.matches(&cpv));

    // subslot
    let r = DepRestrict::subslot(Some("3"));
    assert!(!r.matches(&cpn));
    assert!(!r.matches(&cpv));

    // no use deps specified
    let r = DepRestrict::UseDeps(None);
    assert!(r.matches(&cpn));
    assert!(r.matches(&cpv));

    // use deps specified
    for s in ["u1", "u1,u2"] {
        let r = DepRestrict::use_deps(s).unwrap();
        assert!(!r.matches(&cpn));
        assert!(!r.matches(&cpv));
    }

    // no repo
    let r = DepRestrict::repo(None);
    assert!(r.matches(&cpn));
    assert!(r.matches(&cpv));

    // repo
    let r = DepRestrict::repo(Some("repo"));
    assert!(!r.matches(&cpn));
    assert!(!r.matches(&cpv));
}

#[test]
fn dep_versions() {
    let lt_cpv = cpv("cat", "pkg", "0");
    let gt_cpv = cpv("cat", "pkg", "2");

    let r = DepRestrict::version("<1-r1").unwrap();
    assert!(r.matches(&lt_cpv));
    assert!(!r.matches(&gt_cpv));

    let r = DepRestrict::version("<=1-r1").unwrap();
    assert!(r.matches(&lt_cpv));
    assert!(r.matches(&cpv("cat", "pkg", "1-r1")));
    assert!(!r.matches(&gt_cpv));

    let r = DepRestrict::version("=1-r1").unwrap();
    assert!(!r.matches(&lt_cpv));
    assert!(r.matches(&cpv("cat", "pkg", "1-r1")));
    assert!(!r.matches(&gt_cpv));

    let r = DepRestrict::version("=1*").unwrap();
    assert!(!r.matches(&lt_cpv));
    for s in ["1-r1", "10", "1.0.1"] {
        assert!(r.matches(&cpv("cat", "pkg", s)));
    }
    assert!(!r.matches(&gt_cpv));

    let r = DepRestrict::version("~1").unwrap();
    assert!(!r.matches(&lt_cpv));
    for s in ["1-r1", "1-r999"] {
        assert!(r.matches(&cpv("cat", "pkg", s)));
    }
    assert!(!r.matches(&gt_cpv));

    let r = DepRestrict::version(">=1-r1").unwrap();
    assert!(!r.matches(&lt_cpv));
    assert!(r.matches(&cpv("cat", "pkg", "1-r1")));
    assert!(r.matches(&gt_cpv));

    let r = DepRestrict::version(">1-r1").unwrap();
    assert!(!r.matches(&lt_cpv));
    assert!(!r.matches(&cpv("cat", "pkg", "1-r1")));
    assert!(r.matches(&gt_cpv));
}

#[test]
fn cpv_restriction_matches_itself_only() {
    let target = cpv("cat", "pkg", "1-r1");
    let r = Restrict::from_cpv(&target);
    assert!(r.matches(&target));
    assert!(r.matches(&cpv("cat", "pkg", "1-r01")));
    assert!(!r.matches(&cpv("cat", "pkg", "1")));
    assert!(!r.matches(&cpv("cat", "pkga", "1-r1")));
    assert!(!r.matches(&cpv("cat1", "pkg", "1-r1")));
    assert!(!r.matches(&Cpn::new("cat", "pkg")));
}

#[test]
fn version_ordering() {
    let order = |a: &str, b: &str| ver(a).compare(&ver(b));
    assert_eq!(order("1", "1"), VerOrder::Equal);
    assert_eq!(order("1.0", "1.00"), VerOrder::Equal);
    assert_eq!(order("1-r0", "1"), VerOrder::Equal);
    assert_eq!(order("1.01", "1.1"), VerOrder::Less);
    assert_eq!(order("1.2", "1.10"), VerOrder::Less);
    assert_eq!(order("1_alpha", "1_beta"), VerOrder::Less);
    assert_eq!(order("1_rc", "1"), VerOrder::Less);
    assert_eq!(order("1_p1", "1"), VerOrder::Greater);
    assert_eq!(order("1a", "1"), VerOrder::Greater);
    assert_eq!(order("1-r2", "1-r10"), VerOrder::Less);
    assert_eq!(order("2", "1.9.9"), VerOrder::Greater);
    assert_eq!(order("1.0", "1"), VerOrder::Greater);
}

#[test]
fn version_text_round_trip() {
    for s in ["1", "1.2.3b_alpha4_p-r5", "01.002", "1_rc"] {
        assert_eq!(ver(s).text(), s);
    }
    assert_eq!(ver(">=1.2").text(), "1.2");
}

#[test]
fn conversion() {
    let cpn = Cpn::new("cat", "pkg");
    let cpv = cpv("cat", "pkg", "1");

    // cpn restriction
    let r = Restrict::from_cpn(&cpn);
    assert!(r.matches(&cpn));
    assert!(r.matches(&cpv));

    // cpv restriction
    let r = Restrict::from_cpv(&cpv);
    assert!(!r.matches(&cpn));
    assert!(r.matches(&cpv));
}

#[test]
fn version_order_flips_and_chains() {
    let vs = ["0", "1_alpha", "1_rc1", "1", "1-r1", "1_p1", "1a", "1.0", "1.01", "1.1", "1.10", "2"];
    let flip = |o: VerOrder| match o {
        VerOrder::Less => VerOrder::Greater,
        VerOrder::Equal => VerOrder::Equal,
        VerOrder::Greater => VerOrder::Less,
    };
    for (i, a) in vs.iter().enumerate() {
        for (j, b) in vs.iter().enumerate() {
            let ab = ver(a).compare(&ver(b));
            assert_eq!(ver(b).compare(&ver(a)), flip(ab), "{a} {b}");
            // the list is in increasing order
            let expected = if i < j {
                VerOrder::Less
            } else if i == j {
                VerOrder::Equal
            } else {
                VerOrder::Greater
            };
            assert_eq!(ab, expected, "{a} {b}");
        }
    }
}
