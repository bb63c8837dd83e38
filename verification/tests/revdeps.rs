use pkgcraft::dep::Cpn;
use pkgcraft::pkgsh::metadata::Key;
use pkgcraft::repo::revdeps::{revdep_report, RevDep};
use pkgcraft::dep::{Cpv, UseDep, UseDepKind};
use pkgcraft::repo::revdeps::{cpv_string, entry_string, order_entries, revdep_lines};
use pkgcraft::restrict::parse::dep::version_str;

fn cpv(category: &str, package: &str, version: &str) -> Cpv {
    Cpv::new(category, package, version_str(version).unwrap())
}

fn use_dep(flag: &str, enabled: bool) -> UseDep {
    UseDep { flag: flag.to_string(), kind: UseDepKind::Conditional, enabled, default: None }
}

#[test]
fn revdep_cpv_text() {
    assert_eq!(cpv_string(&cpv("cat", "pkg", "1.2_rc3-r4")), "cat/pkg-1.2_rc3-r4");
}

#[test]
fn revdep_entry_text() {
    let c = cpv("cat", "pkg", "1");
    assert_eq!(entry_string(&c, false, &vec![]), "cat/pkg-1");
    assert_eq!(entry_string(&c, true, &vec![]), "[B]cat/pkg-1");
    let flags = vec![use_dep("a", true), use_dep("b", false), use_dep("c", true)];
    assert_eq!(entry_string(&c, false, &flags), "cat/pkg-1:a+!b+c");
    assert_eq!(entry_string(&c, true, &vec![use_dep("x", false)]), "[B]cat/pkg-1:!x");
}

#[test]
fn revdep_lines_sorted_and_formatted() {
    let entries = vec![
        (cpv("cat", "pkg", "2"), true, vec![]),
        (cpv("cat", "pkg", "10"), false, vec![use_dep("ssl", true)]),
        (cpv("a", "z", "1"), false, vec![]),
        (cpv("cat", "pkg", "2"), false, vec![use_dep("x", false), use_dep("y", true)]),
    ];
    assert_eq!(
        revdep_lines(entries),
        vec![
            "a/z-1".to_string(),
            "cat/pkg-2:!x+y".to_string(),
            "[B]cat/pkg-2".to_string(),
            "cat/pkg-10:ssl".to_string(),
        ]
    );
    assert!(revdep_lines(vec![]).is_empty());
}

#[test]
fn revdep_entries_keep_every_entry() {
    let entries = vec![
        (cpv("cat", "pkg", "1"), false, vec![]),
        (cpv("cat", "pkg", "1"), false, vec![]),
        (cpv("cat", "pkg", "0.9"), true, vec![]),
    ];
    let ordered = order_entries(entries);
    assert_eq!(ordered.len(), 3);
    assert_eq!(ordered[0].0, cpv("cat", "pkg", "0.9"));
    assert_eq!(ordered[2].0, cpv("cat", "pkg", "1"));
}

#[test]
fn revdep_report_groups_and_merges() {

    let target = Cpn::new("cat", "pkg");
    let other = Cpn::new("cat", "lib");
    let rd = |v: &str, blocker: bool, flags: Vec<UseDep>, keys: Vec<Key>| RevDep {
        cpv: cpv("dev", "user", v),
        blocker,
        use_deps: flags,
        keys,
    };
    let cache = vec![
        (
            target.clone(),
            vec![
                rd("1", false, vec![use_dep("a", true)], vec![Key::Depend, Key::Rdepend]),
                rd("1", false, vec![use_dep("b", false), use_dep("a", true)], vec![Key::Depend]),
                rd("1", true, vec![], vec![Key::Depend]),
            ],
        ),
        (other.clone(), vec![rd("2", false, vec![], vec![Key::Bdepend])]),
    ];
    let report = revdep_report(&cache);
    assert_eq!(report.len(), 3);

    // one group per lower-case key and package, in the order they first occur
    assert_eq!(report[0].0, "depend");
    assert_eq!(report[0].1, target);
    assert_eq!(report[1].0, "rdepend");
    assert_eq!(report[2].0, "bdepend");
    assert_eq!(report[2].1, other);

    // entries with the same version and blocking merge, their flags united
    let depend = &report[0].2;
    assert_eq!(depend.len(), 2);
    assert_eq!(depend[0].2, vec![use_dep("a", true), use_dep("b", false)]);
    assert!(depend[1].1);
    assert_eq!(
        revdep_lines(report[0].2.clone()),
        vec!["dev/user-1:a+!b".to_string(), "[B]dev/user-1".to_string()]
    );
    assert_eq!(revdep_lines(report[1].2.clone()), vec!["dev/user-1:a".to_string()]);
}

#[test]
fn key_lower_names() {
    for k in Key::all() {
        assert_eq!(k.lower_name(), k.as_str().to_lowercase());
    }
}
