use indexmap::{IndexMap, IndexSet};
use pkgcraft::repo::metadata::{
    arch_status, arches, filter_lines, license_groups, mirrors, regen_outcome,
};

fn known(v: &[&str]) -> IndexSet<String> {
    v.iter().map(|s| s.to_string()).collect()
}

fn group(groups: &IndexMap<String, IndexSet<String>>, name: &str) -> Vec<String> {
    groups.get(name).unwrap().iter().cloned().collect()
}

fn keys(groups: &IndexMap<String, IndexSet<String>>) -> Vec<String> {
    groups.keys().cloned().collect()
}

#[test]
fn metadata_filter_lines() {
    let data = "# comment\n\n  a b  \n\t# indented comment\nc\n   \n";
    assert_eq!(filter_lines(data), ["a b", "c"]);
    assert!(filter_lines("").is_empty());
}

#[test]
fn license_groups_empty() {
    assert!(license_groups("", &known(&["a"])).is_empty());
    assert!(license_groups("# only a comment\n\n", &known(&["a"])).is_empty());
}

#[test]
fn license_groups_unknown_licenses() {
    // multiple with unknown and mixed whitespace
    let data = "# comment 1\ngroup1 a b\n\n# comment 2\ngroup2 a\tz\n";
    let groups = license_groups(data, &known(&["a", "b", "c"]));
    assert_eq!(group(&groups, "group1"), ["a", "b"]);
    assert_eq!(group(&groups, "group2"), ["a"]);
    assert_eq!(keys(&groups), ["group1", "group2"]);
}

#[test]
fn license_groups_unknown_and_invalid_aliases() {
    let data = "# comment 1\ngroup1 b @\n\n# comment 2\ngroup2 a c @group1 @group3\n";
    let groups = license_groups(data, &known(&["a", "b", "c"]));
    assert_eq!(group(&groups, "group1"), ["b"]);
    assert_eq!(group(&groups, "group2"), ["a", "c", "b"]);
    assert_eq!(keys(&groups), ["group1", "group2"]);
}

#[test]
fn license_groups_cyclic_aliases() {
    let data = "group1 a @group2\ngroup2 b @group1\ngroup3 c @group2\ngroup4 c @group4\n";
    let groups = license_groups(data, &known(&["a", "b", "c"]));
    assert_eq!(group(&groups, "group1"), ["a", "b"]);
    assert_eq!(group(&groups, "group2"), ["b", "a"]);
    assert_eq!(group(&groups, "group3"), ["c", "b", "a"]);
    assert_eq!(group(&groups, "group4"), ["c"]);
}

#[test]
fn license_groups_nested_aliases() {
    // aliases of aliases are followed, and a redefined group keeps its first place
    let data = "top @mid\nmid b @low\nlow c\nmid a @low\n";
    let groups = license_groups(data, &known(&["a", "b", "c"]));
    assert_eq!(keys(&groups), ["top", "mid", "low"]);
    assert_eq!(group(&groups, "mid"), ["a", "c"]);
    assert_eq!(group(&groups, "top"), ["a", "c"]);
    assert_eq!(group(&groups, "low"), ["c"]);
}

#[test]
fn mirror_groups() {
    assert!(mirrors("").is_empty());

    // multiple with mixed whitespace
    let data = "# comment 1\nmirror1 https://a/mirror/ https://another/mirror\n\n# comment 2\nmirror2\thttp://yet/another/mirror/\n";
    let m = mirrors(data);
    assert_eq!(group(&m, "mirror1"), ["https://a/mirror/", "https://another/mirror"]);
    assert_eq!(group(&m, "mirror2"), ["http://yet/another/mirror/"]);

    // a line without mirrors defines nothing; a redefined group takes the later URLs
    let m = mirrors("empty\nm a\nm b b\n");
    assert_eq!(m.len(), 1);
    assert_eq!(group(&m, "m"), ["b"]);
}

#[test]
fn metadata_regen_outcome() {
    assert!(regen_outcome(&vec![]).is_ok());
    assert!(regen_outcome(&vec![false, false]).is_ok());
    let e = regen_outcome(&vec![false, true, false]).unwrap_err();
    assert_eq!(e.message(), "metadata failures occurred");
}

#[test]
fn metadata_arches() {
    // nonexistent or empty file
    assert!(arches("").is_empty());

    // multiple
    let data = "amd64\narm64\namd64-linux\n";
    let got: Vec<String> = arches(data).into_iter().collect();
    assert_eq!(got, ["amd64", "arm64", "amd64-linux"]);

    // comments, blank lines and repeats
    let got: Vec<String> = arches("# arches\n\namd64\n  arm64 \namd64\n").into_iter().collect();
    assert_eq!(got, ["amd64", "arm64"]);
}

#[test]
fn arches_desc() {
    // empty file
    assert!(arches_desc_of("", &["amd64"]).is_empty());

    // invalid line format: the line is passed over
    let desc = arches_desc_of("amd64 stable\narm64", &["amd64", "arm64"]);
    assert!(!desc.is_empty());
    assert_eq!(group(&desc, "stable"), ["amd64"]);
    assert_eq!(keys(&desc), ["stable"]);

    // unknown arch
    assert!(arches_desc_of("arm64 stable", &["amd64"]).is_empty());

    // unknown status
    assert!(arches_desc_of("amd64 test", &["amd64"]).is_empty());

    // multiple with ignored 3rd column
    let desc = arches_desc_of(
        "amd64 stable\narm64 testing\nppc testing\nppc64 transitional 3rd-col",
        &["amd64", "arm64", "ppc", "ppc64"],
    );
    assert_eq!(group(&desc, "stable"), ["amd64"]);
    assert_eq!(group(&desc, "testing"), ["arm64", "ppc"]);
    assert_eq!(group(&desc, "transitional"), ["ppc64"]);
    assert_eq!(keys(&desc), ["stable", "testing", "transitional"]);
}

fn arches_desc_of(data: &str, arches: &[&str]) -> IndexMap<String, IndexSet<String>> {
    pkgcraft::repo::metadata::arches_desc(data, &known(arches))
}

#[test]
fn arch_status_names() {
    assert!(arch_status("stable"));
    assert!(arch_status("testing"));
    assert!(arch_status("transitional"));
    assert!(!arch_status("test"));
    assert!(!arch_status("Stable"));
}
