use pkgcraft::pkgsh::metadata::{
    md5_dict_entry, metadata_cache_data, metadata_entries, verify_md5_entry, CacheMetadata,
};
use pkgcraft::pkgsh::metadata::{
    cache_data, cache_lines, cache_valid, inherited_names, read_cache_entries, Key,
};
use pkgcraft::pkgsh::phase::PhaseKind;

fn eclasses() -> Vec<(String, String)> {
    vec![
        ("e1".to_string(), "abc".to_string()),
        ("e2".to_string(), "def".to_string()),
    ]
}

#[test]
fn cache_entry_current() {
    let data = "DESCRIPTION=test\nSLOT=0\n_eclasses_=e1\tabc\te2\tdef\n_md5_=123\n";
    assert!(cache_valid(data, "123", &eclasses()));
    // without a trailing newline
    let data = "SLOT=0\n_eclasses_=e2\tdef\n_md5_=123";
    assert!(cache_valid(data, "123", &eclasses()));
    // no inherited eclasses
    let data = "DESCRIPTION=test\nSLOT=0\n_md5_=123\n";
    assert!(cache_valid(data, "123", &eclasses()));
    // an odd last token is not read
    let data = "SLOT=0\n_eclasses_=e1\tabc\te2\n_md5_=123\n";
    assert!(cache_valid(data, "123", &eclasses()));
}

#[test]
fn cache_entry_outdated() {
    // ebuild digest differs
    let data = "SLOT=0\n_eclasses_=e1\tabc\n_md5_=124\n";
    assert!(!cache_valid(data, "123", &eclasses()));
    // eclass digest differs
    let data = "SLOT=0\n_eclasses_=e1\tabd\n_md5_=123\n";
    assert!(!cache_valid(data, "123", &eclasses()));
    // unknown eclass
    let data = "SLOT=0\n_eclasses_=e3\tabc\n_md5_=123\n";
    assert!(!cache_valid(data, "123", &eclasses()));
    // ebuild digest missing
    let data = "SLOT=0\n_eclasses_=e1\tabc\n";
    assert!(!cache_valid(data, "123", &eclasses()));
    // too short
    assert!(!cache_valid("_md5_=123\n", "123", &eclasses()));
    assert!(!cache_valid("", "123", &eclasses()));
}

#[test]
fn metadata_key_values() {

    let none: Vec<String> = vec![];
    let phases = vec![
        PhaseKind::SrcUnpack,
        PhaseKind::PkgSetup,
        PhaseKind::SrcInstall,
        PhaseKind::SrcCompile,
    ];
    assert_eq!(
        Key::DefinedPhases.value(&phases, &none, None),
        Some("compile install setup unpack".to_string())
    );
    assert_eq!(Key::DefinedPhases.value(&vec![], &none, None), None);

    let inherit = vec!["e2".to_string(), "e1".to_string()];
    assert_eq!(Key::Inherit.value(&vec![], &inherit, None), Some("e2 e1".to_string()));
    assert_eq!(Key::Inherit.value(&vec![], &none, Some("ignored")), None);

    assert_eq!(
        Key::Description.value(&vec![], &none, Some("  a\tdescription \n with  spaces ")),
        Some("a description with spaces".to_string())
    );
    assert_eq!(Key::Slot.value(&vec![], &none, Some("")), Some(String::new()));
    assert_eq!(Key::Slot.value(&vec![], &none, None), None);
}

#[test]
fn metadata_cache_entries() {

    let data = "DEFINED_PHASES=-\nDESCRIPTION=a = b\nSLOT=0\nnonsense\nUNKNOWN=1\n_eclasses_=e1\tabc\te2\tdef\n_md5_=123\n";
    let allowed = vec![Key::DefinedPhases, Key::Description, Key::Inherited];
    let entries = read_cache_entries(data, &allowed);
    assert_eq!(
        entries,
        vec![
            (Key::DefinedPhases, String::new()),
            (Key::Description, "a = b".to_string()),
            (Key::Inherited, "e1\tabc\te2\tdef".to_string()),
        ]
    );

    // only the allowed keys are read
    let entries = read_cache_entries(data, &vec![Key::Slot]);
    assert_eq!(entries, vec![(Key::Slot, "0".to_string())]);

    assert_eq!(inherited_names("e1\tabc\te2\tdef"), ["e1", "e2"]);
    assert_eq!(inherited_names("e1 abc e2"), ["e1"]);
    assert!(inherited_names("").is_empty());
}

#[test]
fn metadata_cache_lines_read_back() {
    let allowed = Key::all();
    for key in Key::all() {
        let line = key.line("some value");
        let entries = read_cache_entries(&line, &allowed);
        assert_eq!(entries, vec![(key, "some value".to_string())]);
    }
    let line = Key::Inherited.line("e1\tabc");
    assert!(line.starts_with("_eclasses_="));
    assert_eq!(read_cache_entries(&line, &allowed), vec![(Key::Inherited, "e1\tabc".to_string())]);
    let line = Key::DefinedPhases.line("-");
    assert_eq!(read_cache_entries(&line, &allowed), vec![(Key::DefinedPhases, String::new())]);
}

#[test]
fn metadata_cache_serialized() {
    let entries = vec![
        (Key::Slot, "0".to_string()),
        (Key::Inherited, "e1\tabc".to_string()),
        (Key::Description, "a test".to_string()),
        (Key::DefinedPhases, "-".to_string()),
        (Key::Slot, "1".to_string()),
    ];
    assert_eq!(
        cache_lines(&entries),
        ["DEFINED_PHASES=-", "DESCRIPTION=a test", "SLOT=0", "_eclasses_=e1\tabc"]
    );
    let data = cache_data(&entries, "123");
    assert_eq!(
        data,
        "DEFINED_PHASES=-\nDESCRIPTION=a test\nSLOT=0\n_eclasses_=e1\tabc\n_md5_=123\n"
    );
    // the entry reads back and is current for its digest
    let eclasses = vec![("e1".to_string(), "abc".to_string())];
    assert!(cache_valid(&data, "123", &eclasses));
    assert_eq!(cache_data(&vec![], "123"), "\n_md5_=123\n");
}

#[test]
fn metadata_cache_from_fields() {
    let s = |v: &[&str]| v.iter().map(|x| x.to_string()).collect::<Vec<_>>();
    let meta = CacheMetadata {
        description: "a test".to_string(),
        slot: "0".to_string(),
        deps: vec![(Key::Rdepend, "cat/pkg".to_string())],
        license: Some("MIT".to_string()),
        properties: None,
        required_use: None,
        restrict: None,
        src_uri: None,
        homepage: s(&["https://a"]),
        defined_phases: vec![],
        keywords: s(&["amd64", "~arm64"]),
        iuse: vec![],
        inherit: s(&["e1"]),
        inherited: s(&["e1", "e2"]),
    };
    let eclasses = vec![
        ("e2".to_string(), "d2".to_string()),
        ("e1".to_string(), "d1".to_string()),
    ];
    let data = metadata_cache_data(&meta, "8", &eclasses, "abc");
    let expected = [
        "DEFINED_PHASES=-",
        "DESCRIPTION=a test",
        "EAPI=8",
        "HOMEPAGE=https://a",
        "INHERIT=e1",
        "KEYWORDS=amd64 ~arm64",
        "LICENSE=MIT",
        "RDEPEND=cat/pkg",
        "SLOT=0",
        "_eclasses_=e1\td1\te2\td2",
        "_md5_=abc",
    ]
    .join("\n")
        + "\n";
    assert_eq!(data, expected);

    // phases and empty lists
    let meta = CacheMetadata {
        defined_phases: s(&["compile", "install"]),
        homepage: vec![],
        keywords: vec![],
        inherit: vec![],
        inherited: vec![],
        license: None,
        deps: vec![],
        ..meta
    };
    let entries = metadata_entries(&meta, "7", &vec![]);
    let keys: Vec<Key> = entries.iter().map(|e| e.0).collect();
    assert_eq!(keys, vec![Key::DefinedPhases, Key::Description, Key::Eapi, Key::Slot]);
    assert_eq!(entries[0].1, "compile install");
}

#[test]
fn metadata_cache_round_trip() {
    let entries = vec![
        (Key::Slot, "0/1".to_string()),
        (Key::DefinedPhases, "-".to_string()),
        (Key::Description, "desc = with equals".to_string()),
        (Key::Inherited, "e1\td1".to_string()),
    ];
    let data = cache_data(&entries, "abc");
    let read = read_cache_entries(&data, &Key::all());
    // keys come back in their declared order, DEFINED_PHASES "-" as no phases
    assert_eq!(
        read,
        vec![
            (Key::DefinedPhases, "".to_string()),
            (Key::Description, "desc = with equals".to_string()),
            (Key::Slot, "0/1".to_string()),
            (Key::Inherited, "e1\td1".to_string()),
        ]
    );
    // only the keys read are given back
    assert_eq!(read_cache_entries(&data, &vec![Key::Slot]), vec![(Key::Slot, "0/1".to_string())]);
}

#[test]
fn invalid_cache_entry() {
    let data = "DEFINED_PHASES=-\n\
                DESCRIPTION=ebuild with no subslot\n\
                EAPI=8\n\
                SLOT=1\n\
                _md5_=e9b0c6b982420006ac4ca3ab1195a563\n\
                invalid data\n";
    let e = md5_dict_entry(data).unwrap_err();
    assert_eq!(e.message(), "invalid md5-dict cache line: invalid data");

    let data = "DEFINED_PHASES=-\n\
                DESCRIPTION=ebuild with no subslot\n\
                EAPI=8\n\
                SLOT=1\n\
                _md5_=e9b0c6b982420006ac4ca3ab1195a563\n\
                INVALID=data\n";
    let e = md5_dict_entry(data).unwrap_err();
    assert_eq!(e.message(), "invalid md5-dict cache key: INVALID");

    let pairs = md5_dict_entry("SLOT=0\n_eclasses_=e1\td1\n_md5_=abc\n").unwrap();
    assert_eq!(pairs.len(), 3);
    assert_eq!(pairs[1], ("_eclasses_".to_string(), "e1\td1".to_string()));
}

#[test]
fn md5_entry_verification() {
    let ecl = vec![("e1".to_string(), "d1".to_string())];
    let check = |data: &str, chksum: &str| {
        let pairs = md5_dict_entry(data).unwrap();
        verify_md5_entry("cat/pkg-1", &pairs, chksum, &ecl).map_err(|e| e.message())
    };
    assert!(check("SLOT=0\n_eclasses_=e1\td1\n_md5_=abc\n", "abc").is_ok());
    assert!(check("SLOT=0\n_md5_=abc\n", "abc").is_ok());
    assert_eq!(
        check("SLOT=0\n", "abc").unwrap_err(),
        "cat/pkg-1: invalid metadata: missing ebuild checksum"
    );
    assert_eq!(
        check("_md5_=xyz\n", "abc").unwrap_err(),
        "cat/pkg-1: invalid metadata: mismatched ebuild checksum"
    );
    assert_eq!(
        check("_eclasses_=e2\td2\n_md5_=abc\n", "abc").unwrap_err(),
        "cat/pkg-1: invalid metadata: nonexistent eclass: e2"
    );
    assert_eq!(
        check("_eclasses_=e1\tdx\n_md5_=abc\n", "abc").unwrap_err(),
        "cat/pkg-1: invalid metadata: mismatched eclass checksum: e1"
    );
    assert_eq!(
        check("INHERIT=e1\n_md5_=abc\n", "abc").unwrap_err(),
        "cat/pkg-1: invalid metadata: missing eclass checksum"
    );
}
