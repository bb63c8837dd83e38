use pkgcraft::repo::config::LayoutConfig;

fn strings(v: &[&str]) -> Vec<String> {
    v.iter().map(|s| s.to_string()).collect()
}

fn empty() -> LayoutConfig {
    LayoutConfig {
        cache_formats: vec![],
        eapis_banned: vec![],
        eapis_deprecated: vec![],
        eapis_testing: vec![],
        manifest_hashes: vec![],
        manifest_required_hashes: vec![],
        masters: vec![],
        profile_formats: vec![],
        properties_allowed: vec![],
        restrict_allowed: vec![],
        thin_manifests: false,
    }
}

#[test]
fn settings() {
    // empty
    let config = empty();
    assert!(config.masters.is_empty());
    assert!(config.properties_allowed.is_empty());
    assert!(config.restrict_allowed.is_empty());
    assert!(!config.thin_manifests);
    assert_eq!(config.config_text(), "thin-manifests = false\n");

    // valid
    let data = "masters = repo1 repo2\n\
                properties-allowed = interactive live\n\
                restrict-allowed = fetch mirror\n\
                thin-manifests = false\n";
    let config = LayoutConfig::parse(data).unwrap();
    assert_eq!(config.masters, strings(&["repo1", "repo2"]));
    assert_eq!(config.properties_allowed, strings(&["interactive", "live"]));
    assert_eq!(config.restrict_allowed, strings(&["fetch", "mirror"]));
    assert!(!config.thin_manifests);
    assert_eq!(config.config_text(), data);
}

#[test]
fn layout_settings_read() {
    // repeated names are kept once, where they first occur; the first value of a key counts
    let data = "masters = gentoo other gentoo\nmasters = ignored\nthin-manifests = true\n";
    let config = LayoutConfig::parse(data).unwrap();
    assert_eq!(config.masters, strings(&["gentoo", "other"]));
    assert!(config.thin_manifests);
    assert!(config.cache_formats.is_empty());

    // nothing set
    let config = LayoutConfig::parse("").unwrap();
    assert!(config.masters.is_empty());
    assert!(!config.thin_manifests);

    // settings given directly
    let settings = vec![("eapis-banned".to_string(), "0  1\t2".to_string())];
    let config = LayoutConfig::from_settings(&settings).unwrap();
    assert_eq!(config.eapis_banned, strings(&["0", "1", "2"]));
}

#[test]
fn layout_settings_refused() {
    let e = LayoutConfig::parse("thin-manifests = maybe\n").err().unwrap();
    assert_eq!(e.message(), "thin-manifests: unsupported value: maybe");

    let e = LayoutConfig::parse("[section\n").err().unwrap();
    assert!(e.message().starts_with("failed parsing INI: "));
}

#[test]
fn layout_text_reads_back() {
    let config = LayoutConfig {
        masters: strings(&["gentoo"]),
        eapis_testing: strings(&["8", "9"]),
        thin_manifests: true,
        ..empty()
    };
    let back = LayoutConfig::parse(&config.config_text()).unwrap();
    assert_eq!(back.masters, config.masters);
    assert_eq!(back.eapis_testing, config.eapis_testing);
    assert!(back.thin_manifests);
    assert_eq!(back.config_text(), config.config_text());
}

#[test]
fn layout_text_order() {
    let config = LayoutConfig {
        cache_formats: strings(&["md5-dict"]),
        manifest_hashes: strings(&["BLAKE2B", "SHA512"]),
        eapis_banned: strings(&["0", "1"]),
        thin_manifests: true,
        ..empty()
    };
    assert_eq!(
        config.config_text(),
        "cache-formats = md5-dict\neapis-banned = 0 1\nmanifest-hashes = BLAKE2B SHA512\nthin-manifests = true\n"
    );
}

#[test]
fn layout_list_reads_back() {
    let names = strings(&["repo1", "repo2", "repo3"]);
    let settings = vec![
        ("masters".to_string(), names.join(" ")),
        ("restrict-allowed".to_string(), String::new()),
    ];
    let config = LayoutConfig::from_settings(&settings).unwrap();
    assert_eq!(config.masters, names);
    assert!(config.restrict_allowed.is_empty());
}
