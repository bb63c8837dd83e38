use std::cmp::Ordering;

use pkgcraft::pkgsh::builtins::dohtml::{
    csv_or_none, doc_subdir, file_allowed, split_csv, Options,
};
use pkgcraft::pkgsh::builtins::eapply::split_args;
use pkgcraft::pkgsh::builtins::econf::{configure_args, EapiOption};
use pkgcraft::pkgsh::metadata::Key;
use pkgcraft::pkgsh::phase::{docompress_defaults, run_steps, PhaseKind, PhaseStep};
use pkgcraft::repo::{restrict_from_components, RepoFormat};
use pkgcraft::restrict::dep::Restrict as DepRestrict;
use pkgcraft::restrict::Restrict;

#[test]
fn key_names() {
    assert_eq!(Key::DefinedPhases.as_str(), "DEFINED_PHASES");
    assert_eq!(Key::RequiredUse.as_str(), "REQUIRED_USE");
    assert_eq!(Key::from_name("SRC_URI"), Some(Key::SrcUri));
    assert_eq!(Key::from_name("src_uri"), None);
    for k in Key::all() {
        assert_eq!(Key::from_name(k.as_str()), Some(k));
    }
    assert_eq!(Key::all().len(), 19);
    assert_eq!(*Key::all().last().unwrap(), Key::Inherited);
}

#[test]
fn key_lines() {
    assert_eq!(Key::Eapi.line("8"), "EAPI=8");
    assert_eq!(Key::Inherited.line("a b"), "_eclasses_=a b");
    assert_eq!(Key::Slot.line(""), "SLOT=");
}

#[test]
fn key_order_is_by_name() {
    assert_eq!(Key::Bdepend.compare(&Key::Depend), Ordering::Less);
    assert_eq!(Key::Inherit.compare(&Key::Inherited), Ordering::Less);
    assert_eq!(Key::Inherited.compare(&Key::Iuse), Ordering::Less);
    assert_eq!(Key::SrcUri.compare(&Key::Slot), Ordering::Greater);
    assert_eq!(Key::Eapi.compare(&Key::Eapi), Ordering::Equal);
    let mut keys = Key::all();
    keys.sort_by(|a, b| a.compare(b));
    let names: Vec<&str> = keys.iter().map(|k| k.as_str()).collect();
    let mut sorted = names.clone();
    sorted.sort();
    assert_eq!(names, sorted);
}

#[test]
fn repo_formats() {
    assert_eq!(RepoFormat::Ebuild.as_str(), "ebuild");
    assert_eq!(RepoFormat::from_name("fake"), Some(RepoFormat::Fake));
    assert_eq!(RepoFormat::from_name("Fake"), None);
    assert_eq!(RepoFormat::all(), vec![RepoFormat::Ebuild, RepoFormat::Configured, RepoFormat::Fake]);
    assert!(RepoFormat::Ebuild < RepoFormat::Configured);
    assert!(RepoFormat::Configured < RepoFormat::Fake);
}

#[test]
fn phase_names() {
    assert_eq!(PhaseKind::SrcCompile.short_name(), "compile");
    assert_eq!(PhaseKind::PkgNofetch.short_name(), "nofetch");
    for p in PhaseKind::all() {
        let full = p.as_str();
        assert_eq!(full.split_once('_').unwrap().1, p.short_name());
    }
}

#[test]
fn phase_steps() {
    assert_eq!(run_steps(false, false, false, false, false), vec![PhaseStep::Default]);
    assert_eq!(
        run_steps(true, true, true, true, true),
        vec![
            PhaseStep::InternalPre,
            PhaseStep::UserPre,
            PhaseStep::User,
            PhaseStep::UserPost,
            PhaseStep::InternalPost,
        ]
    );
    assert_eq!(
        run_steps(false, true, false, false, true),
        vec![PhaseStep::UserPre, PhaseStep::Default, PhaseStep::InternalPost]
    );
}

#[test]
fn docompress_defaults_for_package() {
    let (inc, exc) = docompress_defaults("pkg-1");
    assert_eq!(inc, vec!["/usr/share/doc", "/usr/share/info", "/usr/share/man"]);
    assert_eq!(exc, vec!["/usr/share/doc/pkg-1/html"]);
}

#[test]
fn eapply_split_errors() {
    let e = split_args(&[]).unwrap_err();
    assert_eq!(e.message(), "requires 1 or more args, got 0");

    // options after file args
    for args in [["file.patch", "--"], ["file.patch", "-p1"]] {
        let e = split_args(&args).unwrap_err();
        assert_eq!(e.message(), "options must be specified before file arguments");
    }

    // no file args
    for args in [["--"], ["-p1"]] {
        let e = split_args(&args).unwrap_err();
        assert_eq!(e.message(), "no patches specified");
    }
}

#[test]
fn eapply_split() {
    let (opts, files) = split_args(&["-p1", "-R", "a.patch", "b.diff"]).unwrap();
    assert_eq!(opts, vec!["-p1", "-R"]);
    assert_eq!(files, vec!["a.patch", "b.diff"]);

    // everything after `--` is a file
    let (opts, files) = split_args(&["-p2", "--", "--", "-x"]).unwrap();
    assert_eq!(opts, vec!["-p2"]);
    assert_eq!(files, vec!["--", "-x"]);
}

#[test]
fn dohtml_lists() {
    let vals = vec!["css,gif".to_string(), "htm".to_string(), "a,,b,".to_string()];
    assert_eq!(split_csv(&vals), vec!["css", "gif", "htm", "a", "", "b", ""]);
    assert_eq!(split_csv(&[String::new()]), vec![""]);
    assert_eq!(csv_or_none(&[]), "none");
    assert_eq!(csv_or_none(&["a".to_string(), "b".to_string()]), "a,b");
}

#[test]
fn dohtml_allowed_files() {
    let exts = vec!["html".to_string(), "png".to_string()];
    let none: Vec<String> = vec![];
    assert!(file_allowed(Some("index.html"), Some("html"), &none, &exts));
    assert!(!file_allowed(Some("a.txt"), Some("txt"), &none, &exts));
    assert!(!file_allowed(Some("html"), None, &none, &exts));
    let files = vec!["a.txt".to_string()];
    assert!(file_allowed(Some("a.txt"), Some("txt"), &files, &exts));
    assert!(!file_allowed(Some("index.html"), Some("html"), &files, &exts));
}

#[test]
fn econf_defaults() {
    let r = configure_args(&[], "", "/prefix", "x86_64-pc-linux-gnu", None, None, None, &[]);
    assert_eq!(
        r,
        vec![
            "--prefix=/prefix/usr",
            "--mandir=/prefix/usr/share/man",
            "--infodir=/prefix/usr/share/info",
            "--datadir=/prefix/usr/share",
            "--sysconfdir=/prefix/etc",
            "--localstatedir=/prefix/var/lib",
            "--host=x86_64-pc-linux-gnu",
        ]
    );
}

#[test]
fn econf_overrides_and_extras() {
    let help = "Usage: configure\n  --disable-static   no static libs\n  --docdir=DIR\n  other text\n";
    let opts = vec![
        EapiOption {
            opt: "--disable-static".to_string(),
            markers: vec!["--disable-static".to_string(), "--enable-static".to_string()],
            value: None,
        },
        EapiOption {
            opt: "--docdir".to_string(),
            markers: vec!["--docdir".to_string()],
            value: Some("/usr/share/doc/pkg-1".to_string()),
        },
        EapiOption {
            opt: "--with-sysroot".to_string(),
            markers: vec!["--with-sysroot".to_string()],
            value: Some("/".to_string()),
        },
    ];
    let r = configure_args(
        &["--prefix=/opt", "--enable-foo", "--host=h=x", "--enable-foo=1"],
        help,
        "",
        "chost",
        Some("lib64"),
        Some("cbuild"),
        None,
        &opts,
    );
    assert_eq!(
        r,
        vec![
            "--prefix=/opt",
            "--mandir=/usr/share/man",
            "--infodir=/usr/share/info",
            "--datadir=/usr/share",
            "--sysconfdir=/etc",
            "--localstatedir=/var/lib",
            "--host=h=x",
            "--libdir=/opt/lib64",
            "--build=cbuild",
            "--disable-static",
            "--docdir=/usr/share/doc/pkg-1",
            "--enable-foo=1",
        ]
    );
}

#[test]
fn econf_libdir() {
    // an explicit libdir wins, an exec prefix comes before the prefix
    let r = configure_args(&["--libdir=/x"], "", "", "h", Some("lib64"), None, Some("t"), &[]);
    assert!(r.contains(&"--libdir=/x".to_string()));
    assert_eq!(r.last().unwrap(), "--libdir=/x");
    assert!(r.contains(&"--target=t".to_string()));
    let r = configure_args(&["--exec-prefix=/e", "--prefix=/p"], "", "", "h", Some("lib"), None, None, &[]);
    assert!(r.contains(&"--libdir=/e/lib".to_string()));
    let r = configure_args(&["--exec-prefix"], "", "/ep", "h", Some("lib"), None, None, &[]);
    assert!(r.contains(&"--libdir=/ep/usr/lib".to_string()));
    assert!(r.contains(&"--exec-prefix".to_string()));
}

#[test]
fn econf_help_lines() {
    // options are recognized at the start of trimmed lines, whatever the line endings
    let help = "\t--enable-a\r\n--enable-b=x\n  not --enable-c\n--enable-d";
    let opt = |o: &str| EapiOption {
        opt: format!("{o}-set"),
        markers: vec![o.to_string()],
        value: None,
    };
    let opts = vec![opt("--enable-a"), opt("--enable-b"), opt("--enable-c"), opt("--enable-d")];
    let r = configure_args(&[], help, "", "h", None, None, None, &opts);
    assert!(r.contains(&"--enable-a-set".to_string()));
    assert!(r.contains(&"--enable-b-set".to_string()));
    assert!(!r.contains(&"--enable-c-set".to_string()));
    assert!(r.contains(&"--enable-d-set".to_string()));
}

#[test]
fn dohtml_split_join_roundtrip() {
    for s in ["", "a", "a,b", ",", "a,,b,"] {
        let pieces = split_csv(&[s.to_string()]);
        assert_eq!(csv_or_none(&pieces), s);
    }
}

#[test]
fn repo_path_restrictions() {
    // repo root
    assert_eq!(restrict_from_components(&[], false, false), Restrict::True);

    // non-package path
    assert_eq!(restrict_from_components(&["profiles"], false, false), Restrict::False);

    // category dir
    assert_eq!(
        restrict_from_components(&["cat"], true, false),
        Restrict::and(vec![Restrict::Dep(DepRestrict::category("cat"))])
    );

    // package dir
    assert_eq!(
        restrict_from_components(&["cat", "pkg"], true, true),
        Restrict::and(vec![
            Restrict::Dep(DepRestrict::category("cat")),
            Restrict::Dep(DepRestrict::package("pkg")),
        ])
    );

    // ebuild file
    assert_eq!(
        restrict_from_components(&["cat", "pkg", "pkg-1.ebuild"], true, true),
        Restrict::and(vec![
            Restrict::Dep(DepRestrict::category("cat")),
            Restrict::Dep(DepRestrict::package("pkg")),
            Restrict::Dep(DepRestrict::version("1").unwrap()),
        ])
    );

    // ebuilds with invalid file names, and other package paths
    for f in ["pkga-1.ebuild", "pkg.ebuild", "files", "pkg-1.ebuild.bak", "pkg-1:2.ebuild"] {
        assert_eq!(restrict_from_components(&["cat", "pkg", f], true, true), Restrict::False);
    }
    assert_eq!(restrict_from_components(&["cat", "other"], true, false), Restrict::False);
    assert_eq!(
        restrict_from_components(&["cat", "pkg", "files", "x.patch"], true, true),
        Restrict::False
    );
}

#[test]
fn dohtml_verbose_summary() {
    // defaults
    let mut opts = Options::new(vec!["index.html".to_string()]);
    opts.verbose = true;
    let s = "dohtml:
  recursive: false
  verbose: true
  extra file exts: none
  allowed file exts: css,gif,htm,html,jpeg,jpg,js,png
  allowed files: none
  excluded dirs: none
  doc prefix: none
";
    assert_eq!(opts.summary(), s);

    // extra options
    opts.extra_file_exts = vec!["svg,tiff".to_string()];
    opts.doc_prefix = Some("docs".to_string());
    let s = "dohtml:
  recursive: false
  verbose: true
  extra file exts: svg,tiff
  allowed file exts: css,gif,htm,html,jpeg,jpg,js,png
  allowed files: none
  excluded dirs: none
  doc prefix: docs
";
    assert_eq!(opts.summary(), s);
}

#[test]
fn dohtml_option_values() {
    let mut opts = Options::new(vec![]);
    assert_eq!(
        opts.allowed_exts(),
        ["css", "gif", "htm", "html", "jpeg", "jpg", "js", "png"]
    );
    opts.allowed_file_exts = vec!["txt,md".to_string()];
    opts.extra_file_exts = vec!["svg".to_string(), "a,b".to_string()];
    assert_eq!(opts.allowed_exts(), ["txt", "md", "svg", "a", "b"]);

    assert_eq!(opts.prefix_dir(), "");
    opts.doc_prefix = Some("//docs/sub".to_string());
    assert_eq!(opts.prefix_dir(), "docs/sub");

    assert_eq!(doc_subdir(""), "html");
    assert_eq!(doc_subdir("newdir"), "newdir");
}
