use pkgcraft::pkgsh::builtins::{
    command_not_found_handle, debug_print_function, default_src_configure, die,
    diropts, docinto, docompress, doenvd, dolib_a, eapply_user, get_libdir, inherit, insinto,
    keepdir, newexe, range, ver_test, version_split, Scope, Scopes,
};
use pkgcraft::pkgsh::phase::PhaseKind;
use pkgcraft::Error;

fn assert_invalid_args<T, F>(func: F, nums: &[u32])
where
    F: Fn(&[&str]) -> pkgcraft::Result<T>,
{
    for n in nums {
        let args: Vec<String> = (0..*n).map(|n| n.to_string()).collect();
        let args: Vec<&str> = args.iter().map(|s| s.as_str()).collect();
        let re = regex::Regex::new(&format!("^.*, got {n}")).unwrap();
        match func(&args) {
            Ok(_) => panic!("{n} args unexpectedly accepted"),
            Err(e) => assert!(re.is_match(&e.message()), "{}", e.message()),
        }
    }
}

#[test]
fn debug_print_function_invalid_args() {
    assert_invalid_args(debug_print_function::run, &[0]);
}

#[test]
fn default_invalid_args() {
    assert_invalid_args(pkgcraft::pkgsh::builtins::default::run, &[1]);
}

#[test]
fn default_src_configure_invalid_args() {
    assert_invalid_args(default_src_configure::run, &[1]);
}

#[test]
fn diropts_invalid_args() {
    assert_invalid_args(diropts::run, &[0]);
}

#[test]
fn docinto_invalid_args() {
    assert_invalid_args(|a| docinto::run(a).map(|s| s.to_string()), &[0, 2]);
}

#[test]
fn docompress_invalid_args() {
    assert_invalid_args(docompress::run, &[0]);
}

#[test]
fn doenvd_invalid_args() {
    assert_invalid_args(doenvd::run, &[0]);
}

#[test]
fn dolib_a_invalid_args() {
    assert_invalid_args(dolib_a::run, &[0]);
}

#[test]
fn eapply_user_invalid_args() {
    assert_invalid_args(eapply_user::run, &[1]);
}

#[test]
fn inherit_invalid_args() {
    assert_invalid_args(|a| inherit::run(a, &vec![]), &[0]);
}

#[test]
fn insinto_invalid_args() {
    assert_invalid_args(|a| insinto::run(a).map(|s| s.to_string()), &[0]);
}

#[test]
fn keepdir_invalid_args() {
    assert_invalid_args(keepdir::run, &[0]);
}

#[test]
fn newexe_invalid_args() {
    assert_invalid_args(
        |a| newexe::run(a).map(|(s, d)| (s.to_string(), d.to_string())),
        &[0, 1, 3],
    );
}

#[test]
fn get_libdir_invalid_args() {
    assert_invalid_args(get_libdir::run, &[1]);
    assert!(get_libdir::run(&[]).is_ok());
}

#[test]
fn diropts_set_path() {
    assert_eq!(diropts::run(&["-m0777", "-p"]).unwrap(), ["-m0777", "-p"]);
}

#[test]
fn docinto_set_path() {
    assert_eq!(docinto::run(&["examples"]).unwrap(), "examples");
    assert_eq!(docinto::run(&["/"]).unwrap(), "");
}

#[test]
fn insinto_set_path() {
    assert_eq!(insinto::run(&["/test/path"]).unwrap(), "/test/path");
    assert_eq!(insinto::run(&["/"]).unwrap(), "");
}

#[test]
fn test_include() {
    let (exclude, paths) = docompress::run(&["/test/path"]).unwrap();
    assert!(!exclude);
    assert_eq!(paths, ["/test/path"]);
}

#[test]
fn test_exclude() {
    let (exclude, paths) = docompress::run(&["-x", "/test/path"]).unwrap();
    assert!(exclude);
    assert_eq!(paths, ["/test/path"]);
}

#[test]
fn debug_print_function_message() {
    let args = debug_print_function::run(&["func", "a", "b"]).unwrap();
    assert_eq!(args, ["func: entering function", "a", "b"]);
}

#[test]
fn inherit_skips_inherited() {
    let inherited = vec!["e1".to_string()];
    assert_eq!(inherit::run(&["e1", "e2", "e3"], &inherited).unwrap(), ["e2", "e3"]);
    assert!(inherit::run(&["e1"], &inherited).unwrap().is_empty());
}

#[test]
fn keepdir_file_name() {
    assert_eq!(keepdir::keep_file_name("cat", "pkg", "0"), ".keep_cat_pkg_0");
}

#[test]
fn new_args() {
    assert_eq!(newexe::run(&["bin", "pkgcraft"]).unwrap(), ("bin", "pkgcraft"));
    let e = newexe::run(&["bin"]).unwrap_err();
    assert_eq!(e.message(), "requires 2, got 1");
}

#[test]
fn die_outcomes() {
    assert_eq!(
        die::run(&[], true, false).unwrap(),
        die::Outcome::Bail("(no error message)".to_string())
    );
    assert_eq!(
        die::run(&["output message"], true, false).unwrap(),
        die::Outcome::Bail("output message".to_string())
    );
    assert_eq!(
        die::run(&["-n", "message"], true, true).unwrap(),
        die::Outcome::Failure(Some("message".to_string()))
    );
    assert_eq!(die::run(&["-n"], true, true).unwrap(), die::Outcome::Failure(None));
    assert_eq!(
        die::run(&["-n", "message"], true, false).unwrap(),
        die::Outcome::Bail("message".to_string())
    );
    let e = die::run(&["a", "b"], false, false).unwrap_err();
    assert_eq!(e.message(), "takes up to 1 arg, got 2");
    let e = die::run(&["-n", "a", "b"], true, true).unwrap_err();
    assert_eq!(e.message(), "takes up to 1 arg, got 3");
}

#[test]
fn command_not_found() {
    let e = command_not_found_handle::run(&["ls"], false);
    assert_eq!(e, Error::Bail("unknown command: ls".to_string()));
    let e = command_not_found_handle::run(&["ls"], true);
    assert_eq!(e, Error::Base("unknown command: ls".to_string()));
}

#[test]
fn scopes_iter() {
    assert_eq!(Scopes::Global.iter(), [Scope::Global]);
    assert_eq!(Scopes::Eclass.iter(), [Scope::Eclass]);
    assert_eq!(Scopes::Phase(PhaseKind::SrcTest).iter(), [Scope::Phase(PhaseKind::SrcTest)]);
    assert_eq!(Scopes::Phases.iter().len(), 15);
    let src: Vec<_> = Scopes::Src.iter().iter().map(|s| s.as_str()).collect();
    assert_eq!(
        src,
        ["src_unpack", "src_prepare", "src_configure", "src_compile", "src_test", "src_install"]
    );
    let pkg = Scopes::Pkg.iter();
    assert_eq!(pkg.len(), 9);
    assert!(pkg.iter().all(|s| s.as_str().starts_with("pkg_")));
    let all = Scopes::All.iter();
    assert_eq!(all.len(), 17);
    assert_eq!(all[0], Scope::Global);
    assert_eq!(all[1], Scope::Eclass);
    assert_eq!(all[2], Scope::Phase(PhaseKind::PkgSetup));
}

#[test]
fn version_split_parts() {
    assert_eq!(version_split("1.2.3").unwrap(), ["", "1", ".", "2", ".", "3"]);
    assert_eq!(version_split("1b").unwrap(), ["", "1", "", "b"]);
    assert_eq!(version_split("1.").unwrap(), ["", "1", ".", ""]);
    assert_eq!(version_split("-1_a").unwrap(), ["-", "1", "_", "a"]);
    assert!(version_split("").unwrap().is_empty());
}

#[test]
fn ranges() {
    assert_eq!(range("1-2", 5).unwrap(), (1, 2));
    assert_eq!(range("3", 5).unwrap(), (3, 3));
    assert_eq!(range("2-", 5).unwrap(), (2, 5));
    assert_eq!(range("7-", 5).unwrap(), (7, 7));
    assert!(range("a", 5).is_err());
    assert!(range("1-2x", 5).is_err());
    assert!(range("99999999999999999999999", 5).is_err());
    let e = range("3-1", 5).unwrap_err();
    assert_eq!(e.message(), "start of range (3) is greater than end (1)");
}

#[test]
fn die_invalid_args() {
    assert_invalid_args(|args| die::run(args, true, false), &[3]);

    // EAPIs without `die -n`
    assert_invalid_args(|args| die::run(args, false, false), &[2]);
}

#[test]
fn ver_test_invalid_args() {
    assert_invalid_args(|args| ver_test::run(args, ""), &[0, 1, 4]);
    // $PVR not defined
    assert!(ver_test::run(&["-eq", "1"], "").is_err());
}

#[test]
fn invalid_versions() {
    for v in ["a", "1_1", "1-2"] {
        let r = ver_test::run(&[v, "-eq", v], "");
        assert!(r.unwrap_err().message().contains("invalid version"));
    }
}

#[test]
fn invalid_op() {
    for op in [">", ">=", "<", "<=", "==", "!="] {
        let r = ver_test::run(&["1", op, "2"], "");
        let re = regex::Regex::new(&format!("^invalid operator: {op}$")).unwrap();
        assert!(re.is_match(&r.unwrap_err().message()));
    }
}

#[test]
fn ver_test_operands() {
    let (v1, t, v2) = ver_test::run(&["1.2", "-lt", "2-r1"], "").unwrap();
    assert_eq!(t, ver_test::VersionTest::Lt);
    assert_eq!(v1.numbers.len(), 2);
    assert_eq!(v2.revision.0.value, 1);
    // with two arguments the first version is $PVR
    let (v1, t, _) = ver_test::run(&["-ge", "3"], "1.0-r2").unwrap();
    assert_eq!(t, ver_test::VersionTest::Ge);
    assert_eq!(v1.revision.0.value, 2);
    let e = ver_test::run(&["-eq", "1"], "").unwrap_err();
    assert_eq!(e.message(), "$PVR is undefined");
}

#[test]
fn _new_invalid_args() {
    // the file name can't contain a path separator
    for f in ["bin/pkgcraft", "/bin/pkgcraft", "/"] {
        let e = newexe::run(&["bin", f]).unwrap_err();
        assert_eq!(e.message(), format!("invalid filename: {f:?}"));
    }
    assert!(newexe::run(&["bin", "pkgcraft"]).is_ok());
}

#[test]
fn return_status() {
    let compares = [
        ("1", "==", "1"),
        ("1.0", "==", "1.00"),
        ("1", "==", "1-r0"),
        ("1", "!=", "2"),
        ("1", "<", "2-r1"),
        ("1.2", "<", "1.10"),
        ("1.01", "<", "1.1"),
        ("1_alpha", "<", "1_beta"),
        ("1_rc1", "<", "1"),
        ("1", "<", "1_p1"),
        ("1", "<", "1a"),
        ("1-r2", "<", "1-r10"),
        ("2", ">", "1.9.9"),
        ("1.0", ">", "1"),
        ("1", "<=", "1-r0"),
        ("1", "<=", "2"),
        ("2", ">=", "2"),
        ("3", ">=", "2"),
    ];
    let op = |s: &str| match s {
        "==" => "-eq",
        "!=" => "-ne",
        "<" => "-lt",
        ">" => "-gt",
        "<=" => "-le",
        ">=" => "-ge",
        _ => unreachable!(),
    };
    let inverted = |s: &str| match s {
        "==" => "-ne",
        "!=" => "-eq",
        "<" => "-ge",
        ">" => "-le",
        "<=" => "-gt",
        ">=" => "-lt",
        _ => unreachable!(),
    };
    for (v1, o, v2) in compares {
        assert!(ver_test::status(&[v1, op(o), v2], "").unwrap(), "{v1} {o} {v2}");
        assert!(!ver_test::status(&[v1, inverted(o), v2], "").unwrap(), "{v1} {o} {v2}");
        // the first version taken from $PVR
        assert!(ver_test::status(&[op(o), v2], v1).unwrap(), "{v1} {o} {v2}");
        assert!(!ver_test::status(&[inverted(o), v2], v1).unwrap(), "{v1} {o} {v2}");
    }
    assert_eq!(ver_test::status(&["1", ">", "2"], "").unwrap_err().message(), "invalid operator: >");
    assert_eq!(ver_test::status(&["-eq", "1"], "").unwrap_err().message(), "$PVR is undefined");
}

#[test]
fn overflow() {
    let u64_max: u128 = u64::MAX as u128;
    let (vb, vo) = (format!("{u64_max}"), format!("{}", u64_max + 1));
    for args in [[vb.as_str(), "-eq", vo.as_str()], [vo.as_str(), "-eq", vb.as_str()]] {
        let e = ver_test::status(&args, "").unwrap_err();
        let msg = e.message();
        assert!(msg.starts_with("invalid version: "), "{msg}");
        assert!(msg.ends_with(&vo), "{msg}");
    }
}
