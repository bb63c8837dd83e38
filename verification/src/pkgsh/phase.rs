//! Package build phases.

use vstd::prelude::*;

verus! {

/// The kinds of package build phases.
#[derive(Debug, Clone, Copy, PartialEq, Eq, Structural, Hash)]
pub enum PhaseKind {
    PkgSetup,
    PkgConfig,
    PkgInfo,
    PkgNofetch,
    PkgPrerm,
    PkgPostrm,
    PkgPreinst,
    PkgPostinst,
    PkgPretend,
    SrcUnpack,
    SrcPrepare,
    SrcConfigure,
    SrcCompile,
    SrcTest,
    SrcInstall,
}

/// Every phase kind, in declaration order.
pub open spec fn all_phases() -> Seq<PhaseKind> {
    seq![
        PhaseKind::PkgSetup,
        PhaseKind::PkgConfig,
        PhaseKind::PkgInfo,
        PhaseKind::PkgNofetch,
        PhaseKind::PkgPrerm,
        PhaseKind::PkgPostrm,
        PhaseKind::PkgPreinst,
        PhaseKind::PkgPostinst,
        PhaseKind::PkgPretend,
        PhaseKind::SrcUnpack,
        PhaseKind::SrcPrepare,
        PhaseKind::SrcConfigure,
        PhaseKind::SrcCompile,
        PhaseKind::SrcTest,
        PhaseKind::SrcInstall,
    ]
}

/// The snake case name of a phase.
pub open spec fn phase_name(p: PhaseKind) -> Seq<char> {
    match p {
        PhaseKind::PkgSetup => "pkg_setup"@,
        PhaseKind::PkgConfig => "pkg_config"@,
        PhaseKind::PkgInfo => "pkg_info"@,
        PhaseKind::PkgNofetch => "pkg_nofetch"@,
        PhaseKind::PkgPrerm => "pkg_prerm"@,
        PhaseKind::PkgPostrm => "pkg_postrm"@,
        PhaseKind::PkgPreinst => "pkg_preinst"@,
        PhaseKind::PkgPostinst => "pkg_postinst"@,
        PhaseKind::PkgPretend => "pkg_pretend"@,
        PhaseKind::SrcUnpack => "src_unpack"@,
        PhaseKind::SrcPrepare => "src_prepare"@,
        PhaseKind::SrcConfigure => "src_configure"@,
        PhaseKind::SrcCompile => "src_compile"@,
        PhaseKind::SrcTest => "src_test"@,
        PhaseKind::SrcInstall => "src_install"@,
    }
}

impl PhaseKind {
    /// The snake case name of the phase.
    pub fn as_str(&self) -> (s: &'static str)
        ensures
            s@ == phase_name(*self),
    {
        match self {
            PhaseKind::PkgSetup => "pkg_setup",
            PhaseKind::PkgConfig => "pkg_config",
            PhaseKind::PkgInfo => "pkg_info",
            PhaseKind::PkgNofetch => "pkg_nofetch",
            PhaseKind::PkgPrerm => "pkg_prerm",
            PhaseKind::PkgPostrm => "pkg_postrm",
            PhaseKind::PkgPreinst => "pkg_preinst",
            PhaseKind::PkgPostinst => "pkg_postinst",
            PhaseKind::PkgPretend => "pkg_pretend",
            PhaseKind::SrcUnpack => "src_unpack",
            PhaseKind::SrcPrepare => "src_prepare",
            PhaseKind::SrcConfigure => "src_configure",
            PhaseKind::SrcCompile => "src_compile",
            PhaseKind::SrcTest => "src_test",
            PhaseKind::SrcInstall => "src_install",
        }
    }

    /// Every phase kind, in declaration order.
    pub fn all() -> (v: Vec<PhaseKind>)
        ensures
            v@ == all_phases(),
    {
        let v = vec![
            PhaseKind::PkgSetup,
            PhaseKind::PkgConfig,
            PhaseKind::PkgInfo,
            PhaseKind::PkgNofetch,
            PhaseKind::PkgPrerm,
            PhaseKind::PkgPostrm,
            PhaseKind::PkgPreinst,
            PhaseKind::PkgPostinst,
            PhaseKind::PkgPretend,
            PhaseKind::SrcUnpack,
            PhaseKind::SrcPrepare,
            PhaseKind::SrcConfigure,
            PhaseKind::SrcCompile,
            PhaseKind::SrcTest,
            PhaseKind::SrcInstall,
        ];
        assert(v@ =~= all_phases());
        v
    }
}

/// The name of a phase without its `pkg_` or `src_` prefix.
pub open spec fn short_phase_name(p: PhaseKind) -> Seq<char> {
    phase_name(p).skip(4)
}

impl PhaseKind {
    /// The name of the phase without its `pkg_` or `src_` prefix, e.g. `compile` for
    /// `src_compile`: what follows the first `_`.
    pub fn short_name(&self) -> (s: &'static str)
        ensures
            s@ == short_phase_name(*self),
            s@ == phase_name(*self).skip(phase_name(*self).index_of_first('_').unwrap() + 1),
    {
        proof {
            reveal_strlit("pkg_setup");
            reveal_strlit("pkg_config");
            reveal_strlit("pkg_info");
            reveal_strlit("pkg_nofetch");
            reveal_strlit("pkg_prerm");
            reveal_strlit("pkg_postrm");
            reveal_strlit("pkg_preinst");
            reveal_strlit("pkg_postinst");
            reveal_strlit("pkg_pretend");
            reveal_strlit("src_unpack");
            reveal_strlit("src_prepare");
            reveal_strlit("src_configure");
            reveal_strlit("src_compile");
            reveal_strlit("src_test");
            reveal_strlit("src_install");
        }
        let (s, full) = match self {
            PhaseKind::PkgSetup => ("setup", "pkg_setup"),
            PhaseKind::PkgConfig => ("config", "pkg_config"),
            PhaseKind::PkgInfo => ("info", "pkg_info"),
            PhaseKind::PkgNofetch => ("nofetch", "pkg_nofetch"),
            PhaseKind::PkgPrerm => ("prerm", "pkg_prerm"),
            PhaseKind::PkgPostrm => ("postrm", "pkg_postrm"),
            PhaseKind::PkgPreinst => ("preinst", "pkg_preinst"),
            PhaseKind::PkgPostinst => ("postinst", "pkg_postinst"),
            PhaseKind::PkgPretend => ("pretend", "pkg_pretend"),
            PhaseKind::SrcUnpack => ("unpack", "src_unpack"),
            PhaseKind::SrcPrepare => ("prepare", "src_prepare"),
            PhaseKind::SrcConfigure => ("configure", "src_configure"),
            PhaseKind::SrcCompile => ("compile", "src_compile"),
            PhaseKind::SrcTest => ("test", "src_test"),
            PhaseKind::SrcInstall => ("install", "src_install"),
        };
        proof {
            reveal_strlit("setup");
            reveal_strlit("config");
            reveal_strlit("info");
            reveal_strlit("nofetch");
            reveal_strlit("prerm");
            reveal_strlit("postrm");
            reveal_strlit("preinst");
            reveal_strlit("postinst");
            reveal_strlit("pretend");
            reveal_strlit("unpack");
            reveal_strlit("prepare");
            reveal_strlit("configure");
            reveal_strlit("compile");
            reveal_strlit("test");
            reveal_strlit("install");
            let n = phase_name(*self);
            assert(n == full@);
            assert(n[3] == '_' && n[0] != '_' && n[1] != '_' && n[2] != '_');
            n.index_of_first_ensures('_');
            assert(s@ =~= n.skip(4));
        }
        s
    }
}

/// A step of running a phase.
#[derive(Debug, Clone, Copy, PartialEq, Eq, Structural, Hash)]
pub enum PhaseStep {
    /// The internal hook that runs before the phase.
    InternalPre,
    /// The package's `pre_` hook.
    UserPre,
    /// The package's phase function.
    User,
    /// The internal default of the phase.
    Default,
    /// The package's `post_` hook.
    UserPost,
    /// The internal hook that runs after the phase.
    InternalPost,
}

/// The steps of running a phase, in order, given which hooks exist: the internal
/// pre-phase hook, the package's pre-phase hook, the package's phase function or else
/// the internal default, the package's post-phase hook, the internal post-phase hook.
pub open spec fn spec_run_steps(
    internal_pre: bool,
    user_pre: bool,
    user: bool,
    user_post: bool,
    internal_post: bool,
) -> Seq<PhaseStep> {
    (if internal_pre {
        seq![PhaseStep::InternalPre]
    } else {
        seq![]
    }) + (if user_pre {
        seq![PhaseStep::UserPre]
    } else {
        seq![]
    }) + (if user {
        seq![PhaseStep::User]
    } else {
        seq![PhaseStep::Default]
    }) + (if user_post {
        seq![PhaseStep::UserPost]
    } else {
        seq![]
    }) + (if internal_post {
        seq![PhaseStep::InternalPost]
    } else {
        seq![]
    })
}

/// The steps of running a phase, given which hooks exist; each runs after the previous
/// one succeeded.
pub fn run_steps(
    internal_pre: bool,
    user_pre: bool,
    user: bool,
    user_post: bool,
    internal_post: bool,
) -> (v: Vec<PhaseStep>)
    ensures
        v@ == spec_run_steps(internal_pre, user_pre, user, user_post, internal_post),
{
    let mut v: Vec<PhaseStep> = Vec::new();
    if internal_pre {
        v.push(PhaseStep::InternalPre);
    }
    if user_pre {
        v.push(PhaseStep::UserPre);
    }
    if user {
        v.push(PhaseStep::User);
    } else {
        v.push(PhaseStep::Default);
    }
    if user_post {
        v.push(PhaseStep::UserPost);
    }
    if internal_post {
        v.push(PhaseStep::InternalPost);
    }
    assert(v@ =~= spec_run_steps(internal_pre, user_pre, user, user_post, internal_post));
    v
}

/// The directories that compression includes and excludes by default before
/// `src_install`, for a package with the full name `pf`: documentation, info and man
/// pages are included, the package's HTML documentation is excluded.
pub fn docompress_defaults(pf: &str) -> (r: (Vec<String>, Vec<String>))
    ensures
        r.0@.len() == 3,
        r.0@[0]@ == "/usr/share/doc"@,
        r.0@[1]@ == "/usr/share/info"@,
        r.0@[2]@ == "/usr/share/man"@,
        r.1@.len() == 1,
        r.1@[0]@ == "/usr/share/doc/"@ + pf@ + "/html"@,
{
    let included = vec![
        "/usr/share/doc".to_owned(),
        "/usr/share/info".to_owned(),
        "/usr/share/man".to_owned(),
    ];
    let mut ex = "/usr/share/doc/".to_owned();
    ex.append(pf);
    ex.append("/html");
    (included, vec![ex])
}

}
