//! The settings of a repository's `metadata/layout.conf`, and how they are written.

use vstd::prelude::*;

use crate::error::Error;
use crate::pkgsh::metadata::{join_spaced, pair_views, space_joined};
use crate::text::{is_white, split_state, split_tokens, str_eq, whitespace_split};
use crate::types::{dedup, string_views};

verus! {

broadcast use vstd::string::group_string_axioms;

/// The settings of a repository's layout configuration, each list as its names.
pub struct LayoutConfig {
    pub cache_formats: Vec<String>,
    pub eapis_banned: Vec<String>,
    pub eapis_deprecated: Vec<String>,
    pub eapis_testing: Vec<String>,
    pub manifest_hashes: Vec<String>,
    pub manifest_required_hashes: Vec<String>,
    pub masters: Vec<String>,
    pub profile_formats: Vec<String>,
    pub properties_allowed: Vec<String>,
    pub restrict_allowed: Vec<String>,
    pub thin_manifests: bool,
}

/// The mathematical form of a layout configuration.
pub struct LayoutConfigView {
    pub cache_formats: Seq<Seq<char>>,
    pub eapis_banned: Seq<Seq<char>>,
    pub eapis_deprecated: Seq<Seq<char>>,
    pub eapis_testing: Seq<Seq<char>>,
    pub manifest_hashes: Seq<Seq<char>>,
    pub manifest_required_hashes: Seq<Seq<char>>,
    pub masters: Seq<Seq<char>>,
    pub profile_formats: Seq<Seq<char>>,
    pub properties_allowed: Seq<Seq<char>>,
    pub restrict_allowed: Seq<Seq<char>>,
    pub thin_manifests: bool,
}

impl View for LayoutConfig {
    type V = LayoutConfigView;

    open spec fn view(&self) -> LayoutConfigView {
        LayoutConfigView {
            cache_formats: string_views(self.cache_formats@),
            eapis_banned: string_views(self.eapis_banned@),
            eapis_deprecated: string_views(self.eapis_deprecated@),
            eapis_testing: string_views(self.eapis_testing@),
            manifest_hashes: string_views(self.manifest_hashes@),
            manifest_required_hashes: string_views(self.manifest_required_hashes@),
            masters: string_views(self.masters@),
            profile_formats: string_views(self.profile_formats@),
            properties_allowed: string_views(self.properties_allowed@),
            restrict_allowed: string_views(self.restrict_allowed@),
            thin_manifests: self.thin_manifests,
        }
    }
}

/// The line of a list setting, `name = v1 v2`, or nothing where the list is empty.
pub open spec fn list_line(name: Seq<char>, vs: Seq<Seq<char>>) -> Seq<char> {
    if vs.len() == 0 {
        seq![]
    } else {
        name + " = "@ + space_joined(vs) + "\n"@
    }
}

/// The text of a layout configuration: a line for each list setting that is not empty,
/// in a fixed order, then whether manifests are thin.
pub open spec fn spec_config_text(c: LayoutConfigView) -> Seq<char> {
    list_line("cache-formats"@, c.cache_formats) + list_line("eapis-banned"@, c.eapis_banned)
        + list_line("eapis-deprecated"@, c.eapis_deprecated) + list_line(
        "eapis-testing"@,
        c.eapis_testing,
    ) + list_line("manifest-hashes"@, c.manifest_hashes) + list_line(
        "manifest-required-hashes"@,
        c.manifest_required_hashes,
    ) + list_line("masters"@, c.masters) + list_line("profile-formats"@, c.profile_formats)
        + list_line("properties-allowed"@, c.properties_allowed) + list_line(
        "restrict-allowed"@,
        c.restrict_allowed,
    ) + "thin-manifests = "@ + (if c.thin_manifests {
        "true"@
    } else {
        "false"@
    }) + "\n"@
}

/// Appends the line of a list setting.
fn push_list(s: &mut String, name: &str, vs: &Vec<String>)
    ensures
        final(s)@ == old(s)@ + list_line(name@, string_views(vs@)),
{
    proof {
        reveal_strlit(" = ");
        reveal_strlit("\n");
    }
    if vs.len() > 0 {
        s.append(name);
        s.append(" = ");
        let j = join_spaced(vs);
        s.append(j.as_str());
        s.append("\n");
    } else {
        assert(old(s)@ + seq![] =~= old(s)@);
    }
}

impl LayoutConfig {
    /// The configuration as `layout.conf` text.
    pub fn config_text(&self) -> (s: String)
        ensures
            s@ == spec_config_text(self@),
    {
        let mut s = String::new();
        push_list(&mut s, "cache-formats", &self.cache_formats);
        push_list(&mut s, "eapis-banned", &self.eapis_banned);
        push_list(&mut s, "eapis-deprecated", &self.eapis_deprecated);
        push_list(&mut s, "eapis-testing", &self.eapis_testing);
        push_list(&mut s, "manifest-hashes", &self.manifest_hashes);
        push_list(&mut s, "manifest-required-hashes", &self.manifest_required_hashes);
        push_list(&mut s, "masters", &self.masters);
        push_list(&mut s, "profile-formats", &self.profile_formats);
        push_list(&mut s, "properties-allowed", &self.properties_allowed);
        push_list(&mut s, "restrict-allowed", &self.restrict_allowed);
        s.append("thin-manifests = ");
        if self.thin_manifests {
            s.append("true");
        } else {
            s.append("false");
        }
        s.append("\n");
        proof {
            reveal_strlit("thin-manifests = ");
            reveal_strlit("true");
            reveal_strlit("false");
            reveal_strlit("\n");
        }
        assert(s@ =~= spec_config_text(self@));
        s
    }
}

/// The settings of the general section of INI text as `ini::Ini::load_from_str` reads it,
/// each key with a value in the order read; or, where it refuses the text, the `Display`
/// text of its parse error.
pub uninterp spec fn ini_general_settings(text: Seq<char>) -> Result<
    Seq<(Seq<char>, Seq<char>)>,
    Seq<char>,
>;

/// Reads INI text with `ini::Ini::load_from_str` and hands out the settings of its general
/// section (`Ini::general_section`, `Properties::iter`) as owned strings, or the `Display`
/// text of the parse error. The contract claims only that the outcome is the one that
/// `ini_general_settings` names for the text.
#[verifier::external_body]
fn read_ini_settings(text: &str) -> (r: Result<Vec<(String, String)>, String>)
    ensures
        match r {
            Ok(v) => ini_general_settings(text@) == Ok::<_, Seq<char>>(pair_views(v@)),
            Err(e) => ini_general_settings(text@) == Err::<Seq<(Seq<char>, Seq<char>)>, _>(e@),
        },
{
    match ini::Ini::load_from_str(text) {
        Ok(ini) => Ok(
            ini.general_section().iter().map(|(k, v)| (k.to_string(), v.to_string())).collect(),
        ),
        Err(e) => Err(e.to_string()),
    }
}

/// The first value of `key` among settings, in order.
pub open spec fn setting(settings: Seq<(Seq<char>, Seq<char>)>, key: Seq<char>) -> Option<
    Seq<char>,
>
    decreases settings.len(),
{
    if settings.len() == 0 {
        None
    } else if settings[0].0 == key {
        Some(settings[0].1)
    } else {
        setting(settings.drop_first(), key)
    }
}

/// The names of a list setting: its value split at whitespace, each name once, where it
/// first occurs; none where the setting is absent.
pub open spec fn list_setting(settings: Seq<(Seq<char>, Seq<char>)>, key: Seq<char>) -> Seq<
    Seq<char>,
> {
    match setting(settings, key) {
        Some(v) => dedup(whitespace_split(v)),
        None => seq![],
    }
}

/// The layout configuration that settings give: each list from its setting, and thin
/// manifests where `thin-manifests` is `true`; a `thin-manifests` value other than `true`
/// or `false` is refused.
pub open spec fn spec_config_from_settings(settings: Seq<(Seq<char>, Seq<char>)>) -> Result<
    LayoutConfigView,
    Seq<char>,
> {
    let thin = setting(settings, "thin-manifests"@);
    if thin is Some && thin->0 != "true"@ && thin->0 != "false"@ {
        Err("thin-manifests: unsupported value: "@ + thin->0)
    } else {
        Ok(
            LayoutConfigView {
                cache_formats: list_setting(settings, "cache-formats"@),
                eapis_banned: list_setting(settings, "eapis-banned"@),
                eapis_deprecated: list_setting(settings, "eapis-deprecated"@),
                eapis_testing: list_setting(settings, "eapis-testing"@),
                manifest_hashes: list_setting(settings, "manifest-hashes"@),
                manifest_required_hashes: list_setting(settings, "manifest-required-hashes"@),
                masters: list_setting(settings, "masters"@),
                profile_formats: list_setting(settings, "profile-formats"@),
                properties_allowed: list_setting(settings, "properties-allowed"@),
                restrict_allowed: list_setting(settings, "restrict-allowed"@),
                thin_manifests: thin == Some("true"@),
            },
        )
    }
}

/// The layout configuration that INI text gives, or the error of reading it.
pub open spec fn spec_config_from_text(text: Seq<char>) -> Result<LayoutConfigView, Seq<char>> {
    match ini_general_settings(text) {
        Ok(settings) => spec_config_from_settings(settings),
        Err(m) => Err("failed parsing INI: "@ + m),
    }
}

/// Settings before the first of `key` leave its first value to the rest.
proof fn lemma_setting_skip(s: Seq<(Seq<char>, Seq<char>)>, key: Seq<char>, i: int)
    requires
        0 <= i <= s.len(),
        forall|q: int| 0 <= q < i ==> (#[trigger] s[q]).0 != key,
    ensures
        setting(s, key) == setting(s.skip(i), key),
    decreases i,
{
    if i == 0 {
        assert(s.skip(0) =~= s);
    } else {
        lemma_setting_skip(s, key, i - 1);
        assert(s.skip(i - 1)[0] == s[i - 1]);
        assert(s.skip(i - 1).drop_first() =~= s.skip(i));
    }
}

/// The first value of `key` among the settings.
fn find_setting(settings: &Vec<(String, String)>, key: &str) -> (r: Option<String>)
    ensures
        match r {
            Some(v) => setting(pair_views(settings@), key@) == Some(v@),
            None => setting(pair_views(settings@), key@) is None,
        },
{
    let ghost pv = pair_views(settings@);
    let mut i: usize = 0;
    while i < settings.len()
        invariant
            i <= settings.len(),
            pv == pair_views(settings@),
            forall|q: int| 0 <= q < i ==> (#[trigger] pv[q]).0 != key@,
        decreases settings.len() - i,
    {
        assert(pv[i as int] == (settings@[i as int].0@, settings@[i as int].1@));
        if str_eq(settings[i].0.as_str(), key) {
            proof {
                lemma_setting_skip(pv, key@, i as int);
                assert(pv.skip(i as int)[0] == pv[i as int]);
            }
            return Some(settings[i].1.clone());
        }
        i = i + 1;
    }
    proof {
        lemma_setting_skip(pv, key@, i as int);
    }
    None
}

/// `v` without repeats, each value kept where it first occurs.
fn dedup_strings(v: &Vec<String>) -> (r: Vec<String>)
    ensures
        string_views(r@) == dedup(string_views(v@)),
{
    let ghost sv = string_views(v@);
    let mut out: Vec<String> = Vec::new();
    let mut i: usize = 0;
    assert(sv.take(0) =~= Seq::<Seq<char>>::empty());
    assert(string_views(out@) =~= Seq::<Seq<char>>::empty());
    while i < v.len()
        invariant
            i <= v.len(),
            sv == string_views(v@),
            string_views(out@) == dedup(sv.take(i as int)),
        decreases v.len() - i,
    {
        let ghost d = string_views(out@);
        let mut seen = false;
        let mut k: usize = 0;
        while k < out.len()
            invariant
                k <= out.len(),
                i < v.len(),
                d == string_views(out@),
                seen == (exists|q: int| 0 <= q < k && #[trigger] d[q] == v@[i as int]@),
            decreases out.len() - k,
        {
            assert(d[k as int] == out@[k as int]@);
            if str_eq(out[k].as_str(), v[i].as_str()) {
                seen = true;
            }
            k = k + 1;
        }
        assert(sv.take(i + 1).drop_last() =~= sv.take(i as int));
        assert(sv.take(i + 1).last() == v@[i as int]@);
        assert(seen == d.contains(v@[i as int]@));
        if !seen {
            let x = v[i].clone();
            out.push(x);
            assert(string_views(out@) =~= d.push(v@[i as int]@));
        }
        i = i + 1;
    }
    assert(sv.take(v.len() as int) =~= sv);
    out
}

/// The names of a list setting.
fn list_of(settings: &Vec<(String, String)>, key: &str) -> (v: Vec<String>)
    ensures
        string_views(v@) == list_setting(pair_views(settings@), key@),
{
    match find_setting(settings, key) {
        Some(s) => dedup_strings(&split_tokens(s.as_str())),
        None => {
            let v: Vec<String> = Vec::new();
            assert(string_views(v@) =~= Seq::<Seq<char>>::empty());
            v
        },
    }
}

impl LayoutConfig {
    /// The layout configuration that the settings of a general section give, or the
    /// error for a `thin-manifests` value other than `true` or `false`.
    pub fn from_settings(settings: &Vec<(String, String)>) -> (r: Result<LayoutConfig, Error>)
        ensures
            match spec_config_from_settings(pair_views(settings@)) {
                Ok(c) => r matches Ok(x) && x@ == c,
                Err(m) => r matches Err(e) && e == Error::InvalidValue(e->InvalidValue_0)
                    && e.spec_message() == m,
            },
    {
        proof {
            reveal_strlit("thin-manifests");
            reveal_strlit("true");
            reveal_strlit("false");
            reveal_strlit("thin-manifests: unsupported value: ");
        }
        let thin = match find_setting(settings, "thin-manifests") {
            Some(v) => {
                if str_eq(v.as_str(), "true") {
                    true
                } else if str_eq(v.as_str(), "false") {
                    false
                } else {
                    let mut msg = "thin-manifests: unsupported value: ".to_owned();
                    msg.append(v.as_str());
                    return Err(Error::InvalidValue(msg));
                }
            },
            None => false,
        };
        let c = LayoutConfig {
            cache_formats: list_of(settings, "cache-formats"),
            eapis_banned: list_of(settings, "eapis-banned"),
            eapis_deprecated: list_of(settings, "eapis-deprecated"),
            eapis_testing: list_of(settings, "eapis-testing"),
            manifest_hashes: list_of(settings, "manifest-hashes"),
            manifest_required_hashes: list_of(settings, "manifest-required-hashes"),
            masters: list_of(settings, "masters"),
            profile_formats: list_of(settings, "profile-formats"),
            properties_allowed: list_of(settings, "properties-allowed"),
            restrict_allowed: list_of(settings, "restrict-allowed"),
            thin_manifests: thin,
        };
        Ok(c)
    }

    /// The layout configuration that `layout.conf` text gives: the error of reading it as
    /// INI text, or the configuration its general section's settings give.
    pub fn parse(text: &str) -> (r: Result<LayoutConfig, Error>)
        ensures
            match spec_config_from_text(text@) {
                Ok(c) => r matches Ok(x) && x@ == c,
                Err(m) => r matches Err(e) && e == Error::InvalidValue(e->InvalidValue_0)
                    && e.spec_message() == m,
            },
    {
        proof {
            reveal_strlit("failed parsing INI: ");
        }
        match read_ini_settings(text) {
            Ok(settings) => LayoutConfig::from_settings(&settings),
            Err(e) => {
                let mut msg = "failed parsing INI: ".to_owned();
                msg.append(e.as_str());
                Err(Error::InvalidValue(msg))
            },
        }
    }
}

/// Whether a name can stand in a list setting as written: not empty, no whitespace in it.
pub open spec fn plain_name(v: Seq<char>) -> bool {
    v.len() > 0 && forall|k: int| 0 <= k < v.len() ==> !is_white(#[trigger] v[k])
}

/// Reading a run of characters other than whitespace extends the token being read.
proof fn lemma_split_run(p: Seq<char>, w: Seq<char>)
    requires
        forall|k: int| 0 <= k < w.len() ==> !is_white(#[trigger] w[k]),
    ensures
        split_state(p + w) == (split_state(p).0, split_state(p).1 + w),
    decreases w.len(),
{
    if w.len() == 0 {
        assert(p + w =~= p);
        assert(split_state(p).1 + w =~= split_state(p).1);
    } else {
        let init = w.drop_last();
        assert forall|k: int| 0 <= k < init.len() implies !is_white(#[trigger] init[k]) by {
            assert(init[k] == w[k]);
        }
        lemma_split_run(p, init);
        assert((p + w).drop_last() =~= p + init);
        assert((p + w).last() == w.last());
        assert(!is_white(w[w.len() - 1]));
        assert((split_state(p).1 + init).push(w.last()) =~= split_state(p).1 + w);
    }
}

/// Names joined with single spaces split back at whitespace into those names.
proof fn lemma_joined_split_state(vs: Seq<Seq<char>>)
    requires
        vs.len() > 0,
        forall|i: int| 0 <= i < vs.len() ==> plain_name(#[trigger] vs[i]),
    ensures
        split_state(space_joined(vs)) == (vs.drop_last(), vs.last()),
    decreases vs.len(),
{
    let e = Seq::<char>::empty();
    if vs.len() == 1 {
        assert(plain_name(vs[0]));
        lemma_split_run(e, vs[0]);
        assert(e + vs[0] =~= vs[0]);
        assert(split_state(e) == (Seq::<Seq<char>>::empty(), e));
        assert(e + vs[0] =~= vs[0]);
        assert(vs.drop_last() =~= Seq::<Seq<char>>::empty());
    } else {
        let init = vs.drop_last();
        assert forall|i: int| 0 <= i < init.len() implies plain_name(#[trigger] init[i]) by {
            assert(init[i] == vs[i]);
        }
        lemma_joined_split_state(init);
        let a = space_joined(init);
        assert(plain_name(init[init.len() - 1]));
        assert(is_white(' '));
        assert((a + seq![' ']).drop_last() =~= a);
        assert(split_state(a + seq![' ']) == (init.drop_last().push(init.last()), e));
        assert(init.drop_last().push(init.last()) =~= init);
        assert(plain_name(vs[vs.len() - 1]));
        lemma_split_run(a + seq![' '], vs.last());
        assert(e + vs.last() =~= vs.last());
    }
}

/// Distinct names are kept as they are when repeats are dropped.
proof fn lemma_dedup_distinct(vs: Seq<Seq<char>>)
    requires
        forall|i: int, j: int| 0 <= i < j < vs.len() ==> vs[i] != vs[j],
    ensures
        dedup(vs) == vs,
    decreases vs.len(),
{
    if vs.len() > 0 {
        let init = vs.drop_last();
        assert forall|i: int, j: int| 0 <= i < j < init.len() implies init[i] != init[j] by {
            assert(init[i] == vs[i] && init[j] == vs[j]);
        }
        lemma_dedup_distinct(init);
        if init.contains(vs.last()) {
            let q = choose|q: int| 0 <= q < init.len() && init[q] == vs.last();
            assert(vs[q] == vs[vs.len() - 1]);
        }
        assert(init.push(vs.last()) =~= vs);
    }
}

/// A list setting written as its names joined with single spaces reads back as those
/// names, where each name is not empty, holds no whitespace and occurs once: the text
/// `config_text` writes for a list is read back by `from_settings` as the list.
pub proof fn list_setting_reads_back(
    settings: Seq<(Seq<char>, Seq<char>)>,
    key: Seq<char>,
    vs: Seq<Seq<char>>,
)
    requires
        setting(settings, key) == Some(space_joined(vs)),
        forall|i: int| 0 <= i < vs.len() ==> plain_name(#[trigger] vs[i]),
        forall|i: int, j: int| 0 <= i < j < vs.len() ==> vs[i] != vs[j],
    ensures
        list_setting(settings, key) == vs,
{
    if vs.len() == 0 {
        assert(split_state(Seq::<char>::empty()) == (Seq::<Seq<char>>::empty(), Seq::<char>::empty()));
        assert(whitespace_split(Seq::<char>::empty()) =~= Seq::<Seq<char>>::empty());
    } else {
        lemma_joined_split_state(vs);
        assert(plain_name(vs[vs.len() - 1]));
        assert(vs.drop_last().push(vs.last()) =~= vs);
    }
    lemma_dedup_distinct(vs);
}

} // verus!
