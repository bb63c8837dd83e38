//! Package build commands: their scopes, the version string and range parsing shared by
//! `ver_cut` and `ver_rs`, and the argument handling of each command.

use vstd::prelude::*;

use vstd::string::StrSliceExecFns;

use crate::error::Error;
use crate::restrict::parse::{digits_value, is_alnum, span, CharClass};
use crate::text::{is_prefix, str_starts_with, str_to_chars};

use super::phase::{all_phases, phase_name, PhaseKind};

pub mod _default_phase_func;
pub mod _new;
pub mod command_not_found_handle;
pub mod debug_print_function;
pub mod default;
pub mod default_src_configure;
pub mod die;
pub mod diropts;
pub mod docinto;
pub mod docompress;
pub mod doenvd;
pub mod dohtml;
pub mod dolib_a;
pub mod eapply;
pub mod eapply_user;
pub mod econf;
pub mod get_libdir;
pub mod inherit;
pub mod insinto;
pub mod keepdir;
pub mod newexe;
pub mod ver_test;

verus! {

broadcast use vstd::string::group_string_axioms;

/// Where a build command runs.
#[derive(Debug, Clone, Copy, PartialEq, Eq, Structural, Hash)]
pub enum Scope {
    Global,
    Eclass,
    Phase(PhaseKind),
}

/// Groups of scopes that build commands are enabled for.
#[derive(Debug, Clone, Copy, PartialEq, Eq, Structural, Hash)]
pub enum Scopes {
    All,
    Eclass,
    Global,
    Phases,
    Src,
    Pkg,
    Phase(PhaseKind),
}

/// The name of a scope.
pub open spec fn scope_name(s: Scope) -> Seq<char> {
    match s {
        Scope::Eclass => "eclass"@,
        Scope::Global => "global"@,
        Scope::Phase(p) => phase_name(p),
    }
}

impl Scope {
    /// The name of the scope.
    pub fn as_str(&self) -> (s: &'static str)
        ensures
            s@ == scope_name(*self),
    {
        match self {
            Scope::Eclass => "eclass",
            Scope::Global => "global",
            Scope::Phase(p) => p.as_str(),
        }
    }
}

/// The phase scopes whose phase names start with `prefix`, in phase order.
pub open spec fn phase_scopes(prefix: Option<Seq<char>>) -> Seq<Scope> {
    all_phases().filter(
        |p: PhaseKind|
            match prefix {
                Some(x) => is_prefix(x, phase_name(p)),
                None => true,
            },
    ).map_values(|p: PhaseKind| Scope::Phase(p))
}

/// The scopes a scope group stands for, in order.
pub open spec fn scopes_of(s: Scopes) -> Seq<Scope> {
    match s {
        Scopes::Eclass => seq![Scope::Eclass],
        Scopes::Global => seq![Scope::Global],
        Scopes::Phases => phase_scopes(None),
        Scopes::Src => phase_scopes(Some("src_"@)),
        Scopes::Pkg => phase_scopes(Some("pkg_"@)),
        Scopes::All => seq![Scope::Global, Scope::Eclass] + phase_scopes(None),
        Scopes::Phase(p) => seq![Scope::Phase(p)],
    }
}

/// The phase scopes whose names start with `prefix`, or all of them.
#[verifier::loop_isolation(false)]
fn phases_with(prefix: Option<&str>) -> (v: Vec<Scope>)
    ensures
        v@ == phase_scopes(
            match prefix {
                Some(x) => Some(x@),
                None => None,
            },
        ),
{
    let phases = PhaseKind::all();
    let ghost pre = match prefix {
        Some(x) => Some(x@),
        None => None,
    };
    let ghost keep = |p: PhaseKind|
        match pre {
            Some(x) => is_prefix(x, phase_name(p)),
            None => true,
        };
    let mut out: Vec<Scope> = Vec::new();
    let mut i: usize = 0;
    assert(phases@.take(0).filter(keep) =~= Seq::<PhaseKind>::empty()) by {
        reveal_with_fuel(Seq::<PhaseKind>::filter, 1);
    }
    while i < phases.len()
        invariant
            0 <= i <= phases@.len(),
            phases@ == all_phases(),
            out@ == phases@.take(i as int).filter(keep).map_values(|p: PhaseKind| Scope::Phase(p)),
        decreases phases@.len() - i,
    {
        let p = phases[i];
        let ghost before = phases@.take(i as int).filter(keep);
        let k = match prefix {
            Some(x) => {
                assert(pre == Some(x@));
                str_starts_with(p.as_str(), x)
            },
            None => true,
        };
        assert(k == keep(p));
        proof {
            reveal_with_fuel(Seq::<PhaseKind>::filter, 1);
            assert(phases@.take(i + 1).drop_last() =~= phases@.take(i as int));
        }
        if k {
            out.push(Scope::Phase(p));
            assert(phases@.take(i + 1).filter(keep) == before.push(p));
            assert(out@ =~= before.push(p).map_values(|p: PhaseKind| Scope::Phase(p)));
        } else {
            assert(phases@.take(i + 1).filter(keep) == before);
        }
        i += 1;
    }
    assert(phases@.take(i as int) =~= phases@);
    out
}

impl Scopes {
    /// The scopes the group stands for, in order.
    pub fn iter(&self) -> (v: Vec<Scope>)
        ensures
            v@ == scopes_of(*self),
    {
        match self {
            Scopes::Eclass => vec![Scope::Eclass],
            Scopes::Global => vec![Scope::Global],
            Scopes::Phases => phases_with(None),
            Scopes::Src => phases_with(Some("src_")),
            Scopes::Pkg => phases_with(Some("pkg_")),
            Scopes::All => {
                let mut v = vec![Scope::Global, Scope::Eclass];
                let mut p = phases_with(None);
                v.append(&mut p);
                v
            },
            Scopes::Phase(p) => vec![Scope::Phase(*p)],
        }
    }
}

// ---------------------------------------------------------------------------------------
// Version strings and ranges
// ---------------------------------------------------------------------------------------

/// `c` is an ASCII letter.
pub open spec fn is_letter(c: char) -> bool {
    ('a' <= c && c <= 'z') || ('A' <= c && c <= 'Z')
}

/// Where the run of digits, or else of letters, starting at `i` ends (`i` for none).
pub open spec fn component_end(s: Seq<char>, i: int) -> int
    decreases s.len() - i,
{
    if 0 <= i < s.len() && '0' <= s[i] && s[i] <= '9' {
        span(s, i, CharClass::Digit)
    } else {
        letters_end(s, i)
    }
}

/// Where the run of letters starting at `i` ends.
pub open spec fn letters_end(s: Seq<char>, i: int) -> int
    decreases s.len() - i,
{
    if 0 <= i < s.len() && is_letter(s[i]) {
        letters_end(s, i + 1)
    } else {
        i
    }
}

/// Where the run of separators (characters other than ASCII letters and digits)
/// starting at `i` ends.
pub open spec fn separator_end(s: Seq<char>, i: int) -> int
    decreases s.len() - i,
{
    if 0 <= i < s.len() && !is_alnum(s[i]) {
        separator_end(s, i + 1)
    } else {
        i
    }
}

/// The split of `s[i..]` into alternating separators and components, each pair a
/// separator (possibly empty) then a component (possibly empty).
pub open spec fn version_parts(s: Seq<char>, i: int) -> Seq<Seq<char>>
    decreases s.len() - i,
{
    if i < 0 || i >= s.len() {
        seq![]
    } else {
        let j = separator_end(s, i);
        let k = component_end(s, j);
        if i < k <= s.len() {
            seq![s.subrange(i, j), s.subrange(j, k)] + version_parts(s, k)
        } else {
            seq![]
        }
    }
}

proof fn lemma_runs(s: Seq<char>, i: int)
    requires
        0 <= i <= s.len(),
    ensures
        i <= separator_end(s, i) <= s.len(),
        i <= letters_end(s, i) <= s.len(),
        i <= component_end(s, i) <= s.len(),
        i < s.len() && is_alnum(s[i]) ==> component_end(s, i) > i,
        i < s.len() && !is_alnum(s[i]) ==> separator_end(s, i) > i,
        separator_end(s, i) < s.len() ==> is_alnum(s[separator_end(s, i)]),
    decreases s.len() - i,
{
    if i < s.len() {
        lemma_runs(s, i + 1);
        crate::restrict::parse::lemma_span_bounds(s, i, CharClass::Digit);
        if '0' <= s[i] && s[i] <= '9' {
            crate::restrict::parse::lemma_span_bounds(s, i + 1, CharClass::Digit);
        }
    }
}

proof fn lemma_parts_progress(s: Seq<char>, i: int)
    requires
        0 <= i < s.len(),
    ensures
        i < component_end(s, separator_end(s, i)) <= s.len(),
{
    lemma_runs(s, i);
    let j = separator_end(s, i);
    lemma_runs(s, j);
}

fn separator_run(s: &Vec<char>, i: usize) -> (j: usize)
    requires
        i <= s@.len(),
    ensures
        j == separator_end(s@, i as int),
        i <= j <= s@.len(),
{
    let mut j = i;
    while j < s.len() && !crate::restrict::parse::alnum(s[j])
        invariant
            i <= j <= s@.len(),
            separator_end(s@, i as int) == separator_end(s@, j as int),
        decreases s@.len() - j,
    {
        j += 1;
    }
    j
}

fn letter_run(s: &Vec<char>, i: usize) -> (j: usize)
    requires
        i <= s@.len(),
    ensures
        j == letters_end(s@, i as int),
        i <= j <= s@.len(),
{
    let mut j = i;
    while j < s.len() && (('a' <= s[j] && s[j] <= 'z') || ('A' <= s[j] && s[j] <= 'Z'))
        invariant
            i <= j <= s@.len(),
            letters_end(s@, i as int) == letters_end(s@, j as int),
        decreases s@.len() - j,
    {
        j += 1;
    }
    j
}

/// Whether every character of `p` is a separator (neither an ASCII letter nor a digit).
pub open spec fn all_separators(p: Seq<char>) -> bool {
    forall|m: int| 0 <= m < p.len() ==> !is_alnum(#[trigger] p[m])
}

/// Whether `p` is a run of digits or a run of letters.
pub open spec fn one_kind(p: Seq<char>) -> bool {
    (forall|m: int| 0 <= m < p.len() ==> '0' <= #[trigger] p[m] <= '9') || (forall|m: int|
        0 <= m < p.len() ==> is_letter(#[trigger] p[m]))
}

proof fn lemma_separator_chars(s: Seq<char>, i: int)
    requires
        0 <= i <= s.len(),
    ensures
        forall|m: int| i <= m < separator_end(s, i) ==> !is_alnum(#[trigger] s[m]),
    decreases s.len() - i,
{
    if i < s.len() && !is_alnum(s[i]) {
        lemma_separator_chars(s, i + 1);
    }
}

proof fn lemma_letter_chars(s: Seq<char>, i: int)
    requires
        0 <= i <= s.len(),
    ensures
        forall|m: int| i <= m < letters_end(s, i) ==> is_letter(#[trigger] s[m]),
    decreases s.len() - i,
{
    if i < s.len() && is_letter(s[i]) {
        lemma_letter_chars(s, i + 1);
    }
}

/// The parts of a version split come in separator and component pairs, so there is an
/// even number of them; joined together they give back the string; each separator is a
/// run of characters other than ASCII letters and digits, and each component a run of
/// digits or of letters.
pub proof fn version_parts_laws(s: Seq<char>, i: int)
    requires
        0 <= i <= s.len(),
    ensures
        version_parts(s, i).len() % 2 == 0,
        version_parts(s, i).flatten() == s.subrange(i, s.len() as int),
        forall|k: int|
            0 <= k < version_parts(s, i).len() && k % 2 == 0 ==> all_separators(
                #[trigger] version_parts(s, i)[k],
            ),
        forall|k: int|
            0 <= k < version_parts(s, i).len() && k % 2 == 1 ==> one_kind(
                #[trigger] version_parts(s, i)[k],
            ),
    decreases s.len() - i,
{
    if i >= s.len() {
        assert(s.subrange(i, s.len() as int) =~= Seq::<char>::empty());
    } else {
        lemma_parts_progress(s, i);
        lemma_runs(s, i);
        let j = separator_end(s, i);
        lemma_runs(s, j);
        let k = component_end(s, j);
        lemma_separator_chars(s, i);
        if j < s.len() && '0' <= s[j] && s[j] <= '9' {
            crate::restrict::parse::lemma_span_bounds(s, j, CharClass::Digit);
        } else {
            lemma_letter_chars(s, j);
        }
        version_parts_laws(s, k);
        let a = s.subrange(i, j);
        let b = s.subrange(j, k);
        let rest = version_parts(s, k);
        let all = seq![a, b] + rest;
        assert(all.drop_first() =~= seq![b] + rest);
        assert((seq![b] + rest).drop_first() =~= rest);
        let tail = seq![b] + rest;
        assert(all.first() == a);
        assert(tail.first() == b);
        assert(tail.flatten() == b + rest.flatten());
        assert(all.flatten() == a + tail.flatten());
        assert(all.flatten() =~= a + (b + rest.flatten()));
        assert(s.subrange(i, s.len() as int) =~= a + (b + s.subrange(k, s.len() as int)));
        assert forall|q: int| 0 <= q < all.len() && q % 2 == 0 implies all_separators(#[trigger] all[q]) by {
            if q >= 2 {
                assert(all[q] == rest[q - 2]);
            }
        }
        assert forall|q: int| 0 <= q < all.len() && q % 2 == 1 implies one_kind(#[trigger] all[q]) by {
            if q >= 2 {
                assert(all[q] == rest[q - 2]);
            } else {
                if j < s.len() && '0' <= s[j] && s[j] <= '9' {
                    assert forall|m: int| 0 <= m < b.len() implies '0' <= #[trigger] b[m] <= '9' by {
                        assert(b[m] == s[j + m]);
                        assert(crate::restrict::parse::in_class(CharClass::Digit, s[j + m]));
                    }
                } else {
                    assert forall|m: int| 0 <= m < b.len() implies is_letter(#[trigger] b[m]) by {
                        assert(b[m] == s[j + m]);
                    }
                }
            }
        }
    }
}

/// A run of digits ends before a character that is no digit.
proof fn lemma_digits_stop(s: Seq<char>, i: int)
    requires
        0 <= i <= s.len(),
    ensures
        span(s, i, CharClass::Digit) < s.len() ==> !('0' <= s[span(s, i, CharClass::Digit)]
            <= '9'),
    decreases s.len() - i,
{
    if i < s.len() && '0' <= s[i] <= '9' {
        lemma_digits_stop(s, i + 1);
    }
}

/// A run of letters ends before a character that is no letter.
proof fn lemma_letters_stop(s: Seq<char>, i: int)
    requires
        0 <= i <= s.len(),
    ensures
        letters_end(s, i) < s.len() ==> !is_letter(s[letters_end(s, i)]),
    decreases s.len() - i,
{
    if i < s.len() && is_letter(s[i]) {
        lemma_letters_stop(s, i + 1);
    }
}

/// The components of a version split are maximal runs: each but the last is non-empty,
/// and where no separator stands between two components, one is a run of digits while
/// the other is a run of letters. So `1.2_alpha` keeps `alpha` as one component, and `1a` splits
/// into the components `1` and `a`.
pub proof fn version_parts_maximal(s: Seq<char>, i: int)
    requires
        0 <= i <= s.len(),
    ensures
        forall|k: int|
            0 <= k && k + 2 < version_parts(s, i).len() && k % 2 == 1 && version_parts(s, i)[k
                + 1].len() == 0 ==> #[trigger] version_parts(s, i)[k].len() > 0 && version_parts(
                s,
                i,
            )[k + 2].len() > 0 && (('0' <= version_parts(s, i)[k][0] <= '9') != ('0'
                <= version_parts(s, i)[k + 2][0] <= '9')),
        forall|k: int|
            0 <= k && k + 1 < version_parts(s, i).len() && k % 2 == 1 ==> (#[trigger] version_parts(
                s,
                i,
            )[k]).len() > 0,
    decreases s.len() - i,
{
    if i < s.len() {
        lemma_parts_progress(s, i);
        lemma_runs(s, i);
        let j = separator_end(s, i);
        lemma_runs(s, j);
        let k0 = component_end(s, j);
        version_parts_maximal(s, k0);
        let a = s.subrange(i, j);
        let b = s.subrange(j, k0);
        let rest = version_parts(s, k0);
        let all = seq![a, b] + rest;
        assert(version_parts(s, i) == all);
        assert forall|q: int|
            0 <= q && q + 2 < all.len() && q % 2 == 1 && all[q + 1].len() == 0 implies #[trigger] all[q].len()
            > 0 && all[q + 2].len() > 0 && (('0' <= all[q][0] <= '9') != ('0' <= all[q + 2][0]
            <= '9')) by {
            if q >= 2 {
                assert(all[q] == rest[q - 2]);
                assert(all[q + 1] == rest[q - 1]);
                assert(all[q + 2] == rest[q]);
            } else {
                assert(q == 1);
                assert(all[1] == b);
                assert(all[2] == rest[0]);
                assert(all[3] == rest[1]);
                assert(rest.len() > 0);
                assert(k0 < s.len());
                lemma_parts_progress(s, k0);
                lemma_runs(s, k0);
                let j2 = separator_end(s, k0);
                let k2 = component_end(s, j2);
                assert(rest == seq![s.subrange(k0, j2), s.subrange(j2, k2)] + version_parts(s, k2));
                assert(rest[0] == s.subrange(k0, j2));
                assert(j2 == k0);
                assert(is_alnum(s[k0]));
                assert(rest[1] == s.subrange(k0, k2));
                assert(k2 > k0);
                assert(rest[1][0] == s[k0]);
                lemma_digits_stop(s, j);
                lemma_letters_stop(s, j);
                if j == k0 {
                    assert(!(j < s.len() && '0' <= s[j] <= '9'));
                    assert(false);
                }
                assert(b[0] == s[j]);
            }
        }
        assert forall|q: int| 0 <= q && q + 1 < all.len() && q % 2 == 1 implies (
        #[trigger] all[q]).len() > 0 by {
            if q >= 2 {
                assert(all[q] == rest[q - 2]);
            } else {
                assert(rest.len() > 0);
                assert(k0 < s.len());
                if j == k0 {
                    assert(is_alnum(s[j]));
                    assert(false);
                }
            }
        }
    }
}

/// Splits a version string into alternating separators and components, each separator
/// followed by its component (either may be empty).
pub fn version_split<'a>(s: &'a str) -> (r: crate::Result<Vec<&'a str>>)
    ensures
        r matches Ok(v) && v@.len() == version_parts(s@, 0).len() && forall|k: int|
            0 <= k < v@.len() ==> (#[trigger] v@[k])@ == version_parts(s@, 0)[k],
{
    let chars = str_to_chars(s);
    let mut out: Vec<&'a str> = Vec::new();
    let mut i: usize = 0;
    let ghost all = version_parts(s@, 0);
    while i < chars.len()
        invariant
            i <= chars@.len(),
            chars@ == s@,
            all == version_parts(s@, 0),
            forall|k: int| 0 <= k < out@.len() ==> (#[trigger] out@[k])@ == (out@.map_values(
                |x: &str| x@,
            ))[k],
            out@.map_values(|x: &str| x@) + version_parts(s@, i as int) == all,
        decreases chars@.len() - i,
    {
        proof {
            lemma_parts_progress(s@, i as int);
            lemma_runs(s@, i as int);
        }
        let j = separator_run(&chars, i);
        proof {
            lemma_runs(s@, j as int);
        }
        let k = if j < chars.len() && '0' <= chars[j] && chars[j] <= '9' {
            crate::restrict::parse::scan(&chars, j, CharClass::Digit)
        } else {
            letter_run(&chars, j)
        };
        assert(k == component_end(s@, j as int));
        let ghost before = out@.map_values(|x: &str| x@);
        let sep = s.substring_char(i, j);
        let comp = s.substring_char(j, k);
        out.push(sep);
        out.push(comp);
        assert(out@.map_values(|x: &str| x@) =~= before + seq![sep@, comp@]);
        assert(version_parts(s@, i as int) == seq![s@.subrange(i as int, j as int), s@.subrange(j as int, k as int)] + version_parts(s@, k as int));
        assert(before + version_parts(s@, i as int) =~= (before + seq![sep@, comp@]) + version_parts(s@, k as int));
        i = k;
    }
    assert(out@.map_values(|x: &str| x@) + Seq::<Seq<char>>::empty() =~= out@.map_values(|x: &str| x@));
    Ok(out)
}

/// The digits at `i`, their value if it fits in a `usize`, and where they end.
pub open spec fn spec_usize_at(s: Seq<char>, i: int) -> Option<(int, usize)> {
    let j = span(s, i, CharClass::Digit);
    if 0 <= i <= s.len() && j > i && digits_value(s.subrange(i, j)) <= usize::MAX {
        Some((j, digits_value(s.subrange(i, j)) as usize))
    } else {
        None
    }
}

/// The range `start-end`, `start-` (through `max`, or just `start` where it exceeds
/// `max`) or `start` spelled by `s`.
pub open spec fn spec_range_syntax(s: Seq<char>, max: usize) -> Option<(usize, usize)> {
    let j = span(s, 0, CharClass::Digit);
    if j == 0 || digits_value(s.subrange(0, j)) > usize::MAX {
        None
    } else {
        let start = digits_value(s.subrange(0, j)) as usize;
        if j < s.len() && s[j] == '-' {
            match spec_usize_at(s, j + 1) {
                Some((k, end)) => if k == s.len() {
                    Some((start, end))
                } else {
                    None
                },
                None => if j + 1 == s.len() {
                    if start <= max {
                        Some((start, max))
                    } else {
                        Some((start, start))
                    }
                } else {
                    None
                },
            }
        } else if j == s.len() {
            Some((start, start))
        } else {
            None
        }
    }
}

fn usize_at(s: &Vec<char>, i: usize) -> (r: Option<(usize, usize)>)
    requires
        i <= s@.len(),
    ensures
        match r {
            Some((j, v)) => spec_usize_at(s@, i as int) == Some((j as int, v)) && j <= s@.len(),
            None => spec_usize_at(s@, i as int) is None,
        },
{
    let j = crate::restrict::parse::scan(s, i, CharClass::Digit);
    if j == i {
        return None;
    }
    proof {
        crate::restrict::parse::lemma_span_bounds(s@, i as int, CharClass::Digit);
    }
    match crate::restrict::parse::digits_to_u64(s, i, j) {
        Some(v) => {
            if v <= usize::MAX as u64 {
                Some((j, v as usize))
            } else {
                None
            }
        },
        None => None,
    }
}

/// Parses a range for `ver_cut` and `ver_rs`; a range whose start exceeds its end is
/// refused.
pub fn range(s: &str, max: usize) -> (r: crate::Result<(usize, usize)>)
    ensures
        match r {
            Ok((start, end)) => spec_range_syntax(s@, max) == Some((start, end)) && start <= end,
            Err(e) => e == Error::InvalidValue(e->InvalidValue_0) && match spec_range_syntax(
                s@,
                max,
            ) {
                Some((start, end)) => end < start && e.spec_message() == "start of range ("@
                    + crate::text::decimal(start as nat) + ") is greater than end ("@
                    + crate::text::decimal(end as nat) + ")"@,
                None => e.spec_message() == "invalid range: "@ + s@,
            },
        },
{
    let chars = str_to_chars(s);
    let len = chars.len();
    let parsed = match usize_at(&chars, 0) {
        None => None,
        Some((j, start)) => {
            if j < len && chars[j] == '-' {
                match usize_at(&chars, j + 1) {
                    Some((k, end)) => if k == len {
                        Some((start, end))
                    } else {
                        None
                    },
                    None => if j + 1 == len {
                        if start <= max {
                            Some((start, max))
                        } else {
                            Some((start, start))
                        }
                    } else {
                        None
                    },
                }
            } else if j == len {
                Some((start, start))
            } else {
                None
            }
        },
    };
    match parsed {
        None => {
            let mut msg = "invalid range: ".to_owned();
            msg.append(s);
            Err(Error::InvalidValue(msg))
        },
        Some((start, end)) => {
            if end < start {
                let mut msg = "start of range (".to_owned();
                msg.append(crate::text::usize_to_string(start).as_str());
                msg.append(") is greater than end (");
                msg.append(crate::text::usize_to_string(end).as_str());
                msg.append(")");
                Err(Error::InvalidValue(msg))
            } else {
                Ok((start, end))
            }
        },
    }
}

// ---------------------------------------------------------------------------------------
// Argument counts
// ---------------------------------------------------------------------------------------

/// The message of a command that wants arguments but got none.
pub open spec fn wants_args_message() -> Seq<char> {
    "requires 1 or more args, got 0"@
}

/// The message of a command that takes no arguments but got `n`.
pub open spec fn no_args_message(n: nat) -> Seq<char> {
    "takes no args, got "@ + crate::text::decimal(n)
}

/// The message of a command that takes exactly `want` arguments but got `n`.
pub open spec fn exact_args_message(want: Seq<char>, n: nat) -> Seq<char> {
    "requires "@ + want + ", got "@ + crate::text::decimal(n)
}

/// Fails with [`wants_args_message`] when `args` is empty.
pub fn require_args(args: &[&str]) -> (r: crate::Result<()>)
    ensures
        match r {
            Ok(()) => args@.len() > 0,
            Err(e) => args@.len() == 0 && e == Error::Base(e->Base_0) && e.spec_message()
                == wants_args_message(),
        },
{
    if args.len() == 0 {
        proof {
            reveal_strlit("requires 1 or more args, got 0");
        }
        Err(Error::Base("requires 1 or more args, got 0".to_owned()))
    } else {
        Ok(())
    }
}

/// Fails with [`no_args_message`] when `args` is not empty.
pub fn require_no_args(args: &[&str]) -> (r: crate::Result<()>)
    ensures
        match r {
            Ok(()) => args@.len() == 0,
            Err(e) => args@.len() > 0 && e == Error::Base(e->Base_0) && e.spec_message()
                == no_args_message(args@.len()),
        },
{
    if args.len() != 0 {
        let mut msg = "takes no args, got ".to_owned();
        msg.append(crate::text::usize_to_string(args.len()).as_str());
        proof {
            reveal_strlit("takes no args, got ");
        }
        Err(Error::Base(msg))
    } else {
        Ok(())
    }
}

/// Fails with [`exact_args_message`] when `args` does not hold `want` arguments;
/// `spelled` is how the message spells `want`.
pub fn require_exact_args(args: &[&str], want: usize, spelled: &str) -> (r: crate::Result<()>)
    ensures
        match r {
            Ok(()) => args@.len() == want,
            Err(e) => args@.len() != want && e == Error::Base(e->Base_0) && e.spec_message()
                == exact_args_message(spelled@, args@.len()),
        },
{
    if args.len() != want {
        let mut msg = "requires ".to_owned();
        msg.append(spelled);
        msg.append(", got ");
        msg.append(crate::text::usize_to_string(args.len()).as_str());
        proof {
            reveal_strlit("requires ");
            reveal_strlit(", got ");
        }
        Err(Error::Base(msg))
    } else {
        Ok(())
    }
}


/// Copies `args[start..]` into owned strings.
pub fn owned_args(args: &[&str], start: usize) -> (v: Vec<String>)
    requires
        start <= args@.len(),
    ensures
        v@.len() == args@.len() - start,
        forall|k: int| 0 <= k < v@.len() ==> (#[trigger] v@[k])@ == args@[k + start]@,
{
    let mut out: Vec<String> = Vec::new();
    let mut i = start;
    while i < args.len()
        invariant
            start <= i <= args@.len(),
            out@.len() == i - start,
            forall|k: int| 0 <= k < out@.len() ==> (#[trigger] out@[k])@ == args@[k + start]@,
        decreases args@.len() - i,
    {
        out.push(args[i].to_owned());
        i += 1;
    }
    out
}

}
