//! Parsing of globbed dependency strings such as `>=cat/pkg*-1:2/*::repo` into
//! restrictions.

use vstd::prelude::*;

use crate::dep::version::{valid_component, valid_version};
use crate::dep::{
    number_views, suffix_views, Blocker, Number, NumberView, Operator, Revision, Suffix,
    SuffixKind, SuffixView, UseDep, UseDepKind, UseDepView, Version, VersionView,
};
use crate::error::Error;
use crate::restrict::dep::{DepRestrictView, Restrict as DepRestrict};
use crate::restrict::str::{regex_compiles, Restrict as StrRestrict, StrRestrictView};
use crate::restrict::{combined, flatten, restrict_views, Restrict as BaseRestrict, RestrictView};
use crate::restrict::str::BoolOp;
use crate::text::{chars_to_string, replace_all, replace_chars, str_to_chars};

use super::{
    alnum, at, char_at, class_has, digits_to_u64, digits_value, in_class, is_alnum,
    is_name_first, is_space, lemma_span_bounds, lit_at, scan, span, CharClass,
};

verus! {

// ---------------------------------------------------------------------------------------
// Versions
// ---------------------------------------------------------------------------------------

/// A run of decimal digits at `i` whose value fits in a `u64`, and where it ends.
pub open spec fn spec_number(s: Seq<char>, i: int) -> Option<(int, NumberView)> {
    let j = span(s, i, CharClass::Digit);
    if 0 <= i <= s.len() && j > i && digits_value(s.subrange(i, j)) <= u64::MAX {
        Some(
            (
                j,
                NumberView { raw: s.subrange(i, j), value: digits_value(s.subrange(i, j)) as u64 },
            ),
        )
    } else {
        None
    }
}

/// The suffix kind spelled at `i` (`alpha`, `beta`, `pre`, `rc` or `p`, tried in that
/// order), and where it ends.
pub open spec fn spec_suffix_kind(s: Seq<char>, i: int) -> Option<(int, SuffixKind)> {
    if lit_at(s, i, seq!['a', 'l', 'p', 'h', 'a']) {
        Some((i + 5, SuffixKind::Alpha))
    } else if lit_at(s, i, seq!['b', 'e', 't', 'a']) {
        Some((i + 4, SuffixKind::Beta))
    } else if lit_at(s, i, seq!['p', 'r', 'e']) {
        Some((i + 3, SuffixKind::Pre))
    } else if lit_at(s, i, seq!['r', 'c']) {
        Some((i + 2, SuffixKind::Rc))
    } else if lit_at(s, i, seq!['p']) {
        Some((i + 1, SuffixKind::P))
    } else {
        None
    }
}

/// A version suffix `_kind` with an optional number at `i`, and where it ends.
pub open spec fn spec_version_suffix(s: Seq<char>, i: int) -> Option<(int, SuffixView)> {
    if 0 <= i < s.len() && s[i] == '_' {
        match spec_suffix_kind(s, i + 1) {
            Some((j, kind)) => match spec_number(s, j) {
                Some((k, n)) => Some((k, SuffixView { kind, version: Some(n) })),
                None => Some((j, SuffixView { kind, version: None })),
            },
            None => None,
        }
    } else {
        None
    }
}

/// The version suffixes that follow one another from `i`, and where they end.
pub open spec fn spec_suffixes(s: Seq<char>, i: int) -> (int, Seq<SuffixView>)
    decreases s.len() - i,
{
    match spec_version_suffix(s, i) {
        Some((j, x)) => if i < j <= s.len() {
            let (e, xs) = spec_suffixes(s, j);
            (e, seq![x] + xs)
        } else {
            (i, seq![])
        },
        None => (i, seq![]),
    }
}

/// The `.number` components that follow one another from `i`, and where they end.
pub open spec fn spec_more_numbers(s: Seq<char>, i: int) -> (int, Seq<NumberView>)
    decreases s.len() - i,
{
    if 0 <= i < s.len() && s[i] == '.' {
        match spec_number(s, i + 1) {
            Some((j, n)) => if i < j <= s.len() {
                let (e, ns) = spec_more_numbers(s, j);
                (e, seq![n] + ns)
            } else {
                (i, seq![])
            },
            None => (i, seq![]),
        }
    } else {
        (i, seq![])
    }
}

/// The spelling of an absent revision.
pub open spec fn no_revision() -> NumberView {
    NumberView { raw: Seq::empty(), value: 0 }
}

/// A version without operator at `i` (numbers separated by `.`, an optional lowercase
/// letter, suffixes and an optional `-rN` revision), and where it ends.
pub open spec fn spec_version(s: Seq<char>, i: int) -> Option<(int, VersionView)> {
    match spec_number(s, i) {
        None => None,
        Some((j0, n0)) => {
            let (j1, ns) = spec_more_numbers(s, j0);
            let has_letter = 0 <= j1 < s.len() && 'a' <= s[j1] && s[j1] <= 'z';
            let j2 = if has_letter {
                j1 + 1
            } else {
                j1
            };
            let letter = if has_letter {
                Some(s[j1])
            } else {
                None
            };
            let (j3, sufs) = spec_suffixes(s, j2);
            let (j4, rev) = match spec_number(s, j3 + 2) {
                Some((k, r)) => if lit_at(s, j3, seq!['-', 'r']) {
                    (k, r)
                } else {
                    (j3, no_revision())
                },
                None => (j3, no_revision()),
            };
            Some(
                (
                    j4,
                    VersionView {
                        op: None,
                        numbers: seq![n0] + ns,
                        letter,
                        suffixes: sufs,
                        revision: rev,
                    },
                ),
            )
        },
    }
}

/// A number ends after it starts.
pub proof fn lemma_number_bounds(s: Seq<char>, i: int)
    ensures
        spec_number(s, i) matches Some((j, _)) ==> i < j <= s.len(),
{
    if 0 <= i <= s.len() {
        lemma_span_bounds(s, i, CharClass::Digit);
    }
}

/// A version suffix ends after it starts.
pub proof fn lemma_version_suffix_bounds(s: Seq<char>, i: int)
    ensures
        spec_version_suffix(s, i) matches Some((j, _)) ==> i < j <= s.len(),
{
    if 0 <= i < s.len() && s[i] == '_' {
        if let Some((j, _)) = spec_suffix_kind(s, i + 1) {
            lemma_number_bounds(s, j);
        }
    }
}

/// Suffixes end no earlier than they start.
pub proof fn lemma_suffixes_bounds(s: Seq<char>, i: int)
    requires
        0 <= i <= s.len(),
    ensures
        i <= spec_suffixes(s, i).0 <= s.len(),
    decreases s.len() - i,
{
    lemma_version_suffix_bounds(s, i);
    if let Some((j, _)) = spec_version_suffix(s, i) {
        lemma_suffixes_bounds(s, j);
    }
}

/// Further number components end no earlier than they start.
pub proof fn lemma_more_numbers_bounds(s: Seq<char>, i: int)
    requires
        0 <= i <= s.len(),
    ensures
        i <= spec_more_numbers(s, i).0 <= s.len(),
    decreases s.len() - i,
{
    if 0 <= i < s.len() && s[i] == '.' {
        lemma_number_bounds(s, i + 1);
        if let Some((j, _)) = spec_number(s, i + 1) {
            lemma_more_numbers_bounds(s, j);
        }
    }
}

proof fn lemma_number_valid(s: Seq<char>, i: int)
    ensures
        spec_number(s, i) matches Some((_, n)) ==> valid_component(n),
{
    if 0 <= i <= s.len() {
        lemma_span_bounds(s, i, CharClass::Digit);
        if let Some((j, n)) = spec_number(s, i) {
            assert(n.raw[0] == s[i]);
        }
    }
}

proof fn lemma_more_numbers_valid(s: Seq<char>, i: int)
    requires
        0 <= i <= s.len(),
    ensures
        forall|k: int|
            0 <= k < spec_more_numbers(s, i).1.len() ==> valid_component(
                #[trigger] spec_more_numbers(s, i).1[k],
            ),
    decreases s.len() - i,
{
    if 0 <= i < s.len() && s[i] == '.' {
        lemma_number_valid(s, i + 1);
        lemma_number_bounds(s, i + 1);
        if let Some((j, n)) = spec_number(s, i + 1) {
            if i < j <= s.len() {
                lemma_more_numbers_valid(s, j);
                let ns = spec_more_numbers(s, j).1;
                assert forall|k: int| 0 <= k < (seq![n] + ns).len() implies valid_component(
                    #[trigger] (seq![n] + ns)[k],
                ) by {
                    if k > 0 {
                        assert((seq![n] + ns)[k] == ns[k - 1]);
                    }
                }
            }
        }
    }
}

/// Every component after the first of a parsed version is spelled with digits.
pub proof fn parsed_versions_valid(s: Seq<char>, i: int)
    ensures
        spec_version(s, i) matches Some((_, v)) ==> valid_version(v),
        spec_version_str(s) matches Some(v) ==> valid_version(v),
{
    parsed_version_valid_at(s, i);
    parsed_version_valid_at(s, 0);
    if let Some((j, _)) = spec_operator(s, 0) {
        parsed_version_valid_at(s, j);
    }
}

proof fn parsed_version_valid_at(s: Seq<char>, i: int)
    ensures
        spec_version(s, i) matches Some((_, v)) ==> valid_version(v),
{
    lemma_number_bounds(s, i);
    if let Some((j0, n0)) = spec_number(s, i) {
        if 0 <= j0 <= s.len() {
            lemma_more_numbers_valid(s, j0);
            let ns = spec_more_numbers(s, j0).1;
            assert forall|k: int| 1 <= k < (seq![n0] + ns).len() implies valid_component(
                #[trigger] (seq![n0] + ns)[k],
            ) by {
                assert((seq![n0] + ns)[k] == ns[k - 1]);
            }
        }
    }
}

/// A version ends after it starts.
pub proof fn lemma_version_bounds(s: Seq<char>, i: int)
    ensures
        spec_version(s, i) matches Some((j, _)) ==> i < j <= s.len(),
{
    lemma_number_bounds(s, i);
    if let Some((j0, _)) = spec_number(s, i) {
        lemma_more_numbers_bounds(s, j0);
        let j1 = spec_more_numbers(s, j0).0;
        let j2 = if 0 <= j1 < s.len() && 'a' <= s[j1] && s[j1] <= 'z' {
            j1 + 1
        } else {
            j1
        };
        lemma_suffixes_bounds(s, j2);
        let j3 = spec_suffixes(s, j2).0;
        lemma_number_bounds(s, j3 + 2);
    }
}

/// The `u64` number at `i`, and where it ends.
pub fn number(s: &Vec<char>, i: usize) -> (r: Option<(usize, Number)>)
    requires
        i <= s@.len(),
    ensures
        match r {
            Some((j, n)) => spec_number(s@, i as int) == Some((j as int, n@)),
            None => spec_number(s@, i as int) is None,
        },
{
    let j = scan(s, i, CharClass::Digit);
    if j == i {
        return None;
    }
    proof {
        lemma_span_bounds(s@, i as int, CharClass::Digit);
    }
    match digits_to_u64(s, i, j) {
        Some(v) => {
            let raw = chars_to_string(vstd::slice::slice_subrange(s.as_slice(), i, j));
            Some((j, Number { raw, value: v }))
        },
        None => None,
    }
}

fn suffix_kind(s: &Vec<char>, i: usize) -> (r: Option<(usize, SuffixKind)>)
    requires
        i <= s@.len(),
    ensures
        match r {
            Some((j, k)) => spec_suffix_kind(s@, i as int) == Some((j as int, k)),
            None => spec_suffix_kind(s@, i as int) is None,
        },
{
    let _len = s.len();
    let alpha = vec!['a', 'l', 'p', 'h', 'a'];
    let beta = vec!['b', 'e', 't', 'a'];
    let pre = vec!['p', 'r', 'e'];
    let rc = vec!['r', 'c'];
    let p = vec!['p'];
    assert(alpha@ =~= seq!['a', 'l', 'p', 'h', 'a']);
    assert(beta@ =~= seq!['b', 'e', 't', 'a']);
    assert(pre@ =~= seq!['p', 'r', 'e']);
    assert(rc@ =~= seq!['r', 'c']);
    assert(p@ =~= seq!['p']);
    if at(s, i, &alpha) {
        Some((i + 5, SuffixKind::Alpha))
    } else if at(s, i, &beta) {
        Some((i + 4, SuffixKind::Beta))
    } else if at(s, i, &pre) {
        Some((i + 3, SuffixKind::Pre))
    } else if at(s, i, &rc) {
        Some((i + 2, SuffixKind::Rc))
    } else if at(s, i, &p) {
        Some((i + 1, SuffixKind::P))
    } else {
        None
    }
}

fn version_suffix(s: &Vec<char>, i: usize) -> (r: Option<(usize, Suffix)>)
    requires
        i <= s@.len(),
    ensures
        match r {
            Some((j, x)) => spec_version_suffix(s@, i as int) == Some((j as int, x@)),
            None => spec_version_suffix(s@, i as int) is None,
        },
{
    let _len = s.len();
    if !char_at(s, i, '_') {
        return None;
    }
    match suffix_kind(s, i + 1) {
        Some((j, kind)) => {
            proof {
                assert(j <= s@.len());
            }
            match number(s, j) {
                Some((k, n)) => Some((k, Suffix { kind, version: Some(n) })),
                None => Some((j, Suffix { kind, version: None })),
            }
        },
        None => None,
    }
}

fn suffixes(s: &Vec<char>, i: usize) -> (r: (usize, Vec<Suffix>))
    requires
        i <= s@.len(),
    ensures
        spec_suffixes(s@, i as int) == (r.0 as int, suffix_views(r.1@)),
{
    let mut out: Vec<Suffix> = Vec::new();
    let mut j = i;
    loop
        invariant
            i <= j <= s@.len(),
            spec_suffixes(s@, i as int) == (
                spec_suffixes(s@, j as int).0,
                suffix_views(out@) + spec_suffixes(s@, j as int).1,
            ),
        decreases s@.len() - j,
    {
        proof {
            lemma_version_suffix_bounds(s@, j as int);
        }
        match version_suffix(s, j) {
            Some((k, x)) => {
                let ghost before = suffix_views(out@);
                let ghost rest = spec_suffixes(s@, k as int).1;
                out.push(x);
                assert(suffix_views(out@) =~= before.push(x@));
                assert(before + (seq![x@] + rest) =~= before.push(x@) + rest);
                j = k;
            },
            None => {
                assert(suffix_views(out@) + Seq::<SuffixView>::empty() =~= suffix_views(out@));
                return (j, out);
            },
        }
    }
}

fn more_numbers(s: &Vec<char>, i: usize) -> (r: (usize, Vec<Number>))
    requires
        i <= s@.len(),
    ensures
        spec_more_numbers(s@, i as int) == (r.0 as int, number_views(r.1@)),
{
    let mut out: Vec<Number> = Vec::new();
    let mut j = i;
    let len = s.len();
    assert(Seq::<NumberView>::empty() + spec_more_numbers(s@, i as int).1 =~= spec_more_numbers(s@, i as int).1);
    loop
        invariant
            len == s@.len(),
            i <= j <= s@.len(),
            spec_more_numbers(s@, i as int) == (
                spec_more_numbers(s@, j as int).0,
                number_views(out@) + spec_more_numbers(s@, j as int).1,
            ),
        decreases s@.len() - j,
    {
        if !char_at(s, j, '.') {
            assert(number_views(out@) + Seq::<NumberView>::empty() =~= number_views(out@));
            return (j, out);
        }
        proof {
            lemma_number_bounds(s@, j + 1);
        }
        match number(s, j + 1) {
            Some((k, n)) => {
                let ghost before = number_views(out@);
                let ghost rest = spec_more_numbers(s@, k as int).1;
                out.push(n);
                assert(number_views(out@) =~= before.push(n@));
                assert(before + (seq![n@] + rest) =~= before.push(n@) + rest);
                j = k;
            },
            None => {
                assert(number_views(out@) + Seq::<NumberView>::empty() =~= number_views(out@));
                return (j, out);
            },
        }
    }
}

/// The version without operator at `i`, and where it ends.
pub fn version(s: &Vec<char>, i: usize) -> (r: Option<(usize, Version)>)
    requires
        i <= s@.len(),
    ensures
        match r {
            Some((j, v)) => spec_version(s@, i as int) == Some((j as int, v@)),
            None => spec_version(s@, i as int) is None,
        },
{
    let (j0, n0) = match number(s, i) {
        Some(x) => x,
        None => return None,
    };
    proof {
        lemma_number_bounds(s@, i as int);
    }
    let ghost n0v = n0@;
    let mut numbers: Vec<Number> = Vec::new();
    numbers.push(n0);
    let (j1, mut rest) = more_numbers(s, j0);
    let ghost rv = number_views(rest@);
    numbers.append(&mut rest);
    proof {
        lemma_more_numbers_bounds(s@, j0 as int);
        assert(number_views(numbers@) =~= seq![n0v] + rv);
    }
    let has_letter = j1 < s.len() && 'a' <= s[j1] && s[j1] <= 'z';
    let letter = if has_letter {
        Some(s[j1])
    } else {
        None
    };
    let j2 = if has_letter {
        j1 + 1
    } else {
        j1
    };
    let (j3, sufs) = suffixes(s, j2);
    proof {
        lemma_suffixes_bounds(s@, j2 as int);
    }
    let mut j4 = j3;
    let mut revision = Revision::empty();
    if at(s, j3, &vec!['-', 'r']) {
        match number(s, j3 + 2) {
            Some((k, n)) => {
                j4 = k;
                revision = Revision(n);
            },
            None => {},
        }
    } else {
        proof {
            if j3 + 2 <= s@.len() {
                assert(!lit_at(s@, j3 as int, seq!['-', 'r']));
            }
        }
    }
    let v = Version { op: None, numbers, letter, suffixes: sufs, revision };
    Some((j4, v))
}


// ---------------------------------------------------------------------------------------
// Globs
// ---------------------------------------------------------------------------------------

/// The characters that `regex::escape` prefixes with a backslash.
pub open spec fn is_regex_meta(c: char) -> bool {
    c == '\\' || c == '.' || c == '+' || c == '*' || c == '?' || c == '(' || c == ')' || c
        == '|' || c == '[' || c == ']' || c == '{' || c == '}' || c == '^' || c == '$' || c
        == '#' || c == '&' || c == '-' || c == '~'
}

/// `s` with a backslash before each regex meta character.
pub open spec fn regex_escaped(s: Seq<char>) -> Seq<char>
    decreases s.len(),
{
    if s.len() == 0 {
        seq![]
    } else {
        regex_escaped(s.drop_last()) + if is_regex_meta(s.last()) {
            seq!['\\', s.last()]
        } else {
            seq![s.last()]
        }
    }
}

/// Escapes regex meta characters (`regex::escape`): the result is the input with a
/// backslash inserted before each of `\.+*?()|[]{}^$#&-~`.
#[verifier::external_body]
fn regex_escape(s: &str) -> (r: String)
    ensures
        r@ == regex_escaped(s@),
{
    regex::escape(s)
}

/// The anchored regex for a glob in which `*` stands for any run of characters.
pub open spec fn glob_pattern(g: Seq<char>) -> Seq<char> {
    seq!['^'] + replace_all(regex_escaped(g), seq!['\\', '*'], seq!['.', '*']) + seq!['$']
}

/// `g` holds a `*`.
pub open spec fn has_star(g: Seq<char>) -> bool {
    exists|k: int| 0 <= k < g.len() && g[k] == '*'
}

/// `g` consists of `*` only.
pub open spec fn all_stars(g: Seq<char>) -> bool {
    forall|k: int| 0 <= k < g.len() ==> g[k] == '*'
}

/// The string restriction for a glob: equality without `*`, else the glob's regex,
/// which must compile.
pub open spec fn spec_glob_str(g: Seq<char>) -> Option<StrRestrictView> {
    if !has_star(g) {
        Some(StrRestrictView::Equal(g))
    } else if regex_compiles(glob_pattern(g)) {
        Some(StrRestrictView::Regex(glob_pattern(g)))
    } else {
        None
    }
}

/// Which name a category or package glob restricts.
#[derive(Debug, Clone, Copy, PartialEq, Eq, Structural)]
pub enum NameKind {
    Category,
    Package,
}

/// The dependency restriction on the named component.
pub open spec fn name_restrict(kind: NameKind, r: StrRestrictView) -> DepRestrictView {
    match kind {
        NameKind::Category => DepRestrictView::Category(r),
        NameKind::Package => DepRestrictView::Package(r),
    }
}

/// The restrictions for a category or package glob: none for a glob of `*` only.
pub open spec fn spec_name_restricts(kind: NameKind, g: Seq<char>) -> Option<Seq<DepRestrictView>> {
    if has_star(g) && all_stars(g) {
        Some(seq![])
    } else {
        match spec_glob_str(g) {
            Some(r) => Some(seq![name_restrict(kind, r)]),
            None => None,
        }
    }
}

/// The views of a sequence of dependency restrictions.
pub open spec fn dep_views(v: Seq<DepRestrict>) -> Seq<DepRestrictView> {
    Seq::new(v.len(), |k: int| v[k]@)
}

fn star_counts(s: &Vec<char>, i: usize, j: usize) -> (r: (bool, bool))
    requires
        i <= j <= s@.len(),
    ensures
        r.0 == has_star(s@.subrange(i as int, j as int)),
        r.1 == all_stars(s@.subrange(i as int, j as int)),
{
    let ghost g = s@.subrange(i as int, j as int);
    let mut any = false;
    let mut all = true;
    let mut k = i;
    while k < j
        invariant
            i <= k <= j <= s@.len(),
            g == s@.subrange(i as int, j as int),
            any == (exists|m: int| 0 <= m < k - i && g[m] == '*'),
            all == (forall|m: int| 0 <= m < k - i ==> g[m] == '*'),
        decreases j - k,
    {
        assert(g[k - i] == s@[k as int]);
        if s[k] == '*' {
            any = true;
        } else {
            all = false;
        }
        k += 1;
    }
    (any, all)
}

/// The string restriction for the glob `s[i..j]`.
fn glob_str(s: &Vec<char>, i: usize, j: usize) -> (r: Option<StrRestrict>)
    requires
        i <= j <= s@.len(),
    ensures
        match r {
            Some(x) => spec_glob_str(s@.subrange(i as int, j as int)) == Some(x@),
            None => spec_glob_str(s@.subrange(i as int, j as int)) is None,
        },
{
    let ghost g = s@.subrange(i as int, j as int);
    let glob = chars_to_string(vstd::slice::slice_subrange(s.as_slice(), i, j));
    let (any, _all) = star_counts(s, i, j);
    if !any {
        return Some(StrRestrict::equal(glob.as_str()));
    }
    let escaped = regex_escape(glob.as_str());
    let chars = str_to_chars(escaped.as_str());
    let from = vec!['\\', '*'];
    let to = vec!['.', '*'];
    assert(from@ =~= seq!['\\', '*']);
    assert(to@ =~= seq!['.', '*']);
    let mut replaced = replace_chars(&chars, &from, &to);
    let mut pattern = vec!['^'];
    pattern.append(&mut replaced);
    pattern.push('$');
    assert(pattern@ =~= glob_pattern(g));
    let ps = chars_to_string(pattern.as_slice());
    match StrRestrict::regex(ps.as_str()) {
        Ok(r) => Some(r),
        Err(_) => None,
    }
}

/// The restrictions for the category or package glob `s[i..j]`.
fn name_restricts(kind: NameKind, s: &Vec<char>, i: usize, j: usize) -> (r: Option<
    Vec<DepRestrict>,
>)
    requires
        i <= j <= s@.len(),
    ensures
        match r {
            Some(v) => spec_name_restricts(kind, s@.subrange(i as int, j as int)) == Some(
                dep_views(v@),
            ),
            None => spec_name_restricts(kind, s@.subrange(i as int, j as int)) is None,
        },
{
    let (any, all) = star_counts(s, i, j);
    let mut out: Vec<DepRestrict> = Vec::new();
    if any && all {
        assert(dep_views(out@) =~= Seq::<DepRestrictView>::empty());
        return Some(out);
    }
    match glob_str(s, i, j) {
        Some(r) => {
            let d = match kind {
                NameKind::Category => DepRestrict::Category(r),
                NameKind::Package => DepRestrict::Package(r),
            };
            out.push(d);
            assert(dep_views(out@) =~= seq![out@[0]@]);
            Some(out)
        },
        None => None,
    }
}


// ---------------------------------------------------------------------------------------
// Category, package and version
// ---------------------------------------------------------------------------------------

/// A category (or slot) glob at `i`, and where it ends.
pub open spec fn spec_category(s: Seq<char>, i: int) -> Option<int> {
    if 0 <= i < s.len() && is_name_first(s[i]) {
        Some(span(s, i + 1, CharClass::NameRest))
    } else {
        None
    }
}

/// Whether a `-` just before `k` starts the version part of a dependency: a version,
/// optionally followed by `-` and a second version, then whitespace, `*`, `:`, `[` or
/// the end of input.
pub open spec fn spec_version_follows(s: Seq<char>, k: int) -> bool {
    match spec_version(s, k) {
        None => false,
        Some((e, _)) => {
            let e2 = if 0 <= e < s.len() && s[e] == '-' {
                match spec_version(s, e + 1) {
                    Some((f, _)) => f,
                    None => e,
                }
            } else {
                e
            };
            e2 == s.len() || (0 <= e2 < s.len() && (is_space(s[e2]) || s[e2] == '*' || s[e2]
                == ':' || s[e2] == '['))
        },
    }
}

/// Where the rest of a package glob that continues at `j` ends: name characters, and
/// `-` where no version follows it.
pub open spec fn spec_package_rest(s: Seq<char>, j: int) -> int
    decreases s.len() - j,
{
    if 0 <= j < s.len() && (in_class(CharClass::PkgRest, s[j]) || (s[j] == '-'
        && !spec_version_follows(s, j + 1))) {
        spec_package_rest(s, j + 1)
    } else {
        j
    }
}

/// A package glob at `i`, and where it ends.
pub open spec fn spec_package(s: Seq<char>, i: int) -> Option<int> {
    if 0 <= i < s.len() && is_name_first(s[i]) {
        Some(spec_package_rest(s, i + 1))
    } else {
        None
    }
}

/// A `category/package` or bare package glob at `i`, its restrictions, and where it ends.
pub open spec fn spec_cp(s: Seq<char>, i: int) -> Option<(int, Seq<DepRestrictView>)> {
    let with_category = match spec_category(s, i) {
        Some(j) => if j < s.len() && s[j] == '/' {
            match spec_package(s, j + 1) {
                Some(k) => match (
                    spec_name_restricts(NameKind::Category, s.subrange(i, j)),
                    spec_name_restricts(NameKind::Package, s.subrange(j + 1, k)),
                ) {
                    (Some(a), Some(b)) => Some((k, a + b)),
                    _ => None,
                },
                None => None,
            }
        } else {
            None
        },
        None => None,
    };
    if with_category is Some {
        with_category
    } else {
        match spec_package(s, i) {
            Some(k) => match spec_name_restricts(NameKind::Package, s.subrange(i, k)) {
                Some(b) => Some((k, b)),
                None => None,
            },
            None => None,
        }
    }
}

/// The version operator spelled at `i`, and where it ends.
pub open spec fn spec_operator(s: Seq<char>, i: int) -> Option<(int, Operator)> {
    if lit_at(s, i, seq!['<', '=']) {
        Some((i + 2, Operator::LessOrEqual))
    } else if lit_at(s, i, seq!['<']) {
        Some((i + 1, Operator::Less))
    } else if lit_at(s, i, seq!['>', '=']) {
        Some((i + 2, Operator::GreaterOrEqual))
    } else if lit_at(s, i, seq!['>']) {
        Some((i + 1, Operator::Greater))
    } else if lit_at(s, i, seq!['=']) {
        Some((i + 1, Operator::Equal))
    } else if lit_at(s, i, seq!['~']) {
        Some((i + 1, Operator::Approximate))
    } else {
        None
    }
}

/// The package part of a dependency glob at `i`: the category and package restrictions,
/// the version if any, and where it ends. Without an operator the version is optional;
/// after one it is required, and `~` refuses a revision.
pub open spec fn spec_pkg_restricts(s: Seq<char>, i: int) -> Option<
    (int, Seq<DepRestrictView>, Option<VersionView>),
> {
    match spec_cp(s, i) {
        Some((j, r)) => match spec_version(s, j + 1) {
            Some((k, v)) => if 0 <= j < s.len() && s[j] == '-' {
                Some((k, r, Some(v)))
            } else {
                Some((j, r, None))
            },
            None => Some((j, r, None)),
        },
        None => match spec_operator(s, i) {
            None => None,
            Some((j, op)) => match spec_cp(s, j) {
                None => None,
                Some((k, r)) => if 0 <= k < s.len() && s[k] == '-' {
                    match spec_version(s, k + 1) {
                        None => None,
                        Some((m, v)) => {
                            let glob = op == Operator::Equal && 0 <= m < s.len() && s[m] == '*';
                            let e = if glob {
                                m + 1
                            } else {
                                m
                            };
                            let op2 = if glob {
                                Operator::EqualGlob
                            } else {
                                op
                            };
                            if op2 == Operator::Approximate && v.revision.raw.len() > 0 {
                                None
                            } else {
                                Some((e, r, Some(VersionView { op: Some(op2), ..v })))
                            }
                        },
                    }
                } else {
                    None
                },
            },
        },
    }
}

proof fn lemma_package_rest_bounds(s: Seq<char>, j: int)
    requires
        0 <= j <= s.len(),
    ensures
        j <= spec_package_rest(s, j) <= s.len(),
    decreases s.len() - j,
{
    if 0 <= j < s.len() && (in_class(CharClass::PkgRest, s[j]) || (s[j] == '-'
        && !spec_version_follows(s, j + 1))) {
        lemma_package_rest_bounds(s, j + 1);
    }
}

fn version_follows(s: &Vec<char>, k: usize) -> (b: bool)
    requires
        k <= s@.len(),
    ensures
        b == spec_version_follows(s@, k as int),
{
    let len = s.len();
    proof {
        lemma_version_bounds(s@, k as int);
    }
    match version(s, k) {
        None => false,
        Some((e, _)) => {
            let mut e2 = e;
            if char_at(s, e, '-') {
                proof {
                    lemma_version_bounds(s@, e + 1);
                }
                match version(s, e + 1) {
                    Some((f, _)) => {
                        e2 = f;
                    },
                    None => {},
                }
            }
            e2 == len || (e2 < len && (s[e2] == ' ' || s[e2] == '\n' || s[e2] == '\t' || s[e2]
                == '*' || s[e2] == ':' || s[e2] == '['))
        },
    }
}

fn category(s: &Vec<char>, i: usize) -> (r: Option<usize>)
    requires
        i <= s@.len(),
    ensures
        match r {
            Some(j) => spec_category(s@, i as int) == Some(j as int) && i < j <= s@.len(),
            None => spec_category(s@, i as int) is None,
        },
{
    if i < s.len() && (alnum(s[i]) || s[i] == '_' || s[i] == '*') {
        Some(scan(s, i + 1, CharClass::NameRest))
    } else {
        None
    }
}

fn package(s: &Vec<char>, i: usize) -> (r: Option<usize>)
    requires
        i <= s@.len(),
    ensures
        match r {
            Some(j) => spec_package(s@, i as int) == Some(j as int) && i < j <= s@.len(),
            None => spec_package(s@, i as int) is None,
        },
{
    let len = s.len();
    if !(i < len && (alnum(s[i]) || s[i] == '_' || s[i] == '*')) {
        return None;
    }
    let mut j = i + 1;
    while j < len && (class_has(CharClass::PkgRest, s[j]) || (s[j] == '-' && !version_follows(
        s,
        j + 1,
    )))
        invariant
            len == s@.len(),
            i < j <= len,
            spec_package_rest(s@, i + 1) == spec_package_rest(s@, j as int),
        decreases len - j,
    {
        j += 1;
    }
    Some(j)
}

fn cp_restricts(s: &Vec<char>, i: usize) -> (r: Option<(usize, Vec<DepRestrict>)>)
    requires
        i <= s@.len(),
    ensures
        match r {
            Some((k, v)) => spec_cp(s@, i as int) == Some((k as int, dep_views(v@))) && k
                <= s@.len(),
            None => spec_cp(s@, i as int) is None,
        },
{
    let _len = s.len();
    if let Some(j) = category(s, i) {
        if char_at(s, j, '/') {
            if let Some(k) = package(s, j + 1) {
                if let Some(mut a) = name_restricts(NameKind::Category, s, i, j) {
                    if let Some(mut b) = name_restricts(NameKind::Package, s, j + 1, k) {
                        let ghost av = dep_views(a@);
                        let ghost bv = dep_views(b@);
                        a.append(&mut b);
                        assert(dep_views(a@) =~= av + bv);
                        return Some((k, a));
                    }
                }
            }
        }
    }
    match package(s, i) {
        Some(k) => match name_restricts(NameKind::Package, s, i, k) {
            Some(b) => Some((k, b)),
            None => None,
        },
        None => None,
    }
}

fn operator(s: &Vec<char>, i: usize) -> (r: Option<(usize, Operator)>)
    requires
        i <= s@.len(),
    ensures
        match r {
            Some((j, op)) => spec_operator(s@, i as int) == Some((j as int, op)) && j <= s@.len(),
            None => spec_operator(s@, i as int) is None,
        },
{
    let le = vec!['<', '='];
    let ge = vec!['>', '='];
    assert(le@ =~= seq!['<', '=']);
    assert(ge@ =~= seq!['>', '=']);
    let _len = s.len();
    proof {
        if i < s@.len() {
            assert(s@.subrange(i as int, i + 1) =~= seq![s@[i as int]]);
        }
    }
    if at(s, i, &le) {
        Some((i + 2, Operator::LessOrEqual))
    } else if char_at(s, i, '<') {
        assert(s@.subrange(i as int, i + 1) =~= seq!['<']);
        Some((i + 1, Operator::Less))
    } else if at(s, i, &ge) {
        Some((i + 2, Operator::GreaterOrEqual))
    } else if char_at(s, i, '>') {
        assert(s@.subrange(i as int, i + 1) =~= seq!['>']);
        Some((i + 1, Operator::Greater))
    } else if char_at(s, i, '=') {
        assert(s@.subrange(i as int, i + 1) =~= seq!['=']);
        Some((i + 1, Operator::Equal))
    } else if char_at(s, i, '~') {
        assert(s@.subrange(i as int, i + 1) =~= seq!['~']);
        Some((i + 1, Operator::Approximate))
    } else {
        proof {
            if i < s@.len() {
                assert(s@.subrange(i as int, i + 1)[0] == s@[i as int]);
            }
        }
        None
    }
}

fn pkg_restricts(s: &Vec<char>, i: usize) -> (r: Option<(usize, Vec<DepRestrict>, Option<Version>)>)
    requires
        i <= s@.len(),
    ensures
        match r {
            Some((k, v, ver)) => spec_pkg_restricts(s@, i as int) == Some(
                (
                    k as int,
                    dep_views(v@),
                    match ver {
                        Some(x) => Some(x@),
                        None => None,
                    },
                ),
            ) && k <= s@.len(),
            None => spec_pkg_restricts(s@, i as int) is None,
        },
{
    let _len = s.len();
    match cp_restricts(s, i) {
        Some((j, r)) => {
            if char_at(s, j, '-') {
                proof {
                    lemma_version_bounds(s@, j + 1);
                }
                match version(s, j + 1) {
                    Some((k, v)) => return Some((k, r, Some(v))),
                    None => {},
                }
            } else {
                proof {
                    lemma_version_bounds(s@, j + 1);
                }
            }
            return Some((j, r, None));
        },
        None => {},
    }
    let (j, op) = match operator(s, i) {
        Some(x) => x,
        None => return None,
    };
    let (k, r) = match cp_restricts(s, j) {
        Some(x) => x,
        None => return None,
    };
    if !char_at(s, k, '-') {
        return None;
    }
    proof {
        lemma_version_bounds(s@, k + 1);
    }
    let (m, v) = match version(s, k + 1) {
        Some(x) => x,
        None => return None,
    };
    let glob = op == Operator::Equal && char_at(s, m, '*');
    let e = if glob {
        m + 1
    } else {
        m
    };
    let op2 = if glob {
        Operator::EqualGlob
    } else {
        op
    };
    match v.with_op(op2) {
        Ok(v2) => Some((e, r, Some(v2))),
        Err(_) => None,
    }
}


// ---------------------------------------------------------------------------------------
// Blocker, slot, USE dependencies and repository
// ---------------------------------------------------------------------------------------

/// A leading `!` (weak) or `!!` (strong) blocker, and where it ends.
pub open spec fn spec_blocker(s: Seq<char>) -> (int, Option<Blocker>) {
    if 0 < s.len() && s[0] == '!' {
        if 1 < s.len() && s[1] == '!' {
            (2, Some(Blocker::Strong))
        } else {
            (1, Some(Blocker::Weak))
        }
    } else {
        (0, None)
    }
}

/// `:slot` with an optional `/subslot` at `i`, their restrictions, and where they end.
pub open spec fn spec_slot_restricts(s: Seq<char>, i: int) -> Option<(int, Seq<DepRestrictView>)> {
    if 0 <= i < s.len() && s[i] == ':' {
        match spec_category(s, i + 1) {
            None => None,
            Some(j) => match spec_glob_str(s.subrange(i + 1, j)) {
                None => None,
                Some(slot) => {
                    let sr = DepRestrictView::Slot(Some(slot));
                    let sub = if 0 <= j < s.len() && s[j] == '/' {
                        match spec_category(s, j + 1) {
                            Some(k) => match spec_glob_str(s.subrange(j + 1, k)) {
                                Some(x) => Some((k, DepRestrictView::Subslot(Some(x)))),
                                None => None,
                            },
                            None => None,
                        }
                    } else {
                        None
                    };
                    match sub {
                        Some((k, x)) => Some((k, seq![sr, x])),
                        None => Some((j, seq![sr])),
                    }
                },
            },
        }
    } else {
        None
    }
}

/// A USE flag name at `i`, and where it ends.
pub open spec fn spec_use_flag(s: Seq<char>, i: int) -> Option<int> {
    if 0 <= i < s.len() && is_alnum(s[i]) {
        Some(span(s, i + 1, CharClass::FlagRest))
    } else {
        None
    }
}

/// An optional `(+)` or `(-)` default at `i`, and where it ends.
pub open spec fn spec_use_default(s: Seq<char>, i: int) -> (int, Option<bool>) {
    if lit_at(s, i, seq!['(', '+', ')']) {
        (i + 3, Some(true))
    } else if lit_at(s, i, seq!['(', '-', ')']) {
        (i + 3, Some(false))
    } else {
        (i, None)
    }
}

/// A USE dependency at `i`: `[!]flag[(+)|(-)]` followed by `=` or `?`, else
/// `[-]flag[(+)|(-)]`; and where it ends.
pub open spec fn spec_use_dep(s: Seq<char>, i: int) -> Option<(int, UseDepView)> {
    let bang = 0 <= i < s.len() && s[i] == '!';
    let a = if bang {
        i + 1
    } else {
        i
    };
    let conditional = match spec_use_flag(s, a) {
        Some(b) => {
            let (c, d) = spec_use_default(s, b);
            if 0 <= c < s.len() && (s[c] == '=' || s[c] == '?') {
                Some(
                    (
                        c + 1,
                        UseDepView {
                            flag: s.subrange(a, b),
                            kind: if s[c] == '=' {
                                UseDepKind::Equal
                            } else {
                                UseDepKind::Conditional
                            },
                            enabled: !bang,
                            default: d,
                        },
                    ),
                )
            } else {
                None
            }
        },
        None => None,
    };
    if conditional is Some {
        conditional
    } else {
        let minus = 0 <= i < s.len() && s[i] == '-';
        let a2 = if minus {
            i + 1
        } else {
            i
        };
        match spec_use_flag(s, a2) {
            Some(b) => {
                let (c, d) = spec_use_default(s, b);
                Some(
                    (
                        c,
                        UseDepView {
                            flag: s.subrange(a2, b),
                            kind: UseDepKind::Enabled,
                            enabled: !minus,
                            default: d,
                        },
                    ),
                )
            },
            None => None,
        }
    }
}

/// The `,dep` USE dependencies that follow one another from `i`, and where they end.
pub open spec fn spec_use_list(s: Seq<char>, i: int) -> (int, Seq<UseDepView>)
    decreases s.len() - i,
{
    if 0 <= i < s.len() && s[i] == ',' {
        match spec_use_dep(s, i + 1) {
            Some((j, u)) => if i < j <= s.len() {
                let (e, us) = spec_use_list(s, j);
                (e, seq![u] + us)
            } else {
                (i, seq![])
            },
            None => (i, seq![]),
        }
    } else {
        (i, seq![])
    }
}

/// A bracketed, comma separated list of USE dependencies at `i`, its restriction, and
/// where it ends.
pub open spec fn spec_use_restricts(s: Seq<char>, i: int) -> Option<(int, DepRestrictView)> {
    if 0 <= i < s.len() && s[i] == '[' {
        match spec_use_dep(s, i + 1) {
            Some((j, u)) => {
                let (k, us) = spec_use_list(s, j);
                if 0 <= k < s.len() && s[k] == ']' {
                    Some((k + 1, DepRestrictView::UseDeps(Some(seq![u] + us))))
                } else {
                    None
                }
            },
            None => None,
        }
    } else {
        None
    }
}

/// A `::repo` glob at `i` (everything up to whitespace), its restriction, and where it
/// ends.
pub open spec fn spec_repo_restrict(s: Seq<char>, i: int) -> Option<(int, DepRestrictView)> {
    let j = span(s, i + 2, CharClass::NotSpace);
    if lit_at(s, i, seq![':', ':']) && j > i + 2 {
        match spec_glob_str(s.subrange(i + 2, j)) {
            Some(r) => Some((j, DepRestrictView::Repo(Some(r)))),
            None => None,
        }
    } else {
        None
    }
}

/// A whole dependency glob: its component restrictions, in the order package, blocker,
/// slot, USE, repository, and its version if any; `None` where `s` is not one.
pub open spec fn spec_dep_glob(s: Seq<char>) -> Option<(Seq<DepRestrictView>, Option<VersionView>)> {
    let (i1, b) = spec_blocker(s);
    match spec_pkg_restricts(s, i1) {
        None => None,
        Some((i2, r, ver)) => {
            let (i3, sl) = match spec_slot_restricts(s, i2) {
                Some(x) => x,
                None => (i2, seq![]),
            };
            let (i4, u) = match spec_use_restricts(s, i3) {
                Some((k, x)) => (k, seq![x]),
                None => (i3, seq![]),
            };
            let (i5, rp) = match spec_repo_restrict(s, i4) {
                Some((k, x)) => (k, seq![x]),
                None => (i4, seq![]),
            };
            let bl = match b {
                Some(b) => seq![DepRestrictView::Blocker(Some(b))],
                None => seq![],
            };
            if i5 == s.len() {
                Some((r + bl + sl + u + rp, ver))
            } else {
                None
            }
        },
    }
}

/// The component restrictions of a dependency glob, the version last.
pub open spec fn spec_restricts(s: Seq<char>) -> Option<Seq<DepRestrictView>> {
    match spec_dep_glob(s) {
        Some((rs, Some(v))) => Some(rs.push(DepRestrictView::Version(Some(v)))),
        Some((rs, None)) => Some(rs),
        None => None,
    }
}

/// The restriction for a dependency glob: `True` for one without restrictions, else the
/// conjunction of its component restrictions.
pub open spec fn spec_dep_restrict(s: Seq<char>) -> Option<RestrictView> {
    match spec_restricts(s) {
        Some(rs) => if rs.len() == 0 {
            Some(RestrictView::True)
        } else {
            Some(
                combined(
                    BoolOp::And,
                    flatten(BoolOp::And, Seq::new(rs.len(), |k: int| RestrictView::Dep(rs[k]))),
                ),
            )
        },
        None => None,
    }
}

fn slot_restricts(s: &Vec<char>, i: usize) -> (r: Option<(usize, Vec<DepRestrict>)>)
    requires
        i <= s@.len(),
    ensures
        match r {
            Some((k, v)) => spec_slot_restricts(s@, i as int) == Some((k as int, dep_views(v@)))
                && k <= s@.len(),
            None => spec_slot_restricts(s@, i as int) is None,
        },
{
    let _len = s.len();
    if !char_at(s, i, ':') {
        return None;
    }
    let j = match category(s, i + 1) {
        Some(j) => j,
        None => return None,
    };
    let slot = match glob_str(s, i + 1, j) {
        Some(r) => r,
        None => return None,
    };
    let mut out: Vec<DepRestrict> = Vec::new();
    out.push(DepRestrict::Slot(Some(slot)));
    let mut end = j;
    if char_at(s, j, '/') {
        if let Some(k) = category(s, j + 1) {
            if let Some(x) = glob_str(s, j + 1, k) {
                out.push(DepRestrict::Subslot(Some(x)));
                end = k;
            }
        }
    }
    assert(dep_views(out@) =~= Seq::new(out@.len(), |k: int| out@[k]@));
    Some((end, out))
}

fn use_flag(s: &Vec<char>, i: usize) -> (r: Option<usize>)
    requires
        i <= s@.len(),
    ensures
        match r {
            Some(j) => spec_use_flag(s@, i as int) == Some(j as int) && i < j <= s@.len(),
            None => spec_use_flag(s@, i as int) is None,
        },
{
    if i < s.len() && alnum(s[i]) {
        Some(scan(s, i + 1, CharClass::FlagRest))
    } else {
        None
    }
}

fn use_default(s: &Vec<char>, i: usize) -> (r: (usize, Option<bool>))
    requires
        i <= s@.len(),
    ensures
        spec_use_default(s@, i as int) == (r.0 as int, r.1),
        r.0 <= s@.len(),
{
    let plus = vec!['(', '+', ')'];
    let minus = vec!['(', '-', ')'];
    assert(plus@ =~= seq!['(', '+', ')']);
    assert(minus@ =~= seq!['(', '-', ')']);
    let _len = s.len();
    if at(s, i, &plus) {
        (i + 3, Some(true))
    } else if at(s, i, &minus) {
        (i + 3, Some(false))
    } else {
        (i, None)
    }
}

fn use_dep(s: &Vec<char>, i: usize) -> (r: Option<(usize, UseDep)>)
    requires
        i <= s@.len(),
    ensures
        match r {
            Some((j, u)) => spec_use_dep(s@, i as int) == Some((j as int, u@)) && i < j <= s@.len(),
            None => spec_use_dep(s@, i as int) is None,
        },
{
    let _len = s.len();
    let bang = char_at(s, i, '!');
    let a = if bang {
        i + 1
    } else {
        i
    };
    if let Some(b) = use_flag(s, a) {
        let (c, d) = use_default(s, b);
        if char_at(s, c, '=') || char_at(s, c, '?') {
            let kind = if s[c] == '=' {
                UseDepKind::Equal
            } else {
                UseDepKind::Conditional
            };
            let flag = chars_to_string(vstd::slice::slice_subrange(s.as_slice(), a, b));
            return Some((c + 1, UseDep { flag, kind, enabled: !bang, default: d }));
        }
    }
    let minus = char_at(s, i, '-');
    let a2 = if minus {
        i + 1
    } else {
        i
    };
    match use_flag(s, a2) {
        Some(b) => {
            let (c, d) = use_default(s, b);
            let flag = chars_to_string(vstd::slice::slice_subrange(s.as_slice(), a2, b));
            Some((c, UseDep { flag, kind: UseDepKind::Enabled, enabled: !minus, default: d }))
        },
        None => None,
    }
}

/// The views of a sequence of USE dependencies.
pub open spec fn use_views(v: Seq<UseDep>) -> Seq<UseDepView> {
    Seq::new(v.len(), |k: int| v[k]@)
}

fn use_restricts(s: &Vec<char>, i: usize) -> (r: Option<(usize, DepRestrict)>)
    requires
        i <= s@.len(),
    ensures
        match r {
            Some((k, d)) => spec_use_restricts(s@, i as int) == Some((k as int, d@)) && k
                <= s@.len(),
            None => spec_use_restricts(s@, i as int) is None,
        },
{
    let len = s.len();
    if !char_at(s, i, '[') {
        return None;
    }
    let (mut j, first) = match use_dep(s, i + 1) {
        Some(x) => x,
        None => return None,
    };
    let ghost j0 = j as int;
    let mut deps: Vec<UseDep> = Vec::new();
    deps.push(first);
    assert(use_views(deps@).drop_first() =~= Seq::<UseDepView>::empty());
    assert(Seq::<UseDepView>::empty() + spec_use_list(s@, j0).1 =~= spec_use_list(s@, j0).1);
    loop
        invariant
            len == s@.len(),
            j0 <= j <= len,
            deps@.len() >= 1,
            spec_use_list(s@, j0) == (
                spec_use_list(s@, j as int).0,
                use_views(deps@).drop_first() + spec_use_list(s@, j as int).1,
            ),
            spec_use_dep(s@, i + 1) == Some((j0, use_views(deps@)[0])),
        ensures
            j0 <= j <= len,
            deps@.len() >= 1,
            spec_use_list(s@, j0) == (
                spec_use_list(s@, j as int).0,
                use_views(deps@).drop_first() + spec_use_list(s@, j as int).1,
            ),
            spec_use_dep(s@, i + 1) == Some((j0, use_views(deps@)[0])),
            spec_use_list(s@, j as int) == (j as int, Seq::<UseDepView>::empty()),
        decreases len - j,
    {
        if !char_at(s, j, ',') {
            break;
        }
        match use_dep(s, j + 1) {
            Some((k, u)) => {
                let ghost before = use_views(deps@).drop_first();
                let ghost rest = spec_use_list(s@, k as int).1;
                deps.push(u);
                assert(use_views(deps@).drop_first() =~= before.push(u@));
                assert(before + (seq![u@] + rest) =~= before.push(u@) + rest);
                j = k;
            },
            None => break,
        }
    }
    assert(use_views(deps@).drop_first() + Seq::<UseDepView>::empty() =~= use_views(deps@).drop_first());
    if !char_at(s, j, ']') {
        return None;
    }
    let d = DepRestrict::UseDeps(Some(deps));
    assert(d@->UseDeps_0 == Some(use_views(deps@))) by {
        assert(deps@.map_values(|u: UseDep| u@) =~= use_views(deps@));
    }
    assert(use_views(deps@) =~= seq![use_views(deps@)[0]] + use_views(deps@).drop_first());
    Some((j + 1, d))
}

fn repo_restrict(s: &Vec<char>, i: usize) -> (r: Option<(usize, DepRestrict)>)
    requires
        i <= s@.len(),
    ensures
        match r {
            Some((k, d)) => spec_repo_restrict(s@, i as int) == Some((k as int, d@)) && k
                <= s@.len(),
            None => spec_repo_restrict(s@, i as int) is None,
        },
{
    let colons = vec![':', ':'];
    assert(colons@ =~= seq![':', ':']);
    let _len = s.len();
    if !at(s, i, &colons) {
        return None;
    }
    let j = scan(s, i + 2, CharClass::NotSpace);
    if j <= i + 2 {
        return None;
    }
    match glob_str(s, i + 2, j) {
        Some(r) => Some((j, DepRestrict::Repo(Some(r)))),
        None => None,
    }
}

fn parse_glob(s: &Vec<char>) -> (r: Option<(Vec<DepRestrict>, Option<Version>)>)
    ensures
        match r {
            Some((v, ver)) => spec_dep_glob(s@) == Some(
                (
                    dep_views(v@),
                    match ver {
                        Some(x) => Some(x@),
                        None => None,
                    },
                ),
            ),
            None => spec_dep_glob(s@) is None,
        },
{
    let _len = s.len();
    let (i1, blocker) = if char_at(s, 0, '!') {
        if char_at(s, 1, '!') {
            (2, Some(Blocker::Strong))
        } else {
            (1, Some(Blocker::Weak))
        }
    } else {
        (0, None)
    };
    let (i2, mut restricts, ver) = match pkg_restricts(s, i1) {
        Some(x) => x,
        None => return None,
    };
    let ghost rv = dep_views(restricts@);
    match blocker {
        Some(b) => restricts.push(DepRestrict::Blocker(Some(b))),
        None => {},
    }
    let ghost with_b = dep_views(restricts@);
    let i3 = match slot_restricts(s, i2) {
        Some((k, mut sl)) => {
            restricts.append(&mut sl);
            k
        },
        None => i2,
    };
    let ghost with_sl = dep_views(restricts@);
    let i4 = match use_restricts(s, i3) {
        Some((k, u)) => {
            restricts.push(u);
            k
        },
        None => i3,
    };
    let ghost with_u = dep_views(restricts@);
    let i5 = match repo_restrict(s, i4) {
        Some((k, rp)) => {
            restricts.push(rp);
            k
        },
        None => i4,
    };
    if i5 != s.len() {
        return None;
    }
    proof {
        let (sb_end, sb) = spec_blocker(s@);
        let bl = match sb {
            Some(b) => seq![DepRestrictView::Blocker(Some(b))],
            None => seq![],
        };
        assert(with_b =~= rv + bl);
        let sl = match spec_slot_restricts(s@, i2 as int) {
            Some(x) => x.1,
            None => seq![],
        };
        assert(with_sl =~= rv + bl + sl);
        let u = match spec_use_restricts(s@, i3 as int) {
            Some((k, x)) => seq![x],
            None => seq![],
        };
        assert(with_u =~= rv + bl + sl + u);
        let rp = match spec_repo_restrict(s@, i4 as int) {
            Some((k, x)) => seq![x],
            None => seq![],
        };
        assert(dep_views(restricts@) =~= rv + bl + sl + u + rp);
    }
    Some((restricts, ver))
}

/// The component restrictions of a globbed dependency string, with its version last.
pub fn restricts(s: &str) -> (r: crate::Result<Vec<DepRestrict>>)
    ensures
        match r {
            Ok(v) => spec_restricts(s@) == Some(dep_views(v@)),
            Err(e) => spec_restricts(s@) is None && e == Error::InvalidValue(
                e->InvalidValue_0,
            ) && e.spec_message() == "invalid dep restriction: "@ + s@,
        },
{
    let chars = str_to_chars(s);
    match parse_glob(&chars) {
        Some((mut v, ver)) => {
            match ver {
                Some(x) => {
                    let ghost before = dep_views(v@);
                    v.push(DepRestrict::Version(Some(x)));
                    assert(dep_views(v@) =~= before.push(v@.last()@));
                },
                None => {},
            }
            Ok(v)
        },
        None => {
            let mut msg = "invalid dep restriction: ".to_owned();
            msg.append(s);
            proof {
                reveal_strlit("invalid dep restriction: ");
            }
            Err(Error::InvalidValue(msg))
        },
    }
}

/// Converts a globbed dependency string into a restriction.
pub fn dep(s: &str) -> (r: crate::Result<BaseRestrict>)
    ensures
        match r {
            Ok(x) => spec_dep_restrict(s@) == Some(x@),
            Err(e) => spec_dep_restrict(s@) is None && e.spec_message()
                == "invalid dep restriction: "@ + s@,
        },
{
    let rs = restricts(s)?;
    if rs.len() == 0 {
        return Ok(BaseRestrict::True);
    }
    let ghost dv = dep_views(rs@);
    let mut base: Vec<BaseRestrict> = Vec::new();
    for d in it: rs
        invariant
            it.seq() == rs@,
            dv == dep_views(rs@),
            restrict_views(base@) == Seq::new(
                it.index() as nat,
                |k: int| RestrictView::Dep(dv[k]),
            ),
    {
        let ghost before = restrict_views(base@);
        let ghost k = it.index() as int;
        assert(d == rs@[k]);
        assert(0 <= k < rs@.len());
        assert(dv[k] == d@);
        assert(before.len() == k);
        assert(base@.len() == k);
        let ghost dview = d@;
        let ghost old_base = base@;
        let b = BaseRestrict::Dep(d);
        assert(b@ == RestrictView::Dep(dview));
        base.push(b);
        assert(base@[k]@ == RestrictView::Dep(dv[k]));
        assert forall|m: int| 0 <= m < k implies #[trigger] restrict_views(base@)[m] == RestrictView::Dep(dv[m]) by {
            assert(base@[m] == old_base[m]);
            assert(before[m] == old_base[m]@);
        }
        assert(restrict_views(base@) =~= Seq::new((k + 1) as nat, |m: int| RestrictView::Dep(dv[m])));
    }
    let r = BaseRestrict::and(base);
    Ok(r)
}


// ---------------------------------------------------------------------------------------
// Whole strings
// ---------------------------------------------------------------------------------------

/// A string that is a version and nothing else, optionally preceded by an operator: `=`
/// followed by a trailing `*` makes a glob, and `~` refuses a revision.
pub open spec fn spec_version_str(s: Seq<char>) -> Option<VersionView> {
    match spec_operator(s, 0) {
        Some((j, op)) => match spec_version(s, j) {
            Some((m, v)) => {
                let glob = op == Operator::Equal && 0 <= m < s.len() && s[m] == '*';
                let e = if glob {
                    m + 1
                } else {
                    m
                };
                let op2 = if glob {
                    Operator::EqualGlob
                } else {
                    op
                };
                if e != s.len() || (op2 == Operator::Approximate && v.revision.raw.len() > 0) {
                    None
                } else {
                    Some(VersionView { op: Some(op2), ..v })
                }
            },
            None => None,
        },
        None => match spec_version(s, 0) {
            Some((m, v)) => if m == s.len() {
                Some(v)
            } else {
                None
            },
            None => None,
        },
    }
}

/// A string that is a comma separated list of USE dependencies and nothing else.
pub open spec fn spec_use_deps_str(s: Seq<char>) -> Option<Seq<UseDepView>> {
    match spec_use_dep(s, 0) {
        Some((j, u)) => {
            let (k, us) = spec_use_list(s, j);
            if k == s.len() {
                Some(seq![u] + us)
            } else {
                None
            }
        },
        None => None,
    }
}

fn use_list(s: &Vec<char>, j0: usize) -> (r: (usize, Vec<UseDep>))
    requires
        j0 <= s@.len(),
    ensures
        spec_use_list(s@, j0 as int) == (r.0 as int, use_views(r.1@)),
        r.0 <= s@.len(),
{
    let len = s.len();
    let mut j = j0;
    let mut deps: Vec<UseDep> = Vec::new();
    assert(use_views(deps@) =~= Seq::<UseDepView>::empty());
    assert(Seq::<UseDepView>::empty() + spec_use_list(s@, j0 as int).1 =~= spec_use_list(
        s@,
        j0 as int,
    ).1);
    loop
        invariant
            len == s@.len(),
            j0 <= j <= len,
            spec_use_list(s@, j0 as int) == (
                spec_use_list(s@, j as int).0,
                use_views(deps@) + spec_use_list(s@, j as int).1,
            ),
        ensures
            j0 <= j <= len,
            spec_use_list(s@, j0 as int) == (
                spec_use_list(s@, j as int).0,
                use_views(deps@) + spec_use_list(s@, j as int).1,
            ),
            spec_use_list(s@, j as int) == (j as int, Seq::<UseDepView>::empty()),
        decreases len - j,
    {
        if !char_at(s, j, ',') {
            break;
        }
        match use_dep(s, j + 1) {
            Some((k, u)) => {
                let ghost before = use_views(deps@);
                let ghost rest = spec_use_list(s@, k as int).1;
                deps.push(u);
                assert(use_views(deps@) =~= before.push(u@));
                assert(before + (seq![u@] + rest) =~= before.push(u@) + rest);
                j = k;
            },
            None => break,
        }
    }
    assert(use_views(deps@) + Seq::<UseDepView>::empty() =~= use_views(deps@));
    (j, deps)
}

/// Parses a version, optionally preceded by an operator, that spans all of `s`.
pub fn version_str(s: &str) -> (r: Option<Version>)
    ensures
        match r {
            Some(v) => spec_version_str(s@) == Some(v@),
            None => spec_version_str(s@) is None,
        },
{
    let chars = str_to_chars(s);
    let len = chars.len();
    match operator(&chars, 0) {
        Some((j, op)) => {
            proof {
                lemma_version_bounds(chars@, j as int);
            }
            let (m, v) = match version(&chars, j) {
                Some(x) => x,
                None => return None,
            };
            let glob = op == Operator::Equal && char_at(&chars, m, '*');
            let e = if glob {
                m + 1
            } else {
                m
            };
            let op2 = if glob {
                Operator::EqualGlob
            } else {
                op
            };
            if e != len {
                return None;
            }
            match v.with_op(op2) {
                Ok(v2) => Some(v2),
                Err(_) => None,
            }
        },
        None => {
            proof {
                lemma_version_bounds(chars@, 0);
            }
            match version(&chars, 0) {
                Some((m, v)) => if m == len {
                    Some(v)
                } else {
                    None
                },
                None => None,
            }
        },
    }
}

/// Parses a comma separated list of USE dependencies that spans all of `s`, in the order
/// written.
pub fn use_deps_str(s: &str) -> (r: Option<Vec<UseDep>>)
    ensures
        match r {
            Some(v) => spec_use_deps_str(s@) == Some(use_views(v@)),
            None => spec_use_deps_str(s@) is None,
        },
{
    let chars = str_to_chars(s);
    let (j, first) = match use_dep(&chars, 0) {
        Some(x) => x,
        None => return None,
    };
    let (k, mut rest) = use_list(&chars, j);
    if k != chars.len() {
        return None;
    }
    let ghost rv = use_views(rest@);
    let mut deps: Vec<UseDep> = Vec::new();
    deps.push(first);
    deps.append(&mut rest);
    assert(use_views(deps@) =~= seq![first@] + rv);
    Some(deps)
}

/// Whether the blocker restrictions among `rs` are exactly the one for `b`: present once
/// at least where `b` is some blocker, and no other blocker restriction.
pub open spec fn blocks_only(rs: Seq<DepRestrictView>, b: Option<Blocker>) -> bool {
    &&& forall|k: int|
        0 <= k < rs.len() && (#[trigger] rs[k]) is Blocker ==> b is Some && rs[k]
            == DepRestrictView::Blocker(b)
    &&& b is Some ==> exists|k: int| 0 <= k < rs.len() && rs[k] == DepRestrictView::Blocker(b)
}

/// Category and package globs restrict no blocker.
proof fn lemma_names_no_blocker()
    ensures
        forall|kind: NameKind, g: Seq<char>|
            #[trigger] spec_name_restricts(kind, g) matches Some(x) ==> forall|k: int|
                0 <= k < x.len() ==> !(x[k] is Blocker),
{
}

/// The category and package restrictions of a glob are no blocker restrictions.
proof fn lemma_pkg_no_blocker(s: Seq<char>, i: int)
    ensures
        spec_pkg_restricts(s, i) matches Some((j, r, v)) ==> forall|k: int|
            0 <= k < r.len() ==> !(r[k] is Blocker),
{
    lemma_names_no_blocker();
}

/// A dependency glob that starts with one `!` blocks weakly, one that starts with `!!`
/// blocks strongly, and one without a leading `!` blocks nothing: its restrictions hold
/// the weak or the strong blocker restriction, and no other, or none.
pub proof fn blocker_marks(s: Seq<char>)
    requires
        spec_restricts(s) is Some,
    ensures
        s.len() > 0 && s[0] == '!' && !(s.len() > 1 && s[1] == '!') ==> blocks_only(
            spec_restricts(s)->0,
            Some(Blocker::Weak),
        ),
        s.len() > 1 && s[0] == '!' && s[1] == '!' ==> blocks_only(
            spec_restricts(s)->0,
            Some(Blocker::Strong),
        ),
        !(s.len() > 0 && s[0] == '!') ==> blocks_only(spec_restricts(s)->0, None),
{
    let (i1, b) = spec_blocker(s);
    lemma_pkg_no_blocker(s, i1);
    let (i2, r, ver) = spec_pkg_restricts(s, i1)->0;
    let (i3, sl) = match spec_slot_restricts(s, i2) {
        Some(x) => x,
        None => (i2, seq![]),
    };
    let (i4, u) = match spec_use_restricts(s, i3) {
        Some((k, x)) => (k, seq![x]),
        None => (i3, seq![]),
    };
    let (i5, rp) = match spec_repo_restrict(s, i4) {
        Some((k, x)) => (k, seq![x]),
        None => (i4, seq![]),
    };
    let bl = match b {
        Some(b) => seq![DepRestrictView::Blocker(Some(b))],
        None => seq![],
    };
    let base = r + bl + sl + u + rp;
    assert(spec_dep_glob(s) == Some((base, ver)));
    let rs = spec_restricts(s)->0;
    assert forall|k: int| 0 <= k < sl.len() implies !(#[trigger] sl[k] is Blocker) by {}
    assert forall|k: int| 0 <= k < u.len() implies !(#[trigger] u[k] is Blocker) by {}
    assert forall|k: int| 0 <= k < rp.len() implies !(#[trigger] rp[k] is Blocker) by {}
    assert forall|k: int| 0 <= k < base.len() && (#[trigger] base[k]) is Blocker implies b is Some
        && base[k] == DepRestrictView::Blocker(b) by {
        let n1 = r.len();
        let n2 = n1 + bl.len();
        let n3 = n2 + sl.len();
        let n4 = n3 + u.len();
        if k < n1 {
            assert(base[k] == r[k]);
        } else if k < n2 {
            assert(base[k] == bl[k - n1]);
        } else if k < n3 {
            assert(base[k] == sl[k - n2]);
        } else if k < n4 {
            assert(base[k] == u[k - n3]);
        } else {
            assert(base[k] == rp[k - n4]);
        }
    }
    if b is Some {
        assert(base[r.len() as int] == DepRestrictView::Blocker(b));
    }
    assert forall|k: int| 0 <= k < rs.len() && (#[trigger] rs[k]) is Blocker implies b is Some
        && rs[k] == DepRestrictView::Blocker(b) by {
        if k < base.len() {
            assert(rs[k] == base[k]);
        }
    }
    if b is Some {
        assert(rs[r.len() as int] == base[r.len() as int]);
    }
}

}
