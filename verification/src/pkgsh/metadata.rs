//! The keys of package metadata and their cache entry lines.

use vstd::prelude::*;

use core::cmp::Ordering;

use vstd::string::StrSliceExecFns;

use crate::pkgsh::builtins::econf::{lines_from, lines_of, strip_cr, text_lines};
use crate::pkgsh::phase::{short_phase_name, PhaseKind};
use crate::text::{
    chars_to_string, is_prefix, split_tokens, str_eq, str_starts_with, str_to_chars, to_owned,
    whitespace_split,
};
use crate::types::string_views;

verus! {

broadcast use vstd::string::group_string_axioms;

/// A package metadata key.
#[derive(Debug, Clone, Copy, PartialEq, Eq, Structural, Hash)]
pub enum Key {
    Bdepend,
    DefinedPhases,
    Depend,
    Description,
    Eapi,
    Homepage,
    Idepend,
    Inherit,
    Iuse,
    Keywords,
    License,
    Pdepend,
    Properties,
    Rdepend,
    RequiredUse,
    Restrict,
    Slot,
    SrcUri,
    /// Last, as in serialized metadata.
    Inherited,
}

/// The name of a key: its variant name in upper case, words joined by `_`.
pub open spec fn key_name(k: Key) -> Seq<char> {
    match k {
        Key::Bdepend => "BDEPEND"@,
        Key::DefinedPhases => "DEFINED_PHASES"@,
        Key::Depend => "DEPEND"@,
        Key::Description => "DESCRIPTION"@,
        Key::Eapi => "EAPI"@,
        Key::Homepage => "HOMEPAGE"@,
        Key::Idepend => "IDEPEND"@,
        Key::Inherit => "INHERIT"@,
        Key::Iuse => "IUSE"@,
        Key::Keywords => "KEYWORDS"@,
        Key::License => "LICENSE"@,
        Key::Pdepend => "PDEPEND"@,
        Key::Properties => "PROPERTIES"@,
        Key::Rdepend => "RDEPEND"@,
        Key::RequiredUse => "REQUIRED_USE"@,
        Key::Restrict => "RESTRICT"@,
        Key::Slot => "SLOT"@,
        Key::SrcUri => "SRC_URI"@,
        Key::Inherited => "INHERITED"@,
    }
}

/// The keys in declaration order.
pub open spec fn all_keys() -> Seq<Key> {
    seq![
        Key::Bdepend,
        Key::DefinedPhases,
        Key::Depend,
        Key::Description,
        Key::Eapi,
        Key::Homepage,
        Key::Idepend,
        Key::Inherit,
        Key::Iuse,
        Key::Keywords,
        Key::License,
        Key::Pdepend,
        Key::Properties,
        Key::Rdepend,
        Key::RequiredUse,
        Key::Restrict,
        Key::Slot,
        Key::SrcUri,
        Key::Inherited,
    ]
}

/// The name of a key in lower case.
pub open spec fn key_lower(k: Key) -> Seq<char> {
    match k {
        Key::Bdepend => "bdepend"@,
        Key::DefinedPhases => "defined_phases"@,
        Key::Depend => "depend"@,
        Key::Description => "description"@,
        Key::Eapi => "eapi"@,
        Key::Homepage => "homepage"@,
        Key::Idepend => "idepend"@,
        Key::Inherit => "inherit"@,
        Key::Iuse => "iuse"@,
        Key::Keywords => "keywords"@,
        Key::License => "license"@,
        Key::Pdepend => "pdepend"@,
        Key::Properties => "properties"@,
        Key::Rdepend => "rdepend"@,
        Key::RequiredUse => "required_use"@,
        Key::Restrict => "restrict"@,
        Key::Slot => "slot"@,
        Key::SrcUri => "src_uri"@,
        Key::Inherited => "inherited"@,
    }
}

/// The variable a key is written under in a metadata cache entry: its name, except for
/// `Inherited`, written `_eclasses_`.
pub open spec fn line_var(k: Key) -> Seq<char> {
    match k {
        Key::Inherited => "_eclasses_"@,
        _ => key_name(k),
    }
}

impl Key {
    /// The key's name in lower case.
    pub fn lower_name(&self) -> (s: &'static str)
        ensures
            s@ == key_lower(*self),
    {
        match self {
            Key::Bdepend => "bdepend",
            Key::DefinedPhases => "defined_phases",
            Key::Depend => "depend",
            Key::Description => "description",
            Key::Eapi => "eapi",
            Key::Homepage => "homepage",
            Key::Idepend => "idepend",
            Key::Inherit => "inherit",
            Key::Iuse => "iuse",
            Key::Keywords => "keywords",
            Key::License => "license",
            Key::Pdepend => "pdepend",
            Key::Properties => "properties",
            Key::Rdepend => "rdepend",
            Key::RequiredUse => "required_use",
            Key::Restrict => "restrict",
            Key::Slot => "slot",
            Key::SrcUri => "src_uri",
            Key::Inherited => "inherited",
        }
    }
}

/// Whether `a` sorts before `b` character by character, a proper prefix first.
pub open spec fn lex_less(a: Seq<char>, b: Seq<char>) -> bool
    decreases a.len(),
{
    if a.len() == 0 {
        b.len() > 0
    } else if b.len() == 0 {
        false
    } else if a[0] != b[0] {
        a[0] < b[0]
    } else {
        lex_less(a.drop_first(), b.drop_first())
    }
}

impl Key {
    /// The key's name.
    pub fn as_str(&self) -> (s: &'static str)
        ensures
            s@ == key_name(*self),
    {
        match self {
            Key::Bdepend => "BDEPEND",
            Key::DefinedPhases => "DEFINED_PHASES",
            Key::Depend => "DEPEND",
            Key::Description => "DESCRIPTION",
            Key::Eapi => "EAPI",
            Key::Homepage => "HOMEPAGE",
            Key::Idepend => "IDEPEND",
            Key::Inherit => "INHERIT",
            Key::Iuse => "IUSE",
            Key::Keywords => "KEYWORDS",
            Key::License => "LICENSE",
            Key::Pdepend => "PDEPEND",
            Key::Properties => "PROPERTIES",
            Key::Rdepend => "RDEPEND",
            Key::RequiredUse => "REQUIRED_USE",
            Key::Restrict => "RESTRICT",
            Key::Slot => "SLOT",
            Key::SrcUri => "SRC_URI",
            Key::Inherited => "INHERITED",
        }
    }

    /// All keys, in declaration order.
    pub fn all() -> (v: Vec<Key>)
        ensures
            v@ == all_keys(),
    {
        let v = vec![
            Key::Bdepend,
            Key::DefinedPhases,
            Key::Depend,
            Key::Description,
            Key::Eapi,
            Key::Homepage,
            Key::Idepend,
            Key::Inherit,
            Key::Iuse,
            Key::Keywords,
            Key::License,
            Key::Pdepend,
            Key::Properties,
            Key::Rdepend,
            Key::RequiredUse,
            Key::Restrict,
            Key::Slot,
            Key::SrcUri,
            Key::Inherited,
        ];
        assert(v@ =~= all_keys());
        v
    }

    /// The key named `s`, if any.
    pub fn from_name(s: &str) -> (r: Option<Key>)
        ensures
            match r {
                Some(k) => key_name(k) == s@,
                None => forall|k: Key| key_name(k) != s@,
            },
    {
        let keys = Key::all();
        let mut i: usize = 0;
        while i < keys.len()
            invariant
                keys@ == all_keys(),
                i <= keys@.len(),
                forall|j: int| 0 <= j < i ==> key_name(#[trigger] keys@[j]) != s@,
            decreases keys@.len() - i,
        {
            let k = keys[i];
            if str_eq(k.as_str(), s) {
                return Some(k);
            }
            i += 1;
        }
        proof {
            assert forall|k: Key| key_name(k) != s@ by {
                let j: int = match k {
                    Key::Bdepend => 0,
                    Key::DefinedPhases => 1,
                    Key::Depend => 2,
                    Key::Description => 3,
                    Key::Eapi => 4,
                    Key::Homepage => 5,
                    Key::Idepend => 6,
                    Key::Inherit => 7,
                    Key::Iuse => 8,
                    Key::Keywords => 9,
                    Key::License => 10,
                    Key::Pdepend => 11,
                    Key::Properties => 12,
                    Key::Rdepend => 13,
                    Key::RequiredUse => 14,
                    Key::Restrict => 15,
                    Key::Slot => 16,
                    Key::SrcUri => 17,
                    Key::Inherited => 18,
                };
                assert(keys@[j] == k);
            }
        }
        None
    }

    /// The metadata cache entry line `VAR=value` for this key.
    pub fn line(&self, value: &str) -> (l: String)
        ensures
            l@ == line_var(*self) + "="@ + value@,
    {
        let var = match self {
            Key::Inherited => "_eclasses_",
            key => key.as_str(),
        };
        let mut l = var.to_owned();
        l.append("=");
        l.append(value);
        l
    }

    /// Orders keys by their names.
    pub fn compare(&self, other: &Key) -> (o: Ordering)
        ensures
            (o == Ordering::Less) == lex_less(key_name(*self), key_name(*other)),
            (o == Ordering::Equal) == (*self == *other),
            (o == Ordering::Greater) == lex_less(key_name(*other), key_name(*self)),
    {
        let a = str_to_chars(self.as_str());
        let b = str_to_chars(other.as_str());
        let o = chars_order(&a, &b);
        proof {
            lemma_names_distinct(*self, *other);
        }
        o
    }
}

/// Lexicographic order of two character sequences.
fn chars_order(a: &Vec<char>, b: &Vec<char>) -> (o: Ordering)
    ensures
        (o == Ordering::Less) == lex_less(a@, b@),
        (o == Ordering::Equal) == (a@ == b@),
        (o == Ordering::Greater) == lex_less(b@, a@),
{
    let i = common_prefix(a, b);
    proof {
        lemma_order_at(a@, b@, i);
    }
    if i < a.len() && i < b.len() {
        if a[i] < b[i] {
            Ordering::Less
        } else {
            Ordering::Greater
        }
    } else if i < b.len() {
        Ordering::Less
    } else if i < a.len() {
        Ordering::Greater
    } else {
        Ordering::Equal
    }
}

/// Whether `i` is where `a` and `b` first differ, or where the shorter ends.
pub open spec fn first_difference(a: Seq<char>, b: Seq<char>, i: int) -> bool {
    &&& 0 <= i <= a.len()
    &&& i <= b.len()
    &&& a.take(i) == b.take(i)
    &&& (i < a.len() && i < b.len() ==> a[i] != b[i])
    &&& lex_less(a, b) == lex_less(a.skip(i), b.skip(i))
    &&& lex_less(b, a) == lex_less(b.skip(i), a.skip(i))
}

/// The length of the common prefix of `a` and `b`.
fn common_prefix(a: &Vec<char>, b: &Vec<char>) -> (i: usize)
    ensures
        first_difference(a@, b@, i as int),
{
    let mut i: usize = 0;
    assert(a@ =~= a@.skip(0));
    assert(b@ =~= b@.skip(0));
    while i < a.len() && i < b.len() && a[i] == b[i]
        invariant
            i <= a@.len(),
            i <= b@.len(),
            a@.take(i as int) == b@.take(i as int),
            lex_less(a@, b@) == lex_less(a@.skip(i as int), b@.skip(i as int)),
            lex_less(b@, a@) == lex_less(b@.skip(i as int), a@.skip(i as int)),
        decreases a@.len() - i,
    {
        proof {
            lemma_lex_step(a@, b@, i as int);
            lemma_lex_step(b@, a@, i as int);
            assert(a@.take(i + 1) =~= a@.take(i as int).push(a@[i as int]));
            assert(b@.take(i + 1) =~= b@.take(i as int).push(b@[i as int]));
        }
        i += 1;
    }
    i
}

/// What the first difference of two sequences says of their order.
proof fn lemma_order_at(a: Seq<char>, b: Seq<char>, i: usize)
    requires
        first_difference(a, b, i as int),
    ensures
        i < a.len() && i < b.len() ==> lex_less(a, b) == (a[i as int] < b[i as int]) && lex_less(
            b,
            a,
        ) == (b[i as int] < a[i as int]) && a != b,
        i == a.len() && i < b.len() ==> lex_less(a, b) && !lex_less(b, a) && a != b,
        i < a.len() && i == b.len() ==> !lex_less(a, b) && lex_less(b, a) && a != b,
        i == a.len() && i == b.len() ==> !lex_less(a, b) && !lex_less(b, a) && a == b,
{
    let k = i as int;
    assert(a.skip(k).len() == a.len() - k);
    assert(b.skip(k).len() == b.len() - k);
    if k < a.len() && k < b.len() {
        assert(a.skip(k)[0] == a[k]);
        assert(b.skip(k)[0] == b[k]);
    } else if k == a.len() && k == b.len() {
        assert(a =~= a.take(k));
        assert(b =~= b.take(k));
    }
}

/// Dropping a common first character leaves the order unchanged.
proof fn lemma_lex_step(a: Seq<char>, b: Seq<char>, i: int)
    requires
        0 <= i < a.len(),
        i < b.len(),
        a[i] == b[i],
    ensures
        lex_less(a.skip(i), b.skip(i)) == lex_less(a.skip(i + 1), b.skip(i + 1)),
{
    assert(a.skip(i).drop_first() =~= a.skip(i + 1));
    assert(b.skip(i).drop_first() =~= b.skip(i + 1));
    assert(a.skip(i)[0] == a[i]);
    assert(b.skip(i)[0] == b[i]);
}

/// Distinct keys have distinct names.
proof fn lemma_names_distinct(a: Key, b: Key)
    ensures
        (key_name(a) == key_name(b)) == (a == b),
{
    reveal_strlit("BDEPEND");
    reveal_strlit("DEFINED_PHASES");
    reveal_strlit("DEPEND");
    reveal_strlit("DESCRIPTION");
    reveal_strlit("EAPI");
    reveal_strlit("HOMEPAGE");
    reveal_strlit("IDEPEND");
    reveal_strlit("INHERIT");
    reveal_strlit("IUSE");
    reveal_strlit("KEYWORDS");
    reveal_strlit("LICENSE");
    reveal_strlit("PDEPEND");
    reveal_strlit("PROPERTIES");
    reveal_strlit("RDEPEND");
    reveal_strlit("REQUIRED_USE");
    reveal_strlit("RESTRICT");
    reveal_strlit("SLOT");
    reveal_strlit("SRC_URI");
    reveal_strlit("INHERITED");
    if a != b {
        let x = key_name(a);
        let y = key_name(b);
        if x.len() == y.len() {
            assert(exists|i: int| 0 <= i < x.len() && x[i] != y[i]) by {
                assert(x[0] != y[0] || x[1] != y[1] || x[2] != y[2] || x[3] != y[3]);
            }
        }
    }
}

/// A name read back with `Key::from_name` gives the key it names: distinct keys have
/// distinct names.
pub proof fn key_names_distinct(a: Key, b: Key)
    ensures
        (key_name(a) == key_name(b)) == (a == b),
{
    lemma_names_distinct(a, b);
}

/// No sequence sorts before itself.
pub(crate) proof fn lemma_lex_irreflexive(a: Seq<char>)
    ensures
        !lex_less(a, a),
    decreases a.len(),
{
    if a.len() > 0 {
        lemma_lex_irreflexive(a.drop_first());
    }
}

/// Of two sequences at most one sorts before the other, and of two distinct ones
/// exactly one.
pub(crate) proof fn lemma_lex_trichotomy(a: Seq<char>, b: Seq<char>)
    ensures
        !(lex_less(a, b) && lex_less(b, a)),
        a != b ==> (lex_less(a, b) || lex_less(b, a)),
    decreases a.len(),
{
    if a.len() > 0 && b.len() > 0 && a[0] == b[0] {
        lemma_lex_trichotomy(a.drop_first(), b.drop_first());
        if a != b {
            assert(a.drop_first() != b.drop_first()) by {
                if a.drop_first() == b.drop_first() {
                    assert(a =~= seq![a[0]] + a.drop_first());
                    assert(b =~= seq![b[0]] + b.drop_first());
                }
            }
        }
    } else if a.len() == 0 && b.len() == 0 {
        assert(a =~= b);
    }
}

/// Sorting before is transitive.
pub(crate) proof fn lemma_lex_transitive(a: Seq<char>, b: Seq<char>, c: Seq<char>)
    requires
        lex_less(a, b),
        lex_less(b, c),
    ensures
        lex_less(a, c),
    decreases a.len(),
{
    if a.len() > 0 && b.len() > 0 && c.len() > 0 && a[0] == b[0] && b[0] == c[0] {
        lemma_lex_transitive(a.drop_first(), b.drop_first(), c.drop_first());
    }
}

/// Keys are totally ordered by their names: of two keys exactly one holds of the first
/// sorting before the second, the two being the same key, and the second sorting before
/// the first; and the order is transitive.
pub proof fn key_order_total(a: Key, b: Key, c: Key)
    ensures
        lex_less(key_name(a), key_name(b)) || a == b || lex_less(key_name(b), key_name(a)),
        !(lex_less(key_name(a), key_name(b)) && a == b),
        !(lex_less(key_name(a), key_name(b)) && lex_less(key_name(b), key_name(a))),
        lex_less(key_name(a), key_name(b)) && lex_less(key_name(b), key_name(c)) ==> lex_less(
            key_name(a),
            key_name(c),
        ),
{
    lemma_names_distinct(a, b);
    lemma_lex_trichotomy(key_name(a), key_name(b));
    lemma_lex_irreflexive(key_name(a));
    if lex_less(key_name(a), key_name(b)) && lex_less(key_name(b), key_name(c)) {
        lemma_lex_transitive(key_name(a), key_name(b), key_name(c));
    }
}

/// The digest recorded for the eclass `name`, if the repository has an eclass by that name.
pub open spec fn eclass_digest(eclasses: Seq<(Seq<char>, Seq<char>)>, name: Seq<char>) -> Option<
    Seq<char>,
>
    decreases eclasses.len(),
{
    if eclasses.len() == 0 {
        None
    } else if eclasses[0].0 == name {
        Some(eclasses[0].1)
    } else {
        eclass_digest(eclasses.drop_first(), name)
    }
}

/// Whether each pair of tokens (eclass name, digest) names an eclass of the repository
/// with that digest; an odd token at the end is not read.
pub open spec fn eclass_pairs_match(ts: Seq<Seq<char>>, eclasses: Seq<(Seq<char>, Seq<char>)>) -> bool
    decreases ts.len(),
{
    if ts.len() < 2 {
        true
    } else {
        eclass_digest(eclasses, ts[0]) == Some(ts[1]) && eclass_pairs_match(ts.skip(2), eclasses)
    }
}

/// Whether a package's metadata cache entry is current: its last line records the
/// ebuild's digest after `_md5_=`, and where the line before it lists eclasses after
/// `_eclasses_=`, each with its digest, those digests are the repository's.
pub open spec fn spec_cache_valid(
    data: Seq<char>,
    digest: Seq<char>,
    eclasses: Seq<(Seq<char>, Seq<char>)>,
) -> bool {
    let ls = text_lines(data);
    &&& ls.len() >= 2
    &&& is_prefix("_md5_="@, ls.last())
    &&& ls.last().skip(6) == digest
    &&& is_prefix("_eclasses_="@, ls[ls.len() - 2]) ==> eclass_pairs_match(
        whitespace_split(ls[ls.len() - 2].skip(11)),
        eclasses,
    )
}

/// The views of eclass names with their digests.
pub open spec fn eclass_views(v: Seq<(String, String)>) -> Seq<(Seq<char>, Seq<char>)> {
    v.map_values(|e: (String, String)| (e.0@, e.1@))
}

/// `s` without the prefix `p`, if it starts with it.
fn strip_prefix(s: &str, p: &str) -> (r: Option<String>)
    ensures
        match r {
            Some(x) => is_prefix(p@, s@) && x@ == s@.skip(p@.len() as int),
            None => !is_prefix(p@, s@),
        },
{
    if str_starts_with(s, p) {
        let cs = str_to_chars(s);
        let n = p.unicode_len();
        let x = chars_to_string(vstd::slice::slice_subrange(cs.as_slice(), n, cs.len()));
        assert(x@ =~= s@.skip(p@.len() as int));
        Some(x)
    } else {
        None
    }
}

/// The digest of the eclass `name`, looked up among the repository's eclasses.
fn find_digest<'a>(eclasses: &'a Vec<(String, String)>, name: &str) -> (r: Option<&'a String>)
    ensures
        match r {
            Some(d) => eclass_digest(eclass_views(eclasses@), name@) == Some(d@),
            None => eclass_digest(eclass_views(eclasses@), name@) is None,
        },
{
    let ghost ev = eclass_views(eclasses@);
    let mut k: usize = 0;
    assert(ev.skip(0) =~= ev);
    while k < eclasses.len()
        invariant
            k <= eclasses.len(),
            ev == eclass_views(eclasses@),
            eclass_digest(ev, name@) == eclass_digest(ev.skip(k as int), name@),
        decreases eclasses.len() - k,
    {
        assert(ev.skip(k as int).drop_first() =~= ev.skip(k + 1));
        assert(ev.skip(k as int)[0] == (eclasses@[k as int].0@, eclasses@[k as int].1@));
        if str_eq(eclasses[k].0.as_str(), name) {
            return Some(&eclasses[k].1);
        }
        k = k + 1;
    }
    assert(ev.skip(k as int).len() == 0);
    None
}

/// Whether the (eclass name, digest) pairs of the tokens all match the repository's.
fn eclass_tokens_match(ts: &Vec<String>, eclasses: &Vec<(String, String)>) -> (b: bool)
    ensures
        b == eclass_pairs_match(string_views(ts@), eclass_views(eclasses@)),
{
    let ghost tv = string_views(ts@);
    let ghost ev = eclass_views(eclasses@);
    let mut i: usize = 0;
    assert(tv.skip(0) =~= tv);
    while ts.len() - i >= 2
        invariant
            i <= ts.len(),
            tv == string_views(ts@),
            ev == eclass_views(eclasses@),
            eclass_pairs_match(tv, ev) == eclass_pairs_match(tv.skip(i as int), ev),
        decreases ts.len() - i,
    {
        let ghost rest = tv.skip(i as int);
        assert(rest.skip(2) =~= tv.skip(i + 2));
        assert(rest[0] == ts@[i as int]@);
        assert(rest[1] == ts@[i + 1]@);
        match find_digest(eclasses, ts[i].as_str()) {
            Some(d) => {
                if !str_eq(d.as_str(), ts[i + 1].as_str()) {
                    return false;
                }
            },
            None => {
                return false;
            },
        }
        i = i + 2;
    }
    true
}

/// Whether a package's metadata cache entry `data` is current for an ebuild with digest
/// `digest` in a repository with the eclasses `eclasses` (each name with its digest).
pub fn cache_valid(data: &str, digest: &str, eclasses: &Vec<(String, String)>) -> (b: bool)
    ensures
        b == spec_cache_valid(data@, digest@, eclass_views(eclasses@)),
{
    let ls = lines_of(data);
    let ghost lv = text_lines(data@);
    if ls.len() < 2 {
        return false;
    }
    let n = ls.len();
    assert(ls@[n - 1]@ == lv.last());
    assert(ls@[n - 2]@ == lv[lv.len() - 2]);
    proof {
        reveal_strlit("_md5_=");
        reveal_strlit("_eclasses_=");
    }
    match strip_prefix(ls[n - 1].as_str(), "_md5_=") {
        Some(s) => {
            if !str_eq(s.as_str(), digest) {
                return false;
            }
        },
        None => {
            return false;
        },
    }
    match strip_prefix(ls[n - 2].as_str(), "_eclasses_=") {
        Some(s) => {
            let ts = split_tokens(s.as_str());
            eclass_tokens_match(&ts, eclasses)
        },
        None => true,
    }
}

/// Whether `s` is in lexicographic order.
pub open spec fn lex_sorted(s: Seq<Seq<char>>) -> bool {
    forall|i: int, j: int| 0 <= i < j < s.len() ==> !lex_less(#[trigger] s[j], #[trigger] s[i])
}

/// Words joined with single spaces.
pub open spec fn space_joined(ts: Seq<Seq<char>>) -> Seq<char>
    decreases ts.len(),
{
    if ts.len() == 0 {
        seq![]
    } else if ts.len() == 1 {
        ts[0]
    } else {
        space_joined(ts.drop_last()) + seq![' '] + ts.last()
    }
}

/// The short names of phases.
pub open spec fn short_names(ps: Seq<PhaseKind>) -> Seq<Seq<char>> {
    ps.map_values(|p: PhaseKind| short_phase_name(p))
}

/// Whether `a` sorts before `b`.
pub(crate) fn str_less(a: &str, b: &str) -> (r: bool)
    ensures
        r == lex_less(a@, b@),
{
    let x = str_to_chars(a);
    let y = str_to_chars(b);
    match chars_order(&x, &y) {
        Ordering::Less => true,
        _ => false,
    }
}

/// Sorts names lexicographically (`slice::sort_unstable`).
fn sort_names(names: Vec<String>) -> (v: Vec<String>)
    ensures
        lex_sorted(string_views(v@)),
        string_views(v@).to_multiset() == string_views(names@).to_multiset(),
{
    let ghost all = string_views(names@);
    let mut out: Vec<String> = Vec::new();
    assert(string_views(out@) =~= all.take(0));
    for x in it: names
        invariant
            all == string_views(it.seq()),
            lex_sorted(string_views(out@)),
            string_views(out@).to_multiset() == all.take(it.index() as int).to_multiset(),
    {
        let ghost i = it.index() as int;
        let ghost ov = string_views(out@);
        assert(all[i] == x@);
        let mut k: usize = 0;
        while k < out.len() && !str_less(x.as_str(), out[k].as_str())
            invariant
                k <= out.len(),
                ov == string_views(out@),
                forall|j: int| 0 <= j < k ==> !lex_less(x@, #[trigger] ov[j]),
            decreases out.len() - k,
        {
            k = k + 1;
        }
        proof {
            assert forall|a: int, b: int| 0 <= a < b < ov.len() + 1 implies !lex_less(
                #[trigger] ov.insert(k as int, x@)[b],
                #[trigger] ov.insert(k as int, x@)[a],
            ) by {
                let t = ov.insert(k as int, x@);
                if b < k {
                    assert(t[a] == ov[a] && t[b] == ov[b]);
                } else if a > k {
                    assert(t[a] == ov[a - 1] && t[b] == ov[b - 1]);
                } else if b == k {
                    assert(t[a] == ov[a]);
                } else if a == k {
                    assert(t[b] == ov[b - 1]);
                    lemma_lex_trichotomy(x@, ov[k as int]);
                    if lex_less(ov[b - 1], x@) {
                        if b - 1 > k {
                            lemma_lex_transitive(ov[b - 1], x@, ov[k as int]);
                        }
                    }
                } else {
                    assert(t[a] == ov[a] && t[b] == ov[b - 1]);
                }
            }
        }
        out.insert(k, x);
        assert(string_views(out@) =~= ov.insert(k as int, all[i]));
        assert(all.take(i + 1) =~= all.take(i).push(all[i]));
        proof {
            vstd::seq_lib::to_multiset_insert(ov, k as int, all[i]);
            vstd::seq_lib::to_multiset_build(all.take(i), all[i]);
        }
    }
    assert(all.take(all.len() as int) =~= all);
    out
}

impl Key {
    /// The value a package gives the key, as a metadata cache entry records it:
    /// `DEFINED_PHASES` lists the short names of the phases whose functions are defined,
    /// sorted; `INHERIT` lists the inherited eclasses in order; any other key takes the
    /// value of its variable with whitespace collapsed to single spaces. A key without
    /// value has none.
    pub fn value(&self, defined: &Vec<PhaseKind>, inherit: &Vec<String>, var: Option<&str>) -> (r:
        Option<String>)
        ensures
            match *self {
                Key::DefinedPhases => match r {
                    Some(s) => defined@.len() > 0 && exists|ns: Seq<Seq<char>>|
                        lex_sorted(ns) && ns.to_multiset() == short_names(defined@).to_multiset()
                            && s@ == space_joined(ns),
                    None => defined@.len() == 0,
                },
                Key::Inherit => match r {
                    Some(s) => inherit@.len() > 0 && s@ == space_joined(string_views(inherit@)),
                    None => inherit@.len() == 0,
                },
                _ => match (r, var) {
                    (Some(s), Some(v)) => s@ == space_joined(whitespace_split(v@)),
                    (None, None) => true,
                    _ => false,
                },
            },
    {
        match self {
            Key::DefinedPhases => {
                if defined.len() == 0 {
                    return None;
                }
                let mut names: Vec<String> = Vec::new();
                let mut i: usize = 0;
                while i < defined.len()
                    invariant
                        i <= defined.len(),
                        string_views(names@) == short_names(defined@).take(i as int),
                    decreases defined.len() - i,
                {
                    let n = defined[i].short_name();
                    let ghost before = string_views(names@);
                    names.push(to_owned(n));
                    assert(short_names(defined@)[i as int] == short_phase_name(defined@[i as int]));
                    assert(string_views(names@) =~= before.push(n@));
                    assert(string_views(names@) =~= short_names(defined@).take(i + 1));
                    i = i + 1;
                }
                assert(short_names(defined@).take(defined.len() as int) =~= short_names(defined@));
                let sorted = sort_names(names);
                Some(join_spaced(&sorted))
            },
            Key::Inherit => {
                if inherit.len() == 0 {
                    None
                } else {
                    Some(join_spaced(inherit))
                }
            },
            _ => match var {
                Some(v) => {
                    let words = split_tokens(v);
                    Some(join_spaced(&words))
                },
                None => None,
            },
        }
    }
}

/// Joins words with single spaces (`Itertools::join`).
pub(crate) fn join_spaced(words: &Vec<String>) -> (s: String)
    ensures
        s@ == space_joined(string_views(words@)),
{
    let ghost wv = string_views(words@);
    if words.len() == 0 {
        return String::new();
    }
    let mut s = words[0].clone();
    let mut i: usize = 1;
    assert(wv.take(1) =~= seq![wv[0]]);
    while i < words.len()
        invariant
            1 <= i <= words.len(),
            wv == string_views(words@),
            s@ == space_joined(wv.take(i as int)),
        decreases words.len() - i,
    {
        s.append(" ");
        s.append(words[i].as_str());
        assert(wv.take(i + 1).drop_last() =~= wv.take(i as int));
        proof {
            reveal_strlit(" ");
        }
        i = i + 1;
    }
    assert(wv.take(words.len() as int) =~= wv);
    s
}

/// Names have one sorted arrangement: two sorted sequences holding the same names are
/// equal, so the value of `DEFINED_PHASES` is determined by the defined phases.
pub proof fn sorted_names_unique(a: Seq<Seq<char>>, b: Seq<Seq<char>>)
    requires
        lex_sorted(a),
        lex_sorted(b),
        a.to_multiset() == b.to_multiset(),
    ensures
        a == b,
    decreases a.len(),
{
    vstd::seq_lib::to_multiset_len(a);
    vstd::seq_lib::to_multiset_len(b);
    if a.len() == 0 {
        assert(a =~= b);
    } else {
        vstd::seq_lib::to_multiset_contains(a, b[0]);
        vstd::seq_lib::to_multiset_contains(b, b[0]);
        vstd::seq_lib::to_multiset_contains(a, a[0]);
        vstd::seq_lib::to_multiset_contains(b, a[0]);
        assert(b.contains(b[0]));
        assert(a.contains(a[0]));
        let i = choose|i: int| 0 <= i < a.len() && a[i] == b[0];
        let j = choose|j: int| 0 <= j < b.len() && b[j] == a[0];
        if i > 0 {
            assert(!lex_less(a[i], a[0]));
        }
        if j > 0 {
            assert(!lex_less(b[j], b[0]));
        }
        lemma_lex_irreflexive(a[0]);
        lemma_lex_trichotomy(a[0], b[0]);
        assert(a[0] == b[0]);
        vstd::seq_lib::to_multiset_remove(a, 0);
        vstd::seq_lib::to_multiset_remove(b, 0);
        assert(a.remove(0) =~= a.drop_first());
        assert(b.remove(0) =~= b.drop_first());
        assert forall|x: int, y: int| 0 <= x < y < a.drop_first().len() implies !lex_less(
            #[trigger] a.drop_first()[y],
            #[trigger] a.drop_first()[x],
        ) by {
            assert(a.drop_first()[y] == a[y + 1] && a.drop_first()[x] == a[x + 1]);
        }
        assert forall|x: int, y: int| 0 <= x < y < b.drop_first().len() implies !lex_less(
            #[trigger] b.drop_first()[y],
            #[trigger] b.drop_first()[x],
        ) by {
            assert(b.drop_first()[y] == b[y + 1] && b.drop_first()[x] == b[x + 1]);
        }
        sorted_names_unique(a.drop_first(), b.drop_first());
        assert(a =~= b) by {
            assert forall|k: int| 0 <= k < a.len() implies a[k] == b[k] by {
                if k > 0 {
                    assert(a[k] == a.drop_first()[k - 1]);
                    assert(b[k] == b.drop_first()[k - 1]);
                }
            }
        }
    }
}

/// The position of the first `=` in `l` from `i` on.
pub open spec fn eq_pos(l: Seq<char>, i: int) -> Option<int>
    decreases l.len() - i,
{
    if i < 0 || i >= l.len() {
        None
    } else if l[i] == '=' {
        Some(i)
    } else {
        eq_pos(l, i + 1)
    }
}

/// The key named `s`, if any.
pub open spec fn named_key(s: Seq<char>) -> Option<Key> {
    if exists|k: Key| key_name(k) == s {
        Some(choose|k: Key| key_name(k) == s)
    } else {
        None
    }
}

/// The entry a metadata cache line holds, if it is `VAR=value` for a variable that names
/// one of the `allowed` keys: `_eclasses_` stands for `INHERITED`, and a `DEFINED_PHASES`
/// value of `-` for no phases.
pub open spec fn cache_line_entry(l: Seq<char>, allowed: Seq<Key>) -> Option<(Key, Seq<char>)> {
    match eq_pos(l, 0) {
        Some(i) => {
            let var = l.take(i);
            let val = l.skip(i + 1);
            let name = if var == "_eclasses_"@ {
                "INHERITED"@
            } else {
                var
            };
            let value = if var == "DEFINED_PHASES"@ && val == "-"@ {
                seq![]
            } else {
                val
            };
            match named_key(name) {
                Some(k) => if allowed.contains(k) {
                    Some((k, value))
                } else {
                    None
                },
                None => None,
            }
        },
        None => None,
    }
}

/// The entries of a metadata cache file's lines, in order.
pub open spec fn cache_entries(lines: Seq<Seq<char>>, allowed: Seq<Key>) -> Seq<(Key, Seq<char>)>
    decreases lines.len(),
{
    if lines.len() == 0 {
        seq![]
    } else {
        let rest = cache_entries(lines.drop_last(), allowed);
        match cache_line_entry(lines.last(), allowed) {
            Some(e) => rest.push(e),
            None => rest,
        }
    }
}

/// The first of each pair of tokens; an odd token at the end is not read.
pub open spec fn pair_firsts(ts: Seq<Seq<char>>) -> Seq<Seq<char>>
    decreases ts.len(),
{
    if ts.len() < 2 {
        seq![]
    } else {
        seq![ts[0]] + pair_firsts(ts.skip(2))
    }
}

/// The entry of one metadata cache line.
fn line_entry(l: &str, allowed: &Vec<Key>) -> (r: Option<(Key, String)>)
    ensures
        match r {
            Some((k, v)) => cache_line_entry(l@, allowed@) == Some((k, v@)),
            None => cache_line_entry(l@, allowed@) is None,
        },
{
    let cs = str_to_chars(l);
    let mut i: usize = 0;
    assert(eq_pos(l@, 0) == eq_pos(l@, i as int));
    while i < cs.len() && cs[i] != '='
        invariant
            i <= cs.len(),
            cs@ == l@,
            eq_pos(l@, 0) == eq_pos(l@, i as int),
        decreases cs.len() - i,
    {
        i = i + 1;
    }
    if i == cs.len() {
        return None;
    }
    let var = chars_to_string(vstd::slice::slice_subrange(cs.as_slice(), 0, i));
    let val = chars_to_string(vstd::slice::slice_subrange(cs.as_slice(), i + 1, cs.len()));
    assert(var@ =~= l@.take(i as int));
    assert(val@ =~= l@.skip(i + 1));
    proof {
        reveal_strlit("_eclasses_");
        reveal_strlit("INHERITED");
        reveal_strlit("DEFINED_PHASES");
        reveal_strlit("-");
    }
    let is_eclasses = str_eq(var.as_str(), "_eclasses_");
    let key = if is_eclasses {
        Key::from_name("INHERITED")
    } else {
        Key::from_name(var.as_str())
    };
    let value = if str_eq(var.as_str(), "DEFINED_PHASES") && str_eq(val.as_str(), "-") {
        String::new()
    } else {
        val
    };
    let ghost name = if is_eclasses {
        "INHERITED"@
    } else {
        var@
    };
    match key {
        Some(k) => {
            proof {
                assert(exists|x: Key| key_name(x) == name);
                let c = choose|x: Key| key_name(x) == name;
                lemma_names_distinct(c, k);
            }
            assert(cache_line_entry(l@, allowed@) == if allowed@.contains(k) {
                Some((k, value@))
            } else {
                None
            });
            let mut j: usize = 0;
            while j < allowed.len()
                invariant
                    j <= allowed.len(),
                    forall|q: int| 0 <= q < j ==> allowed@[q] != k,
                    cache_line_entry(l@, allowed@) == if allowed@.contains(k) {
                        Some((k, value@))
                    } else {
                        None
                    },
                decreases allowed.len() - j,
            {
                if allowed[j] == k {
                    return Some((k, value));
                }
                j = j + 1;
            }
            None
        },
        None => {
            None
        },
    }
}

/// The entries of a metadata cache file `data` for the `allowed` keys, in the order of its
/// lines: each line `VAR=value` whose variable names an allowed key; `_eclasses_` stands
/// for `INHERITED`, and a `DEFINED_PHASES` value of `-` for no phases.
pub fn read_cache_entries(data: &str, allowed: &Vec<Key>) -> (r: Vec<(Key, String)>)
    ensures
        r@.map_values(|e: (Key, String)| (e.0, e.1@)) == cache_entries(text_lines(data@), allowed@),
{
    let ls = lines_of(data);
    let ghost lv = text_lines(data@);
    let mut out: Vec<(Key, String)> = Vec::new();
    let mut i: usize = 0;
    assert(lv.take(0) =~= Seq::<Seq<char>>::empty());
    assert(out@.map_values(|e: (Key, String)| (e.0, e.1@)) =~= Seq::<(Key, Seq<char>)>::empty());
    while i < ls.len()
        invariant
            i <= ls.len(),
            ls@.len() == lv.len(),
            forall|k: int| 0 <= k < ls@.len() ==> (#[trigger] ls@[k])@ == lv[k],
            out@.map_values(|e: (Key, String)| (e.0, e.1@)) == cache_entries(lv.take(i as int), allowed@),
        decreases ls.len() - i,
    {
        assert(lv.take(i + 1).drop_last() =~= lv.take(i as int));
        assert(lv.take(i + 1).last() == ls@[i as int]@);
        let ghost before = out@.map_values(|e: (Key, String)| (e.0, e.1@));
        match line_entry(ls[i].as_str(), allowed) {
            Some(e) => {
                let ghost ev = (e.0, e.1@);
                out.push(e);
                assert(out@.map_values(|e: (Key, String)| (e.0, e.1@)) =~= before.push(ev));
            },
            None => {},
        }
        i = i + 1;
    }
    assert(lv.take(ls.len() as int) =~= lv);
    out
}

/// The eclass names of an `INHERITED` value: the first of each pair (name, digest).
pub fn inherited_names(value: &str) -> (r: Vec<String>)
    ensures
        string_views(r@) == pair_firsts(whitespace_split(value@)),
{
    let ts = split_tokens(value);
    let ghost tv = string_views(ts@);
    let mut out: Vec<String> = Vec::new();
    let mut i: usize = 0;
    assert(tv.skip(0) =~= tv);
    assert(string_views(out@) + pair_firsts(tv.skip(0)) =~= pair_firsts(tv));
    while ts.len() - i >= 2
        invariant
            i <= ts.len(),
            tv == string_views(ts@),
            string_views(out@) + pair_firsts(tv.skip(i as int)) == pair_firsts(tv),
        decreases ts.len() - i,
    {
        let ghost rest = tv.skip(i as int);
        assert(rest.skip(2) =~= tv.skip(i + 2));
        assert(rest[0] == ts@[i as int]@);
        let ghost before = string_views(out@);
        out.push(ts[i].clone());
        assert(string_views(out@) =~= before.push(rest[0]));
        assert(before + pair_firsts(rest) =~= string_views(out@) + pair_firsts(tv.skip(i + 2)));
        i = i + 2;
    }
    assert(pair_firsts(tv.skip(i as int)) =~= Seq::<Seq<char>>::empty());
    assert(string_views(out@) + Seq::<Seq<char>>::empty() =~= string_views(out@));
    out
}

/// No key's variable contains `=`, and none but `Inherited` is written `_eclasses_`.
proof fn lemma_line_var(k: Key)
    ensures
        forall|i: int| 0 <= i < line_var(k).len() ==> line_var(k)[i] != '=',
        forall|i: int| 0 <= i < line_var(k).len() ==> line_var(k)[i] != '\n',
        key_name(k) != "_md5_"@,
        (line_var(k) == "_eclasses_"@) == (k == Key::Inherited),
        k != Key::Inherited ==> line_var(k) == key_name(k),
        "INHERITED"@ == key_name(Key::Inherited),
{
    reveal_strlit("BDEPEND");
    reveal_strlit("DEFINED_PHASES");
    reveal_strlit("DEPEND");
    reveal_strlit("DESCRIPTION");
    reveal_strlit("EAPI");
    reveal_strlit("HOMEPAGE");
    reveal_strlit("IDEPEND");
    reveal_strlit("INHERIT");
    reveal_strlit("IUSE");
    reveal_strlit("KEYWORDS");
    reveal_strlit("LICENSE");
    reveal_strlit("PDEPEND");
    reveal_strlit("PROPERTIES");
    reveal_strlit("RDEPEND");
    reveal_strlit("REQUIRED_USE");
    reveal_strlit("RESTRICT");
    reveal_strlit("SLOT");
    reveal_strlit("SRC_URI");
    reveal_strlit("INHERITED");
    reveal_strlit("_eclasses_");
    reveal_strlit("_md5_");
    if k != Key::Inherited {
        assert(line_var(k)[0] != '_');
    }
    assert(key_name(k)[0] != '_');
}

/// The first `=` of `a`, `=`, `b` from `i` on is the one after `a`, when `a` has none.
proof fn lemma_eq_pos_after(a: Seq<char>, b: Seq<char>, i: int)
    requires
        0 <= i <= a.len(),
        forall|j: int| 0 <= j < a.len() ==> a[j] != '=',
    ensures
        eq_pos(a + seq!['='] + b, i) == Some(a.len() as int),
    decreases a.len() - i,
{
    let l = a + seq!['='] + b;
    if i < a.len() {
        assert(l[i] == a[i]);
        lemma_eq_pos_after(a, b, i + 1);
    } else {
        assert(l[i] == '=');
    }
}

/// A metadata cache line written for a key with `Key::line` reads back as that key with
/// its value, when the key is one that is read; a `DEFINED_PHASES` value of `-` reads as
/// no phases.
pub proof fn cache_line_reads_back(k: Key, v: Seq<char>, allowed: Seq<Key>)
    requires
        allowed.contains(k),
    ensures
        cache_line_entry(line_var(k) + "="@ + v, allowed) == Some(
            (
                k,
                if k == Key::DefinedPhases && v == "-"@ {
                    seq![]
                } else {
                    v
                },
            ),
        ),
{
    reveal_strlit("=");
    reveal_strlit("DEFINED_PHASES");
    let var = line_var(k);
    let l = var + "="@ + v;
    lemma_line_var(k);
    assert("="@ =~= seq!['=']);
    assert(l =~= var + seq!['='] + v);
    lemma_eq_pos_after(var, v, 0);
    assert(eq_pos(l, 0) == Some(var.len() as int));
    assert(l.take(var.len() as int) =~= var);
    assert(l.skip(var.len() as int + 1) =~= v);
    let name = if var == "_eclasses_"@ {
        "INHERITED"@
    } else {
        var
    };
    assert(name == key_name(k));
    assert(exists|x: Key| key_name(x) == name);
    let c = choose|x: Key| key_name(x) == name;
    lemma_names_distinct(c, k);
    reveal_strlit("_eclasses_");
    lemma_names_distinct(k, Key::DefinedPhases);
    assert(named_key(name) == Some(k));
    if k == Key::DefinedPhases {
        assert(var == "DEFINED_PHASES"@);
    }
    assert((var == "DEFINED_PHASES"@) == (k == Key::DefinedPhases));
}

/// The value of the first entry for `k`, if any.
pub open spec fn entry_value(entries: Seq<(Key, Seq<char>)>, k: Key) -> Option<Seq<char>>
    decreases entries.len(),
{
    if entries.len() == 0 {
        None
    } else if entries[0].0 == k {
        Some(entries[0].1)
    } else {
        entry_value(entries.drop_first(), k)
    }
}

/// The cache entry lines for the keys `keys` in their order: `VAR=value` for each key that
/// has a value.
pub open spec fn spec_cache_lines(entries: Seq<(Key, Seq<char>)>, keys: Seq<Key>) -> Seq<Seq<char>>
    decreases keys.len(),
{
    if keys.len() == 0 {
        seq![]
    } else {
        let r = spec_cache_lines(entries, keys.drop_last());
        match entry_value(entries, keys.last()) {
            Some(v) => r.push(line_var(keys.last()) + "="@ + v),
            None => r,
        }
    }
}

/// The views of metadata entries.
pub open spec fn entry_views(v: Seq<(Key, String)>) -> Seq<(Key, Seq<char>)> {
    v.map_values(|e: (Key, String)| (e.0, e.1@))
}

/// The value of the first entry for `k`.
fn find_value(entries: &Vec<(Key, String)>, k: Key) -> (r: Option<&String>)
    ensures
        match r {
            Some(v) => entry_value(entry_views(entries@), k) == Some(v@),
            None => entry_value(entry_views(entries@), k) is None,
        },
{
    let ghost ev = entry_views(entries@);
    let mut i: usize = 0;
    assert(ev.skip(0) =~= ev);
    while i < entries.len()
        invariant
            i <= entries.len(),
            ev == entry_views(entries@),
            entry_value(ev, k) == entry_value(ev.skip(i as int), k),
        decreases entries.len() - i,
    {
        assert(ev.skip(i as int).drop_first() =~= ev.skip(i + 1));
        assert(ev.skip(i as int)[0] == (entries@[i as int].0, entries@[i as int].1@));
        if entries[i].0 == k {
            return Some(&entries[i].1);
        }
        i = i + 1;
    }
    assert(ev.skip(i as int).len() == 0);
    None
}

/// The lines of a package's metadata cache entry, keys in their declared order: one
/// `VAR=value` line for each key with a value among `entries` (the first, where a key
/// has several).
pub fn cache_lines(entries: &Vec<(Key, String)>) -> (r: Vec<String>)
    ensures
        string_views(r@) == spec_cache_lines(entry_views(entries@), all_keys()),
{
    let keys = Key::all();
    let ghost ev = entry_views(entries@);
    let mut out: Vec<String> = Vec::new();
    let mut i: usize = 0;
    assert(all_keys().take(0) =~= Seq::<Key>::empty());
    while i < keys.len()
        invariant
            i <= keys.len(),
            keys@ == all_keys(),
            ev == entry_views(entries@),
            string_views(out@) == spec_cache_lines(ev, all_keys().take(i as int)),
        decreases keys.len() - i,
    {
        let k = keys[i];
        assert(all_keys().take(i + 1).drop_last() =~= all_keys().take(i as int));
        assert(all_keys().take(i + 1).last() == k);
        match find_value(entries, k) {
            Some(v) => {
                let ghost before = string_views(out@);
                let l = k.line(v.as_str());
                out.push(l);
                assert(string_views(out@) =~= before.push(line_var(k) + "="@ + v@));
            },
            None => {},
        }
        i = i + 1;
    }
    assert(all_keys().take(keys.len() as int) =~= all_keys());
    out
}

/// Lines joined with newlines.
pub open spec fn newline_joined(ls: Seq<Seq<char>>) -> Seq<char>
    decreases ls.len(),
{
    if ls.len() == 0 {
        seq![]
    } else if ls.len() == 1 {
        ls[0]
    } else {
        newline_joined(ls.drop_last()) + "\n"@ + ls.last()
    }
}

/// The text of a package's metadata cache entry: its lines, then `_md5_=` with the
/// ebuild's digest on a last line.
pub fn cache_data(entries: &Vec<(Key, String)>, digest: &str) -> (s: String)
    ensures
        s@ == newline_joined(spec_cache_lines(entry_views(entries@), all_keys())) + "\n_md5_="@
            + digest@ + "\n"@,
{
    let lines = cache_lines(entries);
    let ghost lv = string_views(lines@);
    let mut s = String::new();
    let mut i: usize = 0;
    assert(lv.take(0) =~= Seq::<Seq<char>>::empty());
    while i < lines.len()
        invariant
            i <= lines.len(),
            lv == string_views(lines@),
            s@ == newline_joined(lv.take(i as int)),
        decreases lines.len() - i,
    {
        if i > 0 {
            s.append("\n");
        }
        s.append(lines[i].as_str());
        assert(lv.take(i + 1).drop_last() =~= lv.take(i as int));
        assert(lv.take(i + 1).last() == lines@[i as int]@);
        if i == 0 {
            assert(lv.take(1) =~= seq![lv[0]]);
            assert(s@ =~= lv[0]);
        }
        i = i + 1;
    }
    assert(lv.take(lines.len() as int) =~= lv);
    s.append("\n_md5_=");
    s.append(digest);
    s.append("\n");
    s
}


/// The fields of a package's metadata that its cache entry records, each as written.
pub struct CacheMetadata {
    pub description: String,
    pub slot: String,
    /// The dependency fields the package sets, each with its key.
    pub deps: Vec<(Key, String)>,
    pub license: Option<String>,
    pub properties: Option<String>,
    pub required_use: Option<String>,
    pub restrict: Option<String>,
    pub src_uri: Option<String>,
    pub homepage: Vec<String>,
    pub defined_phases: Vec<String>,
    pub keywords: Vec<String>,
    pub iuse: Vec<String>,
    pub inherit: Vec<String>,
    pub inherited: Vec<String>,
}

/// The mathematical form of the cached metadata fields.
pub struct CacheMetadataView {
    pub description: Seq<char>,
    pub slot: Seq<char>,
    pub deps: Seq<(Key, Seq<char>)>,
    pub license: Option<Seq<char>>,
    pub properties: Option<Seq<char>>,
    pub required_use: Option<Seq<char>>,
    pub restrict: Option<Seq<char>>,
    pub src_uri: Option<Seq<char>>,
    pub homepage: Seq<Seq<char>>,
    pub defined_phases: Seq<Seq<char>>,
    pub keywords: Seq<Seq<char>>,
    pub iuse: Seq<Seq<char>>,
    pub inherit: Seq<Seq<char>>,
    pub inherited: Seq<Seq<char>>,
}

/// The view of an optional string.
pub open spec fn opt_chars(o: Option<String>) -> Option<Seq<char>> {
    match o {
        Some(s) => Some(s@),
        None => None,
    }
}

impl View for CacheMetadata {
    type V = CacheMetadataView;

    open spec fn view(&self) -> CacheMetadataView {
        CacheMetadataView {
            description: self.description@,
            slot: self.slot@,
            deps: entry_views(self.deps@),
            license: opt_chars(self.license),
            properties: opt_chars(self.properties),
            required_use: opt_chars(self.required_use),
            restrict: opt_chars(self.restrict),
            src_uri: opt_chars(self.src_uri),
            homepage: string_views(self.homepage@),
            defined_phases: string_views(self.defined_phases@),
            keywords: string_views(self.keywords@),
            iuse: string_views(self.iuse@),
            inherit: string_views(self.inherit@),
            inherited: string_views(self.inherited@),
        }
    }
}

/// Words joined with spaces, none where there are no words.
pub open spec fn words_value(ws: Seq<Seq<char>>) -> Option<Seq<char>> {
    if ws.len() == 0 {
        None
    } else {
        Some(space_joined(ws))
    }
}

/// Words joined with tabs.
pub open spec fn tab_joined(ts: Seq<Seq<char>>) -> Seq<char>
    decreases ts.len(),
{
    if ts.len() == 0 {
        seq![]
    } else if ts.len() == 1 {
        ts[0]
    } else {
        tab_joined(ts.drop_last()) + seq!['\t'] + ts.last()
    }
}

/// Whether the repository has a digest for each of the eclasses `names`.
pub open spec fn digests_known(names: Seq<Seq<char>>, eclasses: Seq<(Seq<char>, Seq<char>)>) -> bool {
    forall|i: int| 0 <= i < names.len() ==> eclass_digest(eclasses, #[trigger] names[i]) is Some
}

/// Each eclass name followed by its digest.
pub open spec fn eclass_words(names: Seq<Seq<char>>, eclasses: Seq<(Seq<char>, Seq<char>)>) -> Seq<
    Seq<char>,
>
    decreases names.len(),
{
    if names.len() == 0 {
        seq![]
    } else {
        eclass_words(names.drop_last(), eclasses) + seq![
            names.last(),
            eclass_digest(eclasses, names.last())->0,
        ]
    }
}

/// The value that a metadata cache entry records for the key `k`, if any: the
/// description, slot and EAPI always; `-` for defined phases where there are none;
/// dependencies, license, properties, required USE, restrictions and source URIs where
/// the package sets them; the other lists where they are not empty, joined with spaces;
/// and the inherited eclasses, each with its digest, joined with tabs.
pub open spec fn metadata_value(
    m: CacheMetadataView,
    eapi: Seq<char>,
    eclasses: Seq<(Seq<char>, Seq<char>)>,
    k: Key,
) -> Option<Seq<char>> {
    match k {
        Key::Description => Some(m.description),
        Key::Slot => Some(m.slot),
        Key::Depend | Key::Bdepend | Key::Idepend | Key::Rdepend | Key::Pdepend => entry_value(
            m.deps,
            k,
        ),
        Key::License => m.license,
        Key::Properties => m.properties,
        Key::RequiredUse => m.required_use,
        Key::Restrict => m.restrict,
        Key::SrcUri => m.src_uri,
        Key::Homepage => words_value(m.homepage),
        Key::DefinedPhases => if m.defined_phases.len() == 0 {
            Some(seq!['-'])
        } else {
            Some(space_joined(m.defined_phases))
        },
        Key::Keywords => words_value(m.keywords),
        Key::Iuse => words_value(m.iuse),
        Key::Inherit => words_value(m.inherit),
        Key::Inherited => if m.inherited.len() == 0 {
            None
        } else {
            Some(tab_joined(eclass_words(m.inherited, eclasses)))
        },
        Key::Eapi => Some(eapi),
    }
}

/// The entries of a metadata cache entry, keys in the order `keys` gives: each key with
/// the value recorded for it, keys without one left out.
pub open spec fn spec_metadata_entries(
    m: CacheMetadataView,
    eapi: Seq<char>,
    eclasses: Seq<(Seq<char>, Seq<char>)>,
    keys: Seq<Key>,
) -> Seq<(Key, Seq<char>)>
    decreases keys.len(),
{
    if keys.len() == 0 {
        seq![]
    } else {
        let r = spec_metadata_entries(m, eapi, eclasses, keys.drop_last());
        match metadata_value(m, eapi, eclasses, keys.last()) {
            Some(v) => r.push((keys.last(), v)),
            None => r,
        }
    }
}

/// Joins words with tabs.
fn join_tabbed(words: &Vec<String>) -> (s: String)
    ensures
        s@ == tab_joined(string_views(words@)),
{
    let ghost wv = string_views(words@);
    if words.len() == 0 {
        return String::new();
    }
    let mut s = words[0].clone();
    let mut i: usize = 1;
    assert(wv.take(1) =~= seq![wv[0]]);
    while i < words.len()
        invariant
            1 <= i <= words.len(),
            wv == string_views(words@),
            s@ == tab_joined(wv.take(i as int)),
        decreases words.len() - i,
    {
        s.append("\t");
        s.append(words[i].as_str());
        assert(wv.take(i + 1).drop_last() =~= wv.take(i as int));
        proof {
            reveal_strlit("\t");
        }
        i = i + 1;
    }
    assert(wv.take(words.len() as int) =~= wv);
    s
}

/// Words joined with spaces, none where there are none.
fn words_value_of(words: &Vec<String>) -> (r: Option<String>)
    ensures
        opt_chars(r) == words_value(string_views(words@)),
{
    if words.len() == 0 {
        None
    } else {
        Some(join_spaced(words))
    }
}

/// The digest of the eclass `name`.
fn eclass_digest_of(eclasses: &Vec<(String, String)>, name: &str) -> (r: Option<String>)
    ensures
        opt_chars(r) == eclass_digest(eclass_views(eclasses@), name@),
{
    let ghost ev = eclass_views(eclasses@);
    let mut i: usize = 0;
    assert(ev.skip(0) =~= ev);
    while i < eclasses.len()
        invariant
            i <= eclasses.len(),
            ev == eclass_views(eclasses@),
            eclass_digest(ev, name@) == eclass_digest(ev.skip(i as int), name@),
        decreases eclasses.len() - i,
    {
        assert(ev.skip(i as int).drop_first() =~= ev.skip(i + 1));
        assert(ev.skip(i as int)[0] == (eclasses@[i as int].0@, eclasses@[i as int].1@));
        if str_eq(eclasses[i].0.as_str(), name) {
            return Some(eclasses[i].1.clone());
        }
        i = i + 1;
    }
    None
}

/// The inherited eclasses, each with its digest, joined with tabs.
fn eclasses_value(names: &Vec<String>, eclasses: &Vec<(String, String)>) -> (s: String)
    requires
        digests_known(string_views(names@), eclass_views(eclasses@)),
    ensures
        s@ == tab_joined(eclass_words(string_views(names@), eclass_views(eclasses@))),
{
    let ghost nv = string_views(names@);
    let ghost ev = eclass_views(eclasses@);
    let mut words: Vec<String> = Vec::new();
    let mut i: usize = 0;
    assert(nv.take(0) =~= Seq::<Seq<char>>::empty());
    while i < names.len()
        invariant
            i <= names.len(),
            nv == string_views(names@),
            ev == eclass_views(eclasses@),
            digests_known(nv, ev),
            string_views(words@) == eclass_words(nv.take(i as int), ev),
        decreases names.len() - i,
    {
        assert(nv.take(i + 1).drop_last() =~= nv.take(i as int));
        assert(nv.take(i + 1).last() == nv[i as int]);
        assert(eclass_digest(ev, nv[i as int]) is Some);
        let d = eclass_digest_of(eclasses, names[i].as_str());
        let ghost before = string_views(words@);
        words.push(names[i].clone());
        match d {
            Some(d) => words.push(d),
            None => {},
        }
        assert(string_views(words@) =~= before + seq![nv[i as int], eclass_digest(ev, nv[i as int])->0]);
        i = i + 1;
    }
    assert(nv.take(names.len() as int) =~= nv);
    join_tabbed(&words)
}

/// The value of a dependency field, if the package sets it.
fn dep_value(deps: &Vec<(Key, String)>, k: Key) -> (r: Option<String>)
    ensures
        opt_chars(r) == entry_value(entry_views(deps@), k),
{
    match find_value(deps, k) {
        Some(v) => Some(v.clone()),
        None => None,
    }
}

impl CacheMetadata {
    /// The value that the package's metadata cache entry records for the key `k`.
    fn value_of(&self, eapi: &str, eclasses: &Vec<(String, String)>, k: Key) -> (r: Option<String>)
        requires
            digests_known(self@.inherited, eclass_views(eclasses@)),
        ensures
            opt_chars(r) == metadata_value(self@, eapi@, eclass_views(eclasses@), k),
    {
        match k {
            Key::Description => Some(self.description.clone()),
            Key::Slot => Some(self.slot.clone()),
            Key::Depend | Key::Bdepend | Key::Idepend | Key::Rdepend | Key::Pdepend => dep_value(
                &self.deps,
                k,
            ),
            Key::License => self.license.clone(),
            Key::Properties => self.properties.clone(),
            Key::RequiredUse => self.required_use.clone(),
            Key::Restrict => self.restrict.clone(),
            Key::SrcUri => self.src_uri.clone(),
            Key::Homepage => words_value_of(&self.homepage),
            Key::DefinedPhases => {
                if self.defined_phases.len() == 0 {
                    proof {
                        reveal_strlit("-");
                    }
                    Some(to_owned("-"))
                } else {
                    Some(join_spaced(&self.defined_phases))
                }
            },
            Key::Keywords => words_value_of(&self.keywords),
            Key::Iuse => words_value_of(&self.iuse),
            Key::Inherit => words_value_of(&self.inherit),
            Key::Inherited => {
                if self.inherited.len() == 0 {
                    None
                } else {
                    Some(eclasses_value(&self.inherited, eclasses))
                }
            },
            Key::Eapi => Some(to_owned(eapi)),
        }
    }
}

/// The entries of a package's metadata cache entry, from its metadata fields, its EAPI
/// and the repository's eclasses with their digests: keys in their declared order, each
/// with the value the entry records for it.
pub fn metadata_entries(meta: &CacheMetadata, eapi: &str, eclasses: &Vec<(String, String)>) -> (r:
    Vec<(Key, String)>)
    requires
        digests_known(meta@.inherited, eclass_views(eclasses@)),
    ensures
        entry_views(r@) == spec_metadata_entries(meta@, eapi@, eclass_views(eclasses@), all_keys()),
{
    let keys = Key::all();
    let ghost ev = eclass_views(eclasses@);
    let mut out: Vec<(Key, String)> = Vec::new();
    let mut i: usize = 0;
    assert(all_keys().take(0) =~= Seq::<Key>::empty());
    assert(entry_views(out@) =~= Seq::<(Key, Seq<char>)>::empty());
    while i < keys.len()
        invariant
            i <= keys.len(),
            keys@ == all_keys(),
            ev == eclass_views(eclasses@),
            digests_known(meta@.inherited, ev),
            entry_views(out@) == spec_metadata_entries(meta@, eapi@, ev, all_keys().take(i as int)),
        decreases keys.len() - i,
    {
        let k = keys[i];
        assert(all_keys().take(i + 1).drop_last() =~= all_keys().take(i as int));
        assert(all_keys().take(i + 1).last() == k);
        match meta.value_of(eapi, eclasses, k) {
            Some(v) => {
                let ghost before = entry_views(out@);
                out.push((k, v));
                assert(entry_views(out@) =~= before.push((k, out@[before.len() as int].1@)));
            },
            None => {},
        }
        i = i + 1;
    }
    assert(all_keys().take(keys.len() as int) =~= all_keys());
    out
}

/// The text of a package's metadata cache entry, from its metadata fields, its EAPI, the
/// repository's eclasses with their digests and the ebuild's digest.
pub fn metadata_cache_data(
    meta: &CacheMetadata,
    eapi: &str,
    eclasses: &Vec<(String, String)>,
    digest: &str,
) -> (s: String)
    requires
        digests_known(meta@.inherited, eclass_views(eclasses@)),
    ensures
        s@ == newline_joined(
            spec_cache_lines(
                spec_metadata_entries(meta@, eapi@, eclass_views(eclasses@), all_keys()),
                all_keys(),
            ),
        ) + "\n_md5_="@ + digest@ + "\n"@,
{
    let entries = metadata_entries(meta, eapi, eclasses);
    cache_data(&entries, digest)
}


/// Lines, each ended with `\n`.
pub open spec fn terminated(ls: Seq<Seq<char>>) -> Seq<char>
    decreases ls.len(),
{
    if ls.len() == 0 {
        seq![]
    } else {
        ls[0] + seq!['\n'] + terminated(ls.drop_first())
    }
}

/// Whether a value can stand on a line and be read back whole: it holds no `\n` and
/// does not end with `\r`.
pub open spec fn plain_value(v: Seq<char>) -> bool {
    &&& forall|i: int| 0 <= i < v.len() ==> v[i] != '\n'
    &&& !(v.len() > 0 && v.last() == '\r')
}

/// The entries that reading a metadata cache entry written from `entries` gives back:
/// for each key in `keys` with a value, among the `allowed` keys, that value, where a
/// `DEFINED_PHASES` of `-` stands for no phases.
pub open spec fn read_back(entries: Seq<(Key, Seq<char>)>, keys: Seq<Key>, allowed: Seq<Key>) -> Seq<
    (Key, Seq<char>),
>
    decreases keys.len(),
{
    if keys.len() == 0 {
        seq![]
    } else {
        let r = read_back(entries, keys.drop_last(), allowed);
        let k = keys.last();
        match entry_value(entries, k) {
            Some(v) => if allowed.contains(k) {
                r.push(
                    (
                        k,
                        if k == Key::DefinedPhases && v == "-"@ {
                            seq![]
                        } else {
                            v
                        },
                    ),
                )
            } else {
                r
            },
            None => r,
        }
    }
}

proof fn lemma_lines_shift(a: Seq<char>, b: Seq<char>, st: int, i: int)
    requires
        0 <= st <= i <= b.len(),
    ensures
        lines_from(a + b, a.len() + st, a.len() + i) == lines_from(b, st, i),
    decreases b.len() - i,
{
    let s = a + b;
    if i >= b.len() {
        if st < b.len() {
            assert(s.subrange(a.len() + st, s.len() as int) =~= b.subrange(st, b.len() as int));
        }
    } else {
        assert(s[a.len() + i] == b[i]);
        if b[i] == '\n' {
            assert(s.subrange(a.len() + st, a.len() + i) =~= b.subrange(st, i));
            lemma_lines_shift(a, b, i + 1, i + 1);
        } else {
            lemma_lines_shift(a, b, st, i + 1);
        }
    }
}

proof fn lemma_lines_scan(x: Seq<char>, rest: Seq<char>, i: int)
    requires
        0 <= i <= x.len(),
        forall|k: int| 0 <= k < x.len() ==> x[k] != '\n',
    ensures
        lines_from(x + seq!['\n'] + rest, 0, i) == seq![strip_cr(x)] + lines_from(
            x + seq!['\n'] + rest,
            x.len() + 1int,
            x.len() + 1int,
        ),
    decreases x.len() - i,
{
    let s = x + seq!['\n'] + rest;
    if i < x.len() {
        assert(s[i] == x[i]);
        lemma_lines_scan(x, rest, i + 1);
    } else {
        assert(s[i] == '\n');
        assert(s.subrange(0, i) =~= x);
    }
}

proof fn lemma_terminated_lines(ls: Seq<Seq<char>>)
    requires
        forall|k: int| 0 <= k < ls.len() ==> plain_value(#[trigger] ls[k]),
    ensures
        text_lines(terminated(ls)) == ls,
    decreases ls.len(),
{
    if ls.len() > 0 {
        let x = ls[0];
        let rest = terminated(ls.drop_first());
        assert(plain_value(ls[0]));
        assert forall|k: int| 0 <= k < ls.drop_first().len() implies plain_value(
            #[trigger] ls.drop_first()[k],
        ) by {
            assert(ls.drop_first()[k] == ls[k + 1]);
        }
        lemma_terminated_lines(ls.drop_first());
        lemma_lines_scan(x, rest, 0);
        assert(x + seq!['\n'] + rest == (x + seq!['\n']) + rest);
        lemma_lines_shift(x + seq!['\n'], rest, 0, 0);
        assert(strip_cr(x) == x);
        assert(seq![x] + ls.drop_first() =~= ls);
    }
}

proof fn lemma_terminated_push(ls: Seq<Seq<char>>, l: Seq<char>)
    ensures
        terminated(ls.push(l)) == terminated(ls) + l + seq!['\n'],
    decreases ls.len(),
{
    if ls.len() == 0 {
        assert(ls.push(l).drop_first() =~= Seq::<Seq<char>>::empty());
        assert(terminated(Seq::<Seq<char>>::empty()) == Seq::<char>::empty());
        assert(ls.push(l)[0] == l);
        assert(terminated(ls.push(l)) =~= l + seq!['\n']);
    } else {
        assert(ls.push(l).drop_first() =~= ls.drop_first().push(l));
        lemma_terminated_push(ls.drop_first(), l);
        assert(terminated(ls.push(l)) =~= terminated(ls) + l + seq!['\n']);
    }
}

proof fn lemma_joined_terminated(ls: Seq<Seq<char>>)
    requires
        ls.len() > 0,
    ensures
        newline_joined(ls) + seq!['\n'] == terminated(ls),
    decreases ls.len(),
{
    reveal_strlit("\n");
    if ls.len() == 1 {
        assert(ls.drop_first() =~= Seq::<Seq<char>>::empty());
        assert(terminated(ls.drop_first()) == Seq::<char>::empty());
        assert(newline_joined(ls) == ls[0]);
        assert(terminated(ls) =~= ls[0] + seq!['\n']);
    } else {
        lemma_joined_terminated(ls.drop_last());
        lemma_terminated_push(ls.drop_last(), ls.last());
        assert(ls.drop_last().push(ls.last()) =~= ls);
        assert(newline_joined(ls) + seq!['\n'] =~= newline_joined(ls.drop_last()) + seq!['\n']
            + ls.last() + seq!['\n']);
    }
}

proof fn lemma_lines_read_back(entries: Seq<(Key, Seq<char>)>, keys: Seq<Key>, allowed: Seq<Key>)
    ensures
        cache_entries(spec_cache_lines(entries, keys), allowed) == read_back(entries, keys, allowed),
    decreases keys.len(),
{
    if keys.len() > 0 {
        lemma_lines_read_back(entries, keys.drop_last(), allowed);
        let k = keys.last();
        let r = spec_cache_lines(entries, keys.drop_last());
        if let Some(v) = entry_value(entries, k) {
            let l = line_var(k) + "="@ + v;
            assert(seq![k][0] == k);
            cache_line_reads_back(k, v, seq![k]);
            assert(r.push(l).drop_last() =~= r);
        }
    }
}

/// Reading back a metadata cache entry gives the entries it was written from: for each
/// key with a value, among the keys read, that value (a `DEFINED_PHASES` of `-` read as
/// no phases); the digest line gives no entry. This holds where no value and not the
/// digest holds a `\n` or ends with `\r`.
pub proof fn cache_data_reads_back(entries: Seq<(Key, Seq<char>)>, digest: Seq<char>, allowed: Seq<Key>)
    requires
        forall|i: int| 0 <= i < entries.len() ==> plain_value(#[trigger] entries[i].1),
        plain_value(digest),
    ensures
        cache_entries(
            text_lines(
                newline_joined(spec_cache_lines(entries, all_keys())) + "\n_md5_="@ + digest
                    + "\n"@,
            ),
            allowed,
        ) == read_back(entries, all_keys(), allowed),
{
    reveal_strlit("\n_md5_=");
    reveal_strlit("\n");
    reveal_strlit("_md5_=");
    reveal_strlit("_md5_");
    reveal_strlit("=");
    let ls = spec_cache_lines(entries, all_keys());
    lemma_cache_lines_plain(entries, all_keys());
    let md5 = "_md5_="@ + digest;
    assert(plain_value(md5)) by {
        assert forall|i: int| 0 <= i < md5.len() implies md5[i] != '\n' by {
            if i >= 6 {
                assert(md5[i] == digest[i - 6]);
            }
        }
        if digest.len() == 0 {
            assert(md5.last() == '=');
        } else {
            assert(md5.last() == digest.last());
        }
    }
    let all = if ls.len() > 0 {
        ls.push(md5)
    } else {
        seq![seq![], md5]
    };
    let text = newline_joined(ls) + "\n_md5_="@ + digest + "\n"@;
    if ls.len() > 0 {
        lemma_joined_terminated(ls);
        lemma_terminated_push(ls, md5);
        assert(text =~= terminated(ls.push(md5)));
    } else {
        assert(terminated(all) =~= seq!['\n'] + md5 + seq!['\n']) by {
            assert(all.drop_first() =~= seq![md5]);
            assert(seq![md5].drop_first() =~= Seq::<Seq<char>>::empty());
            assert(terminated(Seq::<Seq<char>>::empty()) == Seq::<char>::empty());
            assert(seq![md5][0] == md5);
            assert(terminated(seq![md5]) =~= md5 + seq!['\n']);
            assert(all[0] == Seq::<char>::empty());
            assert(terminated(all) == all[0] + seq!['\n'] + terminated(seq![md5]));
        }
        assert(text =~= terminated(all));
    }
    assert forall|k: int| 0 <= k < all.len() implies plain_value(#[trigger] all[k]) by {
        if ls.len() > 0 && k < ls.len() {
            assert(all[k] == ls[k]);
        }
    }
    lemma_terminated_lines(all);
    // the digest line names no key
    assert(eq_pos(md5, 0) == Some(5int)) by {
        assert("_md5_="@ =~= seq!['_', 'm', 'd', '5', '_', '=']);
        assert(md5[5] == '=');
        assert(md5[0] != '=' && md5[1] != '=' && md5[2] != '=' && md5[3] != '=' && md5[4] != '=');
        assert(eq_pos(md5, 5) == Some(5int));
        assert(eq_pos(md5, 4) == Some(5int));
        assert(eq_pos(md5, 3) == Some(5int));
        assert(eq_pos(md5, 2) == Some(5int));
        assert(eq_pos(md5, 1) == Some(5int));
    }
    assert("_md5_"@ =~= seq!['_', 'm', 'd', '5', '_']);
    assert(md5.take(5) =~= "_md5_"@);
    reveal_strlit("_eclasses_");
    assert("_md5_"@ != "_eclasses_"@);
    assert forall|x: Key| key_name(x) != "_md5_"@ by {
        lemma_line_var(x);
    }
    assert(named_key("_md5_"@) is None);
    assert(cache_line_entry(md5, allowed) is None);
    lemma_lines_read_back(entries, all_keys(), allowed);
    assert(text_lines(text) == all);
    assert(all.last() == md5);
    assert(cache_entries(all, allowed) == cache_entries(all.drop_last(), allowed));
    if ls.len() > 0 {
        assert(all.drop_last() =~= ls);
    } else {
        assert(cache_line_entry(seq![], allowed) is None);
        assert(eq_pos(seq![], 0) is None);
        assert(all.drop_last() =~= seq![seq![]]);
        assert(seq![seq![]].drop_last() =~= Seq::<Seq<char>>::empty());
        assert(cache_entries(Seq::<Seq<char>>::empty(), allowed) =~= cache_entries(ls, allowed));
    }
}

proof fn lemma_cache_lines_plain(entries: Seq<(Key, Seq<char>)>, keys: Seq<Key>)
    requires
        forall|i: int| 0 <= i < entries.len() ==> plain_value(#[trigger] entries[i].1),
    ensures
        forall|k: int|
            0 <= k < spec_cache_lines(entries, keys).len() ==> plain_value(
                #[trigger] spec_cache_lines(entries, keys)[k],
            ),
    decreases keys.len(),
{
    reveal_strlit("=");
    if keys.len() > 0 {
        lemma_cache_lines_plain(entries, keys.drop_last());
        let k = keys.last();
        let r = spec_cache_lines(entries, keys.drop_last());
        if let Some(v) = entry_value(entries, k) {
            lemma_entry_value_plain(entries, k);
            lemma_line_var(k);
            let l = line_var(k) + "="@ + v;
            assert forall|i: int| 0 <= i < l.len() implies l[i] != '\n' by {
                if i < line_var(k).len() {
                    assert(l[i] == line_var(k)[i]);
                } else if i > line_var(k).len() {
                    assert(l[i] == v[i - line_var(k).len() - 1]);
                }
            }
            if v.len() == 0 {
                assert(l.last() == '=');
            } else {
                assert(l.last() == v.last());
            }
            assert forall|q: int| 0 <= q < r.push(l).len() implies plain_value(#[trigger] r.push(l)[q]) by {
                if q < r.len() {
                    assert(r.push(l)[q] == r[q]);
                }
            }
        }
    }
}

proof fn lemma_entry_value_plain(entries: Seq<(Key, Seq<char>)>, k: Key)
    requires
        forall|i: int| 0 <= i < entries.len() ==> plain_value(#[trigger] entries[i].1),
    ensures
        entry_value(entries, k) matches Some(v) ==> plain_value(v),
    decreases entries.len(),
{
    if entries.len() > 0 && entries[0].0 != k {
        assert forall|i: int| 0 <= i < entries.drop_first().len() implies plain_value(
            #[trigger] entries.drop_first()[i].1,
        ) by {
            assert(entries.drop_first()[i] == entries[i + 1]);
        }
        lemma_entry_value_plain(entries.drop_first(), k);
    } else if entries.len() > 0 {
        assert(plain_value(entries[0].1));
    }
}


/// Whether a variable names an md5-dict cache entry: `_eclasses_`, `_md5_` or a key.
pub open spec fn md5_dict_var(var: Seq<char>) -> bool {
    var == "_eclasses_"@ || var == "_md5_"@ || exists|k: Key| key_name(k) == var
}

/// The variable and value of each line of an md5-dict cache entry, in order, or the error
/// for its first bad line: a line without `=`, or whose variable names no entry.
pub open spec fn md5_dict_pairs(lines: Seq<Seq<char>>) -> Result<Seq<(Seq<char>, Seq<char>)>, Seq<char>>
    decreases lines.len(),
{
    if lines.len() == 0 {
        Ok(seq![])
    } else {
        match md5_dict_pairs(lines.drop_last()) {
            Err(m) => Err(m),
            Ok(ps) => {
                let l = lines.last();
                match eq_pos(l, 0) {
                    None => Err("invalid md5-dict cache line: "@ + l),
                    Some(i) => if md5_dict_var(l.take(i)) {
                        Ok(ps.push((l.take(i), l.skip(i + 1))))
                    } else {
                        Err("invalid md5-dict cache key: "@ + l.take(i))
                    },
                }
            },
        }
    }
}

/// The value of the last pair for the variable `var`, as a map that keeps the last value
/// inserted for a key holds it.
pub open spec fn last_value(ps: Seq<(Seq<char>, Seq<char>)>, var: Seq<char>) -> Option<Seq<char>>
    decreases ps.len(),
{
    if ps.len() == 0 {
        None
    } else if ps.last().0 == var {
        Some(ps.last().1)
    } else {
        last_value(ps.drop_last(), var)
    }
}

/// The problem with eclass name and digest pairs, if any: the first pair whose eclass the
/// repository lacks, or whose digest differs from the repository's; an odd token at the
/// end is not read.
pub open spec fn eclass_pairs_error(ts: Seq<Seq<char>>, eclasses: Seq<(Seq<char>, Seq<char>)>) -> Option<
    Seq<char>,
>
    decreases ts.len(),
{
    if ts.len() < 2 {
        None
    } else {
        match eclass_digest(eclasses, ts[0]) {
            None => Some("nonexistent eclass: "@ + ts[0]),
            Some(d) => if d != ts[1] {
                Some("mismatched eclass checksum: "@ + ts[0])
            } else {
                eclass_pairs_error(ts.skip(2), eclasses)
            },
        }
    }
}

/// The problem with a cache entry's pairs for an ebuild with digest `chksum`, if any: the
/// ebuild digest must be there and match, and each listed eclass must exist with its
/// digest; an entry that inherits but lists no eclasses lacks their digests.
pub open spec fn md5_entry_error(
    ps: Seq<(Seq<char>, Seq<char>)>,
    chksum: Seq<char>,
    eclasses: Seq<(Seq<char>, Seq<char>)>,
) -> Option<Seq<char>> {
    match last_value(ps, "_md5_"@) {
        None => Some("missing ebuild checksum"@),
        Some(v) => if v != chksum {
            Some("mismatched ebuild checksum"@)
        } else {
            match last_value(ps, "_eclasses_"@) {
                Some(val) => eclass_pairs_error(whitespace_split(val), eclasses),
                None => if last_value(ps, "INHERIT"@) is Some {
                    Some("missing eclass checksum"@)
                } else {
                    None
                },
            }
        },
    }
}

/// The views of variable and value pairs.
pub open spec fn pair_views(v: Seq<(String, String)>) -> Seq<(Seq<char>, Seq<char>)> {
    v.map_values(|e: (String, String)| (e.0@, e.1@))
}

proof fn lemma_pairs_error_stays(s: Seq<Seq<char>>, k: int)
    requires
        0 <= k <= s.len(),
        md5_dict_pairs(s.take(k)) is Err,
    ensures
        md5_dict_pairs(s) == md5_dict_pairs(s.take(k)),
    decreases s.len() - k,
{
    if k == s.len() {
        assert(s.take(k) =~= s);
    } else {
        let t = s.drop_last();
        assert(t.take(k) =~= s.take(k));
        lemma_pairs_error_stays(t, k);
    }
}

/// Reads the variable and value of each line of an md5-dict cache entry `data`.
pub fn md5_dict_entry(data: &str) -> (r: crate::Result<Vec<(String, String)>>)
    ensures
        match md5_dict_pairs(text_lines(data@)) {
            Ok(ps) => r matches Ok(v) && pair_views(v@) == ps,
            Err(m) => r matches Err(e) && e == crate::error::Error::InvalidValue(
                e->InvalidValue_0,
            ) && e.spec_message() == m,
        },
{
    proof {
        reveal_strlit("invalid md5-dict cache line: ");
        reveal_strlit("invalid md5-dict cache key: ");
        reveal_strlit("_eclasses_");
        reveal_strlit("_md5_");
    }
    let ls = lines_of(data);
    let ghost lv = text_lines(data@);
    let mut out: Vec<(String, String)> = Vec::new();
    let mut i: usize = 0;
    assert(lv.take(0) =~= Seq::<Seq<char>>::empty());
    assert(pair_views(out@) =~= Seq::<(Seq<char>, Seq<char>)>::empty());
    while i < ls.len()
        invariant
            i <= ls.len(),
            ls@.len() == lv.len(),
            forall|k: int| 0 <= k < ls@.len() ==> (#[trigger] ls@[k])@ == lv[k],
            lv == text_lines(data@),
            md5_dict_pairs(lv.take(i as int)) == Ok::<Seq<(Seq<char>, Seq<char>)>, Seq<char>>(
                pair_views(out@),
            ),
        decreases ls.len() - i,
    {
        assert(lv.take(i + 1).drop_last() =~= lv.take(i as int));
        assert(lv.take(i + 1).last() == ls@[i as int]@);
        let l = ls[i].as_str();
        let cs = str_to_chars(l);
        let mut j: usize = 0;
        assert(eq_pos(l@, 0) == eq_pos(l@, j as int));
        while j < cs.len() && cs[j] != '='
            invariant
                j <= cs.len(),
                cs@ == l@,
                eq_pos(l@, 0) == eq_pos(l@, j as int),
            decreases cs.len() - j,
        {
            j = j + 1;
        }
        if j == cs.len() {
            let mut msg = "invalid md5-dict cache line: ".to_owned();
            msg.append(l);
            proof {
                assert(eq_pos(lv.take(i + 1).last(), 0) is None);
                assert(md5_dict_pairs(lv.take(i + 1)) == Err::<Seq<(Seq<char>, Seq<char>)>, Seq<char>>(
                    msg@,
                ));
                lemma_pairs_error_stays(lv, i + 1);
            }
            return Err(crate::error::Error::InvalidValue(msg));
        }
        let var = chars_to_string(vstd::slice::slice_subrange(cs.as_slice(), 0, j));
        let val = chars_to_string(vstd::slice::slice_subrange(cs.as_slice(), j + 1, cs.len()));
        assert(var@ =~= l@.take(j as int));
        assert(val@ =~= l@.skip(j + 1));
        let known = str_eq(var.as_str(), "_eclasses_") || str_eq(var.as_str(), "_md5_")
            || Key::from_name(var.as_str()).is_some();
        if !known {
            let mut msg = "invalid md5-dict cache key: ".to_owned();
            msg.append(var.as_str());
            proof {
                assert(eq_pos(lv.take(i + 1).last(), 0) == Some(j as int));
                assert(!md5_dict_var(var@));
                assert(md5_dict_pairs(lv.take(i + 1)) == Err::<Seq<(Seq<char>, Seq<char>)>, Seq<char>>(
                    msg@,
                ));
                lemma_pairs_error_stays(lv, i + 1);
            }
            return Err(crate::error::Error::InvalidValue(msg));
        }
        let ghost before = pair_views(out@);
        out.push((var, val));
        assert(pair_views(out@) =~= before.push((l@.take(j as int), l@.skip(j + 1))));
        i = i + 1;
    }
    assert(lv.take(ls.len() as int) =~= lv);
    Ok(out)
}

/// The value of the last pair for a variable.
fn find_last<'a>(ps: &'a Vec<(String, String)>, var: &str) -> (r: Option<&'a String>)
    ensures
        match r {
            Some(v) => last_value(pair_views(ps@), var@) == Some(v@),
            None => last_value(pair_views(ps@), var@) is None,
        },
{
    let ghost pv = pair_views(ps@);
    let mut i: usize = ps.len();
    assert(pv.take(i as int) =~= pv);
    while i > 0
        invariant
            i <= ps.len(),
            pv == pair_views(ps@),
            last_value(pv, var@) == last_value(pv.take(i as int), var@),
        decreases i,
    {
        assert(pv.take(i as int).drop_last() =~= pv.take(i - 1));
        assert(pv.take(i as int).last() == (ps@[i - 1].0@, ps@[i - 1].1@));
        if str_eq(ps[i - 1].0.as_str(), var) {
            return Some(&ps[i - 1].1);
        }
        i = i - 1;
    }
    None
}

/// The problem with eclass name and digest tokens, if any.
fn eclass_tokens_error(ts: &Vec<String>, eclasses: &Vec<(String, String)>) -> (r: Option<String>)
    ensures
        match r {
            Some(m) => eclass_pairs_error(string_views(ts@), eclass_views(eclasses@)) == Some(m@),
            None => eclass_pairs_error(string_views(ts@), eclass_views(eclasses@)) is None,
        },
{
    proof {
        reveal_strlit("nonexistent eclass: ");
        reveal_strlit("mismatched eclass checksum: ");
    }
    let ghost tv = string_views(ts@);
    let ghost ev = eclass_views(eclasses@);
    let mut i: usize = 0;
    assert(tv.skip(0) =~= tv);
    while ts.len() - i >= 2
        invariant
            i <= ts.len(),
            tv == string_views(ts@),
            ev == eclass_views(eclasses@),
            eclass_pairs_error(tv, ev) == eclass_pairs_error(tv.skip(i as int), ev),
        decreases ts.len() - i,
    {
        let ghost rest = tv.skip(i as int);
        assert(rest.skip(2) =~= tv.skip(i + 2));
        assert(rest[0] == ts@[i as int]@);
        assert(rest[1] == ts@[i + 1]@);
        match find_digest(eclasses, ts[i].as_str()) {
            Some(d) => {
                if !str_eq(d.as_str(), ts[i + 1].as_str()) {
                    let mut msg = "mismatched eclass checksum: ".to_owned();
                    msg.append(ts[i].as_str());
                    return Some(msg);
                }
            },
            None => {
                let mut msg = "nonexistent eclass: ".to_owned();
                msg.append(ts[i].as_str());
                return Some(msg);
            },
        }
        i = i + 2;
    }
    None
}

/// Checks an md5-dict cache entry's pairs for the package `pkg`, whose ebuild has the
/// digest `chksum`, in a repository with the eclasses `eclasses`: the error names the
/// package and the problem, where there is one.
pub fn verify_md5_entry(
    pkg: &str,
    ps: &Vec<(String, String)>,
    chksum: &str,
    eclasses: &Vec<(String, String)>,
) -> (r: crate::Result<()>)
    ensures
        match md5_entry_error(pair_views(ps@), chksum@, eclass_views(eclasses@)) {
            None => r is Ok,
            Some(m) => r matches Err(e) && e == crate::error::Error::InvalidValue(
                e->InvalidValue_0,
            ) && e.spec_message() == pkg@ + ": invalid metadata: "@ + m,
        },
{
    proof {
        reveal_strlit("_md5_");
        reveal_strlit("_eclasses_");
        reveal_strlit("INHERIT");
        reveal_strlit("missing ebuild checksum");
        reveal_strlit("mismatched ebuild checksum");
        reveal_strlit("missing eclass checksum");
        reveal_strlit(": invalid metadata: ");
    }
    let problem: Option<String> = match find_last(ps, "_md5_") {
        None => Some("missing ebuild checksum".to_owned()),
        Some(v) => {
            if !str_eq(v.as_str(), chksum) {
                Some("mismatched ebuild checksum".to_owned())
            } else {
                match find_last(ps, "_eclasses_") {
                    Some(val) => {
                        let ts = split_tokens(val.as_str());
                        eclass_tokens_error(&ts, eclasses)
                    },
                    None => {
                        if find_last(ps, "INHERIT").is_some() {
                            Some("missing eclass checksum".to_owned())
                        } else {
                            None
                        }
                    },
                }
            }
        },
    };
    match problem {
        None => Ok(()),
        Some(m) => {
            let mut msg = pkg.to_owned();
            msg.append(": invalid metadata: ");
            msg.append(m.as_str());
            Err(crate::error::Error::InvalidValue(msg))
        },
    }
}

}
