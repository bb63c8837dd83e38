//! The order of package versions, and whether a version satisfies an operator version.

use vstd::prelude::*;

use vstd::string::StrSliceExecFns;

use super::{NumberView, Operator, SuffixKind, SuffixView, Version, VersionView};
use crate::text::is_prefix;

verus! {

/// The outcome of comparing two versions.
#[derive(Debug, Clone, Copy, PartialEq, Eq, Structural, Hash)]
pub enum VerOrder {
    Less,
    Equal,
    Greater,
}

/// The comparison of two integers.
pub open spec fn order_int(a: int, b: int) -> VerOrder {
    if a < b {
        VerOrder::Less
    } else if a == b {
        VerOrder::Equal
    } else {
        VerOrder::Greater
    }
}

/// `s` without its trailing `0` characters.
pub open spec fn strip_zeros(s: Seq<char>) -> Seq<char>
    decreases s.len(),
{
    if s.len() > 0 && s.last() == '0' {
        strip_zeros(s.drop_last())
    } else {
        s
    }
}

/// The comparison of two strings character by character, a proper prefix first.
pub open spec fn lex_order(a: Seq<char>, b: Seq<char>) -> VerOrder
    decreases a.len(),
{
    if a.len() == 0 {
        if b.len() == 0 {
            VerOrder::Equal
        } else {
            VerOrder::Less
        }
    } else if b.len() == 0 {
        VerOrder::Greater
    } else if a[0] < b[0] {
        VerOrder::Less
    } else if a[0] > b[0] {
        VerOrder::Greater
    } else {
        lex_order(a.drop_first(), b.drop_first())
    }
}

/// The comparison of two version components after the first: as strings without trailing
/// zeros where either is spelled with a leading zero, else by value.
pub open spec fn component_order(a: NumberView, b: NumberView) -> VerOrder {
    if (a.raw.len() > 0 && a.raw[0] == '0') || (b.raw.len() > 0 && b.raw[0] == '0') {
        lex_order(strip_zeros(a.raw), strip_zeros(b.raw))
    } else {
        order_int(a.value as int, b.value as int)
    }
}

/// The comparison of the components from the `i`th on; where all that both have agree,
/// the version with more components is the greater.
pub open spec fn components_order_from(a: Seq<NumberView>, b: Seq<NumberView>, i: int) -> VerOrder
    decreases a.len() - i,
{
    if i < 0 || i >= a.len() || i >= b.len() {
        order_int(a.len() as int, b.len() as int)
    } else {
        let c = component_order(a[i], b[i]);
        if c != VerOrder::Equal {
            c
        } else {
            components_order_from(a, b, i + 1)
        }
    }
}

/// The comparison of the numeric parts: the first component by value, then the others.
pub open spec fn numbers_order(a: Seq<NumberView>, b: Seq<NumberView>) -> VerOrder {
    if a.len() == 0 || b.len() == 0 {
        order_int(a.len() as int, b.len() as int)
    } else {
        let c = order_int(a[0].value as int, b[0].value as int);
        if c != VerOrder::Equal {
            c
        } else {
            components_order_from(a, b, 1)
        }
    }
}

/// The comparison of the letters: none before any.
pub open spec fn letter_order(a: Option<char>, b: Option<char>) -> VerOrder {
    match (a, b) {
        (None, None) => VerOrder::Equal,
        (None, Some(_)) => VerOrder::Less,
        (Some(_), None) => VerOrder::Greater,
        (Some(x), Some(y)) => order_int(x as int, y as int),
    }
}

/// The rank of a suffix kind: `_alpha`, `_beta`, `_pre`, `_rc`, `_p`.
pub open spec fn suffix_rank(k: SuffixKind) -> int {
    match k {
        SuffixKind::Alpha => 0,
        SuffixKind::Beta => 1,
        SuffixKind::Pre => 2,
        SuffixKind::Rc => 3,
        SuffixKind::P => 4,
    }
}

/// The number of a suffix, zero where it has none.
pub open spec fn suffix_number(s: SuffixView) -> int {
    match s.version {
        Some(n) => n.value as int,
        None => 0,
    }
}

/// The comparison of the suffixes from the `i`th on: by kind, then by number; where one
/// version has a suffix more, it is the greater when that suffix is `_p`, else the
/// smaller.
pub open spec fn suffixes_order_from(a: Seq<SuffixView>, b: Seq<SuffixView>, i: int) -> VerOrder
    decreases a.len() + b.len() - 2 * i,
{
    if i < 0 {
        VerOrder::Equal
    } else if i < a.len() && i < b.len() {
        let c = order_int(suffix_rank(a[i].kind), suffix_rank(b[i].kind));
        if c != VerOrder::Equal {
            c
        } else {
            let d = order_int(suffix_number(a[i]), suffix_number(b[i]));
            if d != VerOrder::Equal {
                d
            } else {
                suffixes_order_from(a, b, i + 1)
            }
        }
    } else if i < a.len() {
        if a[i].kind == SuffixKind::P {
            VerOrder::Greater
        } else {
            VerOrder::Less
        }
    } else if i < b.len() {
        if b[i].kind == SuffixKind::P {
            VerOrder::Less
        } else {
            VerOrder::Greater
        }
    } else {
        VerOrder::Equal
    }
}

/// The comparison of two versions without their revisions.
pub open spec fn order_without_revision(a: VersionView, b: VersionView) -> VerOrder {
    let n = numbers_order(a.numbers, b.numbers);
    if n != VerOrder::Equal {
        n
    } else {
        let l = letter_order(a.letter, b.letter);
        if l != VerOrder::Equal {
            l
        } else {
            suffixes_order_from(a.suffixes, b.suffixes, 0)
        }
    }
}

/// The comparison of two versions: numeric parts, letters, suffixes, then revisions.
pub open spec fn version_order(a: VersionView, b: VersionView) -> VerOrder {
    let c = order_without_revision(a, b);
    if c != VerOrder::Equal {
        c
    } else {
        order_int(a.revision.value as int, b.revision.value as int)
    }
}

/// The outcome seen from the other side.
pub open spec fn flipped(o: VerOrder) -> VerOrder {
    match o {
        VerOrder::Less => VerOrder::Greater,
        VerOrder::Equal => VerOrder::Equal,
        VerOrder::Greater => VerOrder::Less,
    }
}

proof fn lemma_lex_flip(a: Seq<char>, b: Seq<char>)
    ensures
        lex_order(b, a) == flipped(lex_order(a, b)),
    decreases a.len(),
{
    if a.len() > 0 && b.len() > 0 && a[0] == b[0] {
        lemma_lex_flip(a.drop_first(), b.drop_first());
    }
}

proof fn lemma_components_flip(a: Seq<NumberView>, b: Seq<NumberView>, i: int)
    ensures
        components_order_from(b, a, i) == flipped(components_order_from(a, b, i)),
    decreases a.len() - i,
{
    if !(i < 0 || i >= a.len() || i >= b.len()) {
        if (a[i].raw.len() > 0 && a[i].raw[0] == '0') || (b[i].raw.len() > 0 && b[i].raw[0]
            == '0') {
            lemma_lex_flip(strip_zeros(a[i].raw), strip_zeros(b[i].raw));
        }
        lemma_components_flip(a, b, i + 1);
    }
}

proof fn lemma_suffixes_flip(a: Seq<SuffixView>, b: Seq<SuffixView>, i: int)
    ensures
        suffixes_order_from(b, a, i) == flipped(suffixes_order_from(a, b, i)),
    decreases a.len() + b.len() - 2 * i,
{
    if i >= 0 && i < a.len() && i < b.len() {
        lemma_suffixes_flip(a, b, i + 1);
    }
}

/// Comparing two versions the other way round gives the opposite outcome: where `a` is
/// older than `b`, `b` is newer than `a`, and equal versions are equal either way.
pub proof fn version_order_flips(a: VersionView, b: VersionView)
    ensures
        version_order(b, a) == flipped(version_order(a, b)),
        order_without_revision(b, a) == flipped(order_without_revision(a, b)),
{
    if a.numbers.len() > 0 && b.numbers.len() > 0 {
        lemma_components_flip(a.numbers, b.numbers, 1);
    }
    lemma_suffixes_flip(a.suffixes, b.suffixes, 0);
}

/// Whether a version component after the first is well formed: spelled with at least
/// one character, the first a digit.
pub open spec fn valid_component(n: NumberView) -> bool {
    n.raw.len() > 0 && '0' <= n.raw[0] <= '9'
}

/// Whether every component of a version after the first is well formed.
pub open spec fn valid_version(v: VersionView) -> bool {
    forall|k: int| 1 <= k < v.numbers.len() ==> valid_component(#[trigger] v.numbers[k])
}

/// Whether the three outcomes of comparing `a`, `b` and `c` pairwise are consistent:
/// less than is transitive and equal outcomes can stand for one another.
pub open spec fn consistent(ab: VerOrder, bc: VerOrder, ac: VerOrder) -> bool {
    &&& (ab == VerOrder::Less && bc == VerOrder::Less ==> ac == VerOrder::Less)
    &&& (ab == VerOrder::Greater && bc == VerOrder::Greater ==> ac == VerOrder::Greater)
    &&& (ab == VerOrder::Equal ==> ac == bc)
    &&& (bc == VerOrder::Equal ==> ac == ab)
}

proof fn lemma_lex_equal(a: Seq<char>, b: Seq<char>)
    ensures
        lex_order(a, b) == VerOrder::Equal <==> a == b,
    decreases a.len(),
{
    if a.len() > 0 && b.len() > 0 && a[0] == b[0] {
        lemma_lex_equal(a.drop_first(), b.drop_first());
        if a.drop_first() == b.drop_first() {
            assert forall|i: int| 0 <= i < a.len() implies a[i] == b[i] by {
                if i > 0 {
                    assert(a[i] == a.drop_first()[i - 1]);
                    assert(b[i] == b.drop_first()[i - 1]);
                }
            }
            assert(a =~= b);
        }
    }
    if a.len() == 0 && b.len() == 0 {
        assert(a =~= b);
    }
}

proof fn lemma_lex_consistent(a: Seq<char>, b: Seq<char>, c: Seq<char>)
    ensures
        consistent(lex_order(a, b), lex_order(b, c), lex_order(a, c)),
    decreases a.len(),
{
    lemma_lex_equal(a, b);
    lemma_lex_equal(b, c);
    lemma_lex_equal(a, c);
    if a.len() > 0 && b.len() > 0 && c.len() > 0 {
        lemma_lex_consistent(a.drop_first(), b.drop_first(), c.drop_first());
    }
}

/// `strip_zeros(s)` is `s` up to some point, after which `s` holds only `0`s.
proof fn lemma_strip_prefix(s: Seq<char>)
    ensures
        strip_zeros(s).len() <= s.len(),
        strip_zeros(s) =~= s.take(strip_zeros(s).len() as int),
        forall|k: int| strip_zeros(s).len() <= k < s.len() ==> s[k] == '0',
    decreases s.len(),
{
    if s.len() > 0 && s.last() == '0' {
        let t = s.drop_last();
        lemma_strip_prefix(t);
        assert forall|k: int| strip_zeros(s).len() <= k < s.len() implies s[k] == '0' by {
            if k < t.len() {
                assert(t[k] == s[k]);
            }
        }
    } else {
        assert(s.take(s.len() as int) =~= s);
    }
}

/// How components compare across the two ways of comparing them: one spelled with a
/// leading zero is below one spelled without.
proof fn lemma_component_groups(a: NumberView, b: NumberView)
    requires
        valid_component(a),
        valid_component(b),
        a.raw[0] == '0',
        b.raw[0] != '0',
    ensures
        component_order(a, b) == VerOrder::Less,
{
    lemma_strip_prefix(a.raw);
    lemma_strip_prefix(b.raw);
    let sa = strip_zeros(a.raw);
    let sb = strip_zeros(b.raw);
    if sb.len() == 0 {
        assert(b.raw[0] == '0');
    }
    assert(sb[0] == b.raw[0]);
    if sa.len() > 0 {
        assert(sa[0] == a.raw[0]);
    }
}

proof fn lemma_component_consistent(a: NumberView, b: NumberView, c: NumberView)
    requires
        valid_component(a),
        valid_component(b),
        valid_component(c),
    ensures
        consistent(component_order(a, b), component_order(b, c), component_order(a, c)),
{
    lemma_lex_consistent(strip_zeros(a.raw), strip_zeros(b.raw), strip_zeros(c.raw));
    version_order_flips_component(a, b);
    version_order_flips_component(b, c);
    version_order_flips_component(a, c);
    if a.raw[0] == '0' && b.raw[0] != '0' {
        lemma_component_groups(a, b);
    }
    if b.raw[0] == '0' && a.raw[0] != '0' {
        lemma_component_groups(b, a);
    }
    if b.raw[0] == '0' && c.raw[0] != '0' {
        lemma_component_groups(b, c);
    }
    if c.raw[0] == '0' && b.raw[0] != '0' {
        lemma_component_groups(c, b);
    }
    if a.raw[0] == '0' && c.raw[0] != '0' {
        lemma_component_groups(a, c);
    }
    if c.raw[0] == '0' && a.raw[0] != '0' {
        lemma_component_groups(c, a);
    }
}

proof fn version_order_flips_component(a: NumberView, b: NumberView)
    ensures
        component_order(b, a) == flipped(component_order(a, b)),
{
    lemma_lex_flip(strip_zeros(a.raw), strip_zeros(b.raw));
}

proof fn lemma_components_consistent(a: Seq<NumberView>, b: Seq<NumberView>, c: Seq<NumberView>, i: int)
    requires
        i >= 1,
        forall|k: int| 1 <= k < a.len() ==> valid_component(#[trigger] a[k]),
        forall|k: int| 1 <= k < b.len() ==> valid_component(#[trigger] b[k]),
        forall|k: int| 1 <= k < c.len() ==> valid_component(#[trigger] c[k]),
    ensures
        consistent(
            components_order_from(a, b, i),
            components_order_from(b, c, i),
            components_order_from(a, c, i),
        ),
    decreases a.len() - i,
{
    if i < a.len() && i < b.len() && i < c.len() {
        lemma_component_consistent(a[i], b[i], c[i]);
        lemma_components_consistent(a, b, c, i + 1);
    }
}

proof fn lemma_suffixes_consistent(a: Seq<SuffixView>, b: Seq<SuffixView>, c: Seq<SuffixView>, i: int)
    requires
        i >= 0,
    ensures
        consistent(
            suffixes_order_from(a, b, i),
            suffixes_order_from(b, c, i),
            suffixes_order_from(a, c, i),
        ),
    decreases a.len() - i,
{
    if i < a.len() && i < b.len() && i < c.len() {
        lemma_suffixes_consistent(a, b, c, i + 1);
    }
}

/// Version order is consistent on well-formed versions: where `a` comes before `b` and
/// `b` before `c`, `a` comes before `c`; and versions that compare equal compare alike
/// with any other.
pub proof fn version_order_consistent(a: VersionView, b: VersionView, c: VersionView)
    requires
        valid_version(a),
        valid_version(b),
        valid_version(c),
    ensures
        consistent(version_order(a, b), version_order(b, c), version_order(a, c)),
        consistent(
            order_without_revision(a, b),
            order_without_revision(b, c),
            order_without_revision(a, c),
        ),
{
    if a.numbers.len() > 0 && b.numbers.len() > 0 && c.numbers.len() > 0 {
        lemma_components_consistent(a.numbers, b.numbers, c.numbers, 1);
    }
    lemma_suffixes_consistent(a.suffixes, b.suffixes, c.suffixes, 0);
}

/// The name of a suffix kind as written.
pub open spec fn suffix_name(k: SuffixKind) -> Seq<char> {
    match k {
        SuffixKind::Alpha => "alpha"@,
        SuffixKind::Beta => "beta"@,
        SuffixKind::Pre => "pre"@,
        SuffixKind::Rc => "rc"@,
        SuffixKind::P => "p"@,
    }
}

/// Components joined with `.`.
pub open spec fn dotted(ns: Seq<NumberView>) -> Seq<char>
    decreases ns.len(),
{
    if ns.len() == 0 {
        seq![]
    } else if ns.len() == 1 {
        ns[0].raw
    } else {
        dotted(ns.drop_last()) + seq!['.'] + ns.last().raw
    }
}

/// Suffixes as written, each after `_`.
pub open spec fn suffixes_text(xs: Seq<SuffixView>) -> Seq<char>
    decreases xs.len(),
{
    if xs.len() == 0 {
        seq![]
    } else {
        suffixes_text(xs.drop_last()) + seq!['_'] + suffix_name(xs.last().kind) + match xs.last().version {
            Some(n) => n.raw,
            None => seq![],
        }
    }
}

/// A version as written, without its operator.
pub open spec fn version_text(v: VersionView) -> Seq<char> {
    dotted(v.numbers) + match v.letter {
        Some(c) => seq![c],
        None => seq![],
    } + suffixes_text(v.suffixes) + if v.revision.raw.len() > 0 {
        seq!['-', 'r'] + v.revision.raw
    } else {
        seq![]
    }
}

/// Whether the version `w` satisfies the operator version `v`: `w` compares to `v` as the
/// operator asks (`=` where it has none); `=*` asks that `w` as written start with `v`
/// as written, `~` that the two agree but for their revisions.
pub open spec fn version_satisfies(v: VersionView, w: VersionView) -> bool {
    match v.op {
        None => version_order(w, v) == VerOrder::Equal,
        Some(Operator::Equal) => version_order(w, v) == VerOrder::Equal,
        Some(Operator::Less) => version_order(w, v) == VerOrder::Less,
        Some(Operator::LessOrEqual) => version_order(w, v) != VerOrder::Greater,
        Some(Operator::Greater) => version_order(w, v) == VerOrder::Greater,
        Some(Operator::GreaterOrEqual) => version_order(w, v) != VerOrder::Less,
        Some(Operator::Approximate) => order_without_revision(w, v) == VerOrder::Equal,
        Some(Operator::EqualGlob) => is_prefix(version_text(v), version_text(w)),
    }
}

/// Every component compares equal to itself from any position on.
proof fn lemma_components_reflexive(a: Seq<NumberView>, i: int)
    requires
        0 <= i,
    ensures
        components_order_from(a, a, i) == VerOrder::Equal,
    decreases a.len() - i,
{
    if i < a.len() {
        lemma_lex_equal(strip_zeros(a[i].raw), strip_zeros(a[i].raw));
        lemma_components_reflexive(a, i + 1);
    }
}

/// Versions that agree in their numeric parts are ordered by their letters, compared as
/// characters, a version without a letter first: `1a` is older than `1b`, `1.0z` newer
/// than `1.0a`, and `1` older than `1a`.
pub proof fn letters_order_by_value(a: VersionView, b: VersionView)
    requires
        a.numbers == b.numbers,
        b.letter is Some,
        a.letter is None || (a.letter->0 as int) < (b.letter->0 as int),
    ensures
        version_order(a, b) == VerOrder::Less,
        version_order(b, a) == VerOrder::Greater,
{
    lemma_components_reflexive(a.numbers, 1);
    version_order_flips(a, b);
}

/// The comparison operators of a version take the versions that compare to it as they
/// say: `<` exactly the older ones, `<=` the older and equal ones, `>` the newer ones,
/// `>=` the newer and equal ones, `=` and no operator the equal ones, `~` those equal but
/// for their revisions, `=*` those whose text starts with its text. So `<` and `>=`
/// disagree on every version, as do `>` and `<=`, and `<` and `<=` differ exactly on
/// the versions equal to it.
pub proof fn operators_follow_order(v: VersionView, w: VersionView)
    ensures
        version_satisfies(VersionView { op: Some(Operator::Less), ..v }, w) <==> version_order(w, v)
            == VerOrder::Less,
        version_satisfies(VersionView { op: Some(Operator::LessOrEqual), ..v }, w) <==> (
        version_order(w, v) == VerOrder::Less || version_order(w, v) == VerOrder::Equal),
        version_satisfies(VersionView { op: Some(Operator::Greater), ..v }, w) <==> version_order(
            w,
            v,
        ) == VerOrder::Greater,
        version_satisfies(VersionView { op: Some(Operator::GreaterOrEqual), ..v }, w) <==> (
        version_order(w, v) == VerOrder::Greater || version_order(w, v) == VerOrder::Equal),
        version_satisfies(VersionView { op: Some(Operator::Equal), ..v }, w) <==> version_order(w, v)
            == VerOrder::Equal,
        version_satisfies(VersionView { op: None, ..v }, w) <==> version_order(w, v)
            == VerOrder::Equal,
        version_satisfies(VersionView { op: Some(Operator::Approximate), ..v }, w)
            <==> order_without_revision(w, v) == VerOrder::Equal,
        version_satisfies(VersionView { op: Some(Operator::EqualGlob), ..v }, w) <==> is_prefix(
            version_text(v),
            version_text(w),
        ),
        version_satisfies(VersionView { op: Some(Operator::Less), ..v }, w) != version_satisfies(
            VersionView { op: Some(Operator::GreaterOrEqual), ..v },
            w,
        ),
        version_satisfies(VersionView { op: Some(Operator::Greater), ..v }, w) != version_satisfies(
            VersionView { op: Some(Operator::LessOrEqual), ..v },
            w,
        ),
        version_order(w, v) == VerOrder::Equal ==> !version_satisfies(
            VersionView { op: Some(Operator::Less), ..v },
            w,
        ) && version_satisfies(VersionView { op: Some(Operator::LessOrEqual), ..v }, w)
            && !version_satisfies(VersionView { op: Some(Operator::Greater), ..v }, w)
            && version_satisfies(VersionView { op: Some(Operator::GreaterOrEqual), ..v }, w),
{
}

/// Compares two integers.
fn order_u64(a: u64, b: u64) -> (c: VerOrder)
    ensures
        c == order_int(a as int, b as int),
{
    if a < b {
        VerOrder::Less
    } else if a == b {
        VerOrder::Equal
    } else {
        VerOrder::Greater
    }
}

/// Compares two strings character by character.
fn char_seq_order(a: &Vec<char>, b: &Vec<char>) -> (c: VerOrder)
    ensures
        c == lex_order(a@, b@),
{
    let mut i: usize = 0;
    assert(a@.skip(0) =~= a@);
    assert(b@.skip(0) =~= b@);
    while i < a.len() && i < b.len() && a[i] == b[i]
        invariant
            i <= a.len(),
            i <= b.len(),
            lex_order(a@, b@) == lex_order(a@.skip(i as int), b@.skip(i as int)),
        decreases a.len() - i,
    {
        assert(a@.skip(i as int).drop_first() =~= a@.skip(i + 1));
        assert(b@.skip(i as int).drop_first() =~= b@.skip(i + 1));
        i = i + 1;
    }
    if i < a.len() && i < b.len() {
        assert(a@.skip(i as int)[0] == a@[i as int]);
        assert(b@.skip(i as int)[0] == b@[i as int]);
        if a[i] < b[i] {
            VerOrder::Less
        } else {
            VerOrder::Greater
        }
    } else if i < b.len() {
        VerOrder::Less
    } else if i < a.len() {
        VerOrder::Greater
    } else {
        VerOrder::Equal
    }
}

/// The characters of `s` without its trailing zeros.
fn stripped(s: &Vec<char>) -> (r: Vec<char>)
    ensures
        r@ == strip_zeros(s@),
{
    let mut n = s.len();
    assert(s@.take(n as int) =~= s@);
    while n > 0 && s[n - 1] == '0'
        invariant
            n <= s.len(),
            strip_zeros(s@) == strip_zeros(s@.take(n as int)),
        decreases n,
    {
        assert(s@.take(n as int).drop_last() =~= s@.take(n - 1));
        n = n - 1;
    }
    let mut r: Vec<char> = Vec::new();
    let mut k: usize = 0;
    while k < n
        invariant
            k <= n,
            n <= s.len(),
            r@ == s@.take(k as int),
        decreases n - k,
    {
        r.push(s[k]);
        assert(r@ =~= s@.take(k + 1));
        k = k + 1;
    }
    r
}

/// Compares two version components after the first.
fn component_order_of(a: &super::Number, b: &super::Number) -> (c: VerOrder)
    ensures
        c == component_order(a@, b@),
{
    let x = crate::text::str_to_chars(a.raw.as_str());
    let y = crate::text::str_to_chars(b.raw.as_str());
    if (x.len() > 0 && x[0] == '0') || (y.len() > 0 && y[0] == '0') {
        let sx = stripped(&x);
        let sy = stripped(&y);
        char_seq_order(&sx, &sy)
    } else {
        order_u64(a.value, b.value)
    }
}

/// Compares the numeric parts of two versions.
fn numbers_order_of(a: &Vec<super::Number>, b: &Vec<super::Number>) -> (c: VerOrder)
    ensures
        c == numbers_order(super::number_views(a@), super::number_views(b@)),
{
    let ghost av = super::number_views(a@);
    let ghost bv = super::number_views(b@);
    if a.len() == 0 || b.len() == 0 {
        return order_u64(a.len() as u64, b.len() as u64);
    }
    let c = order_u64(a[0].value, b[0].value);
    if c != VerOrder::Equal {
        return c;
    }
    let mut i: usize = 1;
    while i < a.len() && i < b.len()
        invariant
            1 <= i <= a.len(),
            i <= b.len(),
            av == super::number_views(a@),
            bv == super::number_views(b@),
            components_order_from(av, bv, 1) == components_order_from(av, bv, i as int),
            numbers_order(av, bv) == components_order_from(av, bv, 1),
        decreases a.len() - i,
    {
        let d = component_order_of(&a[i], &b[i]);
        assert(av[i as int] == a@[i as int]@ && bv[i as int] == b@[i as int]@);
        if d != VerOrder::Equal {
            return d;
        }
        i = i + 1;
    }
    order_u64(a.len() as u64, b.len() as u64)
}

/// Compares the letters of two versions.
fn letter_order_of(a: Option<char>, b: Option<char>) -> (c: VerOrder)
    ensures
        c == letter_order(a, b),
{
    match (a, b) {
        (None, None) => VerOrder::Equal,
        (None, Some(_)) => VerOrder::Less,
        (Some(_), None) => VerOrder::Greater,
        (Some(x), Some(y)) => {
            if x < y {
                VerOrder::Less
            } else if x == y {
                VerOrder::Equal
            } else {
                VerOrder::Greater
            }
        },
    }
}

/// The rank of a suffix kind.
fn rank(k: SuffixKind) -> (r: u64)
    ensures
        r == suffix_rank(k),
{
    match k {
        SuffixKind::Alpha => 0,
        SuffixKind::Beta => 1,
        SuffixKind::Pre => 2,
        SuffixKind::Rc => 3,
        SuffixKind::P => 4,
    }
}

/// The number of a suffix, zero where it has none.
fn number_of(s: &super::Suffix) -> (n: u64)
    ensures
        n == suffix_number(s@),
{
    match &s.version {
        Some(n) => n.value,
        None => 0,
    }
}

/// Compares the suffixes of two versions.
fn suffixes_order_of(a: &Vec<super::Suffix>, b: &Vec<super::Suffix>) -> (c: VerOrder)
    ensures
        c == suffixes_order_from(super::suffix_views(a@), super::suffix_views(b@), 0),
{
    let ghost av = super::suffix_views(a@);
    let ghost bv = super::suffix_views(b@);
    let mut i: usize = 0;
    while i < a.len() && i < b.len()
        invariant
            i <= a.len(),
            i <= b.len(),
            av == super::suffix_views(a@),
            bv == super::suffix_views(b@),
            suffixes_order_from(av, bv, 0) == suffixes_order_from(av, bv, i as int),
        decreases a.len() - i,
    {
        assert(av[i as int] == a@[i as int]@ && bv[i as int] == b@[i as int]@);
        let c = order_u64(rank(a[i].kind), rank(b[i].kind));
        if c != VerOrder::Equal {
            return c;
        }
        let d = order_u64(number_of(&a[i]), number_of(&b[i]));
        if d != VerOrder::Equal {
            return d;
        }
        i = i + 1;
    }
    if i < a.len() {
        assert(av[i as int] == a@[i as int]@);
        if a[i].kind == SuffixKind::P {
            VerOrder::Greater
        } else {
            VerOrder::Less
        }
    } else if i < b.len() {
        assert(bv[i as int] == b@[i as int]@);
        if b[i].kind == SuffixKind::P {
            VerOrder::Less
        } else {
            VerOrder::Greater
        }
    } else {
        VerOrder::Equal
    }
}

impl Version {
    /// Compares two versions, leaving out their revisions.
    pub fn compare_without_revision(&self, other: &Version) -> (c: VerOrder)
        ensures
            c == order_without_revision(self@, other@),
    {
        let n = numbers_order_of(&self.numbers, &other.numbers);
        if n != VerOrder::Equal {
            return n;
        }
        let l = letter_order_of(self.letter, other.letter);
        if l != VerOrder::Equal {
            return l;
        }
        suffixes_order_of(&self.suffixes, &other.suffixes)
    }

    /// Compares two versions: numeric parts, letters, suffixes, then revisions.
    pub fn compare(&self, other: &Version) -> (c: VerOrder)
        ensures
            c == version_order(self@, other@),
    {
        let c = self.compare_without_revision(other);
        if c != VerOrder::Equal {
            return c;
        }
        order_u64(self.revision.0.value, other.revision.0.value)
    }
}

/// The name of a suffix kind.
fn suffix_name_of(k: SuffixKind) -> (s: &'static str)
    ensures
        s@ == suffix_name(k),
{
    match k {
        SuffixKind::Alpha => "alpha",
        SuffixKind::Beta => "beta",
        SuffixKind::Pre => "pre",
        SuffixKind::Rc => "rc",
        SuffixKind::P => "p",
    }
}

impl Version {
    /// The version as written, without its operator.
    pub fn text(&self) -> (s: String)
        ensures
            s@ == version_text(self@),
    {
        proof {
            reveal_strlit(".");
            reveal_strlit("_");
            reveal_strlit("-r");
        }
        let ghost nv = super::number_views(self.numbers@);
        let ghost xv = super::suffix_views(self.suffixes@);
        let mut s = String::new();
        let mut i: usize = 0;
        assert(nv.take(0) =~= Seq::<NumberView>::empty());
        while i < self.numbers.len()
            invariant
                i <= self.numbers.len(),
                nv == super::number_views(self.numbers@),
                s@ == dotted(nv.take(i as int)),
            decreases self.numbers.len() - i,
        {
            let ghost before = s@;
            if i > 0 {
                s.append(".");
            }
            s.append(self.numbers[i].raw.as_str());
            assert(nv[i as int] == self.numbers@[i as int]@);
            assert(nv.take(i + 1).drop_last() =~= nv.take(i as int));
            assert(nv.take(i + 1).last() == nv[i as int]);
            if i > 0 {
                proof {
                    reveal_strlit(".");
                }
                assert("."@ =~= seq!['.']);
                assert(s@ =~= before + seq!['.'] + nv[i as int].raw);
                assert(dotted(nv.take(i + 1)) == dotted(nv.take(i as int)) + seq!['.'] + nv[i as int].raw);
            }
            if i == 0 {
                assert(nv.take(1) =~= seq![nv[0]]);
                assert(s@ =~= nv[0].raw);
            }
            i = i + 1;
        }
        assert(nv.take(self.numbers.len() as int) =~= nv);
        let ghost head = s@;
        match self.letter {
            Some(c) => {
                let mut t = String::new();
                t = crate::text::chars_to_string(vec![c].as_slice());
                s.append(t.as_str());
            },
            None => {},
        }
        let ghost lettered = s@;
        assert(lettered == head + match self.letter {
            Some(c) => seq![c],
            None => Seq::<char>::empty(),
        });
        let mut j: usize = 0;
        assert(xv.take(0) =~= Seq::<SuffixView>::empty());
        assert(lettered + suffixes_text(xv.take(0)) =~= lettered);
        while j < self.suffixes.len()
            invariant
                j <= self.suffixes.len(),
                xv == super::suffix_views(self.suffixes@),
                s@ == lettered + suffixes_text(xv.take(j as int)),
            decreases self.suffixes.len() - j,
        {
            let ghost before = s@;
            s.append("_");
            s.append(suffix_name_of(self.suffixes[j].kind));
            match &self.suffixes[j].version {
                Some(n) => s.append(n.raw.as_str()),
                None => {},
            }
            assert(xv[j as int] == self.suffixes@[j as int]@);
            assert(xv.take(j + 1).drop_last() =~= xv.take(j as int));
            assert(xv.take(j + 1).last() == xv[j as int]);
            proof {
                reveal_strlit("_");
            }
            assert("_"@ =~= seq!['_']);
            let ghost tail = match xv[j as int].version {
                Some(n) => n.raw,
                None => Seq::<char>::empty(),
            };
            assert(s@ =~= before + seq!['_'] + suffix_name(xv[j as int].kind) + tail);
            assert(suffixes_text(xv.take(j + 1)) == suffixes_text(xv.take(j as int)) + seq!['_']
                + suffix_name(xv[j as int].kind) + tail);
            assert(s@ =~= lettered + suffixes_text(xv.take(j + 1)));
            j = j + 1;
        }
        assert(xv.take(self.suffixes.len() as int) =~= xv);
        if self.revision.0.raw.as_str().unicode_len() > 0 {
            s.append("-r");
            s.append(self.revision.0.raw.as_str());
        }
        s
    }

    /// Whether the version `w` satisfies this version with its operator.
    pub fn satisfied_by(&self, w: &Version) -> (b: bool)
        ensures
            b == version_satisfies(self@, w@),
    {
        match self.op {
            None => w.compare(self) == VerOrder::Equal,
            Some(Operator::Equal) => w.compare(self) == VerOrder::Equal,
            Some(Operator::Less) => w.compare(self) == VerOrder::Less,
            Some(Operator::LessOrEqual) => w.compare(self) != VerOrder::Greater,
            Some(Operator::Greater) => w.compare(self) == VerOrder::Greater,
            Some(Operator::GreaterOrEqual) => w.compare(self) != VerOrder::Less,
            Some(Operator::Approximate) => w.compare_without_revision(self) == VerOrder::Equal,
            Some(Operator::EqualGlob) => {
                let vt = self.text();
                let wt = w.text();
                crate::text::str_starts_with(wt.as_str(), vt.as_str())
            },
        }
    }
}

} // verus!
