//! Parsing of package query strings such as `category == "cat" && !slot == "1"` into
//! restrictions.
//!
//! A query combines attribute expressions with `||`, `^^` and `&&` (binding in that
//! order from loosest to tightest, each left to right), the prefix `!` and parentheses.

use vstd::prelude::*;

use crate::pkg::{
    maintainer_views,
    EapiRestrict, EbuildRestrict, MaintainerRestrict, OrderedRestrict, PkgRestrict,
    EapiRestrictView, EbuildRestrictView, MaintainerRestrictView, OrderedRestrictView,
    PkgRestrictView,
};
use crate::restrict::dep::{DepRestrictView, Restrict as DepRestrict};
use crate::restrict::depset::{DepSetRestrictView, Restrict as DepSetRestrict};
use crate::restrict::parse::dep::{dep_views, restricts, spec_restricts};
use crate::restrict::set::{OrderedSetRestrict, OrderedSetRestrictView};
use crate::restrict::str::{
    length_order, regex_compiles, BoolOp, LenOrder, Restrict as StrRestrict, StrRestrictView,
};
use crate::restrict::{combined, flatten, restrict_views, RestrictView};
use crate::types::{dedup, OrderedSet};
use crate::restrict::Restrict;
use crate::text::{str_eq, str_to_chars};

use super::{at, digits_value, lit_at, scan, span, CharClass};

verus! {

broadcast use vstd::string::group_string_axioms;

// ---------------------------------------------------------------------------------------
// Operators
// ---------------------------------------------------------------------------------------

/// A regex restriction from an unescaped pattern, failing where it does not compile.
pub fn str_to_regex_restrict(s: &str) -> (r: core::result::Result<StrRestrict, &'static str>)
    ensures
        match r {
            Ok(x) => regex_compiles(s@) && x@ == StrRestrictView::Regex(s@),
            Err(m) => !regex_compiles(s@) && m@ == "invalid regex"@,
        },
{
    match StrRestrict::regex(s) {
        Ok(r) => Ok(r),
        Err(_) => Err("invalid regex"),
    }
}

/// The set comparison operators of package queries.
pub open spec fn is_set_op(op: Seq<char>) -> bool {
    op == "<"@ || op == "<="@ || op == "=="@ || op == ">="@ || op == ">"@ || op == "%"@
}

/// The restriction a set comparison `op` against the values `vals` stands for: `<` a
/// proper subset, `<=` a subset, `==` equal, `>=` a superset, `>` a proper superset, `%`
/// disjoint; the set holds each value once, where it first occurs.
pub open spec fn set_op_view(op: Seq<char>, vals: Seq<Seq<char>>) -> OrderedSetRestrictView {
    let set = dedup(vals);
    if op == "<"@ {
        OrderedSetRestrictView::ProperSubset(set)
    } else if op == "<="@ {
        OrderedSetRestrictView::Subset(set)
    } else if op == "=="@ {
        OrderedSetRestrictView::Equal(set)
    } else if op == ">="@ {
        OrderedSetRestrictView::Superset(set)
    } else if op == ">"@ {
        OrderedSetRestrictView::ProperSuperset(set)
    } else {
        OrderedSetRestrictView::Disjoint(set)
    }
}

/// The views of a sequence of string slices.
pub open spec fn strs_view(v: Seq<&str>) -> Seq<Seq<char>> {
    Seq::new(v.len(), |k: int| v[k]@)
}

/// The set restriction for a set comparison `op` against `vals`.
pub fn orderedset_restrict(op: &str, vals: &[&str]) -> (r: OrderedSetRestrict)
    requires
        is_set_op(op@),
    ensures
        r@ == set_op_view(op@, strs_view(vals@)),
{
    proof {
        reveal_strlit("<");
        reveal_strlit("<=");
        reveal_strlit("==");
        reveal_strlit(">=");
        reveal_strlit(">");
        reveal_strlit("%");
        assert(vals@.map_values(|v: &str| v@) =~= strs_view(vals@));
    }
    let set = OrderedSet::from_strs(vals);
    if str_eq(op, "<") {
        OrderedSetRestrict::ProperSubset(set)
    } else if str_eq(op, "<=") {
        OrderedSetRestrict::Subset(set)
    } else if str_eq(op, "==") {
        OrderedSetRestrict::Equal(set)
    } else if str_eq(op, ">=") {
        OrderedSetRestrict::Superset(set)
    } else if str_eq(op, ">") {
        OrderedSetRestrict::ProperSuperset(set)
    } else {
        OrderedSetRestrict::Disjoint(set)
    }
}

/// The string comparison operators of package queries.
pub open spec fn is_str_op(op: Seq<char>) -> bool {
    op == "=="@ || op == ">="@ || op == "!="@ || op == "=~"@ || op == "!~"@
}

/// The restriction a string comparison `op` against `v` stands for: `==` equality, `>=`
/// containment, `!=` inequality, `=~` a regex match and `!~` its negation; `None` where a
/// regex does not compile.
pub open spec fn str_op_view(op: Seq<char>, v: Seq<char>) -> Option<StrRestrictView> {
    if op == "=="@ {
        Some(StrRestrictView::Equal(v))
    } else if op == ">="@ {
        Some(StrRestrictView::Substr(v))
    } else if op == "!="@ {
        Some(StrRestrictView::Not(Box::new(StrRestrictView::Equal(v))))
    } else if !regex_compiles(v) {
        None
    } else if op == "=~"@ {
        Some(StrRestrictView::Regex(v))
    } else {
        Some(StrRestrictView::Not(Box::new(StrRestrictView::Regex(v))))
    }
}

/// The string restriction for a string comparison `op` against `s`, failing where a
/// regex does not compile.
pub fn str_restrict(op: &str, s: &str) -> (r: core::result::Result<StrRestrict, &'static str>)
    requires
        is_str_op(op@),
    ensures
        match r {
            Ok(x) => str_op_view(op@, s@) == Some(x@),
            Err(m) => str_op_view(op@, s@) is None && m@ == "invalid regex"@,
        },
{
    proof {
        reveal_strlit("==");
        reveal_strlit(">=");
        reveal_strlit("!=");
        reveal_strlit("=~");
        reveal_strlit("!~");
        assert("=="@[0] != ">="@[0] && "=="@[0] != "!="@[0] && "=="@[1] != "=~"@[1]);
        assert(">="@[0] != "!="@[0] && ">="@[0] != "=~"@[0] && "!="@[1] != "!~"@[1]);
    }
    if str_eq(op, "==") {
        Ok(StrRestrict::equal(s))
    } else if str_eq(op, ">=") {
        Ok(StrRestrict::substr(s))
    } else if str_eq(op, "!=") {
        Ok(StrRestrict::not(StrRestrict::equal(s)))
    } else if str_eq(op, "=~") {
        str_to_regex_restrict(s)
    } else {
        let r = str_to_regex_restrict(s)?;
        Ok(StrRestrict::not(r))
    }
}

// ---------------------------------------------------------------------------------------
// The grammar
// ---------------------------------------------------------------------------------------

/// The outcome of a rule that can abort the whole parse: where it ends and what it
/// stands for, no match, or an abort.
pub enum Outcome {
    Done(int, RestrictView),
    Failed,
    Aborted,
}

/// The end of the whitespace (spaces, newlines, tabs) at `i`.
pub open spec fn ws(s: Seq<char>, i: int) -> int {
    span(s, i, CharClass::Space)
}

/// The end of at least one whitespace character at `i`.
pub open spec fn ws1(s: Seq<char>, i: int) -> Option<int> {
    if span(s, i, CharClass::Space) > i {
        Some(span(s, i, CharClass::Space))
    } else {
        None
    }
}

/// The first of `lits[k..]` that occurs at `i`: its index and where it ends.
pub open spec fn lit_from(s: Seq<char>, i: int, lits: Seq<Seq<char>>, k: int) -> Option<
    (int, int),
>
    decreases lits.len() - k,
{
    if 0 <= k < lits.len() {
        if lit_at(s, i, lits[k]) {
            Some((k, i + lits[k].len()))
        } else {
            lit_from(s, i, lits, k + 1)
        }
    } else {
        None
    }
}

/// The first of `lits` that occurs at `i`: its index and where it ends.
pub open spec fn first_lit(s: Seq<char>, i: int, lits: Seq<Seq<char>>) -> Option<(int, int)> {
    lit_from(s, i, lits, 0)
}

/// Where `l` ends if it occurs at `i`.
pub open spec fn lit_end(s: Seq<char>, i: int, l: Seq<char>) -> Option<int> {
    if lit_at(s, i, l) {
        Some(i + l.len())
    } else {
        None
    }
}

/// The attributes that can be tested for absence.
pub open spec fn optional_attrs() -> Seq<Seq<char>> {
    seq![
        "subslot"@,
        "dependencies"@,
        "depend"@,
        "bdepend"@,
        "idepend"@,
        "pdepend"@,
        "rdepend"@,
        "license"@,
        "properties"@,
        "required_use"@,
        "restrict"@,
        "src_uri"@,
        "homepage"@,
        "iuse"@,
        "inherited"@,
        "inherit"@,
        "keywords"@,
        "long_description"@,
        "maintainers"@,
        "upstream"@,
    ]
}

/// The position of `upstream` among the optional attributes: it parses, but has no
/// absence restriction, and reaching one aborts.
pub open spec fn upstream_attr() -> int {
    19
}

/// The spellings of absence.
pub open spec fn none_words() -> Seq<Seq<char>> {
    seq!["None"@, "none"@]
}

/// The string comparison operators, in the order they are tried.
pub open spec fn str_ops() -> Seq<Seq<char>> {
    seq!["=="@, ">="@, "!="@, "=~"@, "!~"@]
}

/// The dependency attributes compared as strings.
pub open spec fn dep_attrs() -> Seq<Seq<char>> {
    seq!["category"@, "package"@]
}

/// The package attributes compared as strings.
pub open spec fn pkg_attrs() -> Seq<Seq<char>> {
    seq!["eapi"@, "repo"@]
}

/// The ebuild attributes compared as strings.
pub open spec fn str_attrs() -> Seq<Seq<char>> {
    seq!["ebuild"@, "description"@, "slot"@, "subslot"@, "long_description"@]
}

/// The dependency set attributes holding dependencies.
pub open spec fn depset_dep_attrs() -> Seq<Seq<char>> {
    seq!["dependencies"@, "depend"@, "bdepend"@, "idepend"@, "pdepend"@, "rdepend"@]
}

/// The ways of restricting a dependency set.
pub open spec fn depset_kinds() -> Seq<Seq<char>> {
    seq!["any"@, "contains"@]
}

/// The dependency set attributes holding strings.
pub open spec fn depset_str_attrs() -> Seq<Seq<char>> {
    seq!["license"@, "properties"@, "required_use"@, "restrict"@]
}

/// The ordered set attributes.
pub open spec fn set_attrs() -> Seq<Seq<char>> {
    seq!["homepage"@, "iuse"@, "inherited"@, "inherit"@, "keywords"@]
}

/// The ways of restricting the maintainers in order.
pub open spec fn ordered_ops() -> Seq<Seq<char>> {
    seq!["any"@, "all"@, "first"@, "last"@]
}

/// The maintainer attributes that can be tested for absence.
pub open spec fn maint_optional_attrs() -> Seq<Seq<char>> {
    seq!["name"@, "description"@]
}

/// The maintainer attributes compared as strings.
pub open spec fn maint_attrs() -> Seq<Seq<char>> {
    seq!["email"@, "name"@, "description"@, "type"@, "proxied"@]
}

/// A restriction on ebuild metadata as a restriction.
pub open spec fn ebuild_leaf(e: EbuildRestrictView) -> RestrictView {
    RestrictView::Pkg(PkgRestrictView::Ebuild(e))
}

/// The absence restriction of the `k`th optional attribute.
pub open spec fn missing_view(k: int) -> EbuildRestrictView {
    if k == 0 {
        EbuildRestrictView::RawSubslot(None)
    } else if k == 1 {
        EbuildRestrictView::Dependencies(None)
    } else if k == 2 {
        EbuildRestrictView::Depend(None)
    } else if k == 3 {
        EbuildRestrictView::Bdepend(None)
    } else if k == 4 {
        EbuildRestrictView::Idepend(None)
    } else if k == 5 {
        EbuildRestrictView::Pdepend(None)
    } else if k == 6 {
        EbuildRestrictView::Rdepend(None)
    } else if k == 7 {
        EbuildRestrictView::License(None)
    } else if k == 8 {
        EbuildRestrictView::Properties(None)
    } else if k == 9 {
        EbuildRestrictView::RequiredUse(None)
    } else if k == 10 {
        EbuildRestrictView::Restrict(None)
    } else if k == 11 {
        EbuildRestrictView::SrcUri(None)
    } else if k == 12 {
        EbuildRestrictView::Homepage(None)
    } else if k == 13 {
        EbuildRestrictView::Iuse(None)
    } else if k == 14 {
        EbuildRestrictView::Inherited(None)
    } else if k == 15 {
        EbuildRestrictView::Inherit(None)
    } else if k == 16 {
        EbuildRestrictView::Keywords(None)
    } else if k == 17 {
        EbuildRestrictView::LongDescription(None)
    } else {
        EbuildRestrictView::Maintainers(None)
    }
}

/// Logical and of restrictions, nested ones spliced in.
pub open spec fn and_of(vs: Seq<RestrictView>) -> RestrictView {
    combined(BoolOp::And, flatten(BoolOp::And, vs))
}

/// Logical or of restrictions, nested ones spliced in.
pub open spec fn or_of(vs: Seq<RestrictView>) -> RestrictView {
    combined(BoolOp::Or, flatten(BoolOp::Or, vs))
}

/// Exclusive or of restrictions, nested ones spliced in.
pub open spec fn xor_of(vs: Seq<RestrictView>) -> RestrictView {
    combined(BoolOp::Xor, flatten(BoolOp::Xor, vs))
}

/// `_ "is" _`: where it ends.
pub open spec fn is_op(s: Seq<char>, i: int) -> Option<int> {
    match ws1(s, i) {
        Some(a) => if lit_at(s, a, "is"@) {
            ws1(s, a + 2)
        } else {
            None
        },
        None => None,
    }
}

/// `None` or `none`: where it ends.
pub open spec fn none_word(s: Seq<char>, i: int) -> Option<int> {
    match first_lit(s, i, none_words()) {
        Some((_, j)) => Some(j),
        None => None,
    }
}

/// `_ "is" _ ("None" / "none")`: where it ends.
pub open spec fn is_none(s: Seq<char>, i: int) -> Option<int> {
    match is_op(s, i) {
        Some(a) => none_word(s, a),
        None => None,
    }
}

/// The greedy run of `&attr` and `|attr` items at `i`, each attribute one of `lits`:
/// where it ends, and each operator with the attribute's index.
pub open spec fn op_attrs(s: Seq<char>, i: int, lits: Seq<Seq<char>>) -> (int, Seq<(char, int)>)
    decreases s.len() - i,
{
    if 0 <= i < s.len() && (s[i] == '&' || s[i] == '|') {
        match first_lit(s, i + 1, lits) {
            Some((k, j)) => if i < j <= s.len() {
                let (e, rest) = op_attrs(s, j, lits);
                (e, seq![(s[i], k)] + rest)
            } else {
                (i, seq![])
            },
            None => (i, seq![]),
        }
    } else {
        (i, seq![])
    }
}

/// The restrictions that the items with operator `op` contribute, in order.
pub open spec fn side(vals: Seq<(char, int)>, op: char, f: spec_fn(int) -> Seq<RestrictView>) -> Seq<
    RestrictView,
>
    decreases vals.len(),
{
    if vals.len() == 0 {
        seq![]
    } else {
        let p = side(vals.drop_last(), op, f);
        if vals.last().0 == op {
            p + f(vals.last().1)
        } else {
            p
        }
    }
}

/// The and of the `&` restrictions with the or of the `|` ones.
pub open spec fn and_or(ands: Seq<RestrictView>, ors: Seq<RestrictView>) -> RestrictView {
    if ors.len() == 0 {
        and_of(ands)
    } else if ands.len() == 0 {
        or_of(ors)
    } else {
        and_of(seq![and_of(ands), or_of(ors)])
    }
}

/// The absence restriction of the `k`th optional attribute, alone in a sequence.
pub open spec fn missing_seq(k: int) -> Seq<RestrictView> {
    seq![ebuild_leaf(missing_view(k))]
}

/// `attr is none`, or `&attr|attr... is none` with at least two items, for optional
/// attributes.
pub open spec fn attr_optional(s: Seq<char>, i: int) -> Outcome {
    let single = match first_lit(s, i, optional_attrs()) {
        Some((k, j)) => match is_none(s, j) {
            Some(b) => Some((k, b)),
            None => None,
        },
        None => None,
    };
    match single {
        Some((k, b)) => if k == upstream_attr() {
            Outcome::Aborted
        } else {
            Outcome::Done(b, ebuild_leaf(missing_view(k)))
        },
        None => {
            let (e, vals) = op_attrs(s, i, optional_attrs());
            if vals.len() >= 2 {
                match is_none(s, e) {
                    Some(b) => if exists|m: int| 0 <= m < vals.len() && vals[m].1 == upstream_attr() {
                        Outcome::Aborted
                    } else {
                        Outcome::Done(
                            b,
                            and_or(
                                side(vals, '&', |k: int| missing_seq(k)),
                                side(vals, '|', |k: int| missing_seq(k)),
                            ),
                        )
                    },
                    None => Outcome::Failed,
                }
            } else {
                Outcome::Failed
            }
        },
    }
}

/// A quoted string at `i`: where it ends and its contents, which are not empty.
pub open spec fn quoted(s: Seq<char>, i: int) -> Option<(int, Seq<char>)> {
    if 0 <= i < s.len() && s[i] == '"' {
        let j = span(s, i + 1, CharClass::NotDquote);
        if i + 1 < j < s.len() {
            Some((j + 1, s.subrange(i + 1, j)))
        } else {
            None
        }
    } else if 0 <= i < s.len() && s[i] == '\'' {
        let j = span(s, i + 1, CharClass::NotSquote);
        if i + 1 < j < s.len() {
            Some((j + 1, s.subrange(i + 1, j)))
        } else {
            None
        }
    } else {
        None
    }
}

/// A string operator, with whitespace around it: where it ends and the operator.
pub open spec fn string_op(s: Seq<char>, i: int) -> Option<(int, Seq<char>)> {
    match first_lit(s, ws(s, i), str_ops()) {
        Some((k, b)) => Some((ws(s, b), str_ops()[k])),
        None => None,
    }
}

/// `op "value"` for a string operator: where it ends and the string restriction.
pub open spec fn str_compare(s: Seq<char>, i: int) -> Option<(int, StrRestrictView)> {
    match string_op(s, i) {
        Some((a, op)) => match quoted(s, a) {
            Some((b, v)) => match str_op_view(op, v) {
                Some(r) => Some((b, r)),
                None => None,
            },
            None => None,
        },
        None => None,
    }
}

/// `category` or `package` compared as a string.
pub open spec fn dep_str(s: Seq<char>, i: int) -> Option<(int, RestrictView)> {
    match first_lit(s, i, dep_attrs()) {
        Some((k, j)) => match str_compare(s, j) {
            Some((b, r)) => Some(
                (
                    b,
                    RestrictView::Dep(
                        if k == 0 {
                            DepRestrictView::Category(r)
                        } else {
                            DepRestrictView::Package(r)
                        },
                    ),
                ),
            ),
            None => None,
        },
        None => None,
    }
}

/// `eapi` or `repo` compared as a string.
pub open spec fn pkg_attr(s: Seq<char>, i: int) -> Option<(int, RestrictView)> {
    match first_lit(s, i, pkg_attrs()) {
        Some((k, j)) => match str_compare(s, j) {
            Some((b, r)) => Some(
                (
                    b,
                    RestrictView::Pkg(
                        if k == 0 {
                            PkgRestrictView::Eapi(EapiRestrictView::Id(r))
                        } else {
                            PkgRestrictView::Repo(r)
                        },
                    ),
                ),
            ),
            None => None,
        },
        None => None,
    }
}

/// The ebuild restriction on the `k`th string attribute.
pub open spec fn str_attr_view(k: int, r: StrRestrictView) -> EbuildRestrictView {
    if k == 0 {
        EbuildRestrictView::Ebuild(r)
    } else if k == 1 {
        EbuildRestrictView::Description(r)
    } else if k == 2 {
        EbuildRestrictView::Slot(r)
    } else if k == 3 {
        EbuildRestrictView::Subslot(r)
    } else {
        EbuildRestrictView::LongDescription(Some(r))
    }
}

/// An ebuild string attribute compared as a string.
pub open spec fn attr_str(s: Seq<char>, i: int) -> Option<(int, RestrictView)> {
    match first_lit(s, i, str_attrs()) {
        Some((k, j)) => match str_compare(s, j) {
            Some((b, r)) => Some((b, ebuild_leaf(str_attr_view(k, r)))),
            None => None,
        },
        None => None,
    }
}

/// The ebuild restriction on the `k`th dependency attribute for a dependency set
/// restriction.
pub open spec fn depset_dep_view(k: int, r: DepSetRestrictView<DepRestrictView>) -> EbuildRestrictView {
    if k == 0 {
        EbuildRestrictView::Dependencies(Some(r))
    } else if k == 1 {
        EbuildRestrictView::Depend(Some(r))
    } else if k == 2 {
        EbuildRestrictView::Bdepend(Some(r))
    } else if k == 3 {
        EbuildRestrictView::Idepend(Some(r))
    } else if k == 4 {
        EbuildRestrictView::Pdepend(Some(r))
    } else {
        EbuildRestrictView::Rdepend(Some(r))
    }
}

/// `any` restrictions on the `k`th dependency attribute, one per dependency restriction.
pub open spec fn any_deps(k: int, rs: Seq<DepRestrictView>) -> Seq<RestrictView> {
    rs.map_values(|r: DepRestrictView| ebuild_leaf(depset_dep_view(k, DepSetRestrictView::Any(r))))
}

/// `_ "any" _ "glob"`: where it ends and the glob's dependency restrictions.
pub open spec fn any_glob(s: Seq<char>, j: int) -> Option<(int, Seq<DepRestrictView>)> {
    match ws1(s, j) {
        Some(a) => match lit_end(s, a, "any"@) {
            Some(b) => match ws1(s, b) {
                Some(c) => match quoted(s, c) {
                    Some((d, v)) => match spec_restricts(v) {
                        Some(rs) => Some((d, rs)),
                        None => None,
                    },
                    None => None,
                },
                None => None,
            },
            None => None,
        },
        None => None,
    }
}

/// Restrictions on dependency attributes: `attr any "glob"`, `attr contains op "s"`, or
/// `&attr|attr... any "glob"` with at least two items.
pub open spec fn depset_dep(s: Seq<char>, i: int) -> Option<(int, RestrictView)> {
    let any = match first_lit(s, i, depset_dep_attrs()) {
        Some((k, j)) => match any_glob(s, j) {
            Some((d, rs)) => Some((d, and_of(any_deps(k, rs)))),
            None => None,
        },
        None => None,
    };
    let contains = match first_lit(s, i, depset_dep_attrs()) {
        Some((k, j)) => match ws1(s, j) {
            Some(a) => match lit_end(s, a, "contains"@) {
                Some(b) => match ws1(s, b) {
                    Some(c) => match str_compare(s, c) {
                        Some((d, r)) => Some(
                            (d, ebuild_leaf(depset_dep_view(k, DepSetRestrictView::Contains(r)))),
                        ),
                        None => None,
                    },
                    None => None,
                },
                None => None,
            },
            None => None,
        },
        None => None,
    };
    if any is Some {
        any
    } else if contains is Some {
        contains
    } else {
        let (e, vals) = op_attrs(s, i, depset_dep_attrs());
        if vals.len() >= 2 {
            match any_glob(s, e) {
                Some((d, rs)) => Some(
                    (
                        d,
                        and_or(
                            side(vals, '&', |k: int| any_deps(k, rs)),
                            side(vals, '|', |k: int| any_deps(k, rs)),
                        ),
                    ),
                ),
                None => None,
            }
        } else {
            None
        }
    }
}

/// The ebuild restriction on the `k`th string set attribute.
pub open spec fn depset_str_view(k: int, r: DepSetRestrictView<StrRestrictView>) -> EbuildRestrictView {
    if k == 0 {
        EbuildRestrictView::License(Some(r))
    } else if k == 1 {
        EbuildRestrictView::Properties(Some(r))
    } else if k == 2 {
        EbuildRestrictView::RequiredUse(Some(r))
    } else {
        EbuildRestrictView::Restrict(Some(r))
    }
}

/// `attr any op "s"` or `attr contains op "s"` on a string set attribute.
pub open spec fn depset_str(s: Seq<char>, i: int) -> Option<(int, RestrictView)> {
    match first_lit(s, i, depset_str_attrs()) {
        Some((k, j)) => match ws1(s, j) {
            Some(a) => match first_lit(s, a, depset_kinds()) {
                Some((kind, b)) => match ws1(s, b) {
                    Some(c) => match str_compare(s, c) {
                        Some((d, r)) => Some(
                            (
                                d,
                                ebuild_leaf(
                                    depset_str_view(
                                        k,
                                        if kind == 0 {
                                            DepSetRestrictView::Any(r)
                                        } else {
                                            DepSetRestrictView::Contains(r)
                                        },
                                    ),
                                ),
                            ),
                        ),
                        None => None,
                    },
                    None => None,
                },
                None => None,
            },
            None => None,
        },
        None => None,
    }
}

/// A set operator with whitespace around it: where it ends and the operator.
pub open spec fn set_op(s: Seq<char>, i: int) -> Option<(int, Seq<char>)> {
    let a = ws(s, i);
    let b = if 0 <= a < s.len() && (s[a] == '<' || s[a] == '>') {
        if a + 1 < s.len() && s[a + 1] == '=' {
            Some(a + 2)
        } else {
            Some(a + 1)
        }
    } else if lit_at(s, a, "=="@) {
        Some(a + 2)
    } else if 0 <= a < s.len() && s[a] == '%' {
        Some(a + 1)
    } else {
        None
    };
    match b {
        Some(b) => Some((ws(s, b), s.subrange(a, b))),
        None => None,
    }
}

/// The quoted strings that follow `,` separators from `j`: where they end and their
/// contents.
pub open spec fn quoted_more(s: Seq<char>, j: int) -> (int, Seq<Seq<char>>)
    decreases s.len() - j,
{
    let a = ws(s, j);
    if 0 <= a < s.len() && s[a] == ',' {
        match quoted(s, ws(s, a + 1)) {
            Some((c, v)) => if j < c <= s.len() {
                let (e, rest) = quoted_more(s, c);
                (e, seq![v] + rest)
            } else {
                (j, seq![])
            },
            None => (j, seq![]),
        }
    } else {
        (j, seq![])
    }
}

/// `{"a", "b"}`, possibly empty, with whitespace around: where it ends and the values.
pub open spec fn quoted_set(s: Seq<char>, i: int) -> Option<(int, Seq<Seq<char>>)> {
    let a = ws(s, i);
    if 0 <= a < s.len() && s[a] == '{' {
        let (k, vals) = match quoted(s, a + 1) {
            Some((j, v)) => {
                let (e, rest) = quoted_more(s, j);
                (e, seq![v] + rest)
            },
            None => (a + 1, seq![]),
        };
        if 0 <= k < s.len() && s[k] == '}' {
            Some((ws(s, k + 1), vals))
        } else {
            None
        }
    } else {
        None
    }
}

/// The ebuild restriction on the `k`th ordered set attribute.
pub open spec fn set_attr_view(k: int, r: OrderedSetRestrictView) -> EbuildRestrictView {
    if k == 0 {
        EbuildRestrictView::Homepage(Some(r))
    } else if k == 1 {
        EbuildRestrictView::Iuse(Some(r))
    } else if k == 2 {
        EbuildRestrictView::Inherited(Some(r))
    } else if k == 3 {
        EbuildRestrictView::Inherit(Some(r))
    } else {
        EbuildRestrictView::Keywords(Some(r))
    }
}

/// An ordered set attribute compared with a set of strings.
pub open spec fn set_attr(s: Seq<char>, i: int) -> Option<(int, RestrictView)> {
    match first_lit(s, i, set_attrs()) {
        Some((k, j)) => match set_op(s, j) {
            Some((a, op)) => match quoted_set(s, a) {
                Some((b, vals)) => Some((b, ebuild_leaf(set_attr_view(k, set_op_view(op, vals))))),
                None => None,
            },
            None => None,
        },
        None => None,
    }
}

/// A count comparison operator with whitespace around it: where it ends and the
/// orderings it accepts.
pub open spec fn number_op(s: Seq<char>, i: int) -> Option<(int, Seq<LenOrder>)> {
    let a = ws(s, i);
    let r = if 0 <= a < s.len() && s[a] == '<' {
        if a + 1 < s.len() && s[a + 1] == '=' {
            Some((a + 2, seq![LenOrder::Less, LenOrder::Equal]))
        } else {
            Some((a + 1, seq![LenOrder::Less]))
        }
    } else if 0 <= a < s.len() && s[a] == '>' {
        if a + 1 < s.len() && s[a + 1] == '=' {
            Some((a + 2, seq![LenOrder::Greater, LenOrder::Equal]))
        } else {
            Some((a + 1, seq![LenOrder::Greater]))
        }
    } else if lit_at(s, a, "!="@) {
        Some((a + 2, seq![LenOrder::Less, LenOrder::Greater]))
    } else if lit_at(s, a, "=="@) {
        Some((a + 2, seq![LenOrder::Equal]))
    } else {
        None
    };
    match r {
        Some((b, orders)) => Some((ws(s, b), orders)),
        None => None,
    }
}

/// A count comparison such as `>= 2`, the count fitting in a `usize`.
pub open spec fn count(s: Seq<char>, i: int) -> Option<(int, OrderedRestrictView<MaintainerRestrictView>)> {
    match number_op(s, i) {
        Some((a, orders)) => {
            let b = span(s, a, CharClass::Digit);
            let n = digits_value(s.subrange(a, b));
            if b > a && n <= usize::MAX {
                Some((b, OrderedRestrictView::Count(orders, n as usize)))
            } else {
                None
            }
        },
        None => None,
    }
}

/// `name is none` or `description is none` for a maintainer.
pub open spec fn maint_optional(s: Seq<char>, i: int) -> Option<(int, MaintainerRestrictView)> {
    match first_lit(s, i, maint_optional_attrs()) {
        Some((k, j)) => match is_none(s, j) {
            Some(b) => Some(
                (
                    b,
                    if k == 0 {
                        MaintainerRestrictView::Name(None)
                    } else {
                        MaintainerRestrictView::Description(None)
                    },
                ),
            ),
            None => None,
        },
        None => None,
    }
}

/// The maintainer restriction on the `k`th maintainer attribute.
pub open spec fn maint_view(k: int, r: StrRestrictView) -> MaintainerRestrictView {
    if k == 0 {
        MaintainerRestrictView::Email(r)
    } else if k == 1 {
        MaintainerRestrictView::Name(Some(r))
    } else if k == 2 {
        MaintainerRestrictView::Description(Some(r))
    } else if k == 3 {
        MaintainerRestrictView::Type(r)
    } else {
        MaintainerRestrictView::Proxied(r)
    }
}

/// A maintainer attribute compared as a string.
pub open spec fn maint_compare(s: Seq<char>, i: int) -> Option<(int, MaintainerRestrictView)> {
    match first_lit(s, i, maint_attrs()) {
        Some((k, j)) => match str_compare(s, j) {
            Some((b, r)) => Some((b, maint_view(k, r))),
            None => None,
        },
        None => None,
    }
}

/// A single maintainer restriction.
pub open spec fn maint_item(s: Seq<char>, i: int) -> Option<(int, MaintainerRestrictView)> {
    match maint_optional(s, i) {
        Some(x) => Some(x),
        None => maint_compare(s, i),
    }
}

/// The maintainer restrictions that follow `&&` separators from `j`.
pub open spec fn maint_more(s: Seq<char>, j: int) -> (int, Seq<MaintainerRestrictView>)
    decreases s.len() - j,
{
    let a = ws(s, j);
    if lit_at(s, a, "&&"@) {
        match maint_item(s, ws(s, a + 2)) {
            Some((c, m)) => if j < c <= s.len() {
                let (e, rest) = maint_more(s, c);
                (e, seq![m] + rest)
            } else {
                (j, seq![])
            },
            None => (j, seq![]),
        }
    } else {
        (j, seq![])
    }
}

/// The conjunction of maintainer restrictions, none of them conjunctions: the only one
/// itself.
pub open spec fn maint_and(ms: Seq<MaintainerRestrictView>) -> MaintainerRestrictView {
    if ms.len() == 1 {
        ms[0]
    } else {
        MaintainerRestrictView::And(ms)
    }
}

/// A maintainer restriction, or a parenthesized `&&` conjunction of them.
pub open spec fn maint_expr(s: Seq<char>, i: int) -> Option<(int, MaintainerRestrictView)> {
    match maint_item(s, i) {
        Some(x) => Some(x),
        None => {
            let a = ws(s, i);
            if 0 <= a < s.len() && s[a] == '(' {
                match maint_item(s, ws(s, a + 1)) {
                    Some((j, m)) => {
                        let (c, rest) = maint_more(s, j);
                        let d = ws(s, c);
                        if 0 <= d < s.len() && s[d] == ')' {
                            Some((ws(s, d + 1), maint_and(seq![m] + rest)))
                        } else {
                            None
                        }
                    },
                    None => None,
                }
            } else {
                None
            }
        },
    }
}

/// `_ any|all|first|last _ expr` on the maintainers.
pub open spec fn ordered(s: Seq<char>, i: int) -> Option<(int, OrderedRestrictView<MaintainerRestrictView>)> {
    match ws1(s, i) {
        Some(a) => match first_lit(s, a, ordered_ops()) {
            Some((k, b)) => match ws1(s, b) {
                Some(c) => match maint_expr(s, c) {
                    Some((d, m)) => Some(
                        (
                            d,
                            if k == 0 {
                                OrderedRestrictView::Any(m)
                            } else if k == 1 {
                                OrderedRestrictView::All(m)
                            } else if k == 2 {
                                OrderedRestrictView::First(m)
                            } else {
                                OrderedRestrictView::Last(m)
                            },
                        ),
                    ),
                    None => None,
                },
                None => None,
            },
            None => None,
        },
        None => None,
    }
}

/// `maintainers` followed by an ordered restriction or a count.
pub open spec fn maintainers(s: Seq<char>, i: int) -> Option<(int, RestrictView)> {
    match lit_end(s, i, "maintainers"@) {
        Some(j) => {
            let r = match ordered(s, j) {
                Some(x) => Some(x),
                None => count(s, j),
            };
            match r {
                Some((e, o)) => Some((e, ebuild_leaf(EbuildRestrictView::Maintainers(Some(o))))),
                None => None,
            }
        },
        None => None,
    }
}

/// The attribute expressions other than absence tests, tried in order.
pub open spec fn expr_rest(s: Seq<char>, i: int) -> Option<(int, RestrictView)> {
    if dep_str(s, i) is Some {
        dep_str(s, i)
    } else if attr_str(s, i) is Some {
        attr_str(s, i)
    } else if depset_dep(s, i) is Some {
        depset_dep(s, i)
    } else if depset_str(s, i) is Some {
        depset_str(s, i)
    } else if set_attr(s, i) is Some {
        set_attr(s, i)
    } else if maintainers(s, i) is Some {
        maintainers(s, i)
    } else {
        pkg_attr(s, i)
    }
}

/// An attribute expression.
pub open spec fn expression(s: Seq<char>, i: int) -> Outcome {
    match attr_optional(s, i) {
        Outcome::Failed => match expr_rest(s, i) {
            Some((j, r)) => Outcome::Done(j, r),
            None => Outcome::Failed,
        },
        o => o,
    }
}

/// An expression whose operators bind at least as tightly as level `m` (0 for `||`, 1
/// for `^^`, 2 for `&&`, 3 for `!`) at `i`.
pub open spec fn prec(s: Seq<char>, m: int, i: int) -> Outcome
    decreases s.len() - i, 2int,
{
    if 0 <= i < s.len() {
        let init = if s[i] == '!' {
            match prec(s, 3, i + 1) {
                Outcome::Done(j, x) => Outcome::Done(j, RestrictView::Not(Box::new(x))),
                Outcome::Aborted => Outcome::Aborted,
                Outcome::Failed => atom(s, i),
            }
        } else {
            atom(s, i)
        };
        match init {
            Outcome::Done(j, x) => if i < j <= s.len() {
                infix(s, m, j, x)
            } else {
                Outcome::Failed
            },
            o => o,
        }
    } else {
        Outcome::Failed
    }
}

/// A parenthesized query or an attribute expression at `i`.
pub open spec fn atom(s: Seq<char>, i: int) -> Outcome
    decreases s.len() - i, 1int,
{
    match paren_query(s, i) {
        Outcome::Failed => expression(s, i),
        o => o,
    }
}

/// A parenthesized query with whitespace around it.
pub open spec fn paren_query(s: Seq<char>, i: int) -> Outcome
    decreases s.len() - i, 0int,
{
    let a = ws(s, i);
    if 0 <= a < s.len() && s[a] == '(' {
        let b = ws(s, a + 1);
        if i < b <= s.len() {
            match prec(s, 0, b) {
                Outcome::Done(c, v) => {
                    let d = ws(s, c);
                    if 0 <= d < s.len() && s[d] == ')' {
                        Outcome::Done(ws(s, d + 1), v)
                    } else {
                        Outcome::Failed
                    }
                },
                o => o,
            }
        } else {
            Outcome::Failed
        }
    } else {
        Outcome::Failed
    }
}

/// The binary operator at level `l` applied to `x` and `y`.
pub open spec fn apply_op(l: int, x: RestrictView, y: RestrictView) -> RestrictView {
    if l == 0 {
        or_of(seq![x, y])
    } else if l == 1 {
        xor_of(seq![x, y])
    } else {
        and_of(seq![x, y])
    }
}

/// The spelling of the binary operator at level `l`.
pub open spec fn op_text(l: int) -> Seq<char> {
    if l == 0 {
        "||"@
    } else if l == 1 {
        "^^"@
    } else {
        "&&"@
    }
}

/// The binary operator at level `l`, if `m` admits it, applied to `x` and the operand
/// that follows `j`.
pub open spec fn infix_step(s: Seq<char>, m: int, l: int, j: int, x: RestrictView) -> Outcome
    decreases s.len() - j, 0int,
{
    let a = ws(s, j);
    if m <= l && lit_at(s, a, op_text(l)) {
        let b = ws(s, a + 2);
        if j < b <= s.len() {
            match prec(s, l + 1, b) {
                Outcome::Done(c, y) => Outcome::Done(c, apply_op(l, x, y)),
                o => o,
            }
        } else {
            Outcome::Failed
        }
    } else {
        Outcome::Failed
    }
}

/// The binary operators that follow the operand `x` ending at `j`, left to right.
pub open spec fn infix(s: Seq<char>, m: int, j: int, x: RestrictView) -> Outcome
    decreases s.len() - j, 1int,
{
    let t0 = infix_step(s, m, 0, j, x);
    let t1 = infix_step(s, m, 1, j, x);
    let t2 = infix_step(s, m, 2, j, x);
    let t = if !(t0 is Failed) {
        t0
    } else if !(t1 is Failed) {
        t1
    } else {
        t2
    };
    match t {
        Outcome::Done(c, z) => if j < c <= s.len() {
            infix(s, m, c, z)
        } else {
            Outcome::Failed
        },
        Outcome::Aborted => Outcome::Aborted,
        Outcome::Failed => Outcome::Done(j, x),
    }
}

/// Whether parsing the query `s` aborts: it reaches an absence test of `upstream`.
pub open spec fn query_aborts(s: Seq<char>) -> bool {
    prec(s, 0, 0) is Aborted
}

/// The restriction the query `s` stands for, if it is one and nothing follows it.
pub open spec fn spec_pkg(s: Seq<char>) -> Option<RestrictView> {
    match prec(s, 0, 0) {
        Outcome::Done(j, r) => if j == s.len() {
            Some(r)
        } else {
            None
        },
        _ => None,
    }
}


/// Whether `upstream` occurs somewhere in `s`.
pub open spec fn mentions_upstream(s: Seq<char>) -> bool {
    exists|p: int| #[trigger] lit_at(s, p, "upstream"@)
}

/// The literal that `lit_from` finds occurs where it says.
proof fn lemma_lit_from(s: Seq<char>, i: int, lits: Seq<Seq<char>>, k: int)
    ensures
        lit_from(s, i, lits, k) matches Some((m, j)) ==> 0 <= m < lits.len() && lit_at(
            s,
            i,
            lits[m],
        ) && j == i + lits[m].len(),
    decreases lits.len() - k,
{
    if 0 <= k < lits.len() && !lit_at(s, i, lits[k]) {
        lemma_lit_from(s, i, lits, k + 1);
    }
}

/// Each attribute of a run of `&attr` and `|attr` items occurs in `s`.
proof fn lemma_op_attrs(s: Seq<char>, i: int, lits: Seq<Seq<char>>)
    ensures
        forall|m: int|
            0 <= m < op_attrs(s, i, lits).1.len() ==> {
                let k = (#[trigger] op_attrs(s, i, lits).1[m]).1;
                0 <= k < lits.len() && exists|p: int| lit_at(s, p, lits[k])
            },
    decreases s.len() - i,
{
    if 0 <= i < s.len() && (s[i] == '&' || s[i] == '|') {
        lemma_lit_from(s, i + 1, lits, 0);
        match first_lit(s, i + 1, lits) {
            Some((k, j)) => if i < j <= s.len() {
                lemma_op_attrs(s, j, lits);
                let rest = op_attrs(s, j, lits).1;
                assert forall|m: int| 0 <= m < op_attrs(s, i, lits).1.len() implies {
                    let k2 = (#[trigger] op_attrs(s, i, lits).1[m]).1;
                    0 <= k2 < lits.len() && exists|p: int| lit_at(s, p, lits[k2])
                } by {
                    if m == 0 {
                        assert(lit_at(s, i + 1, lits[k]));
                    } else {
                        assert(op_attrs(s, i, lits).1[m] == rest[m - 1]);
                    }
                }
            },
            None => {},
        }
    }
}

/// An absence test aborts only on `upstream`.
proof fn lemma_attr_optional_aborts(s: Seq<char>, i: int)
    ensures
        attr_optional(s, i) is Aborted ==> mentions_upstream(s),
{
    reveal_strlit("upstream");
    lemma_lit_from(s, i, optional_attrs(), 0);
    lemma_op_attrs(s, i, optional_attrs());
    if attr_optional(s, i) is Aborted {
        match first_lit(s, i, optional_attrs()) {
            Some((k, j)) => if k == upstream_attr() && is_none(s, j) is Some {
                assert(optional_attrs()[19] == "upstream"@);
                assert(lit_at(s, i, "upstream"@));
                return;
            },
            None => {},
        }
        let vals = op_attrs(s, i, optional_attrs()).1;
        let m = choose|m: int| 0 <= m < vals.len() && vals[m].1 == upstream_attr();
        assert(vals[m].1 == 19);
        assert(optional_attrs()[19] == "upstream"@);
        let p = choose|p: int| lit_at(s, p, optional_attrs()[vals[m].1]);
        assert(lit_at(s, p, "upstream"@));
    }
}

/// A query aborts only where it mentions `upstream`.
proof fn lemma_prec_aborts(s: Seq<char>, m: int, i: int)
    ensures
        prec(s, m, i) is Aborted ==> mentions_upstream(s),
    decreases s.len() - i, 2int,
{
    if 0 <= i < s.len() {
        if s[i] == '!' {
            lemma_prec_aborts(s, 3, i + 1);
        }
        lemma_atom_aborts(s, i);
        let init = if s[i] == '!' {
            match prec(s, 3, i + 1) {
                Outcome::Done(j, x) => Outcome::Done(j, RestrictView::Not(Box::new(x))),
                Outcome::Aborted => Outcome::Aborted,
                Outcome::Failed => atom(s, i),
            }
        } else {
            atom(s, i)
        };
        match init {
            Outcome::Done(j, x) => if i < j <= s.len() {
                lemma_infix_aborts(s, m, j, x);
            },
            _ => {},
        }
    }
}

/// A parenthesized query or an expression aborts only where the query mentions
/// `upstream`.
proof fn lemma_atom_aborts(s: Seq<char>, i: int)
    ensures
        atom(s, i) is Aborted ==> mentions_upstream(s),
    decreases s.len() - i, 1int,
{
    lemma_paren_aborts(s, i);
    lemma_attr_optional_aborts(s, i);
}

/// A parenthesized query aborts only where the query mentions `upstream`.
proof fn lemma_paren_aborts(s: Seq<char>, i: int)
    ensures
        paren_query(s, i) is Aborted ==> mentions_upstream(s),
    decreases s.len() - i, 0int,
{
    let a = ws(s, i);
    if 0 <= a < s.len() && s[a] == '(' {
        let b = ws(s, a + 1);
        if i < b <= s.len() {
            lemma_prec_aborts(s, 0, b);
        }
    }
}

/// An operator step aborts only where the query mentions `upstream`.
proof fn lemma_infix_step_aborts(s: Seq<char>, m: int, l: int, j: int, x: RestrictView)
    ensures
        infix_step(s, m, l, j, x) is Aborted ==> mentions_upstream(s),
    decreases s.len() - j, 0int,
{
    let a = ws(s, j);
    if m <= l && lit_at(s, a, op_text(l)) {
        let b = ws(s, a + 2);
        if j < b <= s.len() {
            lemma_prec_aborts(s, l + 1, b);
        }
    }
}

/// The operators after an operand abort only where the query mentions `upstream`.
proof fn lemma_infix_aborts(s: Seq<char>, m: int, j: int, x: RestrictView)
    ensures
        infix(s, m, j, x) is Aborted ==> mentions_upstream(s),
    decreases s.len() - j, 1int,
{
    lemma_infix_step_aborts(s, m, 0, j, x);
    lemma_infix_step_aborts(s, m, 1, j, x);
    lemma_infix_step_aborts(s, m, 2, j, x);
    let t0 = infix_step(s, m, 0, j, x);
    let t1 = infix_step(s, m, 1, j, x);
    let t2 = infix_step(s, m, 2, j, x);
    let t = if !(t0 is Failed) {
        t0
    } else if !(t1 is Failed) {
        t1
    } else {
        t2
    };
    match t {
        Outcome::Done(c, z) => if j < c <= s.len() {
            lemma_infix_aborts(s, m, c, z);
        },
        _ => {},
    }
}

/// A query that does not mention `upstream` never aborts: only an absence test of
/// `upstream` does.
pub proof fn query_aborts_only_on_upstream(s: Seq<char>)
    ensures
        query_aborts(s) ==> mentions_upstream(s),
{
    lemma_prec_aborts(s, 0, 0);
}

// ---------------------------------------------------------------------------------------
// The parser
// ---------------------------------------------------------------------------------------

/// What a rule that can abort produced.
enum Parsed {
    Done(usize, Restrict),
    Failed,
    Aborted,
}

/// The outcome a parse result stands for.
spec fn parsed(p: Parsed) -> Outcome {
    match p {
        Parsed::Done(j, r) => Outcome::Done(j as int, r@),
        Parsed::Failed => Outcome::Failed,
        Parsed::Aborted => Outcome::Aborted,
    }
}

/// The end of the whitespace at `i`.
fn skip_ws(s: &Vec<char>, i: usize) -> (j: usize)
    requires
        i <= s@.len(),
    ensures
        j as int == ws(s@, i as int),
        i <= j <= s@.len(),
{
    scan(s, i, CharClass::Space)
}

/// The end of at least one whitespace character at `i`.
fn skip_ws1(s: &Vec<char>, i: usize) -> (r: Option<usize>)
    requires
        i <= s@.len(),
    ensures
        match r {
            Some(j) => ws1(s@, i as int) == Some(j as int) && i < j <= s@.len(),
            None => ws1(s@, i as int) is None,
        },
{
    let j = scan(s, i, CharClass::Space);
    if j > i {
        Some(j)
    } else {
        None
    }
}

/// Where `l` ends if it occurs at `i`.
fn lit(s: &Vec<char>, i: usize, l: &str) -> (r: Option<usize>)
    requires
        i <= s@.len(),
    ensures
        match r {
            Some(j) => lit_end(s@, i as int, l@) == Some(j as int) && i <= j <= s@.len(),
            None => lit_end(s@, i as int, l@) is None,
        },
{
    let chars = str_to_chars(l);
    let _len = s.len();
    if at(s, i, &chars) {
        Some(i + chars.len())
    } else {
        None
    }
}

/// The first of `lits` that occurs at `i`: its index and where it ends.
fn find_lit(s: &Vec<char>, i: usize, lits: &Vec<&str>) -> (r: Option<(usize, usize)>)
    requires
        i <= s@.len(),
    ensures
        match r {
            Some((k, j)) => first_lit(s@, i as int, strs_view(lits@)) == Some(
                (k as int, j as int),
            ) && k < lits@.len() && i <= j <= s@.len(),
            None => first_lit(s@, i as int, strs_view(lits@)) is None,
        },
{
    let ghost tbl = strs_view(lits@);
    let mut k: usize = 0;
    while k < lits.len()
        invariant
            k <= lits@.len(),
            i <= s@.len(),
            tbl == strs_view(lits@),
            first_lit(s@, i as int, tbl) == lit_from(s@, i as int, tbl, k as int),
        decreases lits@.len() - k,
    {
        match lit(s, i, lits[k]) {
            Some(j) => {
                return Some((k, j));
            },
            None => {},
        }
        k += 1;
    }
    None
}

/// The words of [`optional_attrs`].
fn optional_attr_table() -> (v: Vec<&'static str>)
    ensures
        strs_view(v@) == optional_attrs(),
{
    let v = vec![
        "subslot",
        "dependencies",
        "depend",
        "bdepend",
        "idepend",
        "pdepend",
        "rdepend",
        "license",
        "properties",
        "required_use",
        "restrict",
        "src_uri",
        "homepage",
        "iuse",
        "inherited",
        "inherit",
        "keywords",
        "long_description",
        "maintainers",
        "upstream",
    ];
    assert(strs_view(v@) =~= optional_attrs());
    v
}

/// The words of [`none_words`].
fn none_table() -> (v: Vec<&'static str>)
    ensures
        strs_view(v@) == none_words(),
{
    let v = vec!["None", "none"];
    assert(strs_view(v@) =~= none_words());
    v
}

/// The words of [`str_ops`].
fn str_op_table() -> (v: Vec<&'static str>)
    ensures
        strs_view(v@) == str_ops(),
{
    let v = vec!["==", ">=", "!=", "=~", "!~"];
    assert(strs_view(v@) =~= str_ops());
    v
}

/// The words of [`dep_attrs`].
fn dep_attr_table() -> (v: Vec<&'static str>)
    ensures
        strs_view(v@) == dep_attrs(),
{
    let v = vec!["category", "package"];
    assert(strs_view(v@) =~= dep_attrs());
    v
}

/// The words of [`pkg_attrs`].
fn pkg_attr_table() -> (v: Vec<&'static str>)
    ensures
        strs_view(v@) == pkg_attrs(),
{
    let v = vec!["eapi", "repo"];
    assert(strs_view(v@) =~= pkg_attrs());
    v
}

/// The words of [`str_attrs`].
fn str_attr_table() -> (v: Vec<&'static str>)
    ensures
        strs_view(v@) == str_attrs(),
{
    let v = vec!["ebuild", "description", "slot", "subslot", "long_description"];
    assert(strs_view(v@) =~= str_attrs());
    v
}

/// The words of [`depset_dep_attrs`].
fn depset_dep_attr_table() -> (v: Vec<&'static str>)
    ensures
        strs_view(v@) == depset_dep_attrs(),
{
    let v = vec!["dependencies", "depend", "bdepend", "idepend", "pdepend", "rdepend"];
    assert(strs_view(v@) =~= depset_dep_attrs());
    v
}

/// The words of [`depset_kinds`].
fn depset_kind_table() -> (v: Vec<&'static str>)
    ensures
        strs_view(v@) == depset_kinds(),
{
    let v = vec!["any", "contains"];
    assert(strs_view(v@) =~= depset_kinds());
    v
}

/// The words of [`depset_str_attrs`].
fn depset_str_attr_table() -> (v: Vec<&'static str>)
    ensures
        strs_view(v@) == depset_str_attrs(),
{
    let v = vec!["license", "properties", "required_use", "restrict"];
    assert(strs_view(v@) =~= depset_str_attrs());
    v
}

/// The words of [`set_attrs`].
fn set_attr_table() -> (v: Vec<&'static str>)
    ensures
        strs_view(v@) == set_attrs(),
{
    let v = vec!["homepage", "iuse", "inherited", "inherit", "keywords"];
    assert(strs_view(v@) =~= set_attrs());
    v
}

/// The words of [`ordered_ops`].
fn ordered_op_table() -> (v: Vec<&'static str>)
    ensures
        strs_view(v@) == ordered_ops(),
{
    let v = vec!["any", "all", "first", "last"];
    assert(strs_view(v@) =~= ordered_ops());
    v
}

/// The words of [`maint_optional_attrs`].
fn maint_optional_table() -> (v: Vec<&'static str>)
    ensures
        strs_view(v@) == maint_optional_attrs(),
{
    let v = vec!["name", "description"];
    assert(strs_view(v@) =~= maint_optional_attrs());
    v
}

/// The words of [`maint_attrs`].
fn maint_attr_table() -> (v: Vec<&'static str>)
    ensures
        strs_view(v@) == maint_attrs(),
{
    let v = vec!["email", "name", "description", "type", "proxied"];
    assert(strs_view(v@) =~= maint_attrs());
    v
}



/// A quoted string at `i`: where it ends and its contents.
fn quoted_at<'a>(src: &'a str, s: &Vec<char>, i: usize) -> (r: Option<(usize, &'a str)>)
    requires
        s@ == src@,
        i <= s@.len(),
    ensures
        match r {
            Some((j, v)) => quoted(s@, i as int) == Some((j as int, v@)) && i < j <= s@.len(),
            None => quoted(s@, i as int) is None,
        },
{
    let len = s.len();
    if i < len && s[i] == '"' {
        let j = scan(s, i + 1, CharClass::NotDquote);
        if i + 1 < j && j < len {
            return Some((j + 1, src.substring_char(i + 1, j)));
        }
        return None;
    }
    if i < len && s[i] == '\'' {
        let j = scan(s, i + 1, CharClass::NotSquote);
        if i + 1 < j && j < len {
            return Some((j + 1, src.substring_char(i + 1, j)));
        }
        return None;
    }
    None
}

/// A string operator with whitespace around it: where it ends and the operator.
fn string_op_at(s: &Vec<char>, i: usize) -> (r: Option<(usize, &'static str)>)
    requires
        i <= s@.len(),
    ensures
        match r {
            Some((j, op)) => string_op(s@, i as int) == Some((j as int, op@)) && i <= j
                <= s@.len() && is_str_op(op@),
            None => string_op(s@, i as int) is None,
        },
{
    let ops = str_op_table();
    let a = skip_ws(s, i);
    match find_lit(s, a, &ops) {
        Some((k, b)) => {
            let op = ops[k];
            assert(op@ == str_ops()[k as int]);
            assert(is_str_op(op@)) by {
                assert(k < 5);
                if k == 0 {
                } else if k == 1 {
                } else if k == 2 {
                } else if k == 3 {
                } else {
                }
            }
            Some((skip_ws(s, b), op))
        },
        None => None,
    }
}

/// `op "value"` for a string operator: where it ends and the string restriction.
fn str_compare_at(src: &str, s: &Vec<char>, i: usize) -> (r: Option<(usize, StrRestrict)>)
    requires
        s@ == src@,
        i <= s@.len(),
    ensures
        match r {
            Some((j, x)) => str_compare(s@, i as int) == Some((j as int, x@)) && i < j <= s@.len(),
            None => str_compare(s@, i as int) is None,
        },
{
    let (a, op) = match string_op_at(s, i) {
        Some(x) => x,
        None => return None,
    };
    let (b, v) = match quoted_at(src, s, a) {
        Some(x) => x,
        None => return None,
    };
    match str_restrict(op, v) {
        Ok(x) => Some((b, x)),
        Err(_) => None,
    }
}

/// `_ "is" _ ("None" / "none")`: where it ends.
fn is_none_at(s: &Vec<char>, i: usize) -> (r: Option<usize>)
    requires
        i <= s@.len(),
    ensures
        match r {
            Some(j) => is_none(s@, i as int) == Some(j as int) && i < j <= s@.len(),
            None => is_none(s@, i as int) is None,
        },
{
    proof {
        reveal_strlit("is");
    }
    let a = match skip_ws1(s, i) {
        Some(a) => a,
        None => return None,
    };
    let b = match lit(s, a, "is") {
        Some(b) => b,
        None => return None,
    };
    let c = match skip_ws1(s, b) {
        Some(c) => c,
        None => return None,
    };
    match find_lit(s, c, &none_table()) {
        Some((_, d)) => Some(d),
        None => None,
    }
}

/// The views of operator and attribute index pairs.
pub open spec fn pairs_view(v: Seq<(char, usize)>) -> Seq<(char, int)> {
    Seq::new(v.len(), |k: int| (v[k].0, v[k].1 as int))
}

/// The greedy run of `&attr` and `|attr` items at `i`.
fn op_attrs_at(s: &Vec<char>, i: usize, lits: &Vec<&str>) -> (r: (usize, Vec<(char, usize)>))
    requires
        i <= s@.len(),
    ensures
        op_attrs(s@, i as int, strs_view(lits@)) == (r.0 as int, pairs_view(r.1@)),
        i <= r.0 <= s@.len(),
        forall|m: int| 0 <= m < r.1@.len() ==> (#[trigger] r.1@[m]).1 < lits@.len(),
    decreases s@.len() - i,
{
    let len = s.len();
    if i < len && (s[i] == '&' || s[i] == '|') {
        let c = s[i];
        match find_lit(s, i + 1, lits) {
            Some((k, j)) => {
                if i < j && j <= len {
                    let (e, mut rest) = op_attrs_at(s, j, lits);
                    let ghost rv = pairs_view(rest@);
                    let mut v: Vec<(char, usize)> = Vec::new();
                    v.push((c, k));
                    v.append(&mut rest);
                    assert(pairs_view(v@) =~= seq![(c, k as int)] + rv);
                    return (e, v);
                }
            },
            None => {},
        }
    }
    let v: Vec<(char, usize)> = Vec::new();
    assert(pairs_view(v@) =~= Seq::<(char, int)>::empty());
    (i, v)
}

/// The restriction on ebuild metadata as a restriction.
fn ebuild(e: EbuildRestrict) -> (r: Restrict)
    ensures
        r@ == ebuild_leaf(e@),
{
    Restrict::Pkg(PkgRestrict::Ebuild(e))
}

/// The absence restriction of the `k`th optional attribute.
fn missing_restrict(k: usize) -> (r: EbuildRestrict)
    ensures
        r@ == missing_view(k as int),
{
    match k {
        0 => EbuildRestrict::RawSubslot(None),
        1 => EbuildRestrict::Dependencies(None),
        2 => EbuildRestrict::Depend(None),
        3 => EbuildRestrict::Bdepend(None),
        4 => EbuildRestrict::Idepend(None),
        5 => EbuildRestrict::Pdepend(None),
        6 => EbuildRestrict::Rdepend(None),
        7 => EbuildRestrict::License(None),
        8 => EbuildRestrict::Properties(None),
        9 => EbuildRestrict::RequiredUse(None),
        10 => EbuildRestrict::Restrict(None),
        11 => EbuildRestrict::SrcUri(None),
        12 => EbuildRestrict::Homepage(None),
        13 => EbuildRestrict::Iuse(None),
        14 => EbuildRestrict::Inherited(None),
        15 => EbuildRestrict::Inherit(None),
        16 => EbuildRestrict::Keywords(None),
        17 => EbuildRestrict::LongDescription(None),
        _ => EbuildRestrict::Maintainers(None),
    }
}

/// The and of the `&` restrictions with the or of the `|` ones.
fn and_or_restrict(ands: Vec<Restrict>, ors: Vec<Restrict>) -> (r: Restrict)
    ensures
        r@ == and_or(restrict_views(ands@), restrict_views(ors@)),
{
    if ors.len() == 0 {
        Restrict::and(ands)
    } else if ands.len() == 0 {
        Restrict::or(ors)
    } else {
        let a = Restrict::and(ands);
        let o = Restrict::or(ors);
        let ghost av = a@;
        let ghost ov = o@;
        let v = vec![a, o];
        assert(restrict_views(v@) =~= seq![av, ov]);
        Restrict::and(v)
    }
}

/// `attr is none`, or `&attr|attr... is none`, for optional attributes.
#[verifier::loop_isolation(false)]
fn attr_optional_at(s: &Vec<char>, i: usize) -> (r: Parsed)
    requires
        i <= s@.len(),
    ensures
        parsed(r) == attr_optional(s@, i as int),
        r matches Parsed::Done(j, _) ==> i < j <= s@.len(),
{
    let attrs = optional_attr_table();
    match find_lit(s, i, &attrs) {
        Some((k, j)) => match is_none_at(s, j) {
            Some(b) => {
                if k == 19 {
                    return Parsed::Aborted;
                }
                return Parsed::Done(b, ebuild(missing_restrict(k)));
            },
            None => {},
        },
        None => {},
    }
    let (e, vals) = op_attrs_at(s, i, &attrs);
    if vals.len() < 2 {
        return Parsed::Failed;
    }
    let b = match is_none_at(s, e) {
        Some(b) => b,
        None => return Parsed::Failed,
    };
    let ghost pv = pairs_view(vals@);
    let ghost f = |k: int| missing_seq(k);
    let mut ands: Vec<Restrict> = Vec::new();
    let mut ors: Vec<Restrict> = Vec::new();
    let mut n: usize = 0;
    while n < vals.len()
        invariant
            n <= vals@.len(),
            pv == pairs_view(vals@),
            f == (|k: int| missing_seq(k)),
            forall|m: int| 0 <= m < n ==> pv[m].1 != upstream_attr(),
            restrict_views(ands@) == side(pv.take(n as int), '&', f),
            restrict_views(ors@) == side(pv.take(n as int), '|', f),
        decreases vals@.len() - n,
    {
        let (op, k) = vals[n];
        if k == 19 {
            assert(pv[n as int].1 == upstream_attr());
            assert(exists|m: int| 0 <= m < pv.len() && pv[m].1 == upstream_attr());
            return Parsed::Aborted;
        }
        assert(pv.take(n + 1).drop_last() =~= pv.take(n as int));
        assert(pv.take(n + 1).last() == (op, k as int));
        let ghost a0 = restrict_views(ands@);
        let ghost o0 = restrict_views(ors@);
        if op == '&' {
            let x = ebuild(missing_restrict(k));
            ands.push(x);
            assert(restrict_views(ands@) =~= a0 + f(k as int));
            assert(restrict_views(ors@) =~= o0);
        } else if op == '|' {
            let x = ebuild(missing_restrict(k));
            ors.push(x);
            assert(restrict_views(ors@) =~= o0 + f(k as int));
            assert(restrict_views(ands@) =~= a0);
        }
        n += 1;
    }
    assert(pv.take(vals@.len() as int) =~= pv);
    Parsed::Done(b, and_or_restrict(ands, ors))
}

/// `category` or `package` compared as a string.
fn dep_str_at(src: &str, s: &Vec<char>, i: usize) -> (r: Option<(usize, Restrict)>)
    requires
        s@ == src@,
        i <= s@.len(),
    ensures
        match r {
            Some((j, x)) => dep_str(s@, i as int) == Some((j as int, x@)) && i < j <= s@.len(),
            None => dep_str(s@, i as int) is None,
        },
{
    let (k, j) = match find_lit(s, i, &dep_attr_table()) {
        Some(x) => x,
        None => return None,
    };
    let (b, r) = match str_compare_at(src, s, j) {
        Some(x) => x,
        None => return None,
    };
    let d = if k == 0 {
        DepRestrict::Category(r)
    } else {
        DepRestrict::Package(r)
    };
    Some((b, Restrict::Dep(d)))
}

/// `eapi` or `repo` compared as a string.
fn pkg_attr_at(src: &str, s: &Vec<char>, i: usize) -> (r: Option<(usize, Restrict)>)
    requires
        s@ == src@,
        i <= s@.len(),
    ensures
        match r {
            Some((j, x)) => pkg_attr(s@, i as int) == Some((j as int, x@)) && i < j <= s@.len(),
            None => pkg_attr(s@, i as int) is None,
        },
{
    let (k, j) = match find_lit(s, i, &pkg_attr_table()) {
        Some(x) => x,
        None => return None,
    };
    let (b, r) = match str_compare_at(src, s, j) {
        Some(x) => x,
        None => return None,
    };
    let p = if k == 0 {
        PkgRestrict::Eapi(EapiRestrict::Id(r))
    } else {
        PkgRestrict::Repo(r)
    };
    Some((b, Restrict::Pkg(p)))
}

/// The ebuild restriction on the `k`th string attribute.
fn str_attr_restrict(k: usize, r: StrRestrict) -> (e: EbuildRestrict)
    ensures
        e@ == str_attr_view(k as int, r@),
{
    match k {
        0 => EbuildRestrict::Ebuild(r),
        1 => EbuildRestrict::Description(r),
        2 => EbuildRestrict::Slot(r),
        3 => EbuildRestrict::Subslot(r),
        _ => EbuildRestrict::LongDescription(Some(r)),
    }
}

/// An ebuild string attribute compared as a string.
fn attr_str_at(src: &str, s: &Vec<char>, i: usize) -> (r: Option<(usize, Restrict)>)
    requires
        s@ == src@,
        i <= s@.len(),
    ensures
        match r {
            Some((j, x)) => attr_str(s@, i as int) == Some((j as int, x@)) && i < j <= s@.len(),
            None => attr_str(s@, i as int) is None,
        },
{
    let (k, j) = match find_lit(s, i, &str_attr_table()) {
        Some(x) => x,
        None => return None,
    };
    let (b, r) = match str_compare_at(src, s, j) {
        Some(x) => x,
        None => return None,
    };
    Some((b, ebuild(str_attr_restrict(k, r))))
}

/// The ebuild restriction on the `k`th string set attribute.
fn depset_str_restrict(k: usize, r: DepSetRestrict<StrRestrict>) -> (e: EbuildRestrict)
    ensures
        e@ == depset_str_view(k as int, r@),
{
    match k {
        0 => EbuildRestrict::License(Some(r)),
        1 => EbuildRestrict::Properties(Some(r)),
        2 => EbuildRestrict::RequiredUse(Some(r)),
        _ => EbuildRestrict::Restrict(Some(r)),
    }
}

/// `attr any op "s"` or `attr contains op "s"` on a string set attribute.
fn depset_str_at(src: &str, s: &Vec<char>, i: usize) -> (r: Option<(usize, Restrict)>)
    requires
        s@ == src@,
        i <= s@.len(),
    ensures
        match r {
            Some((j, x)) => depset_str(s@, i as int) == Some((j as int, x@)) && i < j <= s@.len(),
            None => depset_str(s@, i as int) is None,
        },
{
    let (k, j) = match find_lit(s, i, &depset_str_attr_table()) {
        Some(x) => x,
        None => return None,
    };
    let a = match skip_ws1(s, j) {
        Some(a) => a,
        None => return None,
    };
    let (kind, b) = match find_lit(s, a, &depset_kind_table()) {
        Some(x) => x,
        None => return None,
    };
    let c = match skip_ws1(s, b) {
        Some(c) => c,
        None => return None,
    };
    let (d, r) = match str_compare_at(src, s, c) {
        Some(x) => x,
        None => return None,
    };
    let ds = if kind == 0 {
        DepSetRestrict::Any(r)
    } else {
        DepSetRestrict::Contains(r)
    };
    Some((d, ebuild(depset_str_restrict(k, ds))))
}

/// The ebuild restriction on the `k`th dependency attribute.
fn depset_dep_restrict(k: usize, r: DepSetRestrict<DepRestrict>) -> (e: EbuildRestrict)
    ensures
        e@ == depset_dep_view(k as int, r@),
{
    match k {
        0 => EbuildRestrict::Dependencies(Some(r)),
        1 => EbuildRestrict::Depend(Some(r)),
        2 => EbuildRestrict::Bdepend(Some(r)),
        3 => EbuildRestrict::Idepend(Some(r)),
        4 => EbuildRestrict::Pdepend(Some(r)),
        _ => EbuildRestrict::Rdepend(Some(r)),
    }
}

/// `any` restrictions on the `k`th dependency attribute, one per dependency restriction.
fn any_deps_restricts(k: usize, rs: Vec<DepRestrict>) -> (out: Vec<Restrict>)
    ensures
        restrict_views(out@) == any_deps(k as int, dep_views(rs@)),
{
    let ghost rv = dep_views(rs@);
    let ghost target = any_deps(k as int, rv);
    let mut out: Vec<Restrict> = Vec::new();
    for r in it: rs
        invariant
            it.seq() == rs@,
            rv == dep_views(rs@),
            target == any_deps(k as int, rv),
            restrict_views(out@) == target.take(it.index() as int),
    {
        let ghost n = it.index() as int;
        let ghost before = restrict_views(out@);
        assert(r == rs@[n]);
        assert(rv[n] == r@);
        let x = ebuild(depset_dep_restrict(k, DepSetRestrict::Any(r)));
        out.push(x);
        assert(restrict_views(out@) =~= before.push(target[n]));
        assert(target.take(n + 1) =~= target.take(n).push(target[n]));
    }
    assert(target.take(rv.len() as int) =~= target);
    out
}

/// `_ "any" _ "glob"`: where it ends, the glob, and its dependency restrictions.
fn any_glob_at<'a>(src: &'a str, s: &Vec<char>, j: usize) -> (r: Option<
    (usize, &'a str, Vec<DepRestrict>),
>)
    requires
        s@ == src@,
        j <= s@.len(),
    ensures
        match r {
            Some((d, v, rs)) => any_glob(s@, j as int) == Some((d as int, dep_views(rs@)))
                && spec_restricts(v@) == Some(dep_views(rs@)) && j < d <= s@.len(),
            None => any_glob(s@, j as int) is None,
        },
{
    proof {
        reveal_strlit("any");
    }
    let a = match skip_ws1(s, j) {
        Some(a) => a,
        None => return None,
    };
    let b = match lit(s, a, "any") {
        Some(b) => b,
        None => return None,
    };
    let c = match skip_ws1(s, b) {
        Some(c) => c,
        None => return None,
    };
    let (d, v) = match quoted_at(src, s, c) {
        Some(x) => x,
        None => return None,
    };
    match restricts(v) {
        Ok(rs) => Some((d, v, rs)),
        Err(_) => None,
    }
}

/// Restrictions on dependency attributes: `attr any "glob"`, `attr contains op "s"`, or
/// `&attr|attr... any "glob"`.
#[verifier::loop_isolation(false)]
fn depset_dep_at(src: &str, s: &Vec<char>, i: usize) -> (r: Option<(usize, Restrict)>)
    requires
        s@ == src@,
        i <= s@.len(),
    ensures
        match r {
            Some((j, x)) => depset_dep(s@, i as int) == Some((j as int, x@)) && i < j <= s@.len(),
            None => depset_dep(s@, i as int) is None,
        },
{
    proof {
        reveal_strlit("contains");
    }
    let attrs = depset_dep_attr_table();
    match find_lit(s, i, &attrs) {
        Some((k, j)) => {
            match any_glob_at(src, s, j) {
                Some((d, _, rs)) => {
                    let out = any_deps_restricts(k, rs);
                    return Some((d, Restrict::and(out)));
                },
                None => {},
            }
            let contains: Option<(usize, Restrict)> = match skip_ws1(s, j) {
                Some(a) => match lit(s, a, "contains") {
                    Some(b) => match skip_ws1(s, b) {
                        Some(c) => match str_compare_at(src, s, c) {
                            Some((d, r)) => Some(
                                (d, ebuild(depset_dep_restrict(k, DepSetRestrict::Contains(r)))),
                            ),
                            None => None,
                        },
                        None => None,
                    },
                    None => None,
                },
                None => None,
            };
            if contains.is_some() {
                return contains;
            }
        },
        None => {},
    }
    let (e, vals) = op_attrs_at(s, i, &attrs);
    if vals.len() < 2 {
        return None;
    }
    let (d, v, rs) = match any_glob_at(src, s, e) {
        Some(x) => x,
        None => return None,
    };
    let ghost rv = dep_views(rs@);
    let ghost pv = pairs_view(vals@);
    let ghost f = |k: int| any_deps(k, rv);
    let mut ands: Vec<Restrict> = Vec::new();
    let mut ors: Vec<Restrict> = Vec::new();
    let mut n: usize = 0;
    while n < vals.len()
        invariant
            n <= vals@.len(),
            pv == pairs_view(vals@),
            f == (|k: int| any_deps(k, rv)),
            spec_restricts(v@) == Some(rv),
            restrict_views(ands@) == side(pv.take(n as int), '&', f),
            restrict_views(ors@) == side(pv.take(n as int), '|', f),
        decreases vals@.len() - n,
    {
        let (op, k) = vals[n];
        assert(pv.take(n + 1).drop_last() =~= pv.take(n as int));
        assert(pv.take(n + 1).last() == (op, k as int));
        let ghost a0 = restrict_views(ands@);
        let ghost o0 = restrict_views(ors@);
        let again = match restricts(v) {
            Ok(x) => x,
            Err(_) => return None,
        };
        let mut xs = any_deps_restricts(k, again);
        let ghost xv = restrict_views(xs@);
        if op == '&' {
            ands.append(&mut xs);
            assert(restrict_views(ands@) =~= a0 + xv);
            assert(restrict_views(ors@) =~= o0);
        } else if op == '|' {
            ors.append(&mut xs);
            assert(restrict_views(ors@) =~= o0 + xv);
            assert(restrict_views(ands@) =~= a0);
        }
        n += 1;
    }
    assert(pv.take(vals@.len() as int) =~= pv);
    Some((d, and_or_restrict(ands, ors)))
}

/// A set operator with whitespace around it: where it ends and the operator.
fn set_op_at<'a>(src: &'a str, s: &Vec<char>, i: usize) -> (r: Option<(usize, &'a str)>)
    requires
        s@ == src@,
        i <= s@.len(),
    ensures
        match r {
            Some((j, op)) => set_op(s@, i as int) == Some((j as int, op@)) && i <= j <= s@.len()
                && is_set_op(op@),
            None => set_op(s@, i as int) is None,
        },
{
    proof {
        reveal_strlit("<");
        reveal_strlit("<=");
        reveal_strlit("==");
        reveal_strlit(">=");
        reveal_strlit(">");
        reveal_strlit("%");
    }
    let len = s.len();
    let a = skip_ws(s, i);
    let b: usize;
    if a < len && (s[a] == '<' || s[a] == '>') {
        if a + 1 < len && s[a + 1] == '=' {
            b = a + 2;
            proof {
                let sub = s@.subrange(a as int, b as int);
                if s@[a as int] == '<' {
                    assert(sub =~= "<="@);
                } else {
                    assert(sub =~= ">="@);
                }
            }
        } else {
            b = a + 1;
            proof {
                let sub = s@.subrange(a as int, b as int);
                if s@[a as int] == '<' {
                    assert(sub =~= "<"@);
                } else {
                    assert(sub =~= ">"@);
                }
            }
        }
    } else {
        match lit(s, a, "==") {
            Some(e) => {
                b = e;
            },
            None => {
                if a < len && s[a] == '%' {
                    b = a + 1;
                    assert(s@.subrange(a as int, b as int) =~= "%"@);
                } else {
                    return None;
                }
            },
        }
    }
    let op = src.substring_char(a, b);
    Some((skip_ws(s, b), op))
}

/// The quoted strings that follow `,` separators from `j`.
fn quoted_more_at<'a>(src: &'a str, s: &Vec<char>, j: usize) -> (r: (usize, Vec<&'a str>))
    requires
        s@ == src@,
        j <= s@.len(),
    ensures
        quoted_more(s@, j as int) == (r.0 as int, strs_view(r.1@)),
        j <= r.0 <= s@.len(),
    decreases s@.len() - j,
{
    let len = s.len();
    let a = skip_ws(s, j);
    if a < len && s[a] == ',' {
        let b = skip_ws(s, a + 1);
        match quoted_at(src, s, b) {
            Some((c, v)) => {
                if j < c && c <= len {
                    let (e, mut rest) = quoted_more_at(src, s, c);
                    let ghost rv = strs_view(rest@);
                    let mut out: Vec<&'a str> = Vec::new();
                    out.push(v);
                    out.append(&mut rest);
                    assert(strs_view(out@) =~= seq![v@] + rv);
                    return (e, out);
                }
            },
            None => {},
        }
    }
    let out: Vec<&'a str> = Vec::new();
    assert(strs_view(out@) =~= Seq::<Seq<char>>::empty());
    (j, out)
}

/// `{"a", "b"}` with whitespace around: where it ends and the values.
fn quoted_set_at<'a>(src: &'a str, s: &Vec<char>, i: usize) -> (r: Option<(usize, Vec<&'a str>)>)
    requires
        s@ == src@,
        i <= s@.len(),
    ensures
        match r {
            Some((j, vals)) => quoted_set(s@, i as int) == Some((j as int, strs_view(vals@)))
                && i < j <= s@.len(),
            None => quoted_set(s@, i as int) is None,
        },
{
    let len = s.len();
    let a = skip_ws(s, i);
    if !(a < len && s[a] == '{') {
        return None;
    }
    let (k, vals) = match quoted_at(src, s, a + 1) {
        Some((j, v)) => {
            let (e, mut rest) = quoted_more_at(src, s, j);
            let ghost rv = strs_view(rest@);
            let mut out: Vec<&'a str> = Vec::new();
            out.push(v);
            out.append(&mut rest);
            assert(strs_view(out@) =~= seq![v@] + rv);
            (e, out)
        },
        None => {
            let out: Vec<&'a str> = Vec::new();
            assert(strs_view(out@) =~= Seq::<Seq<char>>::empty());
            (a + 1, out)
        },
    };
    if k < len && s[k] == '}' {
        Some((skip_ws(s, k + 1), vals))
    } else {
        None
    }
}

/// The ebuild restriction on the `k`th ordered set attribute.
fn set_attr_restrict(k: usize, r: OrderedSetRestrict) -> (e: EbuildRestrict)
    ensures
        e@ == set_attr_view(k as int, r@),
{
    match k {
        0 => EbuildRestrict::Homepage(Some(r)),
        1 => EbuildRestrict::Iuse(Some(r)),
        2 => EbuildRestrict::Inherited(Some(r)),
        3 => EbuildRestrict::Inherit(Some(r)),
        _ => EbuildRestrict::Keywords(Some(r)),
    }
}

/// An ordered set attribute compared with a set of strings.
fn set_attr_at(src: &str, s: &Vec<char>, i: usize) -> (r: Option<(usize, Restrict)>)
    requires
        s@ == src@,
        i <= s@.len(),
    ensures
        match r {
            Some((j, x)) => set_attr(s@, i as int) == Some((j as int, x@)) && i < j <= s@.len(),
            None => set_attr(s@, i as int) is None,
        },
{
    let (k, j) = match find_lit(s, i, &set_attr_table()) {
        Some(x) => x,
        None => return None,
    };
    let (a, op) = match set_op_at(src, s, j) {
        Some(x) => x,
        None => return None,
    };
    let (b, vals) = match quoted_set_at(src, s, a) {
        Some(x) => x,
        None => return None,
    };
    let set = orderedset_restrict(op, vals.as_slice());
    Some((b, ebuild(set_attr_restrict(k, set))))
}

/// A count comparison operator with whitespace around it: where it ends and the
/// orderings it accepts.
fn number_op_at(s: &Vec<char>, i: usize) -> (r: Option<(usize, Vec<LenOrder>)>)
    requires
        i <= s@.len(),
    ensures
        match r {
            Some((j, v)) => number_op(s@, i as int) == Some((j as int, v@)) && i <= j <= s@.len(),
            None => number_op(s@, i as int) is None,
        },
{
    proof {
        reveal_strlit("!=");
        reveal_strlit("==");
    }
    let len = s.len();
    let a = skip_ws(s, i);
    let (b, v) = if a < len && s[a] == '<' {
        if a + 1 < len && s[a + 1] == '=' {
            (a + 2, vec![LenOrder::Less, LenOrder::Equal])
        } else {
            (a + 1, vec![LenOrder::Less])
        }
    } else if a < len && s[a] == '>' {
        if a + 1 < len && s[a + 1] == '=' {
            (a + 2, vec![LenOrder::Greater, LenOrder::Equal])
        } else {
            (a + 1, vec![LenOrder::Greater])
        }
    } else if a < len && a + 1 < len && s[a] == '!' && s[a + 1] == '=' {
        assert(s@.subrange(a as int, a + 2) =~= "!="@);
        (a + 2, vec![LenOrder::Less, LenOrder::Greater])
    } else if a < len && a + 1 < len && s[a] == '=' && s[a + 1] == '=' {
        assert(s@.subrange(a as int, a + 2) =~= "=="@);
        (a + 2, vec![LenOrder::Equal])
    } else {
        proof {
            if lit_at(s@, a as int, "!="@) || lit_at(s@, a as int, "=="@) {
                assert(s@.subrange(a as int, a + 2)[0] == s@[a as int]);
                assert(s@.subrange(a as int, a + 2)[1] == s@[a + 1]);
            }
        }
        return None;
    };
    proof {
        if !(a < len && (s@[a as int] == '<' || s@[a as int] == '>')) && lit_at(s@, a as int, "!="@) {
            assert(s@.subrange(a as int, a + 2)[0] == s@[a as int]);
        }
    }
    Some((skip_ws(s, b), v))
}

/// A count comparison such as `>= 2`.
fn count_at(s: &Vec<char>, i: usize) -> (r: Option<(usize, OrderedRestrict<MaintainerRestrict>)>)
    requires
        i <= s@.len(),
    ensures
        match r {
            Some((j, x)) => count(s@, i as int) == Some((j as int, x@)) && i < j <= s@.len(),
            None => count(s@, i as int) is None,
        },
{
    let (a, orders) = match number_op_at(s, i) {
        Some(x) => x,
        None => return None,
    };
    let b = scan(s, a, CharClass::Digit);
    if b <= a {
        return None;
    }
    proof {
        super::lemma_span_bounds(s@, a as int, CharClass::Digit);
    }
    match super::digits_to_u64(s, a, b) {
        Some(v) => {
            if v <= usize::MAX as u64 {
                Some((b, OrderedRestrict::Count(orders, v as usize)))
            } else {
                None
            }
        },
        None => None,
    }
}

/// `name is none` or `description is none` for a maintainer.
fn maint_optional_at(s: &Vec<char>, i: usize) -> (r: Option<(usize, MaintainerRestrict)>)
    requires
        i <= s@.len(),
    ensures
        match r {
            Some((j, x)) => maint_optional(s@, i as int) == Some((j as int, x@)) && i < j
                <= s@.len(),
            None => maint_optional(s@, i as int) is None,
        },
{
    let (k, j) = match find_lit(s, i, &maint_optional_table()) {
        Some(x) => x,
        None => return None,
    };
    let b = match is_none_at(s, j) {
        Some(b) => b,
        None => return None,
    };
    let m = if k == 0 {
        MaintainerRestrict::Name(None)
    } else {
        MaintainerRestrict::Description(None)
    };
    Some((b, m))
}

/// The maintainer restriction on the `k`th maintainer attribute.
fn maint_restrict(k: usize, r: StrRestrict) -> (m: MaintainerRestrict)
    ensures
        m@ == maint_view(k as int, r@),
{
    match k {
        0 => MaintainerRestrict::Email(r),
        1 => MaintainerRestrict::Name(Some(r)),
        2 => MaintainerRestrict::Description(Some(r)),
        3 => MaintainerRestrict::Type(r),
        _ => MaintainerRestrict::Proxied(r),
    }
}

/// A maintainer attribute compared as a string.
fn maint_compare_at(src: &str, s: &Vec<char>, i: usize) -> (r: Option<(usize, MaintainerRestrict)>)
    requires
        s@ == src@,
        i <= s@.len(),
    ensures
        match r {
            Some((j, x)) => maint_compare(s@, i as int) == Some((j as int, x@)) && i < j
                <= s@.len(),
            None => maint_compare(s@, i as int) is None,
        },
{
    let (k, j) = match find_lit(s, i, &maint_attr_table()) {
        Some(x) => x,
        None => return None,
    };
    let (b, r) = match str_compare_at(src, s, j) {
        Some(x) => x,
        None => return None,
    };
    Some((b, maint_restrict(k, r)))
}

/// A single maintainer restriction.
fn maint_item_at(src: &str, s: &Vec<char>, i: usize) -> (r: Option<(usize, MaintainerRestrict)>)
    requires
        s@ == src@,
        i <= s@.len(),
    ensures
        match r {
            Some((j, x)) => maint_item(s@, i as int) == Some((j as int, x@)) && i < j <= s@.len()
                && !(x is And),
            None => maint_item(s@, i as int) is None,
        },
{
    match maint_optional_at(s, i) {
        Some(x) => Some(x),
        None => maint_compare_at(src, s, i),
    }
}

/// The maintainer restrictions that follow `&&` separators from `j`.
fn maint_more_at(src: &str, s: &Vec<char>, j: usize) -> (r: (usize, Vec<MaintainerRestrict>))
    requires
        s@ == src@,
        j <= s@.len(),
    ensures
        maint_more(s@, j as int) == (r.0 as int, maintainer_views(r.1@)),
        j <= r.0 <= s@.len(),
    decreases s@.len() - j,
{
    let len = s.len();
    let a = skip_ws(s, j);
    match lit(s, a, "&&") {
        Some(a2) => {
            proof {
                reveal_strlit("&&");
            }
            let b = skip_ws(s, a2);
            match maint_item_at(src, s, b) {
                Some((c, m)) => {
                    if j < c && c <= len {
                        let (e, mut rest) = maint_more_at(src, s, c);
                        let ghost rv = maintainer_views(rest@);
                        let ghost mv = m@;
                        let mut out: Vec<MaintainerRestrict> = Vec::new();
                        out.push(m);
                        out.append(&mut rest);
                        assert(maintainer_views(out@) =~= seq![mv] + rv);
                        return (e, out);
                    }
                },
                None => {},
            }
        },
        None => {},
    }
    let out: Vec<MaintainerRestrict> = Vec::new();
    assert(maintainer_views(out@) =~= Seq::<MaintainerRestrictView>::empty());
    (j, out)
}

/// The conjunction of at least one maintainer restriction.
fn maint_and_restrict(vals: Vec<MaintainerRestrict>) -> (r: MaintainerRestrict)
    requires
        vals@.len() >= 1,
    ensures
        r@ == maint_and(maintainer_views(vals@)),
{
    let ghost mv = maintainer_views(vals@);
    let mut vals = vals;
    if vals.len() == 1 {
        let r = vals.pop().unwrap();
        assert(r@ == mv[0]);
        return r;
    }
    let mut boxed: Vec<Box<MaintainerRestrict>> = Vec::new();
    for m in it: vals
        invariant
            it.seq().len() == mv.len(),
            forall|k: int| 0 <= k < mv.len() ==> (#[trigger] it.seq()[k])@ == mv[k],
            boxed@.len() == it.index(),
            forall|k: int| 0 <= k < it.index() ==> (#[trigger] boxed@[k]).spec_view() == mv[k],
    {
        let ghost n = it.index() as int;
        assert(m@ == mv[n]);
        boxed.push(Box::new(m));
    }
    let r = MaintainerRestrict::And(boxed);
    assert(r@->And_0 =~= mv);
    r
}

/// A maintainer restriction, or a parenthesized `&&` conjunction of them.
fn maint_expr_at(src: &str, s: &Vec<char>, i: usize) -> (r: Option<(usize, MaintainerRestrict)>)
    requires
        s@ == src@,
        i <= s@.len(),
    ensures
        match r {
            Some((j, x)) => maint_expr(s@, i as int) == Some((j as int, x@)) && i < j <= s@.len(),
            None => maint_expr(s@, i as int) is None,
        },
{
    match maint_item_at(src, s, i) {
        Some(x) => return Some(x),
        None => {},
    }
    let len = s.len();
    let a = skip_ws(s, i);
    if !(a < len && s[a] == '(') {
        return None;
    }
    let (j, m) = match maint_item_at(src, s, skip_ws(s, a + 1)) {
        Some(x) => x,
        None => return None,
    };
    let (c, mut rest) = maint_more_at(src, s, j);
    let ghost rv = maintainer_views(rest@);
    let ghost mv = m@;
    let d = skip_ws(s, c);
    if !(d < len && s[d] == ')') {
        return None;
    }
    let mut all: Vec<MaintainerRestrict> = Vec::new();
    all.push(m);
    all.append(&mut rest);
    assert(maintainer_views(all@) =~= seq![mv] + rv);
    Some((skip_ws(s, d + 1), maint_and_restrict(all)))
}

/// `_ any|all|first|last _ expr` on the maintainers.
fn ordered_at(src: &str, s: &Vec<char>, i: usize) -> (r: Option<(usize, OrderedRestrict<MaintainerRestrict>)>)
    requires
        s@ == src@,
        i <= s@.len(),
    ensures
        match r {
            Some((j, x)) => ordered(s@, i as int) == Some((j as int, x@)) && i < j <= s@.len(),
            None => ordered(s@, i as int) is None,
        },
{
    let a = match skip_ws1(s, i) {
        Some(a) => a,
        None => return None,
    };
    let (k, b) = match find_lit(s, a, &ordered_op_table()) {
        Some(x) => x,
        None => return None,
    };
    let c = match skip_ws1(s, b) {
        Some(c) => c,
        None => return None,
    };
    let (d, m) = match maint_expr_at(src, s, c) {
        Some(x) => x,
        None => return None,
    };
    let o = if k == 0 {
        OrderedRestrict::Any(m)
    } else if k == 1 {
        OrderedRestrict::All(m)
    } else if k == 2 {
        OrderedRestrict::First(m)
    } else {
        OrderedRestrict::Last(m)
    };
    Some((d, o))
}

/// `maintainers` followed by an ordered restriction or a count.
fn maintainers_at(src: &str, s: &Vec<char>, i: usize) -> (r: Option<(usize, Restrict)>)
    requires
        s@ == src@,
        i <= s@.len(),
    ensures
        match r {
            Some((j, x)) => maintainers(s@, i as int) == Some((j as int, x@)) && i < j <= s@.len(),
            None => maintainers(s@, i as int) is None,
        },
{
    let j = match lit(s, i, "maintainers") {
        Some(j) => j,
        None => return None,
    };
    let r = match ordered_at(src, s, j) {
        Some(x) => Some(x),
        None => count_at(s, j),
    };
    match r {
        Some((e, o)) => Some((e, ebuild(EbuildRestrict::Maintainers(Some(o))))),
        None => None,
    }
}

/// The attribute expressions other than absence tests, tried in order.
fn expr_rest_at(src: &str, s: &Vec<char>, i: usize) -> (r: Option<(usize, Restrict)>)
    requires
        s@ == src@,
        i <= s@.len(),
    ensures
        match r {
            Some((j, x)) => expr_rest(s@, i as int) == Some((j as int, x@)) && i < j <= s@.len(),
            None => expr_rest(s@, i as int) is None,
        },
{
    match dep_str_at(src, s, i) {
        Some(x) => return Some(x),
        None => {},
    }
    match attr_str_at(src, s, i) {
        Some(x) => return Some(x),
        None => {},
    }
    match depset_dep_at(src, s, i) {
        Some(x) => return Some(x),
        None => {},
    }
    match depset_str_at(src, s, i) {
        Some(x) => return Some(x),
        None => {},
    }
    match set_attr_at(src, s, i) {
        Some(x) => return Some(x),
        None => {},
    }
    match maintainers_at(src, s, i) {
        Some(x) => return Some(x),
        None => {},
    }
    pkg_attr_at(src, s, i)
}

/// An attribute expression.
fn expression_at(src: &str, s: &Vec<char>, i: usize) -> (r: Parsed)
    requires
        s@ == src@,
        i <= s@.len(),
    ensures
        parsed(r) == expression(s@, i as int),
        r matches Parsed::Done(j, _) ==> i < j <= s@.len(),
{
    match attr_optional_at(s, i) {
        Parsed::Failed => match expr_rest_at(src, s, i) {
            Some((j, r)) => Parsed::Done(j, r),
            None => Parsed::Failed,
        },
        o => o,
    }
}

/// An expression whose operators bind at least as tightly as level `m` at `i`.
fn prec_at(src: &str, s: &Vec<char>, m: usize, i: usize) -> (r: Parsed)
    requires
        s@ == src@,
        i <= s@.len(),
    ensures
        parsed(r) == prec(s@, m as int, i as int),
        r matches Parsed::Done(j, _) ==> i < j <= s@.len(),
    decreases s@.len() - i, 2int,
{
    let len = s.len();
    if i >= len {
        return Parsed::Failed;
    }
    let init = if s[i] == '!' {
        match prec_at(src, s, 3, i + 1) {
            Parsed::Done(j, x) => Parsed::Done(j, Restrict::not(x)),
            Parsed::Aborted => Parsed::Aborted,
            Parsed::Failed => atom_at(src, s, i),
        }
    } else {
        atom_at(src, s, i)
    };
    match init {
        Parsed::Done(j, x) => {
            if i < j && j <= len {
                infix_at(src, s, m, j, x)
            } else {
                Parsed::Failed
            }
        },
        o => o,
    }
}

/// A parenthesized query or an attribute expression at `i`.
fn atom_at(src: &str, s: &Vec<char>, i: usize) -> (r: Parsed)
    requires
        s@ == src@,
        i <= s@.len(),
    ensures
        parsed(r) == atom(s@, i as int),
        r matches Parsed::Done(j, _) ==> i < j <= s@.len(),
    decreases s@.len() - i, 1int,
{
    match paren_query_at(src, s, i) {
        Parsed::Failed => expression_at(src, s, i),
        o => o,
    }
}

/// A parenthesized query with whitespace around it.
fn paren_query_at(src: &str, s: &Vec<char>, i: usize) -> (r: Parsed)
    requires
        s@ == src@,
        i <= s@.len(),
    ensures
        parsed(r) == paren_query(s@, i as int),
        r matches Parsed::Done(j, _) ==> i < j <= s@.len(),
    decreases s@.len() - i, 0int,
{
    let len = s.len();
    let a = skip_ws(s, i);
    if !(a < len && s[a] == '(') {
        return Parsed::Failed;
    }
    let b = skip_ws(s, a + 1);
    if !(i < b && b <= len) {
        return Parsed::Failed;
    }
    match prec_at(src, s, 0, b) {
        Parsed::Done(c, v) => {
            let d = skip_ws(s, c);
            if d < len && s[d] == ')' {
                Parsed::Done(skip_ws(s, d + 1), v)
            } else {
                Parsed::Failed
            }
        },
        o => o,
    }
}

/// The binary operator at level `l`, if `m` admits it, applied to `x` and the operand
/// that follows `j`. Where no such operator applies, the left operand is handed back
/// for the next try.
fn infix_step_at(src: &str, s: &Vec<char>, m: usize, l: usize, j: usize, x: Restrict) -> (r: (
    Parsed,
    Option<Restrict>,
))
    requires
        s@ == src@,
        j <= s@.len(),
        l <= 2,
    ensures
        parsed(r.0) == infix_step(s@, m as int, l as int, j as int, x@),
        r.0 matches Parsed::Done(c, _) ==> j < c <= s@.len(),
        r.0 is Failed ==> (r.1 matches Some(y) && y@ == x@),
    decreases s@.len() - j, 0int,
{
    proof {
        reveal_strlit("||");
        reveal_strlit("^^");
        reveal_strlit("&&");
    }
    let len = s.len();
    let a = skip_ws(s, j);
    let text = if l == 0 {
        "||"
    } else if l == 1 {
        "^^"
    } else {
        "&&"
    };
    if !(m <= l) {
        return (Parsed::Failed, Some(x));
    }
    let a2 = match lit(s, a, text) {
        Some(a2) => a2,
        None => return (Parsed::Failed, Some(x)),
    };
    let b = skip_ws(s, a2);
    if !(j < b && b <= len) {
        return (Parsed::Failed, Some(x));
    }
    match prec_at(src, s, l + 1, b) {
        Parsed::Done(c, y) => {
            let ghost xv = x@;
            let ghost yv = y@;
            let v = vec![x, y];
            assert(restrict_views(v@) =~= seq![xv, yv]);
            let z = if l == 0 {
                Restrict::or(v)
            } else if l == 1 {
                Restrict::xor(v)
            } else {
                Restrict::and(v)
            };
            (Parsed::Done(c, z), None)
        },
        Parsed::Aborted => (Parsed::Aborted, None),
        Parsed::Failed => (Parsed::Failed, Some(x)),
    }
}

/// The binary operators that follow the operand `x` ending at `j`, left to right.
fn infix_at(src: &str, s: &Vec<char>, m: usize, j: usize, x: Restrict) -> (r: Parsed)
    requires
        s@ == src@,
        j <= s@.len(),
    ensures
        parsed(r) == infix(s@, m as int, j as int, x@),
        r matches Parsed::Done(c, _) ==> j <= c <= s@.len(),
    decreases s@.len() - j, 1int,
{
    let len = s.len();
    let ghost xv = x@;
    let (t, back) = infix_step_at(src, s, m, 0, j, x);
    let (t, back) = match t {
        Parsed::Failed => match back {
            Some(x) => infix_step_at(src, s, m, 1, j, x),
            None => return Parsed::Failed,
        },
        o => (o, back),
    };
    let (t, back) = match t {
        Parsed::Failed => match back {
            Some(x) => infix_step_at(src, s, m, 2, j, x),
            None => return Parsed::Failed,
        },
        o => (o, back),
    };
    match t {
        Parsed::Done(c, z) => {
            if j < c && c <= len {
                infix_at(src, s, m, c, z)
            } else {
                Parsed::Failed
            }
        },
        Parsed::Aborted => Parsed::Aborted,
        Parsed::Failed => match back {
            Some(x) => Parsed::Done(j, x),
            None => Parsed::Failed,
        },
    }
}

/// Converts a package query string into a restriction.
///
/// A query is one or more attribute expressions combined with `||`, `^^`, `&&`, a
/// prefix `!` and parentheses, such as `category == "cat" && !slot == "1"`; fails,
/// with the message `invalid package query: ` followed by the query, where the string is
/// no query. A query that reaches an absence test of `upstream` has no restriction to
/// stand for and fails in the same way; only a query that mentions `upstream` can reach
/// one ([`query_aborts_only_on_upstream`]).
pub fn pkg(s: &str) -> (r: crate::Result<Restrict>)
    ensures
        match r {
            Ok(x) => spec_pkg(s@) == Some(x@),
            Err(e) => spec_pkg(s@) is None && e.spec_message() == "invalid package query: "@
                + s@,
        },
{
    let chars = str_to_chars(s);
    match prec_at(s, &chars, 0, 0) {
        Parsed::Done(j, r) => {
            if j == chars.len() {
                return Ok(r);
            }
        },
        _ => {},
    }
    let mut msg = "invalid package query: ".to_owned();
    msg.append(s);
    proof {
        reveal_strlit("invalid package query: ");
    }
    Err(crate::error::Error::InvalidValue(msg))
}

/// Whether a count `n` satisfies a count restriction with the orderings `orders` against
/// the number `k`: how `n` compares to `k` is one of them.
pub open spec fn count_accepts(orders: Seq<LenOrder>, n: int, k: int) -> bool {
    orders.contains(length_order(n, k))
}

/// The orderings and number of the count comparison parsed at `i`.
pub open spec fn parsed_count(s: Seq<char>, i: int) -> (Seq<LenOrder>, int) {
    match count(s, i) {
        Some((_, OrderedRestrictView::Count(orders, k))) => (orders, k as int),
        _ => (seq![], 0),
    }
}

/// A count comparison in a query takes the counts that compare to its number as its
/// operator says: `<` exactly the smaller ones, `<=` the smaller and equal ones, `>` the
/// greater ones, `>=` the greater and equal ones, `==` the equal one and `!=` all others.
pub proof fn count_operators_compare(s: Seq<char>, i: int, n: int)
    requires
        0 <= i <= s.len(),
        count(s, i) is Some,
    ensures
        ({
            let a = ws(s, i);
            let orders = parsed_count(s, i).0;
            let k = parsed_count(s, i).1;
            &&& count(s, i) matches Some((_, r)) && r is Count
            &&& (a < s.len() && s[a] == '<' && !(a + 1 < s.len() && s[a + 1] == '='))
                ==> (count_accepts(orders, n, k) <==> n < k)
            &&& (a + 1 < s.len() && s[a] == '<' && s[a + 1] == '=') ==> (count_accepts(
                orders,
                n,
                k,
            ) <==> n <= k)
            &&& (a < s.len() && s[a] == '>' && !(a + 1 < s.len() && s[a + 1] == '='))
                ==> (count_accepts(orders, n, k) <==> n > k)
            &&& (a + 1 < s.len() && s[a] == '>' && s[a + 1] == '=') ==> (count_accepts(
                orders,
                n,
                k,
            ) <==> n >= k)
            &&& (a + 1 < s.len() && s[a] == '=' && s[a + 1] == '=') ==> (count_accepts(
                orders,
                n,
                k,
            ) <==> n == k)
            &&& (a + 1 < s.len() && s[a] == '!' && s[a + 1] == '=') ==> (count_accepts(
                orders,
                n,
                k,
            ) <==> n != k)
        }),
{
    reveal_strlit("!=");
    reveal_strlit("==");
    let a = ws(s, i);
    let orders = parsed_count(s, i).0;
    let k = parsed_count(s, i).1;
    if lit_at(s, a, "!="@) {
        assert(s.subrange(a, a + 2)[0] == s[a]);
        assert(s.subrange(a, a + 2)[1] == s[a + 1]);
    }
    if lit_at(s, a, "=="@) {
        assert(s.subrange(a, a + 2)[0] == s[a]);
        assert(s.subrange(a, a + 2)[1] == s[a + 1]);
    }
    if a + 1 < s.len() && s[a] == '!' && s[a + 1] == '=' {
        assert(s.subrange(a, a + 2) =~= "!="@);
    }
    if a + 1 < s.len() && s[a] == '=' && s[a + 1] == '=' {
        assert(s.subrange(a, a + 2) =~= "=="@);
    }
    let l = length_order(n, k);
    if orders.len() > 0 && l == orders[0] {
        assert(orders.contains(l));
    }
    if orders.len() > 1 && l == orders[1] {
        assert(orders.contains(l));
    }
    assert(seq![LenOrder::Less][0] == LenOrder::Less);
    assert(seq![LenOrder::Greater][0] == LenOrder::Greater);
    assert(seq![LenOrder::Equal][0] == LenOrder::Equal);
    assert(seq![LenOrder::Less, LenOrder::Equal][1] == LenOrder::Equal);
    assert(seq![LenOrder::Less, LenOrder::Greater][1] == LenOrder::Greater);
    assert(seq![LenOrder::Greater, LenOrder::Equal][1] == LenOrder::Equal);
}

}
