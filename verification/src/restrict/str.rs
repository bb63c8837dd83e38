//! String restrictions.

use vstd::prelude::*;

use crate::error::Error;
use crate::text::{
    has_substr, is_prefix, is_suffix, str_contains, str_ends_with, str_eq, str_starts_with,
};

verus! {

broadcast use vstd::string::group_string_axioms;

/// The error message that `regex::Regex::new` reports for a pattern, or `None` where the
/// pattern compiles.
pub uninterp spec fn regex_new_error(pattern: Seq<char>) -> Option<Seq<char>>;

/// Whether the compiled form of `pattern` matches somewhere in `text`
/// (`regex::Regex::is_match`).
pub uninterp spec fn regex_is_match(pattern: Seq<char>, text: Seq<char>) -> bool;

/// The text that the group named `group` captures in the first match of the compiled form
/// of `pattern` in `text` (`regex::Regex::captures`); `None` where `pattern` does not
/// compile, nothing matches, or the group takes no part in the match.
pub uninterp spec fn regex_first_capture(
    pattern: Seq<char>,
    group: Seq<char>,
    text: Seq<char>,
) -> Option<Seq<char>>;

/// Compiles `pattern` with `regex::Regex::new` and returns what the group `group` captures
/// in the first match in `text` (`regex::Regex::captures`, `regex::Captures::name`).
#[verifier::external_body]
pub(crate) fn regex_capture(pattern: &str, group: &str, text: &str) -> (r: Option<String>)
    ensures
        match r {
            Some(x) => regex_first_capture(pattern@, group@, text@) == Some(x@),
            None => regex_first_capture(pattern@, group@, text@) is None,
        },
{
    match regex::Regex::new(pattern) {
        Ok(re) => match re.captures(text) {
            Some(cap) => match cap.name(group) {
                Some(m) => Some(m.as_str().to_string()),
                None => None,
            },
            None => None,
        },
        Err(_) => None,
    }
}

/// A pattern is usable as a regex when `regex::Regex::new` accepts it.
pub open spec fn regex_compiles(pattern: Seq<char>) -> bool {
    regex_new_error(pattern) is None
}

/// Compiles `pattern` with `regex::Regex::new` and reports its error message, if any.
/// The contract claims only that the outcome is the one named by `regex_new_error`.
#[verifier::external_body]
fn regex_check(pattern: &str) -> (r: core::result::Result<(), String>)
    ensures
        match r {
            Ok(()) => regex_new_error(pattern@) is None,
            Err(m) => regex_new_error(pattern@) == Some(m@),
        },
{
    match regex::Regex::new(pattern) {
        Ok(_) => Ok(()),
        Err(e) => Err(e.to_string()),
    }
}

/// Compiles `pattern` with `regex::Regex::new` and runs `regex::Regex::is_match` on
/// `text`. The contract claims that the answer is the one named by `regex_is_match`.
#[verifier::external_body]
fn regex_matches(pattern: &str, text: &str) -> (b: bool)
    requires
        regex_compiles(pattern@),
    ensures
        b == regex_is_match(pattern@, text@),
{
    match regex::Regex::new(pattern) {
        Ok(re) => re.is_match(text),
        Err(_) => false,
    }
}

/// A regular expression, held by its source pattern, which always compiles.
#[derive(Debug, PartialEq, Eq, Hash)]
pub struct Regex {
    pattern: String,
}

impl Clone for Regex {
    fn clone(&self) -> (r: Self)
        ensures
            r.pattern() == self.pattern(),
    {
        proof {
            use_type_invariant(self);
        }
        Regex { pattern: self.pattern.clone() }
    }
}

impl Regex {
    #[verifier::type_invariant]
    spec fn inv(self) -> bool {
        regex_compiles(self.pattern@)
    }

    /// The pattern the regex was compiled from.
    pub closed spec fn pattern(self) -> Seq<char> {
        self.pattern@
    }

    /// Compiles a pattern, failing with the regex engine's message.
    pub fn new(pattern: &str) -> (r: core::result::Result<Regex, String>)
        ensures
            match r {
                Ok(re) => re.pattern() == pattern@ && regex_compiles(pattern@),
                Err(m) => regex_new_error(pattern@) == Some(m@),
            },
    {
        match regex_check(pattern) {
            Ok(()) => Ok(Regex { pattern: pattern.to_owned() }),
            Err(m) => Err(m),
        }
    }

    /// The pattern the regex was compiled from.
    pub fn as_str(&self) -> (s: &str)
        ensures
            s@ == self.pattern(),
    {
        self.pattern.as_str()
    }

    /// Whether the regex matches somewhere in `text`.
    pub fn is_match(&self, text: &str) -> (b: bool)
        ensures
            b == regex_is_match(self.pattern(), text@),
    {
        proof {
            use_type_invariant(self);
        }
        regex_matches(self.pattern.as_str(), text)
    }
}

impl View for Regex {
    type V = Seq<char>;

    open spec fn view(&self) -> Seq<char> {
        self.pattern()
    }
}

/// The outcome of comparing two lengths, as used by [`Restrict::Length`].
#[derive(Debug, Clone, Copy, PartialEq, Eq, Structural, Hash)]
pub enum LenOrder {
    Less,
    Equal,
    Greater,
}

/// How `a` compares to `b`.
pub open spec fn length_order(a: int, b: int) -> LenOrder {
    if a < b {
        LenOrder::Less
    } else if a == b {
        LenOrder::Equal
    } else {
        LenOrder::Greater
    }
}

/// The length in bytes that `str::len` reports for a string with characters `s`.
pub open spec fn byte_len(s: Seq<char>) -> int {
    (vstd::utf8::encode_utf8(s).len() as usize) as int
}

/// Restrictions on string values.
#[derive(Debug, PartialEq, Eq, Hash)]
pub enum Restrict {
    Equal(String),
    Prefix(String),
    Regex(Regex),
    Substr(String),
    Suffix(String),
    Length(Vec<LenOrder>, usize),
    False,
    True,
    And(Vec<Box<Self>>),
    Or(Vec<Box<Self>>),
    Xor(Vec<Box<Self>>),
    Not(Box<Self>),
}

/// The mathematical form of a string restriction.
pub enum StrRestrictView {
    Equal(Seq<char>),
    Prefix(Seq<char>),
    Regex(Seq<char>),
    Substr(Seq<char>),
    Suffix(Seq<char>),
    Length(Seq<LenOrder>, usize),
    False,
    True,
    And(Seq<StrRestrictView>),
    Or(Seq<StrRestrictView>),
    Xor(Seq<StrRestrictView>),
    Not(Box<StrRestrictView>),
}

/// The boolean combinators shared by every restriction type.
#[derive(Debug, Clone, Copy, PartialEq, Eq, Hash)]
pub enum BoolOp {
    And,
    Or,
    Xor,
}

impl Restrict {
    /// The view of a restriction.
    pub open spec fn spec_view(self) -> StrRestrictView
        decreases self,
    {
        match self {
            Restrict::Equal(s) => StrRestrictView::Equal(s@),
            Restrict::Prefix(s) => StrRestrictView::Prefix(s@),
            Restrict::Regex(re) => StrRestrictView::Regex(re.pattern()),
            Restrict::Substr(s) => StrRestrictView::Substr(s@),
            Restrict::Suffix(s) => StrRestrictView::Suffix(s@),
            Restrict::Length(c, n) => StrRestrictView::Length(c@, n),
            Restrict::False => StrRestrictView::False,
            Restrict::True => StrRestrictView::True,
            Restrict::And(vals) => StrRestrictView::And(
                Seq::new(
                    vals@.len(),
                    |i: int|
                        if 0 <= i < vals@.len() {
                            vals@[i].spec_view()
                        } else {
                            StrRestrictView::False
                        },
                ),
            ),
            Restrict::Or(vals) => StrRestrictView::Or(
                Seq::new(
                    vals@.len(),
                    |i: int|
                        if 0 <= i < vals@.len() {
                            vals@[i].spec_view()
                        } else {
                            StrRestrictView::False
                        },
                ),
            ),
            Restrict::Xor(vals) => StrRestrictView::Xor(
                Seq::new(
                    vals@.len(),
                    |i: int|
                        if 0 <= i < vals@.len() {
                            vals@[i].spec_view()
                        } else {
                            StrRestrictView::False
                        },
                ),
            ),
            Restrict::Not(r) => StrRestrictView::Not(Box::new(r.spec_view())),
        }
    }
}

impl View for Restrict {
    type V = StrRestrictView;

    open spec fn view(&self) -> StrRestrictView {
        self.spec_view()
    }
}

/// The views of a sequence of boxed restrictions.
pub open spec fn views(vals: Seq<Box<Restrict>>) -> Seq<StrRestrictView> {
    Seq::new(vals.len(), |i: int| vals[i]@)
}

/// The views of a sequence of restrictions.
pub open spec fn restrict_views(vals: Seq<Restrict>) -> Seq<StrRestrictView> {
    Seq::new(vals.len(), |i: int| vals[i]@)
}

/// Whether `s` satisfies the restriction `r`.
pub open spec fn spec_matches(r: StrRestrictView, s: Seq<char>) -> bool
    decreases r,
{
    match r {
        StrRestrictView::Equal(x) => s == x,
        StrRestrictView::Prefix(x) => is_prefix(x, s),
        StrRestrictView::Regex(p) => regex_is_match(p, s),
        StrRestrictView::Substr(x) => has_substr(x, s),
        StrRestrictView::Suffix(x) => is_suffix(x, s),
        StrRestrictView::Length(orders, n) => orders.contains(
            length_order(byte_len(s), n as int),
        ),
        StrRestrictView::False => false,
        StrRestrictView::True => true,
        StrRestrictView::And(vs) => forall|i: int|
            0 <= i < vs.len() ==> spec_matches(#[trigger] vs[i], s),
        StrRestrictView::Or(vs) => exists|i: int|
            0 <= i < vs.len() && spec_matches(#[trigger] vs[i], s),
        StrRestrictView::Xor(vs) => (exists|i: int|
            0 <= i < vs.len() && spec_matches(#[trigger] vs[i], s)) && (exists|j: int|
            0 <= j < vs.len() && !spec_matches(#[trigger] vs[j], s)),
        StrRestrictView::Not(b) => !spec_matches(*b, s),
    }
}

/// The members that `op` absorbs from `v` when combining: the members of a nested
/// combination of the same kind, or `v` itself.
pub open spec fn absorbed(op: BoolOp, v: StrRestrictView) -> Seq<StrRestrictView> {
    match (op, v) {
        (BoolOp::And, StrRestrictView::And(xs)) => xs,
        (BoolOp::Or, StrRestrictView::Or(xs)) => xs,
        (BoolOp::Xor, StrRestrictView::Xor(xs)) => xs,
        _ => seq![v],
    }
}

/// The members of `vs`, with nested combinations of kind `op` spliced in place.
pub open spec fn flatten(op: BoolOp, vs: Seq<StrRestrictView>) -> Seq<StrRestrictView>
    decreases vs.len(),
{
    if vs.len() == 0 {
        seq![]
    } else {
        flatten(op, vs.drop_last()) + absorbed(op, vs.last())
    }
}

/// The restriction that combines already flattened members with `op`: `True` for none,
/// the member itself for one.
pub open spec fn combined(op: BoolOp, flat: Seq<StrRestrictView>) -> StrRestrictView {
    if flat.len() == 0 {
        StrRestrictView::True
    } else if flat.len() == 1 {
        flat[0]
    } else {
        match op {
            BoolOp::And => StrRestrictView::And(flat),
            BoolOp::Or => StrRestrictView::Or(flat),
            BoolOp::Xor => StrRestrictView::Xor(flat),
        }
    }
}

/// Builds the combination of `flat` with `op` as an executable restriction.
fn build(op: BoolOp, mut flat: Vec<Box<Restrict>>) -> (r: Restrict)
    ensures
        r@ == combined(op, views(flat@)),
{
    if flat.len() == 0 {
        Restrict::True
    } else if flat.len() == 1 {
        let ghost v = views(flat@);
        let b = flat.pop().unwrap();
        assert(v[0] == b@);
        *b
    } else {
        let ghost v = views(flat@);
        let r = match op {
            BoolOp::And => Restrict::And(flat),
            BoolOp::Or => Restrict::Or(flat),
            BoolOp::Xor => Restrict::Xor(flat),
        };
        proof {
            let inner = match op {
                BoolOp::And => r@->And_0,
                BoolOp::Or => r@->Or_0,
                BoolOp::Xor => r@->Xor_0,
            };
            assert(inner =~= v);
        }
        r
    }
}

/// Combines restrictions with `op`, splicing in the members of nested combinations of the
/// same kind.
fn combine(op: BoolOp, vals: Vec<Restrict>) -> (r: Restrict)
    ensures
        r@ == combined(op, flatten(op, restrict_views(vals@))),
{
    let mut restricts: Vec<Box<Restrict>> = Vec::new();
    let ghost all = vals@;
    assert(restrict_views(all).take(0) =~= Seq::<StrRestrictView>::empty());
    for r in it: vals
        invariant
            it.seq() == all,
            views(restricts@) == flatten(op, restrict_views(all).take(it.index() as int)),
    {
        let ghost i = it.index() as int;
        let ghost before = views(restricts@);
        assert(r == all[i]);
        let ghost rv = r@;
        match (op, r) {
            (BoolOp::And, Restrict::And(mut xs)) => {
                let ghost xv = views(xs@);
                assert(rv == StrRestrictView::And(xv)) by {
                    assert(rv->And_0 =~= xv);
                }
                restricts.append(&mut xs);
                assert(views(restricts@) =~= before + xv);
            },
            (BoolOp::Or, Restrict::Or(mut xs)) => {
                let ghost xv = views(xs@);
                assert(rv == StrRestrictView::Or(xv)) by {
                    assert(rv->Or_0 =~= xv);
                }
                restricts.append(&mut xs);
                assert(views(restricts@) =~= before + xv);
            },
            (BoolOp::Xor, Restrict::Xor(mut xs)) => {
                let ghost xv = views(xs@);
                assert(rv == StrRestrictView::Xor(xv)) by {
                    assert(rv->Xor_0 =~= xv);
                }
                restricts.append(&mut xs);
                assert(views(restricts@) =~= before + xv);
            },
            (_, r) => {
                restricts.push(Box::new(r));
                assert(views(restricts@) =~= before + seq![rv]);
            },
        }
        assert(restrict_views(all).take(i + 1).drop_last() =~= restrict_views(all).take(i));
        assert(restrict_views(all).take(i + 1).last() == rv);
    }
    assert(restrict_views(all).take(all.len() as int) =~= restrict_views(all));
    build(op, restricts)
}

impl Restrict {
    /// Matches when every member matches; nested `And` members are spliced in.
    pub fn and(vals: Vec<Restrict>) -> (r: Restrict)
        ensures
            r@ == combined(BoolOp::And, flatten(BoolOp::And, restrict_views(vals@))),
    {
        combine(BoolOp::And, vals)
    }

    /// Matches when any member matches; nested `Or` members are spliced in.
    pub fn or(vals: Vec<Restrict>) -> (r: Restrict)
        ensures
            r@ == combined(BoolOp::Or, flatten(BoolOp::Or, restrict_views(vals@))),
    {
        combine(BoolOp::Or, vals)
    }

    /// Matches when the members disagree; nested `Xor` members are spliced in.
    pub fn xor(vals: Vec<Restrict>) -> (r: Restrict)
        ensures
            r@ == combined(BoolOp::Xor, flatten(BoolOp::Xor, restrict_views(vals@))),
    {
        combine(BoolOp::Xor, vals)
    }

    /// Inverts a restriction.
    pub fn not(r: Restrict) -> (n: Restrict)
        ensures
            n@ == StrRestrictView::Not(Box::new(r@)),
    {
        Restrict::Not(Box::new(r))
    }

    /// Matches strings equal to `s`.
    pub fn equal(s: &str) -> (r: Restrict)
        ensures
            r@ == StrRestrictView::Equal(s@),
    {
        Restrict::Equal(s.to_owned())
    }

    /// Matches strings starting with `s`.
    pub fn prefix(s: &str) -> (r: Restrict)
        ensures
            r@ == StrRestrictView::Prefix(s@),
    {
        Restrict::Prefix(s.to_owned())
    }

    /// Matches strings in which the regex `s` finds a match; fails when `s` does not
    /// compile.
    pub fn regex(s: &str) -> (r: crate::Result<Restrict>)
        ensures
            match r {
                Ok(r) => regex_compiles(s@) && r@ == StrRestrictView::Regex(s@),
                Err(e) => !regex_compiles(s@) && e == Error::InvalidValue(e->InvalidValue_0)
                    && e.spec_message() == "invalid regex: "@ + regex_new_error(s@).unwrap(),
            },
    {
        match Regex::new(s) {
            Ok(re) => Ok(Restrict::Regex(re)),
            Err(m) => {
                let mut msg = "invalid regex: ".to_owned();
                msg.append(m.as_str());
                proof {
                    reveal_strlit("invalid regex: ");
                }
                Err(Error::InvalidValue(msg))
            },
        }
    }

    /// Matches strings containing `s`.
    pub fn substr(s: &str) -> (r: Restrict)
        ensures
            r@ == StrRestrictView::Substr(s@),
    {
        Restrict::Substr(s.to_owned())
    }

    /// Matches strings ending with `s`.
    pub fn suffix(s: &str) -> (r: Restrict)
        ensures
            r@ == StrRestrictView::Suffix(s@),
    {
        Restrict::Suffix(s.to_owned())
    }

    /// Whether `val` satisfies the restriction.
    #[verifier::loop_isolation(false)]
    pub fn matches(&self, val: &str) -> (b: bool)
        ensures
            b == spec_matches(self@, val@),
        decreases self,
    {
        match self {
            Restrict::Equal(s) => str_eq(val, s.as_str()),
            Restrict::Prefix(s) => str_starts_with(val, s.as_str()),
            Restrict::Regex(re) => re.is_match(val),
            Restrict::Substr(s) => str_contains(val, s.as_str()),
            Restrict::Suffix(s) => str_ends_with(val, s.as_str()),
            Restrict::Length(orders, size) => {
                let len = val.len();
                assert(len as int == byte_len(val@));
                let c = if len < *size {
                    LenOrder::Less
                } else if len == *size {
                    LenOrder::Equal
                } else {
                    LenOrder::Greater
                };
                let mut i: usize = 0;
                while i < orders.len()
                    invariant
                        0 <= i <= orders@.len(),
                        forall|j: int| 0 <= j < i ==> orders@[j] != c,
                    decreases orders@.len() - i,
                {
                    if orders[i] == c {
                        assert(orders@[i as int] == c);
                        return true;
                    }
                    i += 1;
                }
                assert(!orders@.contains(c));
                false
            },
            Restrict::False => false,
            Restrict::True => true,
            Restrict::And(vals) => {
                let ghost vs = self@->And_0;
                let mut i: usize = 0;
                while i < vals.len()
                    invariant
                        0 <= i <= vals@.len(),
                        forall|j: int| 0 <= j < i ==> spec_matches(#[trigger] vs[j], val@),
                    decreases vals@.len() - i,
                {
                    proof {
                        assert(decreases_to!(self => vals@[i as int]));
                    }
                    if !vals[i].matches(val) {
                        assert(!spec_matches(vs[i as int], val@));
                        return false;
                    }
                    i += 1;
                }
                true
            },
            Restrict::Or(vals) => {
                let ghost vs = self@->Or_0;
                let mut i: usize = 0;
                while i < vals.len()
                    invariant
                        0 <= i <= vals@.len(),
                        forall|j: int| 0 <= j < i ==> !spec_matches(#[trigger] vs[j], val@),
                    decreases vals@.len() - i,
                {
                    proof {
                        assert(decreases_to!(self => vals@[i as int]));
                    }
                    if vals[i].matches(val) {
                        assert(spec_matches(vs[i as int], val@));
                        return true;
                    }
                    i += 1;
                }
                false
            },
            Restrict::Xor(vals) => {
                let ghost vs = self@->Xor_0;
                let mut prev: Option<bool> = None;
                let mut i: usize = 0;
                while i < vals.len()
                    invariant
                        0 <= i <= vals@.len(),
                        i == 0 <==> prev is None,
                        prev matches Some(p) ==> forall|j: int|
                            0 <= j < i ==> spec_matches(#[trigger] vs[j], val@) == p,
                    decreases vals@.len() - i,
                {
                    proof {
                        assert(decreases_to!(self => vals@[i as int]));
                    }
                    let curr = vals[i].matches(val);
                    assert(spec_matches(vs[i as int], val@) == curr);
                    match prev {
                        Some(p) => {
                            if p != curr {
                                assert(spec_matches(vs[0], val@) == p);
                                return true;
                            }
                        },
                        None => {},
                    }
                    prev = Some(curr);
                    i += 1;
                }
                false
            },
            Restrict::Not(r) => !r.matches(val),
        }
    }
}


/// Splicing nested `And` members keeps the meaning of "every member matches".
proof fn lemma_flatten_and(vs: Seq<StrRestrictView>, s: Seq<char>)
    ensures
        (forall|i: int| 0 <= i < flatten(BoolOp::And, vs).len()
            ==> spec_matches(#[trigger] flatten(BoolOp::And, vs)[i], s))
        <==> (forall|i: int| 0 <= i < vs.len() ==> spec_matches(#[trigger] vs[i], s)),
    decreases vs.len(),
{
    if vs.len() > 0 {
        let init = vs.drop_last();
        let f = flatten(BoolOp::And, vs);
        let fi = flatten(BoolOp::And, init);
        let a = absorbed(BoolOp::And, vs.last());
        lemma_flatten_and(init, s);
        assert(f == fi + a);
        if forall|i: int| 0 <= i < vs.len() ==> spec_matches(#[trigger] vs[i], s) {
            assert forall|i: int| 0 <= i < f.len() implies spec_matches(#[trigger] f[i], s) by {
                if i < fi.len() {
                    assert(f[i] == fi[i]);
                    assert forall|k: int| 0 <= k < init.len() implies spec_matches(#[trigger] init[k], s) by {
                        assert(init[k] == vs[k]);
                    }
                } else {
                    assert(f[i] == a[i - fi.len()]);
                    assert(spec_matches(vs[vs.len() - 1], s));
                }
            }
        }
        if forall|i: int| 0 <= i < f.len() ==> spec_matches(#[trigger] f[i], s) {
            assert forall|k: int| 0 <= k < fi.len() implies spec_matches(#[trigger] fi[k], s) by {
                assert(f[k] == fi[k]);
            }
            assert forall|i: int| 0 <= i < vs.len() implies spec_matches(#[trigger] vs[i], s) by {
                if i < vs.len() - 1 {
                    assert(init[i] == vs[i]);
                } else {
                    assert forall|k: int| 0 <= k < a.len() implies spec_matches(#[trigger] a[k], s) by {
                        assert(f[fi.len() + k] == a[k]);
                    }
                    match vs.last() {
                        StrRestrictView::And(xs) => {},
                        _ => {
                            assert(a[0] == vs.last());
                        },
                    }
                }
            }
        }
    }
}

/// Splicing nested `Or` members keeps the meaning of "some member matches".
proof fn lemma_flatten_or(vs: Seq<StrRestrictView>, s: Seq<char>)
    ensures
        (exists|i: int| 0 <= i < flatten(BoolOp::Or, vs).len()
            && spec_matches(#[trigger] flatten(BoolOp::Or, vs)[i], s))
        <==> (exists|i: int| 0 <= i < vs.len() && spec_matches(#[trigger] vs[i], s)),
    decreases vs.len(),
{
    if vs.len() > 0 {
        let init = vs.drop_last();
        let f = flatten(BoolOp::Or, vs);
        let fi = flatten(BoolOp::Or, init);
        let a = absorbed(BoolOp::Or, vs.last());
        lemma_flatten_or(init, s);
        assert(f == fi + a);
        if exists|i: int| 0 <= i < vs.len() && spec_matches(#[trigger] vs[i], s) {
            let i = choose|i: int| 0 <= i < vs.len() && spec_matches(#[trigger] vs[i], s);
            if i < vs.len() - 1 {
                assert(init[i] == vs[i]);
                let k = choose|k: int| 0 <= k < fi.len() && spec_matches(#[trigger] fi[k], s);
                assert(f[k] == fi[k]);
            } else {
                match vs.last() {
                    StrRestrictView::Or(xs) => {
                        let k = choose|k: int| 0 <= k < xs.len() && spec_matches(#[trigger] xs[k], s);
                        assert(f[fi.len() + k] == a[k]);
                    },
                    _ => {
                        assert(f[fi.len() as int] == a[0]);
                    },
                }
            }
        }
        if exists|i: int| 0 <= i < f.len() && spec_matches(#[trigger] f[i], s) {
            let i = choose|i: int| 0 <= i < f.len() && spec_matches(#[trigger] f[i], s);
            if i < fi.len() {
                assert(f[i] == fi[i]);
                let k = choose|k: int| 0 <= k < init.len() && spec_matches(#[trigger] init[k], s);
                assert(init[k] == vs[k]);
            } else {
                assert(f[i] == a[i - fi.len()]);
                match vs.last() {
                    StrRestrictView::Or(xs) => {
                        assert(spec_matches(xs[i - fi.len()], s));
                        assert(spec_matches(vs[vs.len() - 1], s));
                    },
                    _ => {
                        assert(spec_matches(vs[vs.len() - 1], s));
                    },
                }
            }
        }
    }
}

/// Without nested `Xor` members, combining with `Xor` splices nothing.
proof fn lemma_flatten_plain(op: BoolOp, vs: Seq<StrRestrictView>)
    requires
        op == BoolOp::Xor,
        forall|i: int| 0 <= i < vs.len() ==> !((#[trigger] vs[i]) is Xor),
    ensures
        flatten(op, vs) == vs,
    decreases vs.len(),
{
    if vs.len() > 0 {
        lemma_flatten_plain(op, vs.drop_last());
        assert(!(vs[vs.len() - 1] is Xor));
        assert(flatten(op, vs) =~= vs.drop_last() + seq![vs.last()]);
        assert(vs.drop_last() + seq![vs.last()] =~= vs);
    }
}

/// `and` of restrictions matches exactly the strings that every one of them matches.
pub proof fn and_matches_all(vals: Seq<StrRestrictView>, s: Seq<char>)
    ensures
        spec_matches(combined(BoolOp::And, flatten(BoolOp::And, vals)), s)
            <==> (forall|i: int| 0 <= i < vals.len() ==> spec_matches(#[trigger] vals[i], s)),
{
    lemma_flatten_and(vals, s);
    let f = flatten(BoolOp::And, vals);
    let all_f = forall|i: int| 0 <= i < f.len() ==> spec_matches(#[trigger] f[i], s);
    if f.len() == 0 {
        assert(all_f);
    } else if f.len() == 1 {
        assert(all_f <==> spec_matches(f[0], s));
    } else {
        let r = StrRestrictView::And(f);
        assert(combined(BoolOp::And, f) == r);
        assert(r->And_0 == f);
        assert(spec_matches(r, s) <==> all_f);
    }
}

/// `or` of restrictions, once some member remains after splicing, matches exactly the
/// strings that one of them matches. (An empty `or` is `True`.)
pub proof fn or_matches_any(vals: Seq<StrRestrictView>, s: Seq<char>)
    requires
        flatten(BoolOp::Or, vals).len() > 0,
    ensures
        spec_matches(combined(BoolOp::Or, flatten(BoolOp::Or, vals)), s)
            <==> (exists|i: int| 0 <= i < vals.len() && spec_matches(#[trigger] vals[i], s)),
{
    lemma_flatten_or(vals, s);
    let f = flatten(BoolOp::Or, vals);
    let any_f = exists|i: int| 0 <= i < f.len() && spec_matches(#[trigger] f[i], s);
    if f.len() == 1 {
        assert(any_f <==> spec_matches(f[0], s));
    } else {
        let r = StrRestrictView::Or(f);
        assert(combined(BoolOp::Or, f) == r);
        assert(r->Or_0 == f);
        assert(spec_matches(r, s) <==> any_f);
    }
}

/// `xor` of at least two restrictions, none of them itself an `Xor`, matches exactly the
/// strings that some of them match and some do not.
pub proof fn xor_matches_disagreement(vals: Seq<StrRestrictView>, s: Seq<char>)
    requires
        vals.len() >= 2,
        forall|i: int| 0 <= i < vals.len() ==> !((#[trigger] vals[i]) is Xor),
    ensures
        spec_matches(combined(BoolOp::Xor, flatten(BoolOp::Xor, vals)), s) <==> (
            (exists|i: int| 0 <= i < vals.len() && spec_matches(#[trigger] vals[i], s))
            && (exists|j: int| 0 <= j < vals.len() && !spec_matches(#[trigger] vals[j], s))),
{
    lemma_flatten_plain(BoolOp::Xor, vals);
    let r = StrRestrictView::Xor(vals);
    assert(combined(BoolOp::Xor, vals) == r);
    assert(r->Xor_0 == vals);
    assert(spec_matches(r, s) <==> (
            (exists|i: int| 0 <= i < vals.len() && spec_matches(#[trigger] vals[i], s))
            && (exists|j: int| 0 <= j < vals.len() && !spec_matches(#[trigger] vals[j], s))));
}

/// `not` of a restriction matches exactly the strings it does not.
pub proof fn not_matches_complement(r: StrRestrictView, s: Seq<char>)
    ensures
        spec_matches(StrRestrictView::Not(Box::new(r)), s) <==> !spec_matches(r, s),
{
}

}
