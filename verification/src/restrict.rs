//! Restrictions: predicates on strings and package dependency components, combined with
//! boolean operators.

use vstd::prelude::*;

pub mod dep;
pub mod depset;
pub mod parse;
pub mod set;
pub mod str;

use self::dep::{
    spec_matches_cpn as dep_matches_cpn, spec_matches_cpv as dep_matches_cpv,
    spec_matches_str as dep_matches_str, DepRestrictView,
    Restrict as DepRestrict,
};
use self::str::{BoolOp, Restrict as StrRestrict, StrRestrictView};
use crate::dep::version::{version_order, VerOrder};
use crate::dep::{Cpn, Cpv, CpvView};
use crate::pkg::{PkgRestrict, PkgRestrictView};

verus! {

/// A restriction that can be checked against objects of type `T`.
pub trait Restriction<T> {
    fn matches(&self, object: T) -> bool;
}

/// Restrictions of any supported kind, combined with boolean operators.
#[derive(Debug, PartialEq, Eq, Hash)]
pub enum Restrict {
    True,
    False,
    Dep(DepRestrict),
    Pkg(PkgRestrict),
    Str(StrRestrict),
    And(Vec<Box<Self>>),
    Or(Vec<Box<Self>>),
    Xor(Vec<Box<Self>>),
    Not(Box<Self>),
}

/// The mathematical form of a restriction.
pub enum RestrictView {
    True,
    False,
    Dep(DepRestrictView),
    Pkg(PkgRestrictView),
    Str(StrRestrictView),
    And(Seq<RestrictView>),
    Or(Seq<RestrictView>),
    Xor(Seq<RestrictView>),
    Not(Box<RestrictView>),
}

impl Restrict {
    /// The view of a restriction.
    pub open spec fn spec_view(self) -> RestrictView
        decreases self,
    {
        match self {
            Restrict::True => RestrictView::True,
            Restrict::False => RestrictView::False,
            Restrict::Dep(r) => RestrictView::Dep(r@),
            Restrict::Pkg(r) => RestrictView::Pkg(r@),
            Restrict::Str(r) => RestrictView::Str(r@),
            Restrict::And(vals) => RestrictView::And(
                Seq::new(
                    vals@.len(),
                    |i: int|
                        if 0 <= i < vals@.len() {
                            vals@[i].spec_view()
                        } else {
                            RestrictView::False
                        },
                ),
            ),
            Restrict::Or(vals) => RestrictView::Or(
                Seq::new(
                    vals@.len(),
                    |i: int|
                        if 0 <= i < vals@.len() {
                            vals@[i].spec_view()
                        } else {
                            RestrictView::False
                        },
                ),
            ),
            Restrict::Xor(vals) => RestrictView::Xor(
                Seq::new(
                    vals@.len(),
                    |i: int|
                        if 0 <= i < vals@.len() {
                            vals@[i].spec_view()
                        } else {
                            RestrictView::False
                        },
                ),
            ),
            Restrict::Not(r) => RestrictView::Not(Box::new(r.spec_view())),
        }
    }
}

impl View for Restrict {
    type V = RestrictView;

    open spec fn view(&self) -> RestrictView {
        self.spec_view()
    }
}

/// The views of a sequence of boxed restrictions.
pub open spec fn views(vals: Seq<Box<Restrict>>) -> Seq<RestrictView> {
    Seq::new(vals.len(), |i: int| vals[i]@)
}

/// The views of a sequence of restrictions.
pub open spec fn restrict_views(vals: Seq<Restrict>) -> Seq<RestrictView> {
    Seq::new(vals.len(), |i: int| vals[i]@)
}

/// Whether the string `s` satisfies the restriction `r`.
pub open spec fn spec_matches_str(r: RestrictView, s: Seq<char>) -> bool
    decreases r,
{
    match r {
        RestrictView::True => true,
        RestrictView::False => false,
        RestrictView::Dep(d) => dep_matches_str(d, s),
        RestrictView::Pkg(_) => false,
        RestrictView::Str(x) => self::str::spec_matches(x, s),
        RestrictView::And(vs) => forall|i: int|
            0 <= i < vs.len() ==> spec_matches_str(#[trigger] vs[i], s),
        RestrictView::Or(vs) => exists|i: int|
            0 <= i < vs.len() && spec_matches_str(#[trigger] vs[i], s),
        RestrictView::Xor(vs) => (exists|i: int|
            0 <= i < vs.len() && spec_matches_str(#[trigger] vs[i], s)) && (exists|j: int|
            0 <= j < vs.len() && !spec_matches_str(#[trigger] vs[j], s)),
        RestrictView::Not(b) => !spec_matches_str(*b, s),
    }
}

/// The members that `op` absorbs from `v` when combining.
pub open spec fn absorbed(op: BoolOp, v: RestrictView) -> Seq<RestrictView> {
    match (op, v) {
        (BoolOp::And, RestrictView::And(xs)) => xs,
        (BoolOp::Or, RestrictView::Or(xs)) => xs,
        (BoolOp::Xor, RestrictView::Xor(xs)) => xs,
        _ => seq![v],
    }
}

/// The members of `vs`, with nested combinations of kind `op` spliced in place.
pub open spec fn flatten(op: BoolOp, vs: Seq<RestrictView>) -> Seq<RestrictView>
    decreases vs.len(),
{
    if vs.len() == 0 {
        seq![]
    } else {
        flatten(op, vs.drop_last()) + absorbed(op, vs.last())
    }
}

/// The combination of already flattened members with `op`: `True` for none, the member
/// itself for one.
pub open spec fn combined(op: BoolOp, flat: Seq<RestrictView>) -> RestrictView {
    if flat.len() == 0 {
        RestrictView::True
    } else if flat.len() == 1 {
        flat[0]
    } else {
        match op {
            BoolOp::And => RestrictView::And(flat),
            BoolOp::Or => RestrictView::Or(flat),
            BoolOp::Xor => RestrictView::Xor(flat),
        }
    }
}

/// Builds the combination of `flat` with `op`.
fn build(op: BoolOp, mut flat: Vec<Box<Restrict>>) -> (r: Restrict)
    ensures
        r@ == combined(op, views(flat@)),
{
    if flat.len() == 0 {
        Restrict::True
    } else if flat.len() == 1 {
        let ghost v = views(flat@);
        let b = flat.pop().unwrap();
        assert(v[0] == b@);
        *b
    } else {
        let ghost v = views(flat@);
        let r = match op {
            BoolOp::And => Restrict::And(flat),
            BoolOp::Or => Restrict::Or(flat),
            BoolOp::Xor => Restrict::Xor(flat),
        };
        proof {
            let inner = match op {
                BoolOp::And => r@->And_0,
                BoolOp::Or => r@->Or_0,
                BoolOp::Xor => r@->Xor_0,
            };
            assert(inner =~= v);
        }
        r
    }
}

/// Combines restrictions with `op`, splicing in the members of nested combinations of the
/// same kind.
fn combine(op: BoolOp, vals: Vec<Restrict>) -> (r: Restrict)
    ensures
        r@ == combined(op, flatten(op, restrict_views(vals@))),
{
    let mut restricts: Vec<Box<Restrict>> = Vec::new();
    let ghost all = vals@;
    assert(restrict_views(all).take(0) =~= Seq::<RestrictView>::empty());
    for r in it: vals
        invariant
            it.seq() == all,
            views(restricts@) == flatten(op, restrict_views(all).take(it.index() as int)),
    {
        let ghost i = it.index() as int;
        let ghost before = views(restricts@);
        assert(r == all[i]);
        let ghost rv = r@;
        match (op, r) {
            (BoolOp::And, Restrict::And(mut xs)) => {
                let ghost xv = views(xs@);
                assert(rv == RestrictView::And(xv)) by {
                    assert(rv->And_0 =~= xv);
                }
                restricts.append(&mut xs);
                assert(views(restricts@) =~= before + xv);
            },
            (BoolOp::Or, Restrict::Or(mut xs)) => {
                let ghost xv = views(xs@);
                assert(rv == RestrictView::Or(xv)) by {
                    assert(rv->Or_0 =~= xv);
                }
                restricts.append(&mut xs);
                assert(views(restricts@) =~= before + xv);
            },
            (BoolOp::Xor, Restrict::Xor(mut xs)) => {
                let ghost xv = views(xs@);
                assert(rv == RestrictView::Xor(xv)) by {
                    assert(rv->Xor_0 =~= xv);
                }
                restricts.append(&mut xs);
                assert(views(restricts@) =~= before + xv);
            },
            (_, r) => {
                restricts.push(Box::new(r));
                assert(views(restricts@) =~= before + seq![rv]);
            },
        }
        assert(restrict_views(all).take(i + 1).drop_last() =~= restrict_views(all).take(i));
        assert(restrict_views(all).take(i + 1).last() == rv);
    }
    assert(restrict_views(all).take(all.len() as int) =~= restrict_views(all));
    build(op, restricts)
}

impl Restrict {
    /// Matches when every member matches; nested `And` members are spliced in.
    pub fn and(vals: Vec<Restrict>) -> (r: Restrict)
        ensures
            r@ == combined(BoolOp::And, flatten(BoolOp::And, restrict_views(vals@))),
    {
        combine(BoolOp::And, vals)
    }

    /// Matches when any member matches; nested `Or` members are spliced in.
    pub fn or(vals: Vec<Restrict>) -> (r: Restrict)
        ensures
            r@ == combined(BoolOp::Or, flatten(BoolOp::Or, restrict_views(vals@))),
    {
        combine(BoolOp::Or, vals)
    }

    /// Matches when the members disagree; nested `Xor` members are spliced in.
    pub fn xor(vals: Vec<Restrict>) -> (r: Restrict)
        ensures
            r@ == combined(BoolOp::Xor, flatten(BoolOp::Xor, restrict_views(vals@))),
    {
        combine(BoolOp::Xor, vals)
    }

    /// Inverts a restriction.
    pub fn not(r: Restrict) -> (n: Restrict)
        ensures
            n@ == RestrictView::Not(Box::new(r@)),
    {
        Restrict::Not(Box::new(r))
    }

    /// Whether the string `s` satisfies the restriction.
    #[verifier::loop_isolation(false)]
    pub fn matches_str(&self, s: &str) -> (b: bool)
        ensures
            b == spec_matches_str(self@, s@),
        decreases self,
    {
        match self {
            Restrict::True => true,
            Restrict::False => false,
            Restrict::Dep(r) => r.matches_str(s),
            Restrict::Pkg(_) => false,
            Restrict::Str(r) => r.matches(s),
            Restrict::And(vals) => {
                let ghost vs = self@->And_0;
                let mut i: usize = 0;
                while i < vals.len()
                    invariant
                        0 <= i <= vals@.len(),
                        forall|j: int| 0 <= j < i ==> spec_matches_str(#[trigger] vs[j], s@),
                    decreases vals@.len() - i,
                {
                    proof {
                        assert(decreases_to!(self => vals@[i as int]));
                    }
                    if !vals[i].matches_str(s) {
                        assert(!spec_matches_str(vs[i as int], s@));
                        return false;
                    }
                    i += 1;
                }
                true
            },
            Restrict::Or(vals) => {
                let ghost vs = self@->Or_0;
                let mut i: usize = 0;
                while i < vals.len()
                    invariant
                        0 <= i <= vals@.len(),
                        forall|j: int| 0 <= j < i ==> !spec_matches_str(#[trigger] vs[j], s@),
                    decreases vals@.len() - i,
                {
                    proof {
                        assert(decreases_to!(self => vals@[i as int]));
                    }
                    if vals[i].matches_str(s) {
                        assert(spec_matches_str(vs[i as int], s@));
                        return true;
                    }
                    i += 1;
                }
                false
            },
            Restrict::Xor(vals) => {
                let ghost vs = self@->Xor_0;
                let mut prev: Option<bool> = None;
                let mut i: usize = 0;
                while i < vals.len()
                    invariant
                        0 <= i <= vals@.len(),
                        i == 0 <==> prev is None,
                        prev matches Some(p) ==> forall|j: int|
                            0 <= j < i ==> spec_matches_str(#[trigger] vs[j], s@) == p,
                    decreases vals@.len() - i,
                {
                    proof {
                        assert(decreases_to!(self => vals@[i as int]));
                    }
                    let curr = vals[i].matches_str(s);
                    assert(spec_matches_str(vs[i as int], s@) == curr);
                    match prev {
                        Some(p) => {
                            if p != curr {
                                assert(spec_matches_str(vs[0], s@) == p);
                                return true;
                            }
                        },
                        None => {},
                    }
                    prev = Some(curr);
                    i += 1;
                }
                false
            },
            Restrict::Not(r) => !r.matches_str(s),
        }
    }
}

impl<'a> Restriction<&'a str> for Restrict {
    fn matches(&self, s: &'a str) -> (b: bool)
        ensures
            b == spec_matches_str(self@, s@),
    {
        self.matches_str(s)
    }
}

impl<'a> Restriction<&'a str> for StrRestrict {
    fn matches(&self, s: &'a str) -> (b: bool)
        ensures
            b == self::str::spec_matches(self@, s@),
    {
        StrRestrict::matches(self, s)
    }
}

impl<'a> Restriction<&'a str> for DepRestrict {
    fn matches(&self, s: &'a str) -> (b: bool)
        ensures
            b == dep_matches_str(self@, s@),
    {
        self.matches_str(s)
    }
}

/// Whether the package `c`/`p` satisfies the restriction `r`: restrictions on dependency
/// components apply, and restrictions on strings or package metadata match no package
/// name.
pub open spec fn spec_matches_cpn(r: RestrictView, c: Seq<char>, p: Seq<char>) -> bool
    decreases r,
{
    match r {
        RestrictView::True => true,
        RestrictView::False => false,
        RestrictView::Dep(d) => dep_matches_cpn(d, c, p),
        RestrictView::Pkg(_) => false,
        RestrictView::Str(_) => false,
        RestrictView::And(vs) => forall|i: int|
            0 <= i < vs.len() ==> spec_matches_cpn(#[trigger] vs[i], c, p),
        RestrictView::Or(vs) => exists|i: int|
            0 <= i < vs.len() && spec_matches_cpn(#[trigger] vs[i], c, p),
        RestrictView::Xor(vs) => (exists|i: int|
            0 <= i < vs.len() && spec_matches_cpn(#[trigger] vs[i], c, p)) && (exists|j: int|
            0 <= j < vs.len() && !spec_matches_cpn(#[trigger] vs[j], c, p)),
        RestrictView::Not(b) => !spec_matches_cpn(*b, c, p),
    }
}

/// Whether the package version `v` satisfies the restriction `r`: restrictions on
/// dependency components apply, and restrictions on strings or package metadata match no
/// package version.
pub open spec fn spec_matches_cpv(r: RestrictView, v: CpvView) -> bool
    decreases r,
{
    match r {
        RestrictView::True => true,
        RestrictView::False => false,
        RestrictView::Dep(d) => dep_matches_cpv(d, v),
        RestrictView::Pkg(_) => false,
        RestrictView::Str(_) => false,
        RestrictView::And(vs) => forall|i: int|
            0 <= i < vs.len() ==> spec_matches_cpv(#[trigger] vs[i], v),
        RestrictView::Or(vs) => exists|i: int|
            0 <= i < vs.len() && spec_matches_cpv(#[trigger] vs[i], v),
        RestrictView::Xor(vs) => (exists|i: int|
            0 <= i < vs.len() && spec_matches_cpv(#[trigger] vs[i], v)) && (exists|j: int|
            0 <= j < vs.len() && !spec_matches_cpv(#[trigger] vs[j], v)),
        RestrictView::Not(b) => !spec_matches_cpv(*b, v),
    }
}

impl Restrict {
    /// Whether a package version satisfies the restriction.
    #[verifier::loop_isolation(false)]
    pub fn matches_cpv(&self, cpv: &Cpv) -> (b: bool)
        ensures
            b == spec_matches_cpv(self@, cpv@),
        decreases self,
    {
        let ghost v = cpv@;
        match self {
            Restrict::True => true,
            Restrict::False => false,
            Restrict::Dep(r) => r.matches_cpv(cpv),
            Restrict::Pkg(_) => false,
            Restrict::Str(_) => false,
            Restrict::And(vals) => {
                let ghost vs = self@->And_0;
                let mut i: usize = 0;
                while i < vals.len()
                    invariant
                        0 <= i <= vals@.len(),
                        forall|j: int| 0 <= j < i ==> spec_matches_cpv(#[trigger] vs[j], v),
                    decreases vals@.len() - i,
                {
                    proof {
                        assert(decreases_to!(self => vals@[i as int]));
                    }
                    if !vals[i].matches_cpv(cpv) {
                        assert(!spec_matches_cpv(vs[i as int], v));
                        return false;
                    }
                    i += 1;
                }
                true
            },
            Restrict::Or(vals) => {
                let ghost vs = self@->Or_0;
                let mut i: usize = 0;
                while i < vals.len()
                    invariant
                        0 <= i <= vals@.len(),
                        forall|j: int| 0 <= j < i ==> !spec_matches_cpv(#[trigger] vs[j], v),
                    decreases vals@.len() - i,
                {
                    proof {
                        assert(decreases_to!(self => vals@[i as int]));
                    }
                    if vals[i].matches_cpv(cpv) {
                        assert(spec_matches_cpv(vs[i as int], v));
                        return true;
                    }
                    i += 1;
                }
                false
            },
            Restrict::Xor(vals) => {
                let ghost vs = self@->Xor_0;
                let mut prev: Option<bool> = None;
                let mut i: usize = 0;
                while i < vals.len()
                    invariant
                        0 <= i <= vals@.len(),
                        i == 0 <==> prev is None,
                        prev matches Some(q) ==> forall|j: int|
                            0 <= j < i ==> spec_matches_cpv(#[trigger] vs[j], v) == q,
                    decreases vals@.len() - i,
                {
                    proof {
                        assert(decreases_to!(self => vals@[i as int]));
                    }
                    let curr = vals[i].matches_cpv(cpv);
                    assert(spec_matches_cpv(vs[i as int], v) == curr);
                    match prev {
                        Some(q) => {
                            if q != curr {
                                assert(spec_matches_cpv(vs[0], v) == q);
                                return true;
                            }
                        },
                        None => {},
                    }
                    prev = Some(curr);
                    i += 1;
                }
                false
            },
            Restrict::Not(r) => !r.matches_cpv(cpv),
        }
    }

    /// Whether a package satisfies the restriction.
    #[verifier::loop_isolation(false)]
    pub fn matches_cpn(&self, cpn: &Cpn) -> (b: bool)
        ensures
            b == spec_matches_cpn(self@, cpn@.0, cpn@.1),
        decreases self,
    {
        let ghost c = cpn@.0;
        let ghost p = cpn@.1;
        match self {
            Restrict::True => true,
            Restrict::False => false,
            Restrict::Dep(r) => r.matches_cpn(cpn),
            Restrict::Pkg(_) => false,
            Restrict::Str(_) => false,
            Restrict::And(vals) => {
                let ghost vs = self@->And_0;
                let mut i: usize = 0;
                while i < vals.len()
                    invariant
                        0 <= i <= vals@.len(),
                        forall|j: int| 0 <= j < i ==> spec_matches_cpn(#[trigger] vs[j], c, p),
                    decreases vals@.len() - i,
                {
                    proof {
                        assert(decreases_to!(self => vals@[i as int]));
                    }
                    if !vals[i].matches_cpn(cpn) {
                        assert(!spec_matches_cpn(vs[i as int], c, p));
                        return false;
                    }
                    i += 1;
                }
                true
            },
            Restrict::Or(vals) => {
                let ghost vs = self@->Or_0;
                let mut i: usize = 0;
                while i < vals.len()
                    invariant
                        0 <= i <= vals@.len(),
                        forall|j: int| 0 <= j < i ==> !spec_matches_cpn(#[trigger] vs[j], c, p),
                    decreases vals@.len() - i,
                {
                    proof {
                        assert(decreases_to!(self => vals@[i as int]));
                    }
                    if vals[i].matches_cpn(cpn) {
                        assert(spec_matches_cpn(vs[i as int], c, p));
                        return true;
                    }
                    i += 1;
                }
                false
            },
            Restrict::Xor(vals) => {
                let ghost vs = self@->Xor_0;
                let mut prev: Option<bool> = None;
                let mut i: usize = 0;
                while i < vals.len()
                    invariant
                        0 <= i <= vals@.len(),
                        i == 0 <==> prev is None,
                        prev matches Some(q) ==> forall|j: int|
                            0 <= j < i ==> spec_matches_cpn(#[trigger] vs[j], c, p) == q,
                    decreases vals@.len() - i,
                {
                    proof {
                        assert(decreases_to!(self => vals@[i as int]));
                    }
                    let curr = vals[i].matches_cpn(cpn);
                    assert(spec_matches_cpn(vs[i as int], c, p) == curr);
                    match prev {
                        Some(q) => {
                            if q != curr {
                                assert(spec_matches_cpn(vs[0], c, p) == q);
                                return true;
                            }
                        },
                        None => {},
                    }
                    prev = Some(curr);
                    i += 1;
                }
                false
            },
            Restrict::Not(r) => !r.matches_cpn(cpn),
        }
    }

    /// The restriction to one package version: its category, its name and its version.
    pub fn from_cpv(cpv: &Cpv) -> (r: Restrict)
        ensures
            r@ == combined(
                BoolOp::And,
                flatten(
                    BoolOp::And,
                    seq![
                        RestrictView::Dep(DepRestrictView::Category(StrRestrictView::Equal(cpv@.category))),
                        RestrictView::Dep(DepRestrictView::Package(StrRestrictView::Equal(cpv@.package))),
                        RestrictView::Dep(DepRestrictView::Version(Some(cpv@.version))),
                    ],
                ),
            ),
    {
        let v = vec![
            Restrict::Dep(DepRestrict::category(cpv.category.as_str())),
            Restrict::Dep(DepRestrict::package(cpv.package.as_str())),
            Restrict::Dep(DepRestrict::Version(Some(cpv.version.duplicate()))),
        ];
        assert(restrict_views(v@) =~= seq![
            RestrictView::Dep(DepRestrictView::Category(StrRestrictView::Equal(cpv@.category))),
            RestrictView::Dep(DepRestrictView::Package(StrRestrictView::Equal(cpv@.package))),
            RestrictView::Dep(DepRestrictView::Version(Some(cpv@.version))),
        ]);
        Restrict::and(v)
    }

    /// The restriction to one package: its category and its name.
    pub fn from_cpn(cpn: &Cpn) -> (r: Restrict)
        ensures
            r@ == combined(
                BoolOp::And,
                flatten(
                    BoolOp::And,
                    seq![
                        RestrictView::Dep(DepRestrictView::Category(StrRestrictView::Equal(cpn@.0))),
                        RestrictView::Dep(DepRestrictView::Package(StrRestrictView::Equal(cpn@.1))),
                    ],
                ),
            ),
    {
        let v = vec![
            Restrict::Dep(DepRestrict::category(cpn.category())),
            Restrict::Dep(DepRestrict::package(cpn.package())),
        ];
        assert(restrict_views(v@) =~= seq![
            RestrictView::Dep(DepRestrictView::Category(StrRestrictView::Equal(cpn@.0))),
            RestrictView::Dep(DepRestrictView::Package(StrRestrictView::Equal(cpn@.1))),
        ]);
        Restrict::and(v)
    }
}

impl<'a> Restriction<&'a Cpv> for Restrict {
    fn matches(&self, cpv: &'a Cpv) -> (b: bool)
        ensures
            b == spec_matches_cpv(self@, cpv@),
    {
        self.matches_cpv(cpv)
    }
}

impl<'a> Restriction<&'a Cpv> for DepRestrict {
    fn matches(&self, cpv: &'a Cpv) -> (b: bool)
        ensures
            b == dep_matches_cpv(self@, cpv@),
    {
        self.matches_cpv(cpv)
    }
}

impl<'a> Restriction<&'a Cpn> for Restrict {
    fn matches(&self, cpn: &'a Cpn) -> (b: bool)
        ensures
            b == spec_matches_cpn(self@, cpn@.0, cpn@.1),
    {
        self.matches_cpn(cpn)
    }
}

impl<'a> Restriction<&'a Cpn> for DepRestrict {
    fn matches(&self, cpn: &'a Cpn) -> (b: bool)
        ensures
            b == dep_matches_cpn(self@, cpn@.0, cpn@.1),
    {
        self.matches_cpn(cpn)
    }
}

/// The restriction made from a package matches that package and no other.
pub proof fn cpn_restrict_matches_only_itself(c: Seq<char>, p: Seq<char>, c2: Seq<char>, p2: Seq<char>)
    ensures
        spec_matches_cpn(
            combined(
                BoolOp::And,
                flatten(
                    BoolOp::And,
                    seq![
                        RestrictView::Dep(DepRestrictView::Category(StrRestrictView::Equal(c))),
                        RestrictView::Dep(DepRestrictView::Package(StrRestrictView::Equal(p))),
                    ],
                ),
            ),
            c2,
            p2,
        ) <==> (c2 == c && p2 == p),
{
    let vs = seq![
        RestrictView::Dep(DepRestrictView::Category(StrRestrictView::Equal(c))),
        RestrictView::Dep(DepRestrictView::Package(StrRestrictView::Equal(p))),
    ];
    assert(flatten(BoolOp::And, vs) =~= vs) by {
        let first = vs.drop_last();
        assert(first =~= seq![vs[0]]);
        assert(first.drop_last() =~= Seq::<RestrictView>::empty());
        assert(flatten(BoolOp::And, first.drop_last()) =~= Seq::<RestrictView>::empty());
        assert(absorbed(BoolOp::And, first.last()) =~= seq![vs[0]]);
        assert(flatten(BoolOp::And, first) =~= seq![vs[0]]);
        assert(absorbed(BoolOp::And, vs.last()) =~= seq![vs[1]]);
    }
    let r = combined(BoolOp::And, vs);
    assert(r == RestrictView::And(vs));
    if c2 == c && p2 == p {
        assert forall|i: int| 0 <= i < vs.len() implies spec_matches_cpn(#[trigger] vs[i], c2, p2) by {}
    }
    if spec_matches_cpn(r, c2, p2) {
        assert(spec_matches_cpn(vs[0], c2, p2));
        assert(spec_matches_cpn(vs[1], c2, p2));
    }
}

/// The restriction made from a package version matches the versions of that package that
/// compare equal to it, and nothing else.
pub proof fn cpv_restrict_matches_equal_versions(c: CpvView, w: CpvView)
    requires
        c.version.op is None,
    ensures
        spec_matches_cpv(
            combined(
                BoolOp::And,
                flatten(
                    BoolOp::And,
                    seq![
                        RestrictView::Dep(DepRestrictView::Category(StrRestrictView::Equal(c.category))),
                        RestrictView::Dep(DepRestrictView::Package(StrRestrictView::Equal(c.package))),
                        RestrictView::Dep(DepRestrictView::Version(Some(c.version))),
                    ],
                ),
            ),
            w,
        ) <==> (w.category == c.category && w.package == c.package && version_order(
            w.version,
            c.version,
        ) == VerOrder::Equal),
{
    let vs = seq![
        RestrictView::Dep(DepRestrictView::Category(StrRestrictView::Equal(c.category))),
        RestrictView::Dep(DepRestrictView::Package(StrRestrictView::Equal(c.package))),
        RestrictView::Dep(DepRestrictView::Version(Some(c.version))),
    ];
    assert(flatten(BoolOp::And, vs) =~= vs) by {
        let two = vs.drop_last();
        let one = two.drop_last();
        assert(one =~= seq![vs[0]]);
        assert(one.drop_last() =~= Seq::<RestrictView>::empty());
        assert(flatten(BoolOp::And, one.drop_last()) =~= Seq::<RestrictView>::empty());
        assert(absorbed(BoolOp::And, one.last()) =~= seq![vs[0]]);
        assert(flatten(BoolOp::And, one) =~= seq![vs[0]]);
        assert(absorbed(BoolOp::And, two.last()) =~= seq![vs[1]]);
        assert(flatten(BoolOp::And, two) =~= seq![vs[0], vs[1]]);
        assert(absorbed(BoolOp::And, vs.last()) =~= seq![vs[2]]);
    }
    let r = combined(BoolOp::And, vs);
    assert(r == RestrictView::And(vs));
    if w.category == c.category && w.package == c.package && version_order(w.version, c.version)
        == VerOrder::Equal {
        assert forall|i: int| 0 <= i < vs.len() implies spec_matches_cpv(#[trigger] vs[i], w) by {}
    }
    if spec_matches_cpv(r, w) {
        assert(r->And_0 == vs);
        assert(spec_matches_cpv(r, w) <==> forall|i: int|
            0 <= i < vs.len() ==> spec_matches_cpv(#[trigger] vs[i], w));
        assert(spec_matches_cpv(vs[0], w) && spec_matches_cpv(vs[1], w) && spec_matches_cpv(
            vs[2],
            w,
        ));
    }
}

impl Default for Restrict {
    fn default() -> (r: Self)
        ensures
            r@ == RestrictView::False,
    {
        Restrict::False
    }
}

impl From<StrRestrict> for Restrict {
    fn from(r: StrRestrict) -> (b: Restrict)
        ensures
            b == Restrict::Str(r),
    {
        Restrict::Str(r)
    }
}

impl vstd::std_specs::convert::FromSpecImpl<StrRestrict> for Restrict {
    open spec fn obeys_from_spec() -> bool {
        true
    }

    open spec fn from_spec(r: StrRestrict) -> Restrict {
        Restrict::Str(r)
    }
}

impl From<DepRestrict> for Restrict {
    fn from(r: DepRestrict) -> (b: Restrict)
        ensures
            b == Restrict::Dep(r),
    {
        Restrict::Dep(r)
    }
}

impl vstd::std_specs::convert::FromSpecImpl<DepRestrict> for Restrict {
    open spec fn obeys_from_spec() -> bool {
        true
    }

    open spec fn from_spec(r: DepRestrict) -> Restrict {
        Restrict::Dep(r)
    }
}

/// Conversion into a restriction, given a context that some conversions consult.
pub trait TryIntoRestrict<C> {
    fn try_into_restrict(self, context: &C) -> crate::Result<Restrict>;
}

impl<C> TryIntoRestrict<C> for Restrict {
    /// A restriction converts to itself.
    fn try_into_restrict(self, context: &C) -> (r: crate::Result<Restrict>)
        ensures
            r == Ok::<Restrict, crate::error::Error>(self),
    {
        Ok(self)
    }
}

impl<'a, C> TryIntoRestrict<C> for &'a str {
    /// A string converts as a globbed dependency.
    fn try_into_restrict(self, context: &C) -> (r: crate::Result<Restrict>)
        ensures
            match r {
                Ok(x) => self::parse::dep::spec_dep_restrict(self@) == Some(x@),
                Err(e) => self::parse::dep::spec_dep_restrict(self@) is None && e.spec_message()
                    == "invalid dep restriction: "@ + self@,
            },
    {
        self::parse::dep::dep(self)
    }
}

/// The leaves of a restriction: its members with every `And`, `Or` and `Xor` opened up,
/// left to right.
pub open spec fn leaves(r: RestrictView) -> Seq<RestrictView>
    decreases r,
{
    match r {
        RestrictView::And(vs) => leaves_of(vs),
        RestrictView::Or(vs) => leaves_of(vs),
        RestrictView::Xor(vs) => leaves_of(vs),
        _ => seq![r],
    }
}

/// The leaves of a sequence of restrictions, in order.
pub open spec fn leaves_of(vs: Seq<RestrictView>) -> Seq<RestrictView>
    decreases vs,
{
    if vs.len() == 0 {
        seq![]
    } else {
        proof {
            assert(decreases_to!(vs => vs.subrange(0, vs.len() - 1)));
        }
        leaves_of(vs.drop_last()) + leaves(vs.last())
    }
}

/// The views of a sequence of restriction references.
pub open spec fn ref_views(rs: Seq<&Restrict>) -> Seq<RestrictView> {
    Seq::new(rs.len(), |i: int| rs[i]@)
}

/// Appends the leaves of `r` to `out`.
#[verifier::loop_isolation(false)]
fn collect_leaves<'a>(r: &'a Restrict, out: &mut Vec<&'a Restrict>)
    ensures
        ref_views(final(out)@) == ref_views(old(out)@) + leaves(r@),
    decreases r,
{
    let ghost start = ref_views(out@);
    match r {
        Restrict::And(vals) | Restrict::Or(vals) | Restrict::Xor(vals) => {
            let ghost vs = match r@ {
                RestrictView::And(x) => x,
                RestrictView::Or(x) => x,
                RestrictView::Xor(x) => x,
                _ => Seq::empty(),
            };
            assert(leaves(r@) == leaves_of(vs));
            assert(vs.take(0) =~= Seq::<RestrictView>::empty());
            assert(ref_views(out@) =~= start + leaves_of(vs.take(0)));
            let mut i: usize = 0;
            while i < vals.len()
                invariant
                    0 <= i <= vals@.len(),
                    ref_views(out@) == start + leaves_of(vs.take(i as int)),
                decreases vals@.len() - i,
            {
                proof {
                    assert(decreases_to!(r => vals@[i as int]));
                }
                let child: &'a Restrict = &vals[i];
                collect_leaves(child, out);
                assert(vs.take(i + 1).drop_last() =~= vs.take(i as int));
                assert(vs.take(i + 1).last() == vs[i as int]);
                assert(vs[i as int] == child@);
                assert(ref_views(out@) =~= start + leaves_of(vs.take(i + 1)));
                i += 1;
            }
            assert(vs.take(vals@.len() as int) =~= vs);
        },
        _ => {
            out.push(r);
            assert(ref_views(out@) =~= start + seq![r@]);
        },
    }
}

/// An iterator over the leaves of a restriction.
#[derive(Debug)]
pub struct IterFlatten<'a> {
    items: Vec<&'a Restrict>,
    pos: usize,
}

impl<'a> IterFlatten<'a> {
    /// The leaves not yet returned.
    pub closed spec fn remaining(&self) -> Seq<RestrictView> {
        ref_views(self.items@).skip(self.pos as int)
    }

    /// Whether the iterator is in its consistent state.
    pub closed spec fn wf(&self) -> bool {
        self.pos <= self.items@.len()
    }

    /// The next leaf, or `None` once all have been returned.
    pub fn next(&mut self) -> (r: Option<&'a Restrict>)
        requires
            old(self).wf(),
        ensures
            final(self).wf(),
            match r {
                Some(x) => old(self).remaining().len() > 0 && x@ == old(self).remaining()[0]
                    && final(self).remaining() == old(self).remaining().drop_first(),
                None => old(self).remaining().len() == 0 && final(self).remaining().len() == 0,
            },
    {
        if self.pos < self.items.len() {
            let x = self.items[self.pos];
            let ghost before = self.remaining();
            self.pos = self.pos + 1;
            assert(self.remaining() =~= before.drop_first());
            Some(x)
        } else {
            None
        }
    }

}

impl Restrict {
    /// Flattens a restriction into its leaves, in order.
    pub fn iter_flatten(&self) -> (it: IterFlatten<'_>)
        ensures
            it.wf(),
            it.remaining() == leaves(self@),
    {
        let mut items: Vec<&Restrict> = Vec::new();
        collect_leaves(self, &mut items);
        let it = IterFlatten { items, pos: 0 };
        assert(it.remaining() =~= leaves(self@));
        it
    }
}

/// The scope of targets that a restriction matches.
#[derive(Debug, Clone, Copy, PartialEq, Eq, Structural, PartialOrd, Ord, Hash)]
pub enum Scope {
    /// Single package version target.
    Version,
    /// Single unversioned package target.
    Package,
    /// Multiple unversioned package or category targets.
    Category,
    /// Full repo target.
    Repo,
}

/// The position of a scope in the order `Version < Package < Category < Repo`.
pub open spec fn scope_rank(s: Scope) -> nat {
    match s {
        Scope::Version => 0,
        Scope::Package => 1,
        Scope::Category => 2,
        Scope::Repo => 3,
    }
}

fn rank(s: Scope) -> (r: u8)
    ensures
        r as nat == scope_rank(s),
{
    match s {
        Scope::Version => 0,
        Scope::Package => 1,
        Scope::Category => 2,
        Scope::Repo => 3,
    }
}

/// The scope a single restriction implies.
pub open spec fn leaf_scope(r: RestrictView) -> Scope {
    match r {
        RestrictView::Dep(DepRestrictView::Version(Some(_))) => Scope::Version,
        RestrictView::Dep(DepRestrictView::Package(StrRestrictView::Equal(_))) => Scope::Package,
        RestrictView::Dep(DepRestrictView::Package(_)) => Scope::Category,
        RestrictView::Dep(DepRestrictView::Category(_)) => Scope::Category,
        _ => Scope::Repo,
    }
}

/// The least (`lowest`) or greatest scope implied by the restrictions `ls`, or `None` for
/// none.
pub open spec fn extreme_scope(lowest: bool, ls: Seq<RestrictView>) -> Option<Scope>
    decreases ls.len(),
{
    if ls.len() == 0 {
        None
    } else {
        let s = leaf_scope(ls.last());
        match extreme_scope(lowest, ls.drop_last()) {
            None => Some(s),
            Some(e) => if lowest == (scope_rank(s) < scope_rank(e)) && scope_rank(s) != scope_rank(e) {
                Some(s)
            } else {
                Some(e)
            },
        }
    }
}

/// The scope of a restriction: for `And` the narrowest scope among its leaves, for `Or`
/// the widest, `Repo` where there are none.
pub open spec fn spec_scope(r: RestrictView) -> Scope {
    match r {
        RestrictView::And(_) => match extreme_scope(true, leaves(r)) {
            Some(s) => s,
            None => Scope::Repo,
        },
        RestrictView::Or(_) => match extreme_scope(false, leaves(r)) {
            Some(s) => s,
            None => Scope::Repo,
        },
        _ => leaf_scope(r),
    }
}

fn restrict_scope(r: &Restrict) -> (s: Scope)
    ensures
        s == leaf_scope(r@),
{
    match r {
        Restrict::Dep(DepRestrict::Version(Some(_))) => Scope::Version,
        Restrict::Dep(DepRestrict::Package(StrRestrict::Equal(_))) => Scope::Package,
        Restrict::Dep(DepRestrict::Package(_)) => Scope::Category,
        Restrict::Dep(DepRestrict::Category(_)) => Scope::Category,
        _ => Scope::Repo,
    }
}

fn fold_scope(lowest: bool, r: &Restrict) -> (s: Option<Scope>)
    ensures
        s == extreme_scope(lowest, leaves(r@)),
{
    let mut it = r.iter_flatten();
    let ghost all = it.remaining();
    let mut acc: Option<Scope> = None;
    let ghost mut k: int = 0;
    assert(all.take(0) =~= Seq::<RestrictView>::empty());
    loop
        invariant
            it.wf(),
            0 <= k <= all.len(),
            it.remaining() == all.skip(k),
            all == leaves(r@),
            acc == extreme_scope(lowest, all.take(k)),
        decreases all.len() - k,
    {
        match it.next() {
            Some(leaf) => {
                let s = restrict_scope(leaf);
                assert(leaf@ == all[k]);
                assert(all.take(k + 1).drop_last() =~= all.take(k));
                assert(all.take(k + 1).last() == all[k]);
                acc = match acc {
                    None => Some(s),
                    Some(e) => {
                        let (rs, re) = (rank(s), rank(e));
                        if lowest == (rs < re) && rs != re {
                            Some(s)
                        } else {
                            Some(e)
                        }
                    },
                };
                proof {
                    k = k + 1;
                    assert(it.remaining() =~= all.skip(k));
                }
            },
            None => {
                assert(all.skip(k).len() == 0);
                assert(all.take(k) =~= all);
                return acc;
            },
        }
    }
}

impl Scope {
    /// The scope of targets that a restriction matches.
    pub fn from_restrict(value: &Restrict) -> (s: Scope)
        ensures
            s == spec_scope(value@),
    {
        match value {
            Restrict::And(_) => match fold_scope(true, value) {
                Some(s) => s,
                None => Scope::Repo,
            },
            Restrict::Or(_) => match fold_scope(false, value) {
                Some(s) => s,
                None => Scope::Repo,
            },
            _ => restrict_scope(value),
        }
    }

    /// The scope's name in kebab case.
    pub fn as_str(&self) -> (s: &'static str)
        ensures
            s@ == match self {
                Scope::Version => "version"@,
                Scope::Package => "package"@,
                Scope::Category => "category"@,
                Scope::Repo => "repo"@,
            },
    {
        match self {
            Scope::Version => "version",
            Scope::Package => "package",
            Scope::Category => "category",
            Scope::Repo => "repo",
        }
    }
}

impl<'a> From<&'a Restrict> for Scope {
    fn from(value: &'a Restrict) -> (s: Scope)
        ensures
            s == spec_scope(value@),
    {
        Scope::from_restrict(value)
    }
}

impl<'a> vstd::std_specs::convert::FromSpecImpl<&'a Restrict> for Scope {
    open spec fn obeys_from_spec() -> bool {
        true
    }

    open spec fn from_spec(value: &'a Restrict) -> Scope {
        spec_scope(value@)
    }
}


/// Splicing nested `And` members keeps the meaning of "every member matches".
proof fn lemma_flatten_and(vs: Seq<RestrictView>, s: Seq<char>)
    ensures
        (forall|i: int| 0 <= i < flatten(BoolOp::And, vs).len()
            ==> spec_matches_str(#[trigger] flatten(BoolOp::And, vs)[i], s))
        <==> (forall|i: int| 0 <= i < vs.len() ==> spec_matches_str(#[trigger] vs[i], s)),
    decreases vs.len(),
{
    if vs.len() > 0 {
        let init = vs.drop_last();
        let f = flatten(BoolOp::And, vs);
        let fi = flatten(BoolOp::And, init);
        let a = absorbed(BoolOp::And, vs.last());
        lemma_flatten_and(init, s);
        assert(f == fi + a);
        if forall|i: int| 0 <= i < vs.len() ==> spec_matches_str(#[trigger] vs[i], s) {
            assert forall|i: int| 0 <= i < f.len() implies spec_matches_str(#[trigger] f[i], s) by {
                if i < fi.len() {
                    assert(f[i] == fi[i]);
                    assert forall|k: int| 0 <= k < init.len() implies spec_matches_str(#[trigger] init[k], s) by {
                        assert(init[k] == vs[k]);
                    }
                } else {
                    assert(f[i] == a[i - fi.len()]);
                    assert(spec_matches_str(vs[vs.len() - 1], s));
                }
            }
        }
        if forall|i: int| 0 <= i < f.len() ==> spec_matches_str(#[trigger] f[i], s) {
            assert forall|k: int| 0 <= k < fi.len() implies spec_matches_str(#[trigger] fi[k], s) by {
                assert(f[k] == fi[k]);
            }
            assert forall|i: int| 0 <= i < vs.len() implies spec_matches_str(#[trigger] vs[i], s) by {
                if i < vs.len() - 1 {
                    assert(init[i] == vs[i]);
                } else {
                    assert forall|k: int| 0 <= k < a.len() implies spec_matches_str(#[trigger] a[k], s) by {
                        assert(f[fi.len() + k] == a[k]);
                    }
                    match vs.last() {
                        RestrictView::And(xs) => {},
                        _ => {
                            assert(a[0] == vs.last());
                        },
                    }
                }
            }
        }
    }
}

/// Splicing nested `Or` members keeps the meaning of "some member matches".
proof fn lemma_flatten_or(vs: Seq<RestrictView>, s: Seq<char>)
    ensures
        (exists|i: int| 0 <= i < flatten(BoolOp::Or, vs).len()
            && spec_matches_str(#[trigger] flatten(BoolOp::Or, vs)[i], s))
        <==> (exists|i: int| 0 <= i < vs.len() && spec_matches_str(#[trigger] vs[i], s)),
    decreases vs.len(),
{
    if vs.len() > 0 {
        let init = vs.drop_last();
        let f = flatten(BoolOp::Or, vs);
        let fi = flatten(BoolOp::Or, init);
        let a = absorbed(BoolOp::Or, vs.last());
        lemma_flatten_or(init, s);
        assert(f == fi + a);
        if exists|i: int| 0 <= i < vs.len() && spec_matches_str(#[trigger] vs[i], s) {
            let i = choose|i: int| 0 <= i < vs.len() && spec_matches_str(#[trigger] vs[i], s);
            if i < vs.len() - 1 {
                assert(init[i] == vs[i]);
                let k = choose|k: int| 0 <= k < fi.len() && spec_matches_str(#[trigger] fi[k], s);
                assert(f[k] == fi[k]);
            } else {
                match vs.last() {
                    RestrictView::Or(xs) => {
                        let k = choose|k: int| 0 <= k < xs.len() && spec_matches_str(#[trigger] xs[k], s);
                        assert(f[fi.len() + k] == a[k]);
                    },
                    _ => {
                        assert(f[fi.len() as int] == a[0]);
                    },
                }
            }
        }
        if exists|i: int| 0 <= i < f.len() && spec_matches_str(#[trigger] f[i], s) {
            let i = choose|i: int| 0 <= i < f.len() && spec_matches_str(#[trigger] f[i], s);
            if i < fi.len() {
                assert(f[i] == fi[i]);
                let k = choose|k: int| 0 <= k < init.len() && spec_matches_str(#[trigger] init[k], s);
                assert(init[k] == vs[k]);
            } else {
                assert(f[i] == a[i - fi.len()]);
                match vs.last() {
                    RestrictView::Or(xs) => {
                        assert(spec_matches_str(xs[i - fi.len()], s));
                        assert(spec_matches_str(vs[vs.len() - 1], s));
                    },
                    _ => {
                        assert(spec_matches_str(vs[vs.len() - 1], s));
                    },
                }
            }
        }
    }
}

/// Without nested `Xor` members, combining with `Xor` splices nothing.
proof fn lemma_flatten_plain(op: BoolOp, vs: Seq<RestrictView>)
    requires
        op == BoolOp::Xor,
        forall|i: int| 0 <= i < vs.len() ==> !((#[trigger] vs[i]) is Xor),
    ensures
        flatten(op, vs) == vs,
    decreases vs.len(),
{
    if vs.len() > 0 {
        lemma_flatten_plain(op, vs.drop_last());
        assert(!(vs[vs.len() - 1] is Xor));
        assert(flatten(op, vs) =~= vs.drop_last() + seq![vs.last()]);
        assert(vs.drop_last() + seq![vs.last()] =~= vs);
    }
}

/// `and` of restrictions matches exactly the strings that every one of them matches.
pub proof fn and_matches_all(vals: Seq<RestrictView>, s: Seq<char>)
    ensures
        spec_matches_str(combined(BoolOp::And, flatten(BoolOp::And, vals)), s)
            <==> (forall|i: int| 0 <= i < vals.len() ==> spec_matches_str(#[trigger] vals[i], s)),
{
    lemma_flatten_and(vals, s);
    let f = flatten(BoolOp::And, vals);
    let all_f = forall|i: int| 0 <= i < f.len() ==> spec_matches_str(#[trigger] f[i], s);
    if f.len() == 0 {
        assert(all_f);
    } else if f.len() == 1 {
        assert(all_f <==> spec_matches_str(f[0], s));
    } else {
        let r = RestrictView::And(f);
        assert(combined(BoolOp::And, f) == r);
        assert(r->And_0 == f);
        assert(spec_matches_str(r, s) <==> all_f);
    }
}

/// `or` of restrictions, once some member remains after splicing, matches exactly the
/// strings that one of them matches. (An empty `or` is `True`.)
pub proof fn or_matches_any(vals: Seq<RestrictView>, s: Seq<char>)
    requires
        flatten(BoolOp::Or, vals).len() > 0,
    ensures
        spec_matches_str(combined(BoolOp::Or, flatten(BoolOp::Or, vals)), s)
            <==> (exists|i: int| 0 <= i < vals.len() && spec_matches_str(#[trigger] vals[i], s)),
{
    lemma_flatten_or(vals, s);
    let f = flatten(BoolOp::Or, vals);
    let any_f = exists|i: int| 0 <= i < f.len() && spec_matches_str(#[trigger] f[i], s);
    if f.len() == 1 {
        assert(any_f <==> spec_matches_str(f[0], s));
    } else {
        let r = RestrictView::Or(f);
        assert(combined(BoolOp::Or, f) == r);
        assert(r->Or_0 == f);
        assert(spec_matches_str(r, s) <==> any_f);
    }
}

/// `xor` of at least two restrictions, none of them itself an `Xor`, matches exactly the
/// strings that some of them match and some do not.
pub proof fn xor_matches_disagreement(vals: Seq<RestrictView>, s: Seq<char>)
    requires
        vals.len() >= 2,
        forall|i: int| 0 <= i < vals.len() ==> !((#[trigger] vals[i]) is Xor),
    ensures
        spec_matches_str(combined(BoolOp::Xor, flatten(BoolOp::Xor, vals)), s) <==> (
            (exists|i: int| 0 <= i < vals.len() && spec_matches_str(#[trigger] vals[i], s))
            && (exists|j: int| 0 <= j < vals.len() && !spec_matches_str(#[trigger] vals[j], s))),
{
    lemma_flatten_plain(BoolOp::Xor, vals);
    let r = RestrictView::Xor(vals);
    assert(combined(BoolOp::Xor, vals) == r);
    assert(r->Xor_0 == vals);
    assert(spec_matches_str(r, s) <==> (
            (exists|i: int| 0 <= i < vals.len() && spec_matches_str(#[trigger] vals[i], s))
            && (exists|j: int| 0 <= j < vals.len() && !spec_matches_str(#[trigger] vals[j], s))));
}

/// `not` of a restriction matches exactly the strings it does not.
pub proof fn not_matches_complement(r: RestrictView, s: Seq<char>)
    ensures
        spec_matches_str(RestrictView::Not(Box::new(r)), s) <==> !spec_matches_str(r, s),
{
}


/// Whether a restriction is a boolean combination.
pub open spec fn is_combination(r: RestrictView) -> bool {
    r is And || r is Or || r is Xor
}

proof fn lemma_leaves_plain(r: RestrictView)
    ensures
        forall|i: int| 0 <= i < leaves(r).len() ==> !is_combination(#[trigger] leaves(r)[i]),
    decreases r,
{
    if r is And {
        lemma_leaves_of_plain(r->And_0);
        assert(leaves(r) == leaves_of(r->And_0));
    } else if r is Or {
        lemma_leaves_of_plain(r->Or_0);
        assert(leaves(r) == leaves_of(r->Or_0));
    } else if r is Xor {
        lemma_leaves_of_plain(r->Xor_0);
        assert(leaves(r) == leaves_of(r->Xor_0));
    } else {
        assert(leaves(r) == seq![r]);
    }
}

proof fn lemma_leaves_of_plain(vs: Seq<RestrictView>)
    ensures
        forall|i: int| 0 <= i < leaves_of(vs).len() ==> !is_combination(#[trigger] leaves_of(vs)[i]),
    decreases vs,
{
    if vs.len() > 0 {
        assert(decreases_to!(vs => vs.subrange(0, vs.len() - 1)));
        lemma_leaves_of_plain(vs.drop_last());
        lemma_leaves_plain(vs.last());
        let a = leaves_of(vs.drop_last());
        let b = leaves(vs.last());
        assert forall|i: int| 0 <= i < leaves_of(vs).len() implies !is_combination(#[trigger] leaves_of(vs)[i]) by {
            if i < a.len() {
                assert(leaves_of(vs)[i] == a[i]);
            } else {
                assert(leaves_of(vs)[i] == b[i - a.len()]);
            }
        }
    }
}

/// Flattening yields no `And`, `Or` or `Xor`: every item of `iter_flatten` is a plain
/// restriction.
pub proof fn flatten_yields_no_combinations(r: RestrictView)
    ensures
        forall|i: int| 0 <= i < leaves(r).len() ==> !is_combination(#[trigger] leaves(r)[i]),
{
    lemma_leaves_plain(r);
}

/// A restriction that is not a combination flattens to itself.
pub proof fn flatten_plain_is_itself(r: RestrictView)
    requires
        !is_combination(r),
    ensures
        leaves(r) == seq![r],
{
}

proof fn lemma_extreme_scope(lowest: bool, ls: Seq<RestrictView>)
    ensures
        ls.len() == 0 <==> extreme_scope(lowest, ls) is None,
        extreme_scope(lowest, ls) matches Some(e) ==> (exists|i: int|
            0 <= i < ls.len() && leaf_scope(#[trigger] ls[i]) == e) && forall|i: int|
            0 <= i < ls.len() ==> if lowest {
                scope_rank(e) <= scope_rank(leaf_scope(#[trigger] ls[i]))
            } else {
                scope_rank(e) >= scope_rank(leaf_scope(#[trigger] ls[i]))
            },
    decreases ls.len(),
{
    if ls.len() > 0 {
        let init = ls.drop_last();
        lemma_extreme_scope(lowest, init);
        let e = extreme_scope(lowest, ls)->0;
        match extreme_scope(lowest, init) {
            None => {
                assert(leaf_scope(ls[0]) == e);
            },
            Some(p) => {
                let k = choose|k: int| 0 <= k < init.len() && leaf_scope(#[trigger] init[k]) == p;
                assert(init[k] == ls[k]);
                assert(leaf_scope(ls[ls.len() - 1]) == leaf_scope(ls.last()));
                assert forall|i: int| 0 <= i < ls.len() implies if lowest {
                    scope_rank(e) <= scope_rank(leaf_scope(#[trigger] ls[i]))
                } else {
                    scope_rank(e) >= scope_rank(leaf_scope(#[trigger] ls[i]))
                } by {
                    if i < init.len() {
                        assert(init[i] == ls[i]);
                    }
                }
            },
        }
    }
}

/// The scope of an `And` is the narrowest among its flattened members, the scope of an
/// `Or` the widest; either is `Repo` where there are no members.
pub proof fn scope_of_combination(r: RestrictView)
    requires
        r is And || r is Or,
    ensures
        leaves(r).len() == 0 ==> spec_scope(r) == Scope::Repo,
        leaves(r).len() > 0 ==> exists|i: int|
            0 <= i < leaves(r).len() && leaf_scope(#[trigger] leaves(r)[i]) == spec_scope(r),
        forall|i: int| 0 <= i < leaves(r).len() ==> if r is And {
            scope_rank(spec_scope(r)) <= scope_rank(leaf_scope(#[trigger] leaves(r)[i]))
        } else {
            scope_rank(spec_scope(r)) >= scope_rank(leaf_scope(#[trigger] leaves(r)[i]))
        },
{
    lemma_extreme_scope(r is And, leaves(r));
}

}
