//! The package dependency components that restrictions are built from.

use vstd::prelude::*;

pub mod version;

verus! {

/// Blocker strength of a dependency.
#[derive(Debug, Clone, Copy, PartialEq, Eq, Structural, Hash)]
pub enum Blocker {
    /// `!!`
    Strong,
    /// `!`
    Weak,
}

/// The form of a USE dependency.
#[derive(Debug, Clone, Copy, PartialEq, Eq, Structural, Hash)]
pub enum UseDepKind {
    /// `flag` or `-flag`
    Enabled,
    /// `flag=` or `!flag=`
    Equal,
    /// `flag?` or `!flag?`
    Conditional,
}

/// A USE dependency such as `!flag(+)?`.
#[derive(Debug, Clone, PartialEq, Eq, Hash)]
pub struct UseDep {
    pub flag: String,
    pub kind: UseDepKind,
    pub enabled: bool,
    pub default: Option<bool>,
}

/// The mathematical form of a USE dependency.
pub struct UseDepView {
    pub flag: Seq<char>,
    pub kind: UseDepKind,
    pub enabled: bool,
    pub default: Option<bool>,
}

impl View for UseDep {
    type V = UseDepView;

    open spec fn view(&self) -> UseDepView {
        UseDepView { flag: self.flag@, kind: self.kind, enabled: self.enabled, default: self.default }
    }
}

/// Version comparison operators.
#[derive(Debug, Clone, Copy, PartialEq, Eq, Structural, Hash)]
pub enum Operator {
    /// `<`
    Less,
    /// `<=`
    LessOrEqual,
    /// `=`
    Equal,
    /// `=` with a trailing `*`
    EqualGlob,
    /// `~`
    Approximate,
    /// `>=`
    GreaterOrEqual,
    /// `>`
    Greater,
}

/// A decimal version component with its spelling as written.
#[derive(Debug, Clone, PartialEq, Eq, Hash)]
pub struct Number {
    pub raw: String,
    pub value: u64,
}

/// The mathematical form of a version component.
pub struct NumberView {
    pub raw: Seq<char>,
    pub value: u64,
}

impl View for Number {
    type V = NumberView;

    open spec fn view(&self) -> NumberView {
        NumberView { raw: self.raw@, value: self.value }
    }
}

/// Version suffix kinds, in increasing order.
#[derive(Debug, Clone, Copy, PartialEq, Eq, Structural, Hash)]
pub enum SuffixKind {
    Alpha,
    Beta,
    Pre,
    Rc,
    P,
}

/// A version suffix such as `_rc2`.
#[derive(Debug, Clone, PartialEq, Eq, Hash)]
pub struct Suffix {
    pub kind: SuffixKind,
    pub version: Option<Number>,
}

/// The mathematical form of a version suffix.
pub struct SuffixView {
    pub kind: SuffixKind,
    pub version: Option<NumberView>,
}

impl View for Suffix {
    type V = SuffixView;

    open spec fn view(&self) -> SuffixView {
        SuffixView {
            kind: self.kind,
            version: match self.version {
                Some(n) => Some(n@),
                None => None,
            },
        }
    }
}

/// A package revision such as `-r1`; the empty revision has an empty spelling.
#[derive(Debug, Clone, PartialEq, Eq, Hash)]
pub struct Revision(pub Number);

impl Revision {
    /// The revision of a version that names none.
    pub fn empty() -> (r: Revision)
        ensures
            r.0@ == (NumberView { raw: Seq::empty(), value: 0 }),
    {
        Revision(Number { raw: String::new(), value: 0 })
    }

    /// Whether the version names no revision.
    pub fn is_empty(&self) -> (b: bool)
        ensures
            b == (self.0.raw@.len() == 0),
    {
        self.0.raw.as_str().is_empty()
    }
}

/// The views of a sequence of version components.
pub open spec fn number_views(ns: Seq<Number>) -> Seq<NumberView> {
    Seq::new(ns.len(), |i: int| ns[i]@)
}

/// The views of a sequence of version suffixes.
pub open spec fn suffix_views(xs: Seq<Suffix>) -> Seq<SuffixView> {
    Seq::new(xs.len(), |i: int| xs[i]@)
}

/// A package version.
#[derive(Debug, Clone, PartialEq, Eq, Hash)]
pub struct Version {
    pub op: Option<Operator>,
    pub numbers: Vec<Number>,
    pub letter: Option<char>,
    pub suffixes: Vec<Suffix>,
    pub revision: Revision,
}

/// The mathematical form of a package version.
pub struct VersionView {
    pub op: Option<Operator>,
    pub numbers: Seq<NumberView>,
    pub letter: Option<char>,
    pub suffixes: Seq<SuffixView>,
    pub revision: NumberView,
}

impl View for Version {
    type V = VersionView;

    open spec fn view(&self) -> VersionView {
        VersionView {
            op: self.op,
            numbers: number_views(self.numbers@),
            letter: self.letter,
            suffixes: suffix_views(self.suffixes@),
            revision: self.revision.0@,
        }
    }
}

impl Number {
    /// A copy of the component.
    pub fn duplicate(&self) -> (n: Number)
        ensures
            n@ == self@,
    {
        Number { raw: self.raw.clone(), value: self.value }
    }
}

impl Version {
    /// A copy of the version.
    pub fn duplicate(&self) -> (v: Version)
        ensures
            v@ == self@,
    {
        let mut numbers: Vec<Number> = Vec::new();
        let mut i: usize = 0;
        while i < self.numbers.len()
            invariant
                i <= self.numbers.len(),
                numbers.len() == i,
                forall|k: int| 0 <= k < i ==> (#[trigger] numbers@[k])@ == self.numbers@[k]@,
            decreases self.numbers.len() - i,
        {
            numbers.push(self.numbers[i].duplicate());
            i = i + 1;
        }
        assert(number_views(numbers@) =~= number_views(self.numbers@));
        let mut suffixes: Vec<Suffix> = Vec::new();
        let mut j: usize = 0;
        while j < self.suffixes.len()
            invariant
                j <= self.suffixes.len(),
                suffixes.len() == j,
                forall|k: int| 0 <= k < j ==> (#[trigger] suffixes@[k])@ == self.suffixes@[k]@,
            decreases self.suffixes.len() - j,
        {
            let x = &self.suffixes[j];
            let version = match &x.version {
                Some(n) => Some(n.duplicate()),
                None => None,
            };
            suffixes.push(Suffix { kind: x.kind, version });
            j = j + 1;
        }
        assert(suffix_views(suffixes@) =~= suffix_views(self.suffixes@));
        Version {
            op: self.op,
            numbers,
            letter: self.letter,
            suffixes,
            revision: Revision(self.revision.0.duplicate()),
        }
    }

    /// Attaches an operator; `~` refuses a version with a revision.
    pub fn with_op(self, op: Operator) -> (r: core::result::Result<Version, &'static str>)
        ensures
            match r {
                Ok(v) => !(op == Operator::Approximate && self.revision.0.raw@.len() > 0)
                    && v@ == (VersionView { op: Some(op), ..self@ }),
                Err(_) => op == Operator::Approximate && self.revision.0.raw@.len() > 0,
            },
    {
        if op == Operator::Approximate && !self.revision.is_empty() {
            return Err("~ version operator can't be used with a revision");
        }
        let mut v = self;
        v.op = Some(op);
        Ok(v)
    }
}

/// A package name qualified by its category, such as `cat/pkg`.
#[derive(Debug, Clone, PartialEq, Eq, Hash)]
pub struct Cpn {
    pub category: String,
    pub package: String,
}

impl View for Cpn {
    type V = (Seq<char>, Seq<char>);

    open spec fn view(&self) -> (Seq<char>, Seq<char>) {
        (self.category@, self.package@)
    }
}

impl Cpn {
    /// The package `package` of the category `category`.
    pub fn new(category: &str, package: &str) -> (c: Cpn)
        ensures
            c@ == (category@, package@),
    {
        Cpn { category: category.to_owned(), package: package.to_owned() }
    }

    /// The category.
    pub fn category(&self) -> (s: &str)
        ensures
            s@ == self@.0,
    {
        self.category.as_str()
    }

    /// The package name.
    pub fn package(&self) -> (s: &str)
        ensures
            s@ == self@.1,
    {
        self.package.as_str()
    }
}

/// A package version qualified by its category and name, such as `cat/pkg-1-r2`.
#[derive(Debug, Clone, PartialEq, Eq, Hash)]
pub struct Cpv {
    pub category: String,
    pub package: String,
    pub version: Version,
}

/// The mathematical form of a package version.
pub struct CpvView {
    pub category: Seq<char>,
    pub package: Seq<char>,
    pub version: VersionView,
}

impl View for Cpv {
    type V = CpvView;

    open spec fn view(&self) -> CpvView {
        CpvView { category: self.category@, package: self.package@, version: self.version@ }
    }
}

impl Cpv {
    /// The version `version`, without any operator, of the package `category`/`package`.
    pub fn new(category: &str, package: &str, version: Version) -> (c: Cpv)
        ensures
            c@ == (CpvView {
                category: category@,
                package: package@,
                version: VersionView { op: None, ..version@ },
            }),
    {
        let mut v = version;
        v.op = None;
        Cpv { category: category.to_owned(), package: package.to_owned(), version: v }
    }

    /// A copy of the package version.
    pub fn duplicate(&self) -> (c: Cpv)
        ensures
            c@ == self@,
    {
        Cpv {
            category: self.category.clone(),
            package: self.package.clone(),
            version: self.version.duplicate(),
        }
    }

    /// The package that the version belongs to.
    pub fn cpn(&self) -> (c: Cpn)
        ensures
            c@ == (self@.category, self@.package),
    {
        Cpn { category: self.category.clone(), package: self.package.clone() }
    }
}


impl Number {
    /// Whether two components are spelled alike and have the same value.
    pub fn same(&self, other: &Number) -> (b: bool)
        ensures
            b == (self@ == other@),
    {
        self.value == other.value && crate::text::str_eq(self.raw.as_str(), other.raw.as_str())
    }
}

impl Suffix {
    /// Whether two suffixes are alike.
    pub fn same(&self, other: &Suffix) -> (b: bool)
        ensures
            b == (self@ == other@),
    {
        if self.kind != other.kind {
            return false;
        }
        match (&self.version, &other.version) {
            (Some(a), Some(b)) => a.same(b),
            (None, None) => true,
            _ => false,
        }
    }
}

impl Version {
    /// Whether two versions are written alike, operator included.
    pub fn same(&self, other: &Version) -> (b: bool)
        ensures
            b == (self@ == other@),
    {
        let same_op = match (self.op, other.op) {
            (Some(a), Some(b)) => a == b,
            (None, None) => true,
            _ => false,
        };
        let same_letter = match (self.letter, other.letter) {
            (Some(a), Some(b)) => a == b,
            (None, None) => true,
            _ => false,
        };
        if !same_op || !same_letter || !self.revision.0.same(&other.revision.0) {
            return false;
        }
        if self.numbers.len() != other.numbers.len() {
            assert(number_views(self.numbers@).len() != number_views(other.numbers@).len());
            return false;
        }
        if self.suffixes.len() != other.suffixes.len() {
            assert(suffix_views(self.suffixes@).len() != suffix_views(other.suffixes@).len());
            return false;
        }
        let mut i: usize = 0;
        while i < self.numbers.len()
            invariant
                i <= self.numbers.len(),
                self.numbers.len() == other.numbers.len(),
                forall|k: int| 0 <= k < i ==> self.numbers@[k]@ == other.numbers@[k]@,
            decreases self.numbers.len() - i,
        {
            if !self.numbers[i].same(&other.numbers[i]) {
                assert(number_views(self.numbers@)[i as int] != number_views(other.numbers@)[i as int]);
                return false;
            }
            i = i + 1;
        }
        let mut j: usize = 0;
        while j < self.suffixes.len()
            invariant
                j <= self.suffixes.len(),
                self.suffixes.len() == other.suffixes.len(),
                forall|k: int| 0 <= k < j ==> self.suffixes@[k]@ == other.suffixes@[k]@,
            decreases self.suffixes.len() - j,
        {
            if !self.suffixes[j].same(&other.suffixes[j]) {
                assert(suffix_views(self.suffixes@)[j as int] != suffix_views(other.suffixes@)[j as int]);
                return false;
            }
            j = j + 1;
        }
        assert(number_views(self.numbers@) =~= number_views(other.numbers@));
        assert(suffix_views(self.suffixes@) =~= suffix_views(other.suffixes@));
        true
    }
}

impl Cpv {
    /// Whether two package versions are written alike.
    pub fn same(&self, other: &Cpv) -> (b: bool)
        ensures
            b == (self@ == other@),
    {
        crate::text::str_eq(self.category.as_str(), other.category.as_str())
            && crate::text::str_eq(self.package.as_str(), other.package.as_str())
            && self.version.same(&other.version)
    }
}

impl Cpn {
    /// A copy of the package name.
    pub fn duplicate(&self) -> (c: Cpn)
        ensures
            c@ == self@,
    {
        Cpn { category: self.category.clone(), package: self.package.clone() }
    }

    /// Whether two package names are alike.
    pub fn same(&self, other: &Cpn) -> (b: bool)
        ensures
            b == (self@ == other@),
    {
        crate::text::str_eq(self.category.as_str(), other.category.as_str())
            && crate::text::str_eq(self.package.as_str(), other.package.as_str())
    }
}

impl UseDep {
    /// A copy of the USE dependency.
    pub fn duplicate(&self) -> (u: UseDep)
        ensures
            u@ == self@,
    {
        UseDep { flag: self.flag.clone(), kind: self.kind, enabled: self.enabled, default: self.default }
    }

    /// Whether two USE dependencies are alike.
    pub fn same(&self, other: &UseDep) -> (b: bool)
        ensures
            b == (self@ == other@),
    {
        self.kind == other.kind && self.enabled == other.enabled && self.default == other.default
            && crate::text::str_eq(self.flag.as_str(), other.flag.as_str())
    }
}

}
