//! Parsing of restriction strings: the lexical pieces shared by the grammars.

use vstd::prelude::*;

pub mod dep;
pub mod pkg;

verus! {

/// Character classes used by the restriction grammars.
#[derive(Debug, Clone, Copy, PartialEq, Eq, Structural)]
pub enum CharClass {
    /// `0-9`
    Digit,
    /// The characters after the first of a category, slot or subslot glob:
    /// alphanumerics and `+_.-*`.
    NameRest,
    /// The characters after the first of a package glob, besides `-`: alphanumerics and
    /// `+_*`.
    PkgRest,
    /// The characters after the first of a USE flag: alphanumerics and `+_@-`.
    FlagRest,
    /// Anything but a space, newline or tab.
    NotSpace,
    /// A space, newline or tab.
    Space,
    /// Anything but `"`.
    NotDquote,
    /// Anything but `'`.
    NotSquote,
}

/// `c` is an ASCII letter or digit.
pub open spec fn is_alnum(c: char) -> bool {
    ('a' <= c && c <= 'z') || ('A' <= c && c <= 'Z') || ('0' <= c && c <= '9')
}

/// `c` is a space, newline or tab.
pub open spec fn is_space(c: char) -> bool {
    c == ' ' || c == '\n' || c == '\t'
}

/// The first character of a category, package, slot or subslot glob: alphanumerics
/// and `_*`.
pub open spec fn is_name_first(c: char) -> bool {
    is_alnum(c) || c == '_' || c == '*'
}

/// Whether `c` belongs to the class `k`.
pub open spec fn in_class(k: CharClass, c: char) -> bool {
    match k {
        CharClass::Digit => '0' <= c && c <= '9',
        CharClass::NameRest => is_alnum(c) || c == '+' || c == '_' || c == '.' || c == '-'
            || c == '*',
        CharClass::PkgRest => is_alnum(c) || c == '+' || c == '_' || c == '*',
        CharClass::FlagRest => is_alnum(c) || c == '+' || c == '_' || c == '@' || c == '-',
        CharClass::NotSpace => !is_space(c),
        CharClass::Space => is_space(c),
        CharClass::NotDquote => c != '"',
        CharClass::NotSquote => c != '\'',
    }
}

/// The end of the longest run of class `k` characters starting at `i`.
pub open spec fn span(s: Seq<char>, i: int, k: CharClass) -> int
    decreases s.len() - i,
{
    if 0 <= i < s.len() && in_class(k, s[i]) {
        span(s, i + 1, k)
    } else {
        i
    }
}

/// A run ends no earlier than it starts and no later than the input.
pub proof fn lemma_span_bounds(s: Seq<char>, i: int, k: CharClass)
    requires
        0 <= i <= s.len(),
    ensures
        i <= span(s, i, k) <= s.len(),
        forall|j: int| i <= j < span(s, i, k) ==> in_class(k, #[trigger] s[j]),
    decreases s.len() - i,
{
    if i < s.len() && in_class(k, s[i]) {
        lemma_span_bounds(s, i + 1, k);
    }
}

/// `lit` occurs in `s` at position `i`.
pub open spec fn lit_at(s: Seq<char>, i: int, lit: Seq<char>) -> bool {
    0 <= i && i + lit.len() <= s.len() && s.subrange(i, i + lit.len()) == lit
}

/// The value of a string of decimal digits.
pub open spec fn digits_value(ds: Seq<char>) -> nat
    decreases ds.len(),
{
    if ds.len() == 0 {
        0
    } else {
        digits_value(ds.drop_last()) * 10 + ((ds.last() as u32 - 48) as nat)
    }
}

/// Whether `c` belongs to the class `k`.
pub fn class_has(k: CharClass, c: char) -> (b: bool)
    ensures
        b == in_class(k, c),
{
    let alnum = ('a' <= c && c <= 'z') || ('A' <= c && c <= 'Z') || ('0' <= c && c <= '9');
    match k {
        CharClass::Digit => '0' <= c && c <= '9',
        CharClass::NameRest => alnum || c == '+' || c == '_' || c == '.' || c == '-' || c == '*',
        CharClass::PkgRest => alnum || c == '+' || c == '_' || c == '*',
        CharClass::FlagRest => alnum || c == '+' || c == '_' || c == '@' || c == '-',
        CharClass::NotSpace => !(c == ' ' || c == '\n' || c == '\t'),
        CharClass::Space => c == ' ' || c == '\n' || c == '\t',
        CharClass::NotDquote => c != '"',
        CharClass::NotSquote => c != '\'',
    }
}

/// Whether `c` is an ASCII letter or digit.
pub fn alnum(c: char) -> (b: bool)
    ensures
        b == is_alnum(c),
{
    ('a' <= c && c <= 'z') || ('A' <= c && c <= 'Z') || ('0' <= c && c <= '9')
}

/// The end of the longest run of class `k` characters starting at `i`.
pub fn scan(s: &Vec<char>, i: usize, k: CharClass) -> (j: usize)
    requires
        i <= s@.len(),
    ensures
        j as int == span(s@, i as int, k),
        i <= j <= s@.len(),
{
    let mut j = i;
    while j < s.len() && class_has(k, s[j])
        invariant
            i <= j <= s@.len(),
            span(s@, i as int, k) == span(s@, j as int, k),
        decreases s@.len() - j,
    {
        j += 1;
    }
    j
}

/// Whether `lit` occurs in `s` at position `i`.
pub fn at(s: &Vec<char>, i: usize, lit: &Vec<char>) -> (b: bool)
    requires
        i <= s@.len(),
    ensures
        b == lit_at(s@, i as int, lit@),
{
    let b = crate::text::chars_at(s, i, lit);
    assert(b == lit_at(s@, i as int, lit@)) by {
        if lit@.len() <= s@.len() - i {
            assert(s@.skip(i as int).subrange(0, lit@.len() as int) =~= s@.subrange(
                i as int,
                i + lit@.len(),
            ));
        }
    }
    b
}

/// Whether `s[i]` exists and equals `c`.
pub fn char_at(s: &Vec<char>, i: usize, c: char) -> (b: bool)
    ensures
        b == (i < s@.len() && s@[i as int] == c),
{
    i < s.len() && s[i] == c
}

/// The value of the digits `s[i..j]`, or `None` where it exceeds `u64::MAX`.
pub fn digits_to_u64(s: &Vec<char>, i: usize, j: usize) -> (r: Option<u64>)
    requires
        i <= j <= s@.len(),
        forall|k: int| i <= k < j ==> in_class(CharClass::Digit, #[trigger] s@[k]),
    ensures
        match r {
            Some(v) => v as nat == digits_value(s@.subrange(i as int, j as int)),
            None => digits_value(s@.subrange(i as int, j as int)) > u64::MAX,
        },
{
    let mut v: u64 = 0;
    let mut k = i;
    assert(s@.subrange(i as int, i as int) =~= Seq::<char>::empty());
    while k < j
        invariant
            i <= k <= j <= s@.len(),
            forall|m: int| i <= m < j ==> in_class(CharClass::Digit, #[trigger] s@[m]),
            v as nat == digits_value(s@.subrange(i as int, k as int)),
        decreases j - k,
    {
        let c = s[k];
        assert(in_class(CharClass::Digit, s@[k as int]));
        let d = (c as u32 - 48) as u64;
        let ghost pre = s@.subrange(i as int, k as int);
        let ghost next = s@.subrange(i as int, k + 1);
        assert(next.drop_last() =~= pre);
        assert(next.last() == c);
        match v.checked_mul(10) {
            Some(m) => match m.checked_add(d) {
                Some(n) => {
                    v = n;
                },
                None => {
                    proof {
                        lemma_digits_grow(s@.subrange(i as int, j as int), k + 1 - i);
                        assert(s@.subrange(i as int, j as int).take(k + 1 - i) =~= next);
                    }
                    return None;
                },
            },
            None => {
                proof {
                    lemma_digits_grow(s@.subrange(i as int, j as int), k + 1 - i);
                    assert(s@.subrange(i as int, j as int).take(k + 1 - i) =~= next);
                    assert(digits_value(next) >= v * 10);
                }
                return None;
            },
        }
        k += 1;
    }
    Some(v)
}

/// The value of a digit string is at least the value of any of its prefixes.
pub proof fn lemma_digits_grow(ds: Seq<char>, n: int)
    requires
        0 <= n <= ds.len(),
    ensures
        digits_value(ds) >= digits_value(ds.take(n)),
    decreases ds.len(),
{
    if n < ds.len() {
        lemma_digits_grow(ds.drop_last(), n);
        assert(ds.drop_last().take(n) =~= ds.take(n));
    } else {
        assert(ds.take(n) =~= ds);
    }
}

}
