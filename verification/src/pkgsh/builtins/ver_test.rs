//! `ver_test`: the versions and the comparison of its arguments.

use vstd::prelude::*;

use crate::dep::version::{version_order, version_order_flips, VerOrder};
use crate::dep::{Version, VersionView};
use crate::error::Error;
use crate::restrict::parse::dep::{spec_version, version};
use crate::text::{decimal, str_eq, str_to_chars};

verus! {

broadcast use vstd::string::group_string_axioms;

/// The comparisons `ver_test` performs.
#[derive(Debug, Clone, Copy, PartialEq, Eq, Structural, Hash)]
pub enum VersionTest {
    /// `-eq`
    Eq,
    /// `-ne`
    Ne,
    /// `-lt`
    Lt,
    /// `-gt`
    Gt,
    /// `-le`
    Le,
    /// `-ge`
    Ge,
}

/// The comparison an operator names, if any.
pub open spec fn test_of(op: Seq<char>) -> Option<VersionTest> {
    if op == "-eq"@ {
        Some(VersionTest::Eq)
    } else if op == "-ne"@ {
        Some(VersionTest::Ne)
    } else if op == "-lt"@ {
        Some(VersionTest::Lt)
    } else if op == "-gt"@ {
        Some(VersionTest::Gt)
    } else if op == "-le"@ {
        Some(VersionTest::Le)
    } else if op == "-ge"@ {
        Some(VersionTest::Ge)
    } else {
        None
    }
}

/// A version without operator spanning all of `s`.
pub open spec fn plain_version(s: Seq<char>) -> Option<VersionView> {
    match spec_version(s, 0) {
        Some((j, v)) => if j == s.len() {
            Some(v)
        } else {
            None
        },
        None => None,
    }
}

/// The first version, operator and second version that the arguments name: with two
/// arguments the first version is `pvr`, which must not be empty; with three they are
/// the arguments.
pub open spec fn operands(args: Seq<Seq<char>>, pvr: Seq<char>) -> Result<
    (Seq<char>, Seq<char>, Seq<char>),
    Seq<char>,
> {
    if args.len() == 2 && pvr.len() == 0 {
        Err("$PVR is undefined"@)
    } else if args.len() == 2 {
        Ok((pvr, args[0], args[1]))
    } else if args.len() == 3 {
        Ok((args[0], args[1], args[2]))
    } else {
        Err("only accepts 2 or 3 args, got "@ + decimal(args.len()))
    }
}

/// Parses a version without operator spanning all of `s`.
pub(crate) fn parse_version(s: &str) -> (r: crate::Result<Version>)
    ensures
        match r {
            Ok(v) => plain_version(s@) == Some(v@),
            Err(e) => plain_version(s@) is None && e == Error::InvalidValue(e->InvalidValue_0)
                && e.spec_message() == "invalid version: "@ + s@,
        },
{
    let chars = str_to_chars(s);
    match version(&chars, 0) {
        Some((j, v)) => {
            if j == chars.len() {
                return Ok(v);
            }
        },
        None => {},
    }
    let mut msg = "invalid version: ".to_owned();
    msg.append(s);
    proof {
        reveal_strlit("invalid version: ");
    }
    Err(Error::InvalidValue(msg))
}

/// The views of string slices.
pub open spec fn strs_view(v: Seq<&str>) -> Seq<Seq<char>> {
    Seq::new(v.len(), |k: int| v[k]@)
}

/// The two versions and the comparison of the command's arguments, `pvr` being the
/// value of `$PVR` (empty where unset): the argument count is checked first, then each
/// version, then the operator.
pub fn run(args: &[&str], pvr: &str) -> (r: crate::Result<(Version, VersionTest, Version)>)
    ensures
        match operands(strs_view(args@), pvr@) {
            Err(m) => r matches Err(e) && e == Error::Base(e->Base_0) && e.spec_message() == m,
            Ok((a, op, b)) => match (plain_version(a), plain_version(b), test_of(op)) {
                (None, _, _) => r matches Err(e) && e.spec_message() == "invalid version: "@ + a,
                (Some(_), None, _) => r matches Err(e) && e.spec_message() == "invalid version: "@
                    + b,
                (Some(_), Some(_), None) => r matches Err(e) && e == Error::Base(e->Base_0)
                    && e.spec_message() == "invalid operator: "@ + op,
                (Some(x), Some(y), Some(t)) => r matches Ok((v1, t1, v2)) && v1@ == x && t1 == t
                    && v2@ == y,
            },
        },
{
    proof {
        reveal_strlit("$PVR is undefined");
        reveal_strlit("only accepts 2 or 3 args, got ");
        reveal_strlit("invalid operator: ");
        reveal_strlit("-eq");
        reveal_strlit("-ne");
        reveal_strlit("-lt");
        reveal_strlit("-gt");
        reveal_strlit("-le");
        reveal_strlit("-ge");
    }
    let n = args.len();
    let (a, op, b) = if n == 2 && pvr.unicode_len() == 0 {
        return Err(Error::Base("$PVR is undefined".to_owned()));
    } else if n == 2 {
        (pvr, args[0], args[1])
    } else if n == 3 {
        (args[0], args[1], args[2])
    } else {
        let mut msg = "only accepts 2 or 3 args, got ".to_owned();
        msg.append(crate::text::usize_to_string(n).as_str());
        return Err(Error::Base(msg));
    };
    let v1 = parse_version(a)?;
    let v2 = parse_version(b)?;
    let t = if str_eq(op, "-eq") {
        VersionTest::Eq
    } else if str_eq(op, "-ne") {
        VersionTest::Ne
    } else if str_eq(op, "-lt") {
        VersionTest::Lt
    } else if str_eq(op, "-gt") {
        VersionTest::Gt
    } else if str_eq(op, "-le") {
        VersionTest::Le
    } else if str_eq(op, "-ge") {
        VersionTest::Ge
    } else {
        let mut msg = "invalid operator: ".to_owned();
        msg.append(op);
        return Err(Error::Base(msg));
    };
    Ok((v1, t, v2))
}


/// Whether the comparison holds between the versions `a` and `b`, by their order.
pub open spec fn test_holds(t: VersionTest, a: VersionView, b: VersionView) -> bool {
    let o = version_order(a, b);
    match t {
        VersionTest::Eq => o == VerOrder::Equal,
        VersionTest::Ne => o != VerOrder::Equal,
        VersionTest::Lt => o == VerOrder::Less,
        VersionTest::Gt => o == VerOrder::Greater,
        VersionTest::Le => o != VerOrder::Greater,
        VersionTest::Ge => o != VerOrder::Less,
    }
}

impl VersionTest {
    /// Whether the comparison holds between `a` and `b`.
    pub fn holds(self, a: &Version, b: &Version) -> (r: bool)
        ensures
            r == test_holds(self, a@, b@),
    {
        let o = a.compare(b);
        match self {
            VersionTest::Eq => o == VerOrder::Equal,
            VersionTest::Ne => o != VerOrder::Equal,
            VersionTest::Lt => o == VerOrder::Less,
            VersionTest::Gt => o == VerOrder::Greater,
            VersionTest::Le => o != VerOrder::Greater,
            VersionTest::Ge => o != VerOrder::Less,
        }
    }
}

/// The outcome of the command for its arguments and `$PVR`: whether the comparison they
/// name holds, or the error for the first thing wrong with them.
pub fn status(args: &[&str], pvr: &str) -> (r: crate::Result<bool>)
    ensures
        match operands(strs_view(args@), pvr@) {
            Err(m) => r matches Err(e) && e.spec_message() == m,
            Ok((a, op, b)) => match (plain_version(a), plain_version(b), test_of(op)) {
                (None, _, _) => r matches Err(e) && e.spec_message() == "invalid version: "@ + a,
                (Some(_), None, _) => r matches Err(e) && e.spec_message() == "invalid version: "@
                    + b,
                (Some(_), Some(_), None) => r matches Err(e) && e.spec_message()
                    == "invalid operator: "@ + op,
                (Some(x), Some(y), Some(t)) => r matches Ok(b) && b == test_holds(t, x, y),
            },
        },
{
    match run(args, pvr) {
        Ok((v1, t, v2)) => Ok(t.holds(&v1, &v2)),
        Err(e) => Err(e),
    }
}


/// Each comparison and its inverse disagree (`-eq`/`-ne`, `-lt`/`-ge`, `-gt`/`-le`), and
/// a comparison read the other way round holds as its mirror does (`a -lt b` exactly
/// when `b -gt a`, `a -le b` exactly when `b -ge a`, and `-eq` either way).
pub proof fn inverted_tests_disagree(a: VersionView, b: VersionView)
    ensures
        test_holds(VersionTest::Eq, a, b) == !test_holds(VersionTest::Ne, a, b),
        test_holds(VersionTest::Lt, a, b) == !test_holds(VersionTest::Ge, a, b),
        test_holds(VersionTest::Gt, a, b) == !test_holds(VersionTest::Le, a, b),
        test_holds(VersionTest::Lt, a, b) == test_holds(VersionTest::Gt, b, a),
        test_holds(VersionTest::Le, a, b) == test_holds(VersionTest::Ge, b, a),
        test_holds(VersionTest::Eq, a, b) == test_holds(VersionTest::Eq, b, a),
{
    version_order_flips(a, b);
}

}
