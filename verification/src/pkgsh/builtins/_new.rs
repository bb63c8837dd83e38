//! The shared argument handling of the `new*` install commands.

use vstd::prelude::*;

use vstd::string::StrSliceExecFns;

use super::{exact_args_message, require_exact_args};
use crate::error::Error;

verus! {

/// The parent of the path `dest`, as `std::path::Path::parent` gives it: `None` for a root
/// or an empty path.
pub uninterp spec fn path_parent(dest: Seq<char>) -> Option<Seq<char>>;

/// Whether `dest` names a file with no directory part: its parent path is empty.
pub open spec fn bare_file_name(dest: Seq<char>) -> bool {
    path_parent(dest) == Some(Seq::<char>::empty())
}

/// The `Debug` rendering of the path `dest`: quoted, with special characters escaped.
pub uninterp spec fn path_debug(dest: Seq<char>) -> Seq<char>;

/// The parent of the path `dest` (`std::path::Path::parent`), as a string.
#[verifier::external_body]
fn parent_of(dest: &str) -> (r: Option<String>)
    ensures
        match r {
            Some(p) => path_parent(dest@) == Some(p@),
            None => path_parent(dest@) is None,
        },
{
    match std::path::Path::new(dest).parent() {
        Some(p) => Some(p.to_string_lossy().into_owned()),
        None => None,
    }
}

/// Whether `dest` names a file with no directory part.
fn is_bare_file_name(dest: &str) -> (b: bool)
    ensures
        b == bare_file_name(dest@),
{
    match parent_of(dest) {
        Some(p) => {
            let n = p.as_str().unicode_len();
            assert(n == 0 ==> p@ =~= Seq::<char>::empty());
            n == 0
        },
        None => false,
    }
}

/// Renders the path `dest` with its `Debug` formatting.
#[verifier::external_body]
fn debug_path(dest: &str) -> (s: String)
    ensures
        s@ == path_debug(dest@),
{
    format!("{:?}", std::path::Path::new(dest))
}

/// Checks the arguments of a `new*` command, which takes a source and a destination
/// file name without a directory part, and returns them.
pub fn new<'a>(args: &[&'a str]) -> (r: crate::Result<(&'a str, &'a str)>)
    ensures
        match r {
            Ok((source, dest)) => args@.len() == 2 && bare_file_name(args@[1]@) && source
                == args@[0] && dest == args@[1],
            Err(e) => e == Error::Base(e->Base_0) && if args@.len() != 2 {
                e.spec_message() == exact_args_message("2"@, args@.len())
            } else {
                !bare_file_name(args@[1]@) && e.spec_message() == "invalid filename: "@
                    + path_debug(args@[1]@)
            },
        },
{
    proof {
        reveal_strlit("2");
        reveal_strlit("invalid filename: ");
    }
    require_exact_args(args, 2, "2")?;
    if !is_bare_file_name(args[1]) {
        let mut msg = "invalid filename: ".to_owned();
        msg.append(debug_path(args[1]).as_str());
        return Err(Error::Base(msg));
    }
    Ok((args[0], args[1]))
}

}
