//! `keepdir`: create directories that are kept when empty.

use vstd::prelude::*;

use super::{require_args, wants_args_message};
use crate::error::Error;

verus! {

/// Checks the arguments of the command: it wants at least one.
pub fn run(args: &[&str]) -> (r: crate::Result<()>)
    ensures
        match r {
            Ok(()) => args@.len() > 0,
            Err(e) => args@.len() == 0 && e == Error::Base(e->Base_0) && e.spec_message()
                == wants_args_message(),
        },
{
    require_args(args)
}


/// The name of the stub file that keeps a directory of package `cat/pkg` in `slot`.
pub fn keep_file_name(cat: &str, pkg: &str, slot: &str) -> (r: String)
    ensures
        r@ == ".keep_"@ + cat@ + "_"@ + pkg@ + "_"@ + slot@,
{
    let mut r = ".keep_".to_owned();
    r.append(cat);
    r.append("_");
    r.append(pkg);
    r.append("_");
    r.append(slot);
    proof {
        reveal_strlit(".keep_");
        reveal_strlit("_");
    }
    r
}

}
