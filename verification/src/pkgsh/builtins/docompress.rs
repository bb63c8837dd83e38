//! `docompress`: include paths in, or with `-x` exclude them from, compression.

use vstd::prelude::*;

use super::{require_args, wants_args_message};
use crate::error::Error;

verus! {

/// Which set `docompress args...` extends (`true` for the exclusion set, chosen by a
/// leading `-x`) and the paths it adds.
pub fn run(args: &[&str]) -> (r: crate::Result<(bool, Vec<String>)>)
    ensures
        match r {
            Ok((exclude, paths)) => {
                let skip: int = if exclude {
                    1
                } else {
                    0
                };
                &&& args@.len() > 0
                &&& exclude == (args@[0]@ == "-x"@)
                &&& paths@.len() == args@.len() - skip
                &&& forall|k: int| 0 <= k < paths@.len() ==> (#[trigger] paths@[k])@ == args@[k
                    + skip]@
            },
            Err(e) => args@.len() == 0 && e == Error::Base(e->Base_0) && e.spec_message()
                == wants_args_message(),
        },
{
    require_args(args)?;
    proof {
        reveal_strlit("-x");
    }
    let exclude = crate::text::str_eq(args[0], "-x");
    let start: usize = if exclude {
        1
    } else {
        0
    };
    Ok((exclude, super::owned_args(args, start)))
}

}
