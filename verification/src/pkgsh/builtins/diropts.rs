//! `diropts`: set the options for directory creation.

use vstd::prelude::*;

use super::{require_args, wants_args_message};
use crate::error::Error;

verus! {

/// The directory creation options that `diropts args...` sets: the arguments.
pub fn run(args: &[&str]) -> (r: crate::Result<Vec<String>>)
    ensures
        match r {
            Ok(v) => args@.len() > 0 && v@.len() == args@.len() && forall|k: int|
                0 <= k < v@.len() ==> (#[trigger] v@[k])@ == args@[k]@,
            Err(e) => args@.len() == 0 && e == Error::Base(e->Base_0) && e.spec_message()
                == wants_args_message(),
        },
{
    require_args(args)?;
    Ok(super::owned_args(args, 0))
}

}
