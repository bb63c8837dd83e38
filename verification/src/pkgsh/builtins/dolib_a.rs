//! `dolib_a`: install static libraries.

use vstd::prelude::*;

use super::{require_args, wants_args_message};
use crate::error::Error;

verus! {

/// Checks the arguments of the command: it wants at least one.
pub fn run(args: &[&str]) -> (r: crate::Result<()>)
    ensures
        match r {
            Ok(()) => args@.len() > 0,
            Err(e) => args@.len() == 0 && e == Error::Base(e->Base_0) && e.spec_message()
                == wants_args_message(),
        },
{
    require_args(args)
}

}
