//! `eapply_user`: apply the user patches once.

use vstd::prelude::*;

use super::{no_args_message, require_no_args};
use crate::error::Error;

verus! {

/// Checks the arguments of the command: it takes none.
pub fn run(args: &[&str]) -> (r: crate::Result<()>)
    ensures
        match r {
            Ok(()) => args@.len() == 0,
            Err(e) => args@.len() > 0 && e == Error::Base(e->Base_0) && e.spec_message()
                == no_args_message(args@.len()),
        },
{
    require_no_args(args)
}

}
