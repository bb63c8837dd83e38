//! The shared body of the `default_*` phase commands.

use vstd::prelude::*;

use super::{no_args_message, require_no_args};
use crate::error::Error;

verus! {

/// Checks the arguments of a `default_*` phase command: it takes none. The caller then
/// runs the default implementation of the current phase.
pub fn default_phase_func(args: &[&str]) -> (r: crate::Result<()>)
    ensures
        match r {
            Ok(()) => args@.len() == 0,
            Err(e) => args@.len() > 0 && e == Error::Base(e->Base_0) && e.spec_message()
                == no_args_message(args@.len()),
        },
{
    require_no_args(args)
}

}
