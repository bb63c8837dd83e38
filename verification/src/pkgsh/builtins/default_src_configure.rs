//! `default_src_configure`: run the default `src_configure` implementation.

use vstd::prelude::*;

use super::no_args_message;
use crate::error::Error;

verus! {

/// Checks the arguments of `default_src_configure`: it takes none.
pub fn run(args: &[&str]) -> (r: crate::Result<()>)
    ensures
        match r {
            Ok(()) => args@.len() == 0,
            Err(e) => args@.len() > 0 && e == Error::Base(e->Base_0) && e.spec_message()
                == no_args_message(args@.len()),
        },
{
    super::_default_phase_func::default_phase_func(args)
}

}
