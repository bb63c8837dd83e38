//! `newexe`: install an executable under a new name.

use vstd::prelude::*;

use super::_new::{bare_file_name, path_debug};
use super::exact_args_message;
use crate::error::Error;

verus! {

/// Checks the arguments of `newexe`: a source and a destination file name without a
/// directory part.
pub fn run<'a>(args: &[&'a str]) -> (r: crate::Result<(&'a str, &'a str)>)
    ensures
        match r {
            Ok((source, dest)) => args@.len() == 2 && bare_file_name(args@[1]@) && source
                == args@[0] && dest == args@[1],
            Err(e) => e == Error::Base(e->Base_0) && if args@.len() != 2 {
                e.spec_message() == exact_args_message("2"@, args@.len())
            } else {
                !bare_file_name(args@[1]@) && e.spec_message() == "invalid filename: "@
                    + path_debug(args@[1]@)
            },
        },
{
    super::_new::new(args)
}

}
