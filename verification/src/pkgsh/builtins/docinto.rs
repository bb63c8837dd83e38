//! `docinto`: set the install directory for documentation.

use vstd::prelude::*;

use super::exact_args_message;
use crate::error::Error;

verus! {

/// The directory that the command sets: its one argument, with `/` standing for the
/// empty path.
pub fn run<'a>(args: &[&'a str]) -> (r: crate::Result<&'a str>)
    ensures
        match r {
            Ok(path) => args@.len() == 1 && path@ == if args@[0]@ == "/"@ {
                Seq::<char>::empty()
            } else {
                args@[0]@
            },
            Err(e) => args@.len() != 1 && e == Error::Base(e->Base_0) && e.spec_message()
                == exact_args_message("1 arg"@, args@.len()),
        },
{
    proof {
        reveal_strlit("1 arg");
    }
    super::require_exact_args(args, 1, "1 arg")?;
    if crate::text::str_eq(args[0], "/") {
        proof {
            reveal_strlit("/");
            reveal_strlit("");
        }
        Ok("")
    } else {
        Ok(args[0])
    }
}

}
