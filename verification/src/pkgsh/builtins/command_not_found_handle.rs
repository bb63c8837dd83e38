//! `command_not_found_handle`: react to an unknown command.

use vstd::prelude::*;

use crate::error::Error;

verus! {

/// The error for the unknown command `args[0]`: a plain failure under `nonfatal`, else one
/// that stops the build.
pub fn run(args: &[&str], nonfatal: bool) -> (e: Error)
    requires
        args@.len() > 0,
    ensures
        e.spec_message() == "unknown command: "@ + args@[0]@,
        nonfatal ==> e == Error::Base(e->Base_0),
        !nonfatal ==> e == Error::Bail(e->Bail_0),
{
    let mut msg = "unknown command: ".to_owned();
    msg.append(args[0]);
    proof {
        reveal_strlit("unknown command: ");
    }
    if nonfatal {
        Error::Base(msg)
    } else {
        Error::Bail(msg)
    }
}

}
