//! `die`: stop the build with an error message.

use vstd::prelude::*;

use crate::error::Error;

verus! {

/// What `die` does when it does not fail its own argument check.
#[derive(Debug, Clone, PartialEq, Eq)]
pub enum Outcome {
    /// Under `nonfatal` with `-n`: return failure, writing the message, if any, to
    /// standard error.
    Failure(Option<String>),
    /// Stop the build with the message.
    Bail(String),
}

/// The message `die` stops the build with when given `msg`.
pub open spec fn bail_message(msg: Option<Seq<char>>) -> Seq<char> {
    match msg {
        Some(m) => m,
        None => "(no error message)"@,
    }
}

/// Decides what `die args...` does. `nonfatal_die` says whether the EAPI supports `-n`,
/// `nonfatal` whether the command runs under `nonfatal`.
pub fn run(args: &[&str], nonfatal_die: bool, nonfatal: bool) -> (r: crate::Result<Outcome>)
    ensures
        ({
            let n = args@.len();
            let flagged = nonfatal_die && (n == 1 || n == 2) && args@[0]@ == "-n"@;
            match r {
                Ok(Outcome::Failure(m)) => flagged && nonfatal && match m {
                    Some(x) => n == 2 && x@ == args@[1]@,
                    None => n == 1,
                },
                Ok(Outcome::Bail(m)) => !(flagged && nonfatal) && (flagged || n <= 1) && m@
                    == bail_message(
                    if flagged && n == 2 {
                        Some(args@[1]@)
                    } else if !flagged && n == 1 {
                        Some(args@[0]@)
                    } else {
                        None
                    },
                ),
                Err(e) => !flagged && n > 1 && e == Error::Base(e->Base_0) && e.spec_message()
                    == "takes up to 1 arg, got "@ + crate::text::decimal(n),
            }
        }),
{
    let n = args.len();
    proof {
        reveal_strlit("-n");
        reveal_strlit("(no error message)");
        reveal_strlit("takes up to 1 arg, got ");
    }
    let flagged = nonfatal_die && (n == 1 || n == 2) && crate::text::str_eq(args[0], "-n");
    let msg: Option<&str> = if flagged {
        if nonfatal {
            if n == 2 {
                return Ok(Outcome::Failure(Some(args[1].to_owned())));
            } else {
                return Ok(Outcome::Failure(None));
            }
        }
        if n == 2 {
            Some(args[1])
        } else {
            None
        }
    } else if n == 0 {
        None
    } else if n == 1 {
        Some(args[0])
    } else {
        let mut msg = "takes up to 1 arg, got ".to_owned();
        msg.append(crate::text::usize_to_string(n).as_str());
        return Err(Error::Base(msg));
    };
    match msg {
        Some(m) => Ok(Outcome::Bail(m.to_owned())),
        None => Ok(Outcome::Bail("(no error message)".to_owned())),
    }
}

}
