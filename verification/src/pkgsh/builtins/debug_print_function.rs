//! `debug_print_function`: report entering a function on the debug channel.

use vstd::prelude::*;

use super::{require_args, wants_args_message};
use crate::error::Error;

verus! {

/// The arguments that `debug_print_function name args...` hands to `debug_print`:
/// `"name: entering function"` followed by `args`.
pub fn run(args: &[&str]) -> (r: crate::Result<Vec<String>>)
    ensures
        match r {
            Ok(v) => args@.len() > 0 && v@.len() == args@.len() && v@[0]@ == args@[0]@
                + ": entering function"@ && forall|k: int|
                1 <= k < v@.len() ==> (#[trigger] v@[k])@ == args@[k]@,
            Err(e) => args@.len() == 0 && e == Error::Base(e->Base_0) && e.spec_message()
                == wants_args_message(),
        },
{
    require_args(args)?;
    let mut out: Vec<String> = Vec::new();
    let mut first = args[0].to_owned();
    first.append(": entering function");
    proof {
        reveal_strlit(": entering function");
    }
    out.push(first);
    let mut i: usize = 1;
    while i < args.len()
        invariant
            1 <= i <= args@.len(),
            out@.len() == i,
            out@[0]@ == args@[0]@ + ": entering function"@,
            forall|k: int| 1 <= k < i ==> (#[trigger] out@[k])@ == args@[k]@,
        decreases args@.len() - i,
    {
        out.push(args[i].to_owned());
        i += 1;
    }
    Ok(out)
}

}
