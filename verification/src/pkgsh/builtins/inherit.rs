//! `inherit`: source eclasses.

use vstd::prelude::*;

use super::{require_args, wants_args_message};
use crate::error::Error;

verus! {

/// The eclasses that `inherit args...` still has to source, given those already
/// inherited: the arguments not among them, in order.
#[verifier::loop_isolation(false)]
pub fn run(args: &[&str], inherited: &Vec<String>) -> (r: crate::Result<Vec<String>>)
    ensures
        match r {
            Ok(v) => args@.len() > 0 && v@.map_values(|x: String| x@) == args@.map_values(
                |a: &str| a@,
            ).filter(|a: Seq<char>| !inherited@.map_values(|x: String| x@).contains(a)),
            Err(e) => args@.len() == 0 && e == Error::Base(e->Base_0) && e.spec_message()
                == wants_args_message(),
        },
{
    require_args(args)?;
    let ghost names = args@.map_values(|a: &str| a@);
    let ghost done = inherited@.map_values(|x: String| x@);
    let ghost keep = |a: Seq<char>| !done.contains(a);
    let mut out: Vec<String> = Vec::new();
    let mut i: usize = 0;
    assert(names.take(0).filter(keep) =~= Seq::<Seq<char>>::empty()) by {
        reveal_with_fuel(Seq::<Seq<char>>::filter, 1);
    }
    while i < args.len()
        invariant
            0 <= i <= args@.len(),
            names == args@.map_values(|a: &str| a@),
            done == inherited@.map_values(|x: String| x@),
            out@.map_values(|x: String| x@) == names.take(i as int).filter(keep),
        decreases args@.len() - i,
    {
        let a = args[i];
        let mut seen = false;
        let mut j: usize = 0;
        while j < inherited.len()
            invariant
                0 <= j <= inherited@.len(),
                done == inherited@.map_values(|x: String| x@),
                seen == exists|m: int| 0 <= m < j && done[m] == a@,
            decreases inherited@.len() - j,
        {
            assert(done[j as int] == inherited@[j as int]@);
            if crate::text::str_eq(inherited[j].as_str(), a) {
                seen = true;
            }
            j += 1;
        }
        assert(seen == done.contains(a@));
        assert(names[i as int] == a@);
        let ghost before = out@.map_values(|x: String| x@);
        proof {
            reveal_with_fuel(Seq::<Seq<char>>::filter, 1);
            assert(names.take(i + 1).drop_last() =~= names.take(i as int));
            assert(names.take(i + 1).last() == a@);
        }
        if !seen {
            out.push(a.to_owned());
            assert(out@.map_values(|x: String| x@) =~= before.push(a@));
        } else {
            assert(out@.map_values(|x: String| x@) =~= before);
        }
        i += 1;
    }
    assert(names.take(args@.len() as int) =~= names);
    Ok(out)
}

}
