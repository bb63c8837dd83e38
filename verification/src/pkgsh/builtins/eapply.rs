//! `eapply`: the options and patch files of its arguments.

use vstd::prelude::*;

use crate::error::Error;
use crate::text::{is_prefix, str_eq, str_starts_with};

verus! {

broadcast use vstd::string::group_string_axioms;

/// The split of arguments from position `i` on, given the options and files so far:
/// arguments that start with `-` are options and must precede the files; `--` makes the
/// rest files; at least one file is needed.
pub open spec fn split_from(
    args: Seq<Seq<char>>,
    i: int,
    opts: Seq<Seq<char>>,
    files: Seq<Seq<char>>,
) -> Result<(Seq<Seq<char>>, Seq<Seq<char>>), Seq<char>>
    decreases args.len() - i,
{
    if i < 0 || i >= args.len() {
        if files.len() == 0 {
            Err("no patches specified"@)
        } else {
            Ok((opts, files))
        }
    } else if is_prefix("-"@, args[i]) {
        if files.len() > 0 {
            Err("options must be specified before file arguments"@)
        } else if args[i] == "--"@ {
            let rest = args.subrange(i + 1, args.len() as int);
            if rest.len() == 0 {
                Err("no patches specified"@)
            } else {
                Ok((opts, rest))
            }
        } else {
            split_from(args, i + 1, opts.push(args[i]), files)
        }
    } else {
        split_from(args, i + 1, opts, files.push(args[i]))
    }
}

/// The options and patch files of the arguments, or the error message.
pub open spec fn spec_split_args(args: Seq<Seq<char>>) -> Result<(Seq<Seq<char>>, Seq<Seq<char>>), Seq<char>> {
    if args.len() == 0 {
        Err("requires 1 or more args, got 0"@)
    } else {
        split_from(args, 0, seq![], seq![])
    }
}

/// The views of string slices.
pub open spec fn strs_view(v: Seq<&str>) -> Seq<Seq<char>> {
    Seq::new(v.len(), |k: int| v[k]@)
}

/// Splits the arguments into options and patch files.
pub fn split_args<'a>(args: &[&'a str]) -> (r: crate::Result<(Vec<&'a str>, Vec<&'a str>)>)
    ensures
        match r {
            Ok((o, f)) => spec_split_args(strs_view(args@)) == Ok::<_, Seq<char>>(
                (strs_view(o@), strs_view(f@)),
            ),
            Err(e) => e == Error::Base(e->Base_0) && spec_split_args(strs_view(args@))
                == Err::<(Seq<Seq<char>>, Seq<Seq<char>>), _>(e.spec_message()),
        },
{
    let ghost av = strs_view(args@);
    if args.len() == 0 {
        proof {
            reveal_strlit("requires 1 or more args, got 0");
        }
        return Err(Error::Base("requires 1 or more args, got 0".to_owned()));
    }
    let mut opts: Vec<&'a str> = Vec::new();
    let mut files: Vec<&'a str> = Vec::new();
    let mut i: usize = 0;
    assert(strs_view(opts@) =~= Seq::<Seq<char>>::empty());
    assert(strs_view(files@) =~= Seq::<Seq<char>>::empty());
    while i < args.len()
        invariant
            i <= args@.len(),
            av == strs_view(args@),
            av.len() > 0,
            spec_split_args(av) == split_from(av, i as int, strs_view(opts@), strs_view(files@)),
        decreases args@.len() - i,
    {
        let arg = args[i];
        let ghost ov = strs_view(opts@);
        let ghost fv = strs_view(files@);
        proof {
            reveal_strlit("-");
        }
        if str_starts_with(arg, "-") {
            if files.len() > 0 {
                proof {
                    reveal_strlit("options must be specified before file arguments");
                }
                return Err(Error::Base("options must be specified before file arguments".to_owned()));
            }
            if str_eq(arg, "--") {
                let mut k = i + 1;
                while k < args.len()
                    invariant
                        i < k <= args@.len(),
                        av == strs_view(args@),
                        strs_view(files@) == av.subrange(i + 1, k as int),
                    decreases args@.len() - k,
                {
                    let ghost before = strs_view(files@);
                    files.push(args[k]);
                    assert(strs_view(files@) =~= before.push(av[k as int]));
                    assert(av.subrange(i + 1, k + 1) =~= av.subrange(i + 1, k as int).push(av[k as int]));
                    k += 1;
                }
                if files.len() == 0 {
                    proof {
                        reveal_strlit("no patches specified");
                    }
                    return Err(Error::Base("no patches specified".to_owned()));
                }
                return Ok((opts, files));
            }
            opts.push(arg);
            assert(strs_view(opts@) =~= ov.push(av[i as int]));
        } else {
            files.push(arg);
            assert(strs_view(files@) =~= fv.push(av[i as int]));
        }
        i += 1;
    }
    if files.len() == 0 {
        proof {
            reveal_strlit("no patches specified");
        }
        return Err(Error::Base("no patches specified".to_owned()));
    }
    Ok((opts, files))
}

}
