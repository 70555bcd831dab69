//! The storage directory among the arguments of the process.

use vstd::prelude::*;

verus! {

/// Why the arguments name no storage directory.
#[derive(Clone, Copy, Debug, PartialEq, Eq, Structural)]
pub enum ArgError {
    /// No argument is `--directory`.
    FlagNotFound,
    /// The first `--directory` is the last argument.
    PathNotGiven,
}

/// The directory that `args` name: the argument after the first
/// `--directory`.
pub open spec fn directory_of(args: Seq<Seq<char>>) -> Result<Seq<char>, ArgError>
    decreases args.len(),
{
    if args.len() == 0 {
        Err(ArgError::FlagNotFound)
    } else if args.first() == "--directory"@ {
        if args.len() > 1 {
            Ok(args[1])
        } else {
            Err(ArgError::PathNotGiven)
        }
    } else {
        directory_of(args.drop_first())
    }
}

/// The directory that `args` name, the arguments of the process after the
/// name of the program.
pub fn directory_arg(args: &[String]) -> (r: Result<String, ArgError>)
    ensures
        match r {
            Ok(path) => directory_of(args.deep_view()) == Ok::<Seq<char>, ArgError>(path@),
            Err(e) => directory_of(args.deep_view()) == Err::<Seq<char>, ArgError>(e),
        },
{
    let flag = "--directory".to_owned();
    let ghost all = args.deep_view();
    let mut i: usize = 0;
    assert(all.skip(0) =~= all);
    while i < args.len()
        invariant
            i <= args@.len(),
            all == args.deep_view(),
            flag@ == "--directory"@,
            directory_of(all) == directory_of(all.skip(i as int)),
        decreases args@.len() - i,
    {
        let ghost rest = all.skip(i as int);
        assert(rest.first() == args@[i as int]@);
        if args[i] == flag {
            if i + 1 < args.len() {
                assert(rest[1] == args@[i + 1]@);
                return Ok(args[i + 1].clone());
            } else {
                return Err(ArgError::PathNotGiven);
            }
        }
        assert(rest.drop_first() =~= all.skip(i + 1));
        i += 1;
    }
    Err(ArgError::FlagNotFound)
}

} // verus!
