//! The command line: `autostart` marks a start by the session, `-v` or
//! `--verbose` asks for verbose logging; every other argument is left to
//! Qt.

use vstd::prelude::*;
use vstd::string::*;

verus! {

/// Whether a command-line word marks a start by the session.
pub open spec fn is_autostart(arg: Seq<char>) -> bool {
    arg == "autostart"@
}

/// Whether a command-line word asks for verbose logging.
pub open spec fn is_verbose(arg: Seq<char>) -> bool {
    arg == "-v"@ || arg == "--verbose"@
}

/// The number of arguments that are neither `autostart` nor a verbose
/// flag.
pub open spec fn ignored_count(args: Seq<Seq<char>>) -> nat
    decreases args.len(),
{
    if args.len() == 0 {
        0
    } else {
        ignored_count(args.drop_last()) + if is_autostart(args.last()) || is_verbose(args.last()) {
            0nat
        } else {
            1nat
        }
    }
}

/// The views of the arguments.
pub open spec fn args_view(args: Seq<String>) -> Seq<Seq<char>> {
    args.map_values(|a: String| a@)
}

/// Handling of the command-line arguments.
pub struct Args;

impl Args {
    /// Reads the arguments (the program name first): `autostart` sets
    /// `autostart`, `-v` and `--verbose` set `verbose`, and the others are
    /// counted.  Returns the number of arguments ignored, the program name
    /// included.
    pub fn check_args(args: &[String], autostart: &mut bool, verbose: &mut bool) -> (ignored: u64)
        ensures
            *final(autostart) == (*old(autostart) || exists|i: int|
                0 <= i < args@.len() && is_autostart(#[trigger] args@[i]@)),
            *final(verbose) == (*old(verbose) || exists|i: int|
                0 <= i < args@.len() && is_verbose(#[trigger] args@[i]@)),
            ignored == ignored_count(args_view(args@)),
    {
        let word_autostart = "autostart".to_owned();
        let word_v = "-v".to_owned();
        let word_verbose = "--verbose".to_owned();
        let ghost av = args_view(args@);
        let mut ignored: u64 = 0;
        let mut i: usize = 0;
        while i < args.len()
            invariant
                i <= args@.len(),
                av == args_view(args@),
                word_autostart@ == "autostart"@,
                word_v@ == "-v"@,
                word_verbose@ == "--verbose"@,
                ignored == ignored_count(av.take(i as int)),
                ignored <= i,
                *autostart == (*old(autostart) || exists|j: int|
                    0 <= j < i && is_autostart(#[trigger] args@[j]@)),
                *verbose == (*old(verbose) || exists|j: int|
                    0 <= j < i && is_verbose(#[trigger] args@[j]@)),
            decreases args@.len() - i,
        {
            let arg = &args[i];
            proof {
                assert(av.take(i + 1).drop_last() =~= av.take(i as int));
                assert(av.take(i + 1).last() == args@[i as int]@);
            }
            if *arg == word_autostart {
                *autostart = true;
                proof {
                    assert(is_autostart(args@[i as int]@));
                    reveal_strlit("autostart");
                    reveal_strlit("-v");
                    reveal_strlit("--verbose");
                    assert("autostart"@[0] != "--verbose"@[0]);
                    assert(!is_verbose(args@[i as int]@));
                }
            } else if *arg == word_v || *arg == word_verbose {
                *verbose = true;
                proof {
                    assert(is_verbose(args@[i as int]@));
                }
            } else {
                ignored = ignored + 1;
            }
            i = i + 1;
        }
        proof {
            assert(av.take(args@.len() as int) =~= av);
        }
        ignored
    }
}

} // verus!
