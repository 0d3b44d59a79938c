//! The command line: `<program> <root_directory_path> [--dry-run]`.

use vstd::prelude::*;
use vstd::string::*;

verus! {

/// What a command line asks for.
#[derive(Clone, Debug, PartialEq, Eq)]
pub struct Request {
    /// The directory at which the walk starts.
    pub root: String,
    /// Whether matches are only reported.
    pub dry_run: bool,
}

/// The flag that asks for a dry run.
pub open spec fn dry_run_flag() -> Seq<char> {
    "--dry-run"@
}

/// Whether the flag stands anywhere among `args`.
pub open spec fn has_dry_run_flag(args: Seq<String>) -> bool {
    exists|i: int| 0 <= i < args.len() && (#[trigger] args[i])@ == dry_run_flag()
}

/// The line that says how the program is called.
pub open spec fn usage_text(program: Seq<char>) -> Seq<char> {
    "Usage: "@ + program + " <root_directory_path> [--dry-run]"@
}

/// Reads a command line, the program's own name first. Without anything
/// after that name there is no request. Else the first argument is the root,
/// and the run is a dry run where the flag stands anywhere on the line.
pub fn parse_args(args: &Vec<String>) -> (request: Option<Request>)
    ensures
        request.is_none() == (args.len() < 2),
        request.is_some() ==> request.unwrap().root@ == args[1]@ && request.unwrap().dry_run
            == has_dry_run_flag(args@),
{
    if args.len() < 2 {
        return None;
    }
    let flag = String::from_str("--dry-run");
    let mut dry_run = false;
    let mut i: usize = 0;
    while i < args.len()
        invariant
            i <= args.len(),
            flag@ == dry_run_flag(),
            dry_run == has_dry_run_flag(args@.take(i as int)),
        decreases args.len() - i,
    {
        if args[i] == flag {
            dry_run = true;
        }
        proof {
            let before = args@.take(i as int);
            let now = args@.take(i + 1);
            assert(now[i as int] == args@[i as int]);
            if has_dry_run_flag(before) {
                let k = choose|k: int| 0 <= k < before.len() && (#[trigger] before[k])@ == dry_run_flag();
                assert(now[k] == before[k]);
            }
            if has_dry_run_flag(now) && !(args@[i as int]@ == dry_run_flag()) {
                let k = choose|k: int| 0 <= k < now.len() && (#[trigger] now[k])@ == dry_run_flag();
                assert(before[k] == now[k]);
            }
        }
        i = i + 1;
    }
    assert(args@.take(i as int) =~= args@);
    Some(Request { root: args[1].clone(), dry_run })
}

/// The usage line for a program called `program`.
pub fn usage(program: &str) -> (line: String)
    ensures
        line@ == usage_text(program@),
{
    let mut line = String::from_str("Usage: ");
    line.append(program);
    line.append(" <root_directory_path> [--dry-run]");
    line
}

} // verus!
