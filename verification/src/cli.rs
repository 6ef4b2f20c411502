//! The command line of the assistant's tool server and the database URL it
//! opens.
use vstd::prelude::*;
use vstd::string::StringExecFns;

use crate::graph::types::string_views;
use crate::text::str_eq;

verus! {

/// The usage line of the tool server.
pub open spec fn usage() -> Seq<char> {
    "usage: cw-mcp --db-path <path>"@
}

/// The outcome of reading the arguments from position `i` on, with the
/// database path given so far: `--db-path` takes the next argument as the
/// path (a later one wins), `--help` and `-h` ask for the usage line, and
/// any other argument is refused; the path is owed at the end.
pub open spec fn args_outcome(args: Seq<Seq<char>>, i: int, found: Option<Seq<char>>) -> Result<
    Seq<char>,
    Seq<char>,
>
    decreases args.len() - i,
{
    if i < 0 || i >= args.len() {
        match found {
            Some(p) => Ok(p),
            None => Err(usage()),
        }
    } else if args[i] == "--db-path"@ {
        if i + 1 < args.len() {
            args_outcome(args, i + 2, Some(args[i + 1]))
        } else {
            Err("missing value for --db-path"@)
        }
    } else if args[i] == "--help"@ || args[i] == "-h"@ {
        Err(usage())
    } else {
        Err("unknown argument: "@ + args[i])
    }
}

/// The abstract value of a result of strings.
pub open spec fn text_result(r: Result<String, String>) -> Result<Seq<char>, Seq<char>> {
    match r {
        Ok(s) => Ok(s@),
        Err(e) => Err(e@),
    }
}

/// Reads the database path from the arguments that follow the program
/// name.
pub fn parse_args(args: &Vec<String>) -> (r: Result<String, String>)
    ensures
        text_result(r) == args_outcome(string_views(args@), 0, None),
{
    let ghost all = string_views(args@);
    let mut db_path: Option<String> = None;
    let mut i: usize = 0;
    while i < args.len()
        invariant
            all == string_views(args@),
            i <= args@.len(),
            args_outcome(all, 0, None) == args_outcome(
                all,
                i as int,
                match db_path {
                    Some(p) => Some(p@),
                    None => None,
                },
            ),
        decreases args.len() - i,
    {
        let arg = args[i].as_str();
        assert(all[i as int] == arg@);
        if str_eq(arg, "--db-path") {
            if i + 1 < args.len() {
                assert(all[i + 1] == args@[i + 1]@);
                db_path = Some(args[i + 1].clone());
                i = i + 2;
            } else {
                return Err(String::from_str("missing value for --db-path"));
            }
        } else if str_eq(arg, "--help") || str_eq(arg, "-h") {
            return Err(String::from_str("usage: cw-mcp --db-path <path>"));
        } else {
            let mut m = String::from_str("unknown argument: ");
            m.append(arg);
            return Err(m);
        }
    }
    match db_path {
        Some(p) => Ok(p),
        None => Err(String::from_str("usage: cw-mcp --db-path <path>")),
    }
}

/// The URL of the SQLite database at `path`, created when missing.
pub fn sqlite_url(path: &str) -> (r: String)
    ensures
        r@ == "sqlite:"@ + path@ + "?mode=rwc"@,
{
    let mut r = String::from_str("sqlite:");
    r.append(path);
    r.append("?mode=rwc");
    r
}

} // verus!
