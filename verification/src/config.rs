//! The search configuration: the query, the path of the file to search,
//! and whether matching ignores case.

use vstd::prelude::*;
use vstd::slice::slice_index_get;

verus! {

/// What one invocation searches for, and where.
pub struct Config {
    pub query: String,
    pub file_path: String,
    pub ignore_case: bool,
}

impl Config {
    /// Builds a configuration from the positional arguments — the program
    /// name, then the query, then the file path — and the caller's
    /// case-sensitivity choice. Fails exactly when fewer than three
    /// arguments are given.
    pub fn build(args: &[String], ignore_case: bool) -> (r: Result<Config, &'static str>)
        ensures
            args@.len() < 3 ==> (r matches Err(e) && e@
                == "Please provide enough arguments representing query and file-path"@),
            args@.len() >= 3 ==> (r matches Ok(c) && c.query == args@[1] && c.file_path
                == args@[2] && c.ignore_case == ignore_case),
    {
        if args.len() < 3 {
            return Err("Please provide enough arguments representing query and file-path");
        }
        let query = slice_index_get(args, 1).clone();
        let file_path = slice_index_get(args, 2).clone();
        Ok(Config { query, file_path, ignore_case })
    }
}

} // verus!
