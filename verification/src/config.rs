//! Run configuration: validation of the positional arguments and the
//! case-insensitivity toggle.

use vstd::prelude::*;

verus! {

/// The validated run configuration: what to search for, in which file, and
/// whether to ignore case. Built once per invocation and never mutated.
pub struct Config {
    /// The substring to search for; empty is legal and matches every line.
    pub query: String,
    /// The file whose contents the caller reads and hands to the search;
    /// the library itself opens no files.
    pub file_path: String,
    /// Whether to search case-insensitively, from the environment toggle.
    pub ignore_case: bool,
}

/// The error message when neither a query nor a file path was given.
pub open spec fn missing_both_message() -> Seq<char> {
    "Need to provide both query and file_path"@
}

/// The error message when a query was given but no file path.
pub open spec fn missing_file_path_message() -> Seq<char> {
    "Need to provide file_path - query provided"@
}

/// How the ignore-case toggle is read: true exactly when the variable is
/// set and the first character of its value is `'t'`.
pub open spec fn ignore_case_of(toggle: Option<String>) -> bool {
    match toggle {
        Some(v) => v@.len() > 0 && v@[0] == 't',
        None => false,
    }
}

/// Whether the toggle's value selects case-insensitive search: its first
/// character (case-sensitively) is `'t'`.
fn toggle_is_set(v: &String) -> (r: bool)
    ensures
        r == (v@.len() > 0 && v@[0] == 't'),
{
    if v.as_str().unicode_len() > 0 {
        v.as_str().get_char(0) == 't'
    } else {
        false
    }
}

impl Config {
    /// Validates the invocation arguments (the first is the program's own
    /// name and is skipped; extra arguments beyond the first two usable
    /// ones are ignored) and reads the ignore-case toggle's value. Returns
    /// the configuration exactly when a query and a file path are present,
    /// and otherwise a descriptive error: one message when both are
    /// missing, a distinct one when only the file path is.
    pub fn build(args: Vec<String>, toggle: Option<String>) -> (r: Result<Config, &'static str>)
        ensures
            args@.len() <= 1 ==> r is Err && r->Err_0@ == missing_both_message(),
            args@.len() == 2 ==> r is Err && r->Err_0@ == missing_file_path_message(),
            args@.len() >= 3 ==> r is Ok,
            args@.len() >= 3 ==> r->Ok_0.query@ == args@[1]@,
            args@.len() >= 3 ==> r->Ok_0.file_path@ == args@[2]@,
            args@.len() >= 3 ==> r->Ok_0.ignore_case == ignore_case_of(toggle),
    {
        if args.len() <= 1 {
            return Err("Need to provide both query and file_path");
        }
        if args.len() == 2 {
            return Err("Need to provide file_path - query provided");
        }
        let query = args[1].clone();
        let file_path = args[2].clone();
        let ignore_case = match &toggle {
            Some(v) => toggle_is_set(v),
            None => false,
        };
        Ok(Config { query, file_path, ignore_case })
    }
}

} // verus!
