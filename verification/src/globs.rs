//! Glob pattern matching, named but not restated.
//!
//! Folder sources carry a glob pattern (e.g. `laravel-*.log`).  Whether
//! a pattern compiles and whether it matches a file name are functions
//! of the two strings alone; the library names both results and leaves
//! the computation to the `glob` crate.

use vstd::prelude::*;

verus! {

/// Whether `pattern` is a well-formed glob pattern.
pub uninterp spec fn glob_accepts(pattern: Seq<char>) -> bool;

/// Whether the glob `pattern` matches `name`.
pub uninterp spec fn glob_matches(pattern: Seq<char>, name: Seq<char>) -> bool;

/// Relies on `glob::Pattern::new` (a pattern either compiles or not,
/// depending on the pattern string alone) and `glob::Pattern::matches`
/// (a deterministic function of the compiled pattern and the name).
#[verifier::external_body]
pub fn glob_match_str(pattern: &str, name: &str) -> (r: Option<bool>)
    ensures
        r is Some <==> glob_accepts(pattern@),
        r is Some ==> r->0 == glob_matches(pattern@, name@),
{
    glob::Pattern::new(pattern).ok().map(|p| p.matches(name))
}

} // verus!
