//! A verified library for searching a directory tree for files whose name,
//! with its trailing extension removed, contains a given byte string.
//!
//! The tree is modelled as a value: directories carry the entries that their
//! listing produced, and a directory whose listing failed is recorded as such.
//! The search walks that value and returns the paths of the matching files,
//! together with the paths of the directories that could not be listed.

use vstd::prelude::*;

pub mod laws;
pub mod matching;
pub mod walk;

verus! {

/// The command line is valid exactly when it holds the program name and one
/// search term, two words in all.
pub fn args_valid(n_args: usize) -> (r: bool)
    ensures
        r == (n_args == 2),
{
    n_args == 2
}

} // verus!
