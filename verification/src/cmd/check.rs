//! Checking whether local files are already stored remotely.

use vstd::prelude::*;

verus! {

/// Options of the check command: which local files to look for and how to
/// print what was found.
pub struct Check {
    /// Files to check for.
    pub files: Vec<String>,
    /// Show all details.
    pub details: bool,
    /// Print file names instead of full URLs.
    pub filenames: bool,
    /// Suppress details even where the configuration asks for them.
    pub no_details: bool,
    /// Only print the remote URLs.
    pub url_only: bool,
    /// Print remote modification times.
    pub with_time: bool,
    /// Print file sizes.
    pub with_size: bool,
}

impl Check {
    /// Whether every file that was looked for was found: the check
    /// succeeds exactly when the counts agree.
    pub fn all_found(&self, found_count: usize) -> (r: bool)
        ensures
            r == (found_count == self.files@.len()),
    {
        found_count == self.files.len()
    }
}

} // verus!
