//! Listing stored files and their URLs.

use vstd::prelude::*;

verus! {

/// Options of the list command: how to select and how to print.
pub struct List {
    /// Show all details.
    pub details: bool,
    /// Print file names instead of full URLs.
    pub filenames: bool,
    /// List files whose name matches this expression.
    pub filter: Option<String>,
    /// List only the first so many of the selection.
    pub first: Option<usize>,
    /// Indices of files to list; all where none are given.
    pub indices: Vec<i64>,
    /// List only the last so many of the selection.
    pub last: Option<usize>,
    /// Suppress details even where the configuration asks for them.
    pub no_details: bool,
    /// Print only the selected indices.
    pub print_indices: bool,
    /// Reverse the listing.
    pub reverse: bool,
    /// List only files newer than this window.
    pub select_newer: Option<String>,
    /// List only files older than this window.
    pub select_older: Option<String>,
    /// Sort by size.
    pub sort_size: bool,
    /// Sort by modification time.
    pub sort_time: bool,
    /// Only print the remote URLs.
    pub url_only: bool,
    /// Print remote modification times.
    pub with_time: bool,
    /// Print file sizes.
    pub with_size: bool,
}

} // verus!
