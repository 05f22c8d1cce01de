//! Deleting stored files.

use vstd::prelude::*;

verus! {

/// Options of the clean command: which stored files to delete and whether
/// to ask first.
pub struct Clean {
    /// Delete every stored file.
    pub all: bool,
    /// Show all details in the confirmation.
    pub details: bool,
    /// Local files whose stored counterparts are to be deleted.
    pub files: Vec<String>,
    /// Delete files whose name matches this expression.
    pub filter: Option<String>,
    /// Delete only the last so many of the selection.
    pub last: Option<usize>,
    /// Indices of files to delete, as the list command returns them.
    pub indices: Vec<i64>,
    /// Do not ask before deleting.
    pub no_confirm: bool,
    /// Suppress details even where the configuration asks for them.
    pub no_details: bool,
    /// Delete only files newer than this window.
    pub select_newer: Option<String>,
    /// Delete only files older than this window.
    pub select_older: Option<String>,
    /// Sort by size before truncating.
    pub sort_size: bool,
    /// Sort by modification time before truncating.
    pub sort_time: bool,
    /// Reverse the order before truncating.
    pub reverse: bool,
}

} // verus!
