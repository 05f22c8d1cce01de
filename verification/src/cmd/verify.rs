//! Verifying stored files against freshly computed remote hashes.

use vstd::prelude::*;

verus! {

/// Options of the verify command: which stored files to verify.
pub struct Verify {
    /// Local files whose stored counterparts are to be verified.
    pub files: Vec<String>,
    /// Verify files whose name matches this expression.
    pub filter: Option<String>,
    /// Verify only the last so many of the selection.
    pub last: Option<usize>,
    /// Indices of files to verify, as the list command returns them.
    pub indices: Vec<i64>,
    /// Verify only files newer than this window.
    pub select_newer: Option<String>,
    /// Verify only files older than this window.
    pub select_older: Option<String>,
    /// Sort by size before truncating.
    pub sort_size: bool,
    /// Reverse the order before truncating.
    pub reverse: bool,
}

} // verus!
