//! Renaming a stored file: reading the user's input as either a catalog
//! index or a local file name.

use vstd::prelude::*;
use vstd::string::StrSliceExecFns;
use crate::strutil::{chars_of, parse_i64, parsed_i64};

verus! {

/// Options of the rename command.
pub struct Rename {
    /// Show all details.
    pub details: bool,
    /// A catalog index, or a local file to find by content hash.
    pub input: String,
    /// The new name.
    pub filename: String,
    /// Suppress details even where the configuration asks for them.
    pub no_details: bool,
}

/// What the rename input denotes.
pub enum IndexOrFile<'a> {
    /// A catalog index.
    Index(i64),
    /// A local file name.
    Filename(&'a str),
}

impl Rename {
    /// Read the input: a signed decimal number is an index, anything else
    /// a file name.
    pub fn parse_input<'a>(&'a self) -> (r: IndexOrFile<'a>)
        ensures
            match parsed_i64(self.input@) {
                Some(i) => r matches IndexOrFile::Index(idx) && idx == i,
                None => r matches IndexOrFile::Filename(name) && name@ == self.input@,
            },
    {
        let cs = chars_of(self.input.as_str());
        match parse_i64(&cs) {
            Some(i) => IndexOrFile::Index(i),
            None => IndexOrFile::Filename(self.input.as_str()),
        }
    }
}

} // verus!
