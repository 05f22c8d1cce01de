//! The error taxonomy of the store core.  Every failure carries the context
//! (index, length, path, count) that makes it actionable for the caller.

use vstd::prelude::*;
use vstd::string::StringExecFns;
use crate::strutil::{dec_digits, dec_digits_signed, fmt_i64, fmt_u64};

verus! {

/// Everything that can go wrong in the catalog, selection, hashing and
/// verification core.
#[derive(Debug)]
#[allow(inconsistent_fields)]
pub enum StoreError {
    /// A requested hash truncation length of zero, or above 64.
    InvalidHashLength { length: u8 },
    /// A selection index outside `[-N, N)` for catalog size `N`.
    InvalidIndex { index: i64 },
    /// A local file's content hash matched no catalog entry.
    NoMatchingRemoteFile { file: String },
    /// An unparsable or underflowing time-window expression.
    InvalidDuration { duration: String },
    /// A filename filter that is not a valid regular expression.
    InvalidFilter { pattern: String },
    /// A required remote utility is absent (reserved exit code).
    RemoteToolMissing { tool: String },
    /// A remote hash batch returned a different cardinality than requested.
    HashCountMismatch { expected: usize, actual: usize },
    /// A remote stat batch returned a different cardinality than requested.
    StatCountMismatch { expected: usize, actual: usize },
    /// One or more entries' expected and actual hashes differ.
    VerificationMismatch { failed: usize },
    /// Any other non-zero exit from a remote command.
    RemoteCommandFailure { exit_status: i32, message: String },
    /// A required configuration key is absent.
    MissingRequiredKey { key: String },
    /// A configuration key holds a value of the wrong kind.
    InvalidYamlType { key: String },
    /// A malformed host entry in the configuration.
    InvalidHostEntry { alias: String },
    /// A configured hash prefix length outside the accepted range.
    InvalidPrefixLength { length: i64 },
    /// The configuration's root is not a dictionary.
    InvalidConfigRoot,
    /// The configuration's hosts entry is not a dictionary.
    InvalidHostsTable,
    /// No host is configured at all.
    NoHostConfigured,
    /// Several hosts are configured and none was picked.
    AmbiguousHost,
    /// The requested host alias is not configured.
    UnknownHost { alias: String },
    /// A path without a usable file name part.
    InvalidFilename { path: String },
}

impl StoreError {
    /// A human-readable description of the failure.
    pub fn message(&self) -> (r: String)
        ensures
            r@.len() > 0,
    {
        let r = match self {
            StoreError::InvalidHashLength { length } => {
                let mut m = String::from_str("invalid hash length: ");
                m.append(fmt_u64(*length as u64).as_str());
                m
            },
            StoreError::InvalidIndex { index } => {
                let mut m = String::from_str("invalid index specified: ");
                m.append(fmt_i64(*index).as_str());
                m
            },
            StoreError::NoMatchingRemoteFile { file } => {
                let mut m = String::from_str("no file with same hash found on server: ");
                m.append(file.as_str());
                m
            },
            StoreError::InvalidDuration { duration } => {
                let mut m = String::from_str("invalid duration specified: ");
                m.append(duration.as_str());
                m
            },
            StoreError::InvalidFilter { pattern } => {
                let mut m = String::from_str("invalid filter expression: ");
                m.append(pattern.as_str());
                m
            },
            StoreError::RemoteToolMissing { tool } => {
                let mut m = String::from_str("not found on remote site: ");
                m.append(tool.as_str());
                m
            },
            StoreError::HashCountMismatch { expected, actual } => {
                let mut m = String::from_str("computed ");
                m.append(fmt_u64(*actual as u64).as_str());
                m.append(" hashes for ");
                m.append(fmt_u64(*expected as u64).as_str());
                m.append(" paths");
                m
            },
            StoreError::StatCountMismatch { expected, actual } => {
                let mut m = String::from_str("expected ");
                m.append(fmt_u64(*expected as u64).as_str());
                m.append(" stats, only got ");
                m.append(fmt_u64(*actual as u64).as_str());
                m
            },
            StoreError::VerificationMismatch { failed } => {
                let mut m = fmt_u64(*failed as u64);
                m.append(" files failed to verify");
                proof {
                    assert(m@.len() > 0);
                }
                m
            },
            StoreError::RemoteCommandFailure { exit_status, message } => {
                let mut m = String::from_str("remote command returned ");
                m.append(fmt_i64(*exit_status as i64).as_str());
                m.append(": ");
                m.append(message.as_str());
                m
            },
            StoreError::MissingRequiredKey { key } => {
                let mut m = String::from_str("required key not defined: ");
                m.append(key.as_str());
                m
            },
            StoreError::InvalidYamlType { key } => {
                let mut m = String::from_str("invalid value type found for key: ");
                m.append(key.as_str());
                m
            },
            StoreError::InvalidHostEntry { alias } => {
                let mut m = String::from_str("invalid host entry: ");
                m.append(alias.as_str());
                m
            },
            StoreError::InvalidPrefixLength { length } => {
                let mut m = String::from_str("prefix needs to be between 8 and 64 characters, got ");
                m.append(fmt_i64(*length).as_str());
                m
            },
            StoreError::InvalidConfigRoot => {
                String::from_str("root object in configuration file is no dictionary")
            },
            StoreError::InvalidHostsTable => {
                String::from_str("hosts entry needs to be a dictionary of host entries")
            },
            StoreError::NoHostConfigured => String::from_str("no hosts configured, define some"),
            StoreError::AmbiguousHost => {
                String::from_str("more than one host entry defined but no default host chosen")
            },
            StoreError::UnknownHost { alias } => {
                let mut m = String::from_str("did not find alias: ");
                m.append(alias.as_str());
                m
            },
            StoreError::InvalidFilename { path } => {
                let mut m = String::from_str("no usable file name: ");
                m.append(path.as_str());
                m
            },
        };
        proof {
            reveal_strlit("invalid hash length: ");
            reveal_strlit("invalid index specified: ");
            reveal_strlit("no file with same hash found on server: ");
            reveal_strlit("invalid duration specified: ");
            reveal_strlit("invalid filter expression: ");
            reveal_strlit("not found on remote site: ");
            reveal_strlit("computed ");
            reveal_strlit("expected ");
            reveal_strlit("remote command returned ");
            reveal_strlit("required key not defined: ");
            reveal_strlit("invalid value type found for key: ");
            reveal_strlit("invalid host entry: ");
            reveal_strlit("prefix needs to be between 8 and 64 characters, got ");
            reveal_strlit("root object in configuration file is no dictionary");
            reveal_strlit("hosts entry needs to be a dictionary of host entries");
            reveal_strlit("no hosts configured, define some");
            reveal_strlit("more than one host entry defined but no default host chosen");
            reveal_strlit("did not find alias: ");
            reveal_strlit("no usable file name: ");
        }
        r
    }
}

} // verus!
