//! Core of a content-addressed remote file store.
//!
//! Files are stored remotely under a folder named by a truncated, URL-safe
//! base64 encoding of their content digest.  This crate holds the verified
//! core: the hashing scheme that names and re-verifies stored objects, the
//! catalog and selection pipeline over the remote listing, and the
//! verification logic that compares expected against freshly computed
//! hashes.  Transport (ssh), terminal rendering and file I/O live outside
//! this crate and hand plain values in and out.

pub mod cfg;
pub mod cmd;
pub mod cli;
pub mod errors;
pub mod file_listing;
pub mod hashing;
pub mod openssh;
pub mod remote;
pub mod strutil;
pub mod util;
pub mod verification;

pub use errors::StoreError;
