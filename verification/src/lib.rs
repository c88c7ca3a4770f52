//! Directory-content comparison.
//!
//! Two directories are compared by keys computed for their immediate,
//! non-recursive file entries: either a SHA-256 content digest rendered as
//! lowercase hexadecimal, or a display name derived from the file name by
//! truncating at the first interior dot.  The comparison asks whether every
//! key of the first directory occurs among the keys of the second; in
//! name-mode the entries whose keys are absent are reported so that their
//! files can be recovered.
//!
//! The crate holds the pure logic: digest formatting, name derivation,
//! subset checking and the computation of missing entries.  Listing
//! directories, reading files, running the two scans concurrently and
//! copying missing files are left to the caller, which hands the entries in
//! as plain values.

pub mod compare;
pub mod hashing;
pub mod laws;
pub mod names;
