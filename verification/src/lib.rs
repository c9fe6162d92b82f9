//! Finds files with identical content.
//!
//! A scan walks a directory tree, gives every regular file a content
//! identity (the SHA-256 digest of its bytes, as lowercase hexadecimal text),
//! groups the files by that identity and reports the groups of two or more.
//!
//! The library holds the decisions of such a scan and proves what they
//! promise; reading directories and files, and writing the report out, is left
//! to the program that drives it:
//!
//! - [`walker`] decides which entries of the walk are hashed;
//! - [`file_hash`] turns the reads of one file into its [`digest`];
//! - [`index`] accumulates the paths seen under each digest;
//! - [`report`] keeps the groups that hold duplicates;
//! - [`engine`] ties these together for one run;
//! - [`grouping`], [`coverage`] and [`stability`] state what a scan's report
//!   is, and prove that it lists hashed files only, each at most once, and
//!   that it does not depend on the order of the walk nor on files that
//!   could not be read;
//! - [`sha`] and [`hex_text`] call the `sha2` and `hex` crates.

pub mod coverage;
pub mod digest;
pub mod engine;
pub mod failure;
pub mod file_hash;
pub mod group;
pub mod grouping;
pub mod hex_text;
pub mod index;
pub mod invocation;
pub mod report;
pub mod sha;
pub mod stability;
pub mod walker;
