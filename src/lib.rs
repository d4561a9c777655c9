//! Removal of timestamped file-history duplicates.
//!
//! A versioning tool stores revisions of `name.ext` as
//! `name (YYYY_MM_DD HH_MM_SS UTC).ext`. This library recognises such names,
//! groups the revisions of one directory by the name without the marker,
//! decides for each group which revision is kept (and renamed back to the
//! plain name) and which are disposed of, and accounts for the outcome.
//! Directory listing, the file system actions themselves and the worker pool
//! live in the program around it.
pub mod name;
pub mod stamp;
pub mod grouping;
pub mod policy;
pub mod tally;
pub mod walk;
