//! A small library for organizing the files of one directory: files are
//! deduplicated by a content digest, classified by extension and by age, and
//! assigned a destination folder. The decisions of every stage are verified;
//! a thin front-end performs the actual filesystem work.

use vstd::prelude::*;

pub mod classify;
pub mod hashing;
pub mod organizer;
pub mod watcher;

verus! {

/// Options supplied by the command-line front-end: the directory to organize
/// and whether to keep watching it for changes after the first pass.
pub struct Args {
    /// Path of the directory to organize.
    pub path: String,
    /// Keep watching the directory after the initial pass.
    pub watch: bool,
}

} // verus!
