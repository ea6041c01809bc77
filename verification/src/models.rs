//! Records that the server hands out and takes in.

use vstd::prelude::*;

verus! {

/// The files of the web front end that the server binary carries with it.
pub struct StaticFiles;

/// A scanned source folder.
pub struct SourceResponse {
    pub id: i64,
    pub path: String,
    pub alias: Option<String>,
}

/// The query of a folder scan: the folder to scan.
pub struct PopulateQuery {
    pub path: String,
}

} // verus!
