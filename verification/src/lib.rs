//! Verified core of a personal movie library: the file-name convention of the
//! folder scan, genre resolution, the choice among search results, the retry
//! schedule of outside lookups, the progress reporting of a scan and the
//! replies that the HTTP handlers give.

pub mod text;
pub mod filename;
pub mod genres;
pub mod retry;
pub mod movie;
pub mod scan;
pub mod reply;
pub mod config;
pub mod models;
