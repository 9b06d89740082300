//! The library scanning boundary: what a scan reports and the scanner
//! interface the pipeline implements.

use vstd::prelude::*;

use crate::config::ScanMode;
use crate::error::MusFuseError;
use crate::metadata::{AlbumId, TrackId};

verus! {

/// What one scanned source yielded: the path, its modification time as
/// milliseconds since the Unix epoch, and the tracks and albums found.
#[derive(Debug, Clone, PartialEq, Eq)]
pub struct ScanRecord {
    pub source: String,
    pub modified_ms: u64,
    pub tracks: Vec<TrackId>,
    pub albums: Vec<AlbumId>,
}

/// A change the watcher observed.
#[derive(Debug, Clone, PartialEq, Eq)]
pub enum ScanEvent {
    FileAdded(String),
    FileRemoved(String),
    FileModified(String),
    AlbumUpdated(AlbumId),
}

/// Scans and watches the configured sources. Its implementation walks the
/// filesystem and lives with the caller.
pub trait LibraryScanner {
    /// Scans every source in full.
    fn full_scan(&self, mode: ScanMode) -> Result<Vec<ScanRecord>, MusFuseError>;

    /// Re-examines the given paths.
    fn refresh_paths(&self, paths: &Vec<String>) -> Result<Vec<ScanEvent>, MusFuseError>;

    /// Watches the sources for changes.
    fn watch(&self) -> Result<(), MusFuseError>;
}

} // verus!
