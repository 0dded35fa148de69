//! A content-addressed photo archival engine, verified.
//!
//! Given a removable volume of JPEG images, the engine maintains a stable,
//! deduplicated, date-organized archive: each original is represented by a
//! thumbnail in a date-indexed folder and a symbolic link that mirrors the
//! source's directory topology, with a year-partitioned record log and a
//! source registry beside them. The engine is re-runnable against the same
//! source without duplicating work.
//!
//! This crate holds the engine's logic, each function carrying its
//! contract: the path layout, the calendar, the record and registry line
//! formats, the per-image decisions of the worker pool, the event logger's
//! text, and the retainer. The surrounding process — threads, channels,
//! filesystem and image I/O — feeds these functions plain observations and
//! carries out the plans they return.
pub mod checksum;
pub mod codec;
pub mod datetime;
pub mod json;
pub mod logger;
pub mod mounts;
pub mod paths;
pub mod records;
pub mod retain;
pub mod sources;
pub mod sync;
pub mod text;

use vstd::prelude::*;

verus! {

/// Why an operation on archive data was refused.
#[derive(Clone, Copy, Debug, PartialEq, Eq, Structural)]
pub enum ArchiveError {
    /// A source-relative path has no parent directory to mirror.
    InvalidSourcePath,
    /// A file timestamp falls outside the representable calendar range.
    TimestampOutOfRange,
}

impl ArchiveError {
    /// A short description of the error.
    pub fn message(&self) -> (r: &'static str) {
        match self {
            ArchiveError::InvalidSourcePath => "source path has no parent directory",
            ArchiveError::TimestampOutOfRange => "file timestamp is out of the calendar range",
        }
    }
}

/// Number of photo records that may sit in the record channel before the
/// producers block; the coordinator creates the channel with this bound.
pub const RECORD_CHANNEL_CAPACITY: usize = 100;

/// Number of image paths that may sit in the scanner channel before the
/// scanner blocks; the coordinator creates the channel with this bound.
pub const PATH_CHANNEL_CAPACITY: usize = 100;

/// Smallest edge, in pixels, that an image must have on both sides to be
/// archived; smaller images are ignored.
pub const MIN_IMAGE_EDGE: u32 = 300;

/// Edge length, in pixels, of the longer side of every generated thumbnail.
pub const THUMB_EDGE: u32 = 300;

} // verus!
