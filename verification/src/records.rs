//! Photo records and the year-partitioned record log store.
//!
//! One record describes one successfully archived original: its timestamps,
//! origin, raw EXIF bytes, dimensions and pixel fingerprint. Records live as
//! newline-delimited JSON in `<archive>/<year-or-no-date>/index.json`; this
//! module derives the bucket and file of a record. The caller appends the
//! rendered line; rendering and parsing live in the codec module.
use crate::datetime::dt_of_total_secs;
use crate::datetime::epoch_secs_of_dt;
use crate::datetime::valid_dt;
use crate::datetime::dt_from_epoch_opt;
use crate::datetime::epoch_secs_exec;
use crate::datetime::PhotoDateTime;
use crate::datetime::EPOCH_TO_YEAR10000_SECS;
use crate::datetime::YEAR0_TO_EPOCH_SECS;
use crate::text::append_u64_dec;
use crate::text::dec_chars;
use vstd::prelude::*;

verus! {

/// One freshly archived photo, as produced by a worker.
pub struct PhotoArchiveRow {
    /// Wall-clock time the camera wrote, when one was found.
    pub photo_ts: Option<PhotoDateTime>,
    /// Modification time of the original file, seconds since the Unix epoch.
    pub file_ts: u64,
    /// Partition id of the source volume.
    pub source_id: String,
    /// Path of the original relative to the source root.
    pub source_path: String,
    /// Raw EXIF container bytes, when the file carried any.
    pub exif: Option<Vec<u8>>,
    /// Size of the original file in bytes.
    pub size: u64,
    /// Decoded pixel height.
    pub height: u32,
    /// Decoded pixel width.
    pub width: u32,
    /// CRC-32C of the decoded pixel bytes.
    pub digest: u32,
}

/// Whether a row's fields are internally coherent: its timestamp, if any,
/// is a real calendar instant.
pub open spec fn valid_row(row: PhotoArchiveRow) -> bool {
    match row.photo_ts {
        Some(dt) => valid_dt(dt),
        None => true,
    }
}

/// The spec-level contents of one on-disk record line.
pub ghost struct JsonRowView {
    pub timestamp: Option<int>,
    pub file_ts: int,
    pub source: Seq<char>,
    pub path: Seq<char>,
    pub exif: Seq<u8>,
    pub size: int,
    pub height: int,
    pub width: int,
    pub crc: int,
}

/// One record line of the log, as stored on disk.
pub struct PhotoArchiveJsonRow {
    pub timestamp: Option<i64>,
    pub file_ts: u64,
    pub source: String,
    pub path: String,
    pub exif: Vec<u8>,
    pub size: u64,
    pub height: u32,
    pub width: u32,
    pub crc: u32,
}

impl View for PhotoArchiveJsonRow {
    type V = JsonRowView;

    open spec fn view(&self) -> JsonRowView {
        JsonRowView {
            timestamp: match self.timestamp {
                Some(t) => Some(t as int),
                None => None,
            },
            file_ts: self.file_ts as int,
            source: self.source@,
            path: self.path@,
            exif: self.exif@,
            size: self.size as int,
            height: self.height as int,
            width: self.width as int,
            crc: self.crc as int,
        }
    }
}

/// The calendar instant behind a stored epoch-seconds value, when it falls
/// inside the representable range.
pub open spec fn stored_ts_dt(t: Option<int>) -> Option<PhotoDateTime> {
    match t {
        Some(ts) => if -(YEAR0_TO_EPOCH_SECS as int) <= ts < EPOCH_TO_YEAR10000_SECS as int {
            Some(dt_of_total_secs(ts + YEAR0_TO_EPOCH_SECS))
        } else {
            None
        },
        None => None,
    }
}

impl PhotoArchiveJsonRow {
    /// The photo timestamp of this record as calendar fields.
    pub fn timestamp(&self) -> (r: Option<PhotoDateTime>)
        ensures
            r == stored_ts_dt(self@.timestamp),
            r matches Some(dt) ==> valid_dt(dt),
    {
        match self.timestamp {
            Some(ts) => dt_from_epoch_opt(ts),
            None => None,
        }
    }

    /// The file modification time, seconds since the Unix epoch.
    pub fn file_timestamp(&self) -> (r: u64)
        ensures
            r == self@.file_ts,
    {
        self.file_ts
    }

    /// The partition id of the source this record came from.
    pub fn source_id(&self) -> (r: &str)
        ensures
            r@ == self@.source,
    {
        self.source.as_str()
    }

    /// The path of the original relative to its source root.
    pub fn source_path(&self) -> (r: String)
        ensures
            r@ == self@.path,
    {
        self.path.clone()
    }

    /// The pixel fingerprint of the original.
    pub fn digest(&self) -> (r: u32)
        ensures
            r == self@.crc,
    {
        self.crc
    }
}

/// The stored form of a worker row.
pub open spec fn json_row_of(row: PhotoArchiveRow) -> JsonRowView {
    JsonRowView {
        timestamp: match row.photo_ts {
            Some(dt) => Some(epoch_secs_of_dt(dt)),
            None => None,
        },
        file_ts: row.file_ts as int,
        source: row.source_id@,
        path: row.source_path@,
        exif: match row.exif {
            Some(b) => b@,
            None => Seq::<u8>::empty(),
        },
        size: row.size as int,
        height: row.height as int,
        width: row.width as int,
        crc: row.digest as int,
    }
}

impl PhotoArchiveRow {
    /// Converts a worker row into its stored form: the photo timestamp
    /// becomes epoch seconds, a missing EXIF blob becomes empty bytes.
    pub fn to_json_row(self) -> (r: PhotoArchiveJsonRow)
        requires
            valid_row(self),
        ensures
            r@ == json_row_of(self),
    {
        let timestamp: Option<i64> = match &self.photo_ts {
            Some(dt) => Some(epoch_secs_exec(dt)),
            None => None,
        };
        let exif: Vec<u8> = match self.exif {
            Some(b) => b,
            None => Vec::new(),
        };
        PhotoArchiveJsonRow {
            timestamp,
            file_ts: self.file_ts,
            source: self.source_id,
            path: self.source_path,
            exif,
            size: self.size,
            height: self.height,
            width: self.width,
            crc: self.digest,
        }
    }

    /// The year bucket this record belongs to: the photo year, or `no-date`
    /// for a record without a photo timestamp.
    pub fn bucket_name(&self) -> (r: String)
        ensures
            r@ == bucket_chars(self.photo_ts),
    {
        match &self.photo_ts {
            Some(dt) => {
                let mut s = String::new();
                append_u64_dec(&mut s, dt.year as u64);
                proof {
                    assert(s@ =~= bucket_chars(self.photo_ts));
                }
                s
            },
            None => {
                let s = String::new().concat("no-date");
                proof {
                    assert(s@ =~= bucket_chars(self.photo_ts));
                }
                s
            },
        }
    }
}

/// The year bucket of a photo timestamp: its year in unpadded decimal, or
/// `no-date` when there is none.
pub open spec fn bucket_chars(ts: Option<PhotoDateTime>) -> Seq<char> {
    match ts {
        Some(dt) => dec_chars(dt.year as nat),
        None => "no-date"@,
    }
}

/// The year-partitioned record log of one archive.
pub struct PhotoArchiveRecordsStore {
    pub base_dir: String,
}

impl PhotoArchiveRecordsStore {
    pub fn new(base_dir: &str) -> (r: PhotoArchiveRecordsStore)
        ensures
            r.base_dir@ == base_dir@,
    {
        PhotoArchiveRecordsStore { base_dir: base_dir.to_owned() }
    }

    /// The log file a record belongs to:
    /// `<base>/<bucket>/index.json`.
    pub fn index_path(&self, row: &PhotoArchiveRow) -> (r: String)
        ensures
            r@ == self.base_dir@ + "/"@ + bucket_chars(row.photo_ts) + "/index.json"@,
    {
        let mut s = self.base_dir.clone();
        s.append("/");
        let bucket = row.bucket_name();
        s.append(bucket.as_str());
        s.append("/index.json");
        proof {
            assert(s@ =~= self.base_dir@ + "/"@ + bucket_chars(row.photo_ts) + "/index.json"@);
        }
        s
    }
}

} // verus!
