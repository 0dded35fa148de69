//! Synchronization: the decisions of one sync run.
//!
//! The pipeline around these decisions is plumbing — threads, channels and
//! filesystem calls — but what happens to each image is pure logic: whether
//! a scanned file is a supported image, which EXIF field yields the photo
//! timestamp, whether an image is archived, skipped, ignored or reported,
//! which files must be written where, and which record and event each image
//! produces. Those decisions live here.
use crate::checksum::crc32c;
use crate::checksum::crc32c_of;
use crate::datetime::exif_dt_chars_value;
use crate::datetime::is_exif_dt_chars;
use crate::datetime::parse_exif_datetime;
use crate::datetime::valid_dt;
use crate::datetime::PhotoDateTime;
use crate::datetime::EPOCH_TO_YEAR10000_SECS;
use crate::mounts::MountedPartitionInfo;
use crate::paths::build_filename;
use crate::paths::build_paths;
use crate::paths::deref_opt;
use crate::paths::img_dir_chars;
use crate::paths::last_slash;
use crate::paths::link_file_chars;
use crate::paths::thumb_filename_chars;
use crate::paths::valid_rel_path;
use crate::records::PhotoArchiveRow;
use crate::sources::id_registered;
use crate::sources::SourceJsonRow;
use crate::text::dec_chars;
use crate::text::u32_dec_string;
use crate::ArchiveError;
use crate::MIN_IMAGE_EDGE;
use crate::THUMB_EDGE;
use vstd::prelude::*;

verus! {

/// What a sync run is asked to do.
pub struct SyncOpts {
    /// Whether to run the extra counting pass that reports scan progress.
    pub count_images: bool,
    /// Which source to synchronize.
    pub source: SyncSource,
}

/// How the caller points at a source volume.
pub enum SourceCoordinates {
    /// By stable partition id.
    Id(String),
    /// By a directory that carries a source descriptor file.
    Path(String),
}

/// A source to synchronize: a brand-new import or a registered one.
pub enum SyncSource {
    New { coord: SourceCoordinates, name: String, group: String, tags: Vec<String> },
    Existing { coord: SourceCoordinates },
}

/// One message of the synchronization event stream.
#[derive(Clone, Debug)]
pub enum SynchronizationEvent {
    ScanProgress { count: u64 },
    ScanCompleted { count: u64 },
    /// The image was archived; `generated` tells whether a new thumbnail
    /// file was produced, `partial` whether the record lacks a photo
    /// timestamp.
    Stored { src: String, dst: String, generated: bool, partial: bool },
    /// The image's link file already existed: nothing was done.
    Skipped { src: String, existing: String },
    /// The image was refused (too small): no record was written.
    Ignored { src: String, cause: String },
    /// The image could not be processed: no record was written.
    Errored { src: String, cause: String },
}

/// What one worker carries: its index, the source partition, and the two
/// directory roots it reads from and writes to.
pub struct WorkerContext {
    pub worker_id: u32,
    pub partition_id: String,
    pub source_base_dir: String,
    pub target_base_dir: String,
}

/// Whether the image behind a path could be decoded.
pub enum DecodeOutcome {
    Decoded { width: u32, height: u32 },
    DecodeFailed { cause: String },
}

/// Whether the file's metadata could be read.
pub enum MetaOutcome {
    /// Modification time (seconds since the Unix epoch) and size in bytes.
    Meta { modified: u64, size: u64 },
    MetaFailed { cause: String },
}

/// What a worker must do for one image.
pub enum ImagePlan {
    /// Emit the `Skipped` event; write nothing.
    Skip { event: SynchronizationEvent },
    /// Emit the `Ignored` event; write nothing.
    Ignore { event: SynchronizationEvent },
    /// Emit the `Errored` event; write nothing.
    Fail { event: SynchronizationEvent },
    /// Write the thumbnail if `generate`, link `link_target` at the link
    /// file, enqueue `record`, then emit the `Stored` event.
    Store {
        generate: bool,
        thumb_file: String,
        link_target: String,
        record: PhotoArchiveRow,
        event: SynchronizationEvent,
    },
}

/// The fingerprint of a partition id's bytes.
pub open spec fn part_crc_of(id: Seq<char>) -> u32 {
    crc32c_of(vstd::utf8::encode_utf8(id))
}

/// The cause text of an `Ignored` event for an undersized image.
pub open spec fn too_small_cause_chars(width: int, height: int) -> Seq<char> {
    "Image is too small "@ + dec_chars(width as nat) + "x"@ + dec_chars(height as nat)
}

/// The cause text of an `Errored` event.
pub open spec fn error_cause_chars(cause: Seq<char>) -> Seq<char> {
    "Error processing image - "@ + cause
}

pub open spec fn evt_skipped(e: SynchronizationEvent, src: Seq<char>, existing: Seq<char>) -> bool {
    e matches SynchronizationEvent::Skipped { src: s, existing: x } && s@ == src && x@ == existing
}

pub open spec fn evt_ignored(e: SynchronizationEvent, src: Seq<char>, cause: Seq<char>) -> bool {
    e matches SynchronizationEvent::Ignored { src: s, cause: c } && s@ == src && c@ == cause
}

pub open spec fn evt_errored(e: SynchronizationEvent, src: Seq<char>, cause: Seq<char>) -> bool {
    e matches SynchronizationEvent::Errored { src: s, cause: c } && s@ == src && c@ == cause
}

pub open spec fn evt_stored(
    e: SynchronizationEvent,
    src: Seq<char>,
    dst: Seq<char>,
    generated: bool,
    partial: bool,
) -> bool {
    e matches SynchronizationEvent::Stored { src: s, dst: d, generated: g, partial: p } && s@
        == src && d@ == dst && g == generated && p == partial
}

/// Refuses an image smaller than the minimum edge on either side, with the
/// cause text the `Ignored` event carries.
pub fn check_image_size(width: u32, height: u32) -> (r: Option<String>)
    ensures
        match r {
            Some(cause) => (width < MIN_IMAGE_EDGE || height < MIN_IMAGE_EDGE) && cause@
                == too_small_cause_chars(width as int, height as int),
            None => width >= MIN_IMAGE_EDGE && height >= MIN_IMAGE_EDGE,
        },
{
    if height < MIN_IMAGE_EDGE || width < MIN_IMAGE_EDGE {
        let mut cause = String::new();
        cause.append("Image is too small ");
        let w = u32_dec_string(width);
        cause.append(w.as_str());
        cause.append("x");
        let h = u32_dec_string(height);
        cause.append(h.as_str());
        proof {
            assert(cause@ =~= too_small_cause_chars(width as int, height as int));
        }
        Some(cause)
    } else {
        None
    }
}

/// The dimensions a thumbnail is resized to: the longer edge becomes the
/// thumbnail edge, the shorter follows the aspect ratio rounded down.
///
/// Returns `(width, height)`. The bound on the inputs keeps the
/// intermediate product inside 32 bits, as the arithmetic the resizer is
/// asked for demands.
pub fn thumb_dimensions(width: u32, height: u32) -> (r: (u32, u32))
    requires
        MIN_IMAGE_EDGE <= width <= 14_316_557,
        MIN_IMAGE_EDGE <= height <= 14_316_557,
    ensures
        ({
            let (nw, nh) = r;
            &&& (if height > width {
                &&& nw == (width as int) * (THUMB_EDGE as int) / (height as int)
                &&& nh == THUMB_EDGE
                &&& (nw as int) * (height as int) <= (width as int) * (THUMB_EDGE as int) < ((
                nw as int) + 1) * (height as int)
            } else {
                &&& nw == THUMB_EDGE
                &&& nh == (height as int) * (THUMB_EDGE as int) / (width as int)
                &&& (nh as int) * (width as int) <= (height as int) * (THUMB_EDGE as int) < ((
                nh as int) + 1) * (width as int)
            })
            &&& nw <= THUMB_EDGE && nh <= THUMB_EDGE
            &&& (nw == THUMB_EDGE || nh == THUMB_EDGE)
        }),
{
    if height > width {
        let nw = width * THUMB_EDGE / height;
        proof {
            let w = width as int;
            let h = height as int;
            assert((width * THUMB_EDGE) as int == w * 300) by (nonlinear_arith)
                requires
                    300 <= width <= 14_316_557,
                    THUMB_EDGE == 300,
                    w == width as int,
            ;
            assert(nw == w * 300 / h && nw * h <= w * 300 < (nw + 1) * h && w * 300 / h <= 300
                && 300 * h <= 300 * h) by (nonlinear_arith)
                requires
                    nw == w * 300 / h,
                    300 <= w <= 14_316_557,
                    300 <= h <= 14_316_557,
                    w < h,
            ;
        }
        (nw, THUMB_EDGE)
    } else {
        let nh = height * THUMB_EDGE / width;
        proof {
            let w = width as int;
            let h = height as int;
            assert((height * THUMB_EDGE) as int == h * 300) by (nonlinear_arith)
                requires
                    300 <= height <= 14_316_557,
                    THUMB_EDGE == 300,
                    h == height as int,
            ;
            assert(nh == h * 300 / w && nh * w <= h * 300 < (nh + 1) * w && h * 300 / w <= 300)
                by (nonlinear_arith)
                requires
                    nh == h * 300 / w,
                    300 <= w <= 14_316_557,
                    300 <= h <= 14_316_557,
                    h <= w,
            ;
        }
        (THUMB_EDGE, nh)
    }
}

/// The view of an optional borrowed string.
pub open spec fn opt_str_view(o: Option<&str>) -> Option<Seq<char>> {
    match o {
        Some(s) => Some(s@),
        None => None,
    }
}

/// The first EXIF datetime field present, in tag preference order.
pub open spec fn first_present(
    a: Option<Seq<char>>,
    b: Option<Seq<char>>,
    c: Option<Seq<char>>,
) -> Option<Seq<char>> {
    if a is Some {
        a
    } else if b is Some {
        b
    } else {
        c
    }
}

/// The photo timestamp extracted from the EXIF datetime fields: the first
/// present field wins, and yields a timestamp only if it parses.
pub open spec fn extracted_ts(
    a: Option<Seq<char>>,
    b: Option<Seq<char>>,
    c: Option<Seq<char>>,
) -> Option<PhotoDateTime> {
    match first_present(a, b, c) {
        Some(s) => if is_exif_dt_chars(s) {
            Some(exif_dt_chars_value(s))
        } else {
            None
        },
        None => None,
    }
}

/// Picks the photo timestamp from the rendered EXIF datetime tags, tried in
/// order: DateTimeOriginal, DateTime, DateTimeDigitized. The first tag that
/// is present is parsed; a present tag that does not parse yields no
/// timestamp (the record then becomes partial).
pub fn extract_timestamp(
    date_time_original: Option<&str>,
    date_time: Option<&str>,
    date_time_digitized: Option<&str>,
) -> (r: Option<PhotoDateTime>)
    ensures
        r == extracted_ts(
            opt_str_view(date_time_original),
            opt_str_view(date_time),
            opt_str_view(date_time_digitized),
        ),
        r matches Some(dt) ==> valid_dt(dt),
{
    let field = if date_time_original.is_some() {
        date_time_original
    } else if date_time.is_some() {
        date_time
    } else {
        date_time_digitized
    };
    match field {
        Some(s) => parse_exif_datetime(s),
        None => None,
    }
}

/// What one scanned image comes to, given everything the worker observed:
/// the idempotency gate, the decode and metadata outcomes, the size gate,
/// and on success the files to write, the record to enqueue and the
/// terminal event to emit.
///
/// The observations arrive as plain values; the worker gathers them in this
/// order: the link file's existence first, then (when needed) decode,
/// metadata, the pixel digest, and the derived thumbnail file's existence.
///
/// The first clause is the idempotency gate, and makes a second run over an
/// unchanged archive a no-op: an image whose link file already exists is
/// always skipped — nothing is written, no record is produced — and a
/// thumbnail that already exists is never generated again.
#[verifier::rlimit(60)]
pub fn image_outcome(
    partition_id: &str,
    target_base_dir: &str,
    src_path: &str,
    rel_path: &str,
    photo_ts: Option<&PhotoDateTime>,
    exif: Option<Vec<u8>>,
    link_file_exists: bool,
    decode: DecodeOutcome,
    meta: MetaOutcome,
    digest: u32,
    thumb_file_exists: bool,
) -> (r: Result<ImagePlan, ArchiveError>)
    requires
        valid_rel_path(rel_path@),
        match photo_ts {
            Some(dt) => valid_dt(*dt),
            None => true,
        },
    ensures
        link_file_exists ==> (r matches Ok(plan) && plan is Skip),
        match r {
            Ok(plan) => match plan {
                ImagePlan::Skip { event } => {
                    &&& link_file_exists
                    &&& evt_skipped(
                        event,
                        src_path@,
                        link_file_chars(
                            part_crc_of(partition_id@),
                            target_base_dir@,
                            rel_path@,
                            deref_opt(photo_ts),
                        ),
                    )
                },
                ImagePlan::Fail { event } => {
                    &&& !link_file_exists
                    &&& {
                        ||| (decode matches DecodeOutcome::DecodeFailed { cause } && evt_errored(
                            event,
                            src_path@,
                            error_cause_chars(cause@),
                        ))
                        ||| ((decode matches DecodeOutcome::Decoded { width, height } && width
                            >= MIN_IMAGE_EDGE && height >= MIN_IMAGE_EDGE) && (meta
                            matches MetaOutcome::MetaFailed { cause } && evt_errored(
                            event,
                            src_path@,
                            error_cause_chars(cause@),
                        )))
                    }
                },
                ImagePlan::Ignore { event } => {
                    &&& !link_file_exists
                    &&& decode matches DecodeOutcome::Decoded { width, height } && (width
                        < MIN_IMAGE_EDGE || height < MIN_IMAGE_EDGE) && evt_ignored(
                        event,
                        src_path@,
                        too_small_cause_chars(width as int, height as int),
                    )
                },
                ImagePlan::Store { generate, thumb_file, link_target, record, event } => {
                    &&& !link_file_exists
                    &&& generate == !thumb_file_exists
                    &&& decode matches DecodeOutcome::Decoded { width, height } && width
                        >= MIN_IMAGE_EDGE && height >= MIN_IMAGE_EDGE && record.width == width
                        && record.height == height
                    &&& meta matches MetaOutcome::Meta { modified, size } && record.file_ts
                        == modified && record.size == size && thumb_file@ == img_dir_chars(
                        target_base_dir@,
                        deref_opt(photo_ts),
                    ) + "/"@ + thumb_filename_chars(deref_opt(photo_ts), modified as int, digest)
                        && link_target@ == "../img/"@ + thumb_filename_chars(
                        deref_opt(photo_ts),
                        modified as int,
                        digest,
                    ) && evt_stored(
                        event,
                        src_path@,
                        thumb_file@,
                        !thumb_file_exists,
                        photo_ts is None,
                    )
                    &&& record.photo_ts == deref_opt(photo_ts)
                    &&& record.source_id@ == partition_id@
                    &&& record.source_path@ == rel_path@
                    &&& record.exif == exif
                    &&& record.digest == digest
                },
            },
            Err(e) => {
                &&& !link_file_exists
                &&& photo_ts is None
                &&& decode matches DecodeOutcome::Decoded { width, height } && width
                    >= MIN_IMAGE_EDGE && height >= MIN_IMAGE_EDGE
                &&& meta matches MetaOutcome::Meta { modified, size } && modified
                    >= EPOCH_TO_YEAR10000_SECS
                &&& e == ArchiveError::TimestampOutOfRange
            },
        },
{
    let part_crc = crc32c(partition_id.as_bytes());
    let paths = match build_paths(part_crc, target_base_dir, rel_path, photo_ts) {
        Ok(p) => p,
        Err(e) => {
            proof {
                assert(false);
            }
            return Err(e);
        },
    };
    if link_file_exists {
        return Ok(
            ImagePlan::Skip {
                event: SynchronizationEvent::Skipped {
                    src: src_path.to_owned(),
                    existing: paths.link_file_path,
                },
            },
        );
    }
    let (width, height) = match decode {
        DecodeOutcome::DecodeFailed { cause } => {
            let mut c = String::new();
            c.append("Error processing image - ");
            c.append(cause.as_str());
            proof {
                assert(c@ =~= error_cause_chars(cause@));
            }
            return Ok(
                ImagePlan::Fail {
                    event: SynchronizationEvent::Errored { src: src_path.to_owned(), cause: c },
                },
            );
        },
        DecodeOutcome::Decoded { width, height } => (width, height),
    };
    if let Some(cause) = check_image_size(width, height) {
        return Ok(
            ImagePlan::Ignore {
                event: SynchronizationEvent::Ignored { src: src_path.to_owned(), cause },
            },
        );
    }
    let (modified, size) = match meta {
        MetaOutcome::MetaFailed { cause } => {
            let mut c = String::new();
            c.append("Error processing image - ");
            c.append(cause.as_str());
            proof {
                assert(c@ =~= error_cause_chars(cause@));
            }
            return Ok(
                ImagePlan::Fail {
                    event: SynchronizationEvent::Errored { src: src_path.to_owned(), cause: c },
                },
            );
        },
        MetaOutcome::Meta { modified, size } => (modified, size),
    };
    let fname = match build_filename(photo_ts, modified, digest) {
        Ok(f) => f,
        Err(e) => {
            return Err(e);
        },
    };
    let mut thumb_file = paths.img_path;
    thumb_file.append("/");
    thumb_file.append(fname.as_str());
    let mut link_target = String::new();
    link_target.append("../img/");
    link_target.append(fname.as_str());
    proof {
        assert(thumb_file@ =~= img_dir_chars(target_base_dir@, deref_opt(photo_ts)) + "/"@
            + thumb_filename_chars(deref_opt(photo_ts), modified as int, digest));
        assert(link_target@ =~= "../img/"@ + thumb_filename_chars(
            deref_opt(photo_ts),
            modified as int,
            digest,
        ));
    }
    let record = PhotoArchiveRow {
        photo_ts: match photo_ts {
            Some(dt) => Some(*dt),
            None => None,
        },
        file_ts: modified,
        source_id: partition_id.to_owned(),
        source_path: rel_path.to_owned(),
        exif,
        size,
        height,
        width,
        digest,
    };
    let event = SynchronizationEvent::Stored {
        src: src_path.to_owned(),
        dst: thumb_file.clone(),
        generated: !thumb_file_exists,
        partial: photo_ts.is_none(),
    };
    Ok(
        ImagePlan::Store {
            generate: !thumb_file_exists,
            thumb_file,
            link_target,
            record,
            event,
        },
    )
}

/// How the pipeline is to treat a resolved source, and the registry entry a
/// new import adds.
pub struct SyncPlan {
    /// The mounted directory the scanner walks.
    pub source_dir: String,
    /// The partition id every record of this run carries.
    pub source_id: String,
    /// The registry row to append before the run, for a new import.
    pub new_entry: Option<SourceJsonRow>,
}

/// Why a sync run could not start.
#[derive(Debug)]
pub enum SyncSetupError {
    /// A new import names a source that is already registered.
    AlreadyRegistered { id: String, name: String },
    /// An existing-source sync names a source that was never registered.
    NotRegistered { id: String },
}

/// Settles how a sync run starts: a new import must not be registered yet
/// (and contributes its registry row); an existing-source sync must be.
pub fn resolve_sync_source(
    source: SyncSource,
    mount: &MountedPartitionInfo,
    registry: &Vec<SourceJsonRow>,
) -> (r: Result<SyncPlan, SyncSetupError>)
    ensures
        match r {
            Ok(plan) => {
                &&& plan.source_dir@ == mount.mount_point@
                &&& plan.source_id@ == mount.info.partition_id@
                &&& match source {
                    SyncSource::New { coord, name, group, tags } => {
                        &&& !id_registered(registry@, mount.info.partition_id@)
                        &&& plan.new_entry matches Some(e) && e.id@ == mount.info.partition_id@
                            && e.name@ == name@ && e.group@ == group@ && e.tags == tags
                    },
                    SyncSource::Existing { coord } => id_registered(
                        registry@,
                        mount.info.partition_id@,
                    ) && plan.new_entry is None,
                }
            },
            Err(SyncSetupError::AlreadyRegistered { id, name }) => {
                &&& source is New
                &&& id_registered(registry@, mount.info.partition_id@)
                &&& id@ == mount.info.partition_id@
                &&& exists|i: int|
                    0 <= i < registry@.len() && registry@[i].id@ == mount.info.partition_id@
                        && name@ == registry@[i].name@
            },
            Err(SyncSetupError::NotRegistered { id }) => {
                &&& source is Existing
                &&& !id_registered(registry@, mount.info.partition_id@)
                &&& id@ == mount.info.partition_id@
            },
        },
{
    match source {
        SyncSource::New { coord: _, name, group, tags } => {
            match crate::sources::find_by_id(registry, mount.info.partition_id.as_str()) {
                Some(row) => Err(
                    SyncSetupError::AlreadyRegistered {
                        id: row.id.clone(),
                        name: row.name.clone(),
                    },
                ),
                None => Ok(
                    SyncPlan {
                        source_dir: mount.mount_point.clone(),
                        source_id: mount.info.partition_id.clone(),
                        new_entry: Some(
                            SourceJsonRow {
                                id: mount.info.partition_id.clone(),
                                name,
                                group,
                                tags,
                            },
                        ),
                    },
                ),
            }
        },
        SyncSource::Existing { coord: _ } => {
            match crate::sources::find_by_id(registry, mount.info.partition_id.as_str()) {
                Some(_) => Ok(
                    SyncPlan {
                        source_dir: mount.mount_point.clone(),
                        source_id: mount.info.partition_id.clone(),
                        new_entry: None,
                    },
                ),
                None => Err(
                    SyncSetupError::NotRegistered { id: mount.info.partition_id.clone() },
                ),
            }
        },
    }
}

/// Index of the last `.` in `s`, or `-1` when there is none.
pub open spec fn last_dot(s: Seq<char>) -> int
    decreases s.len(),
{
    if s.len() == 0 {
        -1
    } else if s[s.len() - 1] == '.' {
        s.len() - 1
    } else {
        last_dot(s.drop_last())
    }
}

/// Whether an extension, lowercased letter by letter, reads `jpg` or
/// `jpeg`.
pub open spec fn is_jpeg_ext(e: Seq<char>) -> bool {
    ||| (e.len() == 3 && (e[0] == 'j' || e[0] == 'J') && (e[1] == 'p' || e[1] == 'P') && (e[2]
        == 'g' || e[2] == 'G'))
    ||| (e.len() == 4 && (e[0] == 'j' || e[0] == 'J') && (e[1] == 'p' || e[1] == 'P') && (e[2]
        == 'e' || e[2] == 'E') && (e[3] == 'g' || e[3] == 'G'))
}

/// Whether the scanner hands this file to the workers: its name has an
/// extension (a dot after the first character of the file name) reading
/// `jpg` or `jpeg` in any letter case.
pub open spec fn supported_image_path_chars(p: Seq<char>) -> bool {
    &&& last_dot(p) > last_slash(p) + 1
    &&& is_jpeg_ext(p.subrange(last_dot(p) + 1, p.len() as int))
}

fn find_last_dot(s: &str) -> (r: Option<usize>)
    ensures
        match r {
            Some(i) => last_dot(s@) == i && i < s@.len(),
            None => last_dot(s@) == -1,
        },
{
    let n = s.unicode_len();
    let mut i: usize = n;
    proof {
        assert(s@.subrange(0, n as int) =~= s@);
    }
    while i > 0
        invariant
            i <= n,
            n == s@.len(),
            last_dot(s@) == last_dot(s@.subrange(0, i as int)),
        decreases i,
    {
        let c = s.get_char(i - 1);
        if c == '.' {
            proof {
                assert(s@.subrange(0, i as int)[i - 1] == '.');
            }
            return Some(i - 1);
        }
        proof {
            assert(s@.subrange(0, i as int).drop_last() =~= s@.subrange(0, i as int - 1));
        }
        i = i - 1;
    }
    proof {
        assert(s@.subrange(0, 0).len() == 0);
    }
    None
}

/// Whether the scanner hands this file path to the workers.
pub fn is_supported_image_path(p: &str) -> (r: bool)
    ensures
        r == supported_image_path_chars(p@),
{
    let n = p.unicode_len();
    let ld = match find_last_dot(p) {
        Some(i) => i,
        None => {
            proof {
                crate::paths::lemma_last_slash_bounds(p@);
            }
            return false;
        },
    };
    let dot_after_name_start = match crate::paths::find_last_slash(p) {
        Some(i) => ld > i + 1,
        None => ld > 0,
    };
    if !dot_after_name_start {
        return false;
    }
    let ext_len = n - (ld + 1);
    if ext_len == 3 {
        let c0 = p.get_char(ld + 1);
        let c1 = p.get_char(ld + 2);
        let c2 = p.get_char(ld + 3);
        let ok = (c0 == 'j' || c0 == 'J') && (c1 == 'p' || c1 == 'P') && (c2 == 'g' || c2 == 'G');
        proof {
            let e = p@.subrange(ld + 1, n as int);
            assert(e.len() == 3 && e[0] == p@[ld + 1] && e[1] == p@[ld + 2] && e[2] == p@[ld + 3]);
        }
        ok
    } else if ext_len == 4 {
        let c0 = p.get_char(ld + 1);
        let c1 = p.get_char(ld + 2);
        let c2 = p.get_char(ld + 3);
        let c3 = p.get_char(ld + 4);
        let ok = (c0 == 'j' || c0 == 'J') && (c1 == 'p' || c1 == 'P') && (c2 == 'e' || c2 == 'E')
            && (c3 == 'g' || c3 == 'G');
        proof {
            let e = p@.subrange(ld + 1, n as int);
            assert(e.len() == 4 && e[0] == p@[ld + 1] && e[1] == p@[ld + 2] && e[2] == p@[ld + 3]
                && e[3] == p@[ld + 4]);
        }
        ok
    } else {
        proof {
            assert(p@.subrange(ld + 1, n as int).len() == n - ld - 1);
        }
        false
    }
}

/// The source-relative form of a scanned path: the path with the source
/// base directory and the separating slash stripped.
pub open spec fn rel_path_of(p: Seq<char>, base: Seq<char>) -> Option<Seq<char>> {
    if p.len() >= base.len() && p.subrange(0, base.len() as int) == base {
        let rest = p.subrange(base.len() as int, p.len() as int);
        if rest.len() > 0 && rest[0] == '/' {
            Some(rest.subrange(1, rest.len() as int))
        } else {
            Some(rest)
        }
    } else {
        None
    }
}

/// Strips the source base directory from a scanned path, and the slash
/// separating them. Fails exactly when `base` is not a prefix of `p`.
pub fn strip_source_prefix(p: &str, base: &str) -> (r: Option<String>)
    ensures
        match r {
            Some(s) => rel_path_of(p@, base@) == Some(s@),
            None => rel_path_of(p@, base@) is None,
        },
{
    let n = p.unicode_len();
    let bn = base.unicode_len();
    if n < bn {
        return None;
    }
    let mut i: usize = 0;
    while i < bn
        invariant
            i <= bn,
            bn <= n,
            n == p@.len(),
            bn == base@.len(),
            forall|j: int| 0 <= j < i ==> p@[j] == base@[j],
        decreases bn - i,
    {
        if p.get_char(i) != base.get_char(i) {
            proof {
                assert(p@.subrange(0, bn as int)[i as int] != base@[i as int]);
            }
            return None;
        }
        i = i + 1;
    }
    proof {
        assert(p@.subrange(0, bn as int) =~= base@);
    }
    let rest = p.substring_char(bn, n);
    proof {
        assert(rest@ =~= p@.subrange(bn as int, n as int));
    }
    if rest.unicode_len() > 0 && rest.get_char(0) == '/' {
        let stripped = rest.substring_char(1, n - bn);
        proof {
            assert(stripped@ =~= p@.subrange(bn as int, n as int).subrange(
                1,
                p@.subrange(bn as int, n as int).len() as int,
            ));
        }
        Some(stripped.to_owned())
    } else {
        Some(rest.to_owned())
    }
}

} // verus!
