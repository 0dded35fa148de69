//! Canonical archive paths (the path layout).
//!
//! Pure derivation of where a photo lives inside the archive: the date
//! directory, its `img` subdirectory, the per-origin link directory named
//! after the partition and source-directory fingerprints, the link file, and
//! the thumbnail file name. Nothing here touches the filesystem.
use crate::checksum::crc32c;
use crate::checksum::crc32c_of;
use crate::datetime::dt_from_unix_secs;
use crate::datetime::dt_of_total_secs;
use crate::datetime::valid_dt;
use crate::datetime::PhotoDateTime;
use crate::datetime::EPOCH_TO_YEAR10000_SECS;
use crate::datetime::YEAR0_TO_EPOCH_SECS;
use crate::text::append_hex8;
use crate::text::append_pad2;
use crate::text::append_pad4;
use crate::text::append_u64_dec;
use crate::text::dec_chars;
use crate::text::hex8_chars;
use crate::text::hex_char;
use crate::text::pad2_chars;
use crate::text::pad4_chars;
use crate::ArchiveError;
use vstd::prelude::*;

verus! {

/// The derived locations of one archived photo.
pub struct ArchivedPhotoPaths {
    pub date_path: String,
    pub img_path: String,
    pub link_dir_path: String,
    pub link_file_path: String,
}

/// Index of the last `/` in `s`, or `-1` when there is none.
pub open spec fn last_slash(s: Seq<char>) -> int
    decreases s.len(),
{
    if s.len() == 0 {
        -1
    } else if s[s.len() - 1] == '/' {
        s.len() - 1
    } else {
        last_slash(s.drop_last())
    }
}

/// Everything before the last `/` of `s`.
pub open spec fn parent_chars(s: Seq<char>) -> Seq<char> {
    s.subrange(0, last_slash(s))
}

/// Everything after the last `/` of `s` (all of `s` when there is none).
pub open spec fn base_name_chars(s: Seq<char>) -> Seq<char> {
    s.subrange(last_slash(s) + 1, s.len() as int)
}

/// Whether a normalized source-relative path names a file with at least one
/// directory above it: it has a parent directory whose own base name is
/// nonempty, and a nonempty file name.
pub open spec fn valid_rel_path(s: Seq<char>) -> bool {
    &&& 1 <= last_slash(s)
    &&& s[last_slash(s) - 1] != '/'
    &&& last_slash(s) + 1 < s.len()
}

/// The datetimes behind an optional borrowed timestamp.
pub open spec fn deref_opt(o: Option<&PhotoDateTime>) -> Option<PhotoDateTime> {
    match o {
        Some(dt) => Some(*dt),
        None => None,
    }
}

/// The date directory: `<base>/<year>/<MM.DD>`, or `<base>/no-date` for a
/// photo without a timestamp.
pub open spec fn date_dir_chars(base: Seq<char>, ts: Option<PhotoDateTime>) -> Seq<char> {
    match ts {
        Some(dt) => base + "/"@ + dec_chars(dt.year as nat) + "/"@ + pad2_chars(dt.month as int)
            + "."@ + pad2_chars(dt.day as int),
        None => base + "/no-date"@,
    }
}

/// The thumbnail directory: `<date dir>/img`.
pub open spec fn img_dir_chars(base: Seq<char>, ts: Option<PhotoDateTime>) -> Seq<char> {
    date_dir_chars(base, ts) + "/img"@
}

/// The per-origin link directory:
/// `<date dir>/<PARTCRC8>.<DIRCRC8>.<dirname>`, where `PARTCRC8` is the
/// partition fingerprint, `DIRCRC8` the fingerprint of the source-relative
/// parent directory bytes, and `dirname` that directory's base name.
pub open spec fn link_dir_chars(
    part_crc: u32,
    base: Seq<char>,
    rel: Seq<char>,
    ts: Option<PhotoDateTime>,
) -> Seq<char> {
    date_dir_chars(base, ts) + "/"@ + hex8_chars(part_crc as int) + "."@ + hex8_chars(
        crc32c_of(vstd::utf8::encode_utf8(parent_chars(rel))) as int,
    ) + "."@ + base_name_chars(parent_chars(rel))
}

/// The link file: `<link dir>/<original file name>`.
pub open spec fn link_file_chars(
    part_crc: u32,
    base: Seq<char>,
    rel: Seq<char>,
    ts: Option<PhotoDateTime>,
) -> Seq<char> {
    link_dir_chars(part_crc, base, rel, ts) + "/"@ + base_name_chars(rel)
}

/// The thumbnail file name: `<HHMMSS>_<CRC8>.jpg` when the photo has a
/// timestamp, else `<YYYYMMDD-HHMMSS>_<CRC8>.jpg` from the file's
/// modification time in UTC.
pub open spec fn thumb_filename_chars(ts: Option<PhotoDateTime>, fts: int, crc: u32) -> Seq<char> {
    match ts {
        Some(dt) => pad2_chars(dt.hour as int) + pad2_chars(dt.minute as int) + pad2_chars(
            dt.second as int,
        ) + "_"@ + hex8_chars(crc as int) + ".jpg"@,
        None => {
            let u = dt_of_total_secs(fts + YEAR0_TO_EPOCH_SECS);
            pad4_chars(u.year as int) + pad2_chars(u.month as int) + pad2_chars(u.day as int)
                + "-"@ + pad2_chars(u.hour as int) + pad2_chars(u.minute as int) + pad2_chars(
                u.second as int,
            ) + "_"@ + hex8_chars(crc as int) + ".jpg"@
        },
    }
}

/// No character after the last slash of `s` is a slash.
proof fn lemma_no_slash_after_last(s: Seq<char>, j: int)
    requires
        last_slash(s) < j < s.len(),
    ensures
        s[j] != '/',
    decreases s.len(),
{
    lemma_last_slash_bounds(s);
    if s.len() > 0 {
        if s[s.len() - 1] == '/' {
            assert(last_slash(s) == s.len() - 1);
        } else {
            assert(last_slash(s) == last_slash(s.drop_last()));
            if j < s.len() - 1 {
                lemma_no_slash_after_last(s.drop_last(), j);
                assert(s.drop_last() =~= s.subrange(0, s.len() - 1));
                assert(s.subrange(0, s.len() - 1)[j] == s[j]);
            }
        }
    }
}

/// The last slash of `s`, when present, lies inside `s`.
pub(crate) proof fn lemma_last_slash_bounds(s: Seq<char>)
    ensures
        -1 <= last_slash(s) < s.len(),
    decreases s.len(),
{
    if s.len() > 0 && s[s.len() - 1] != '/' {
        lemma_last_slash_bounds(s.drop_last());
    }
}

/// Everything after the last slash of `s` is slash-free.
proof fn lemma_base_name_no_slash(s: Seq<char>)
    ensures
        forall|j: int| 0 <= j < base_name_chars(s).len() ==> base_name_chars(s)[j] != '/',
{
    lemma_last_slash_bounds(s);
    assert forall|j: int| 0 <= j < base_name_chars(s).len() implies base_name_chars(s)[j] != '/' by {
        lemma_no_slash_after_last(s, last_slash(s) + 1 + j);
        assert(base_name_chars(s)[j] == s[last_slash(s) + 1 + j]);
    }
}

/// Slash-free sequences stay slash-free under concatenation.
proof fn lemma_no_slash_concat(x: Seq<char>, y: Seq<char>)
    requires
        forall|j: int| 0 <= j < x.len() ==> x[j] != '/',
        forall|j: int| 0 <= j < y.len() ==> y[j] != '/',
    ensures
        forall|j: int| 0 <= j < (x + y).len() ==> (x + y)[j] != '/',
{
    assert forall|j: int| 0 <= j < (x + y).len() implies (x + y)[j] != '/' by {
        if j < x.len() {
            assert((x + y)[j] == x[j]);
        } else {
            assert((x + y)[j] == y[j - x.len()]);
        }
    }
}

/// The component before the last slash of `a + "/" + tail` is `a` itself
/// when `tail` holds no slash.
proof fn lemma_parent_of_concat(a: Seq<char>, tail: Seq<char>)
    requires
        forall|j: int| 0 <= j < tail.len() ==> tail[j] != '/',
    ensures
        parent_chars(a + seq!['/'] + tail) == a,
{
    lemma_last_slash_concat(a, tail);
    assert(parent_chars(a + seq!['/'] + tail) =~= a);
}

/// The last slash of `a + "/" + tail` sits right after `a` when `tail`
/// holds no slash.
proof fn lemma_last_slash_concat(a: Seq<char>, tail: Seq<char>)
    requires
        forall|j: int| 0 <= j < tail.len() ==> tail[j] != '/',
    ensures
        last_slash(a + seq!['/'] + tail) == a.len(),
    decreases tail.len(),
{
    let s = a + seq!['/'] + tail;
    if tail.len() == 0 {
        assert(s[s.len() - 1] == '/');
    } else {
        assert(s[s.len() - 1] == tail[tail.len() - 1]);
        assert(s.drop_last() =~= a + seq!['/'] + tail.drop_last());
        lemma_last_slash_concat(a, tail.drop_last());
    }
}

/// No hexadecimal digit is a slash.
proof fn lemma_hex_char_no_slash(d: int)
    ensures
        hex_char(d) != '/',
{
}

/// An eight-digit hexadecimal rendering is slash-free.
proof fn lemma_hex8_no_slash(n: int)
    ensures
        forall|j: int| 0 <= j < hex8_chars(n).len() ==> hex8_chars(n)[j] != '/',
{
    assert forall|j: int| 0 <= j < hex8_chars(n).len() implies hex8_chars(n)[j] != '/' by {
        lemma_hex_char_no_slash(n / 0x10000000 % 16);
        lemma_hex_char_no_slash(n / 0x1000000 % 16);
        lemma_hex_char_no_slash(n / 0x100000 % 16);
        lemma_hex_char_no_slash(n / 0x10000 % 16);
        lemma_hex_char_no_slash(n / 0x1000 % 16);
        lemma_hex_char_no_slash(n / 0x100 % 16);
        lemma_hex_char_no_slash(n / 0x10 % 16);
        lemma_hex_char_no_slash(n % 16);
    }
}

/// Law: the path layout is deterministic. Every derived path and the
/// thumbnail file name are functions of the partition fingerprint, base
/// directory, source-relative path, timestamps and digest alone: two
/// derivations from equal inputs are byte-identical.
pub proof fn lemma_layout_deterministic(
    a: ArchivedPhotoPaths,
    b: ArchivedPhotoPaths,
    fname_a: Seq<char>,
    fname_b: Seq<char>,
    part_crc: u32,
    base: Seq<char>,
    rel: Seq<char>,
    ts: Option<PhotoDateTime>,
    fts: int,
    crc: u32,
)
    requires
        a.date_path@ == date_dir_chars(base, ts),
        a.img_path@ == img_dir_chars(base, ts),
        a.link_dir_path@ == link_dir_chars(part_crc, base, rel, ts),
        a.link_file_path@ == link_file_chars(part_crc, base, rel, ts),
        b.date_path@ == date_dir_chars(base, ts),
        b.img_path@ == img_dir_chars(base, ts),
        b.link_dir_path@ == link_dir_chars(part_crc, base, rel, ts),
        b.link_file_path@ == link_file_chars(part_crc, base, rel, ts),
        fname_a == thumb_filename_chars(ts, fts, crc),
        fname_b == thumb_filename_chars(ts, fts, crc),
    ensures
        a.date_path@ == b.date_path@,
        a.img_path@ == b.img_path@,
        a.link_dir_path@ == b.link_dir_path@,
        a.link_file_path@ == b.link_file_path@,
        fname_a == fname_b,
{
}

/// Law: the symlink target written beside a thumbnail resolves to the
/// thumbnail directory. The link file sits directly in the link directory
/// and the link directory directly in the date directory, so the relative
/// target `../img/<name>`, resolved from the link file's directory, lands
/// in `<date dir>/img` — exactly the directory the thumbnail is written to.
#[verifier::rlimit(100)]
pub proof fn lemma_symlink_target_resolves(
    part_crc: u32,
    base: Seq<char>,
    rel: Seq<char>,
    ts: Option<PhotoDateTime>,
)
    requires
        valid_rel_path(rel),
    ensures
        parent_chars(link_file_chars(part_crc, base, rel, ts)) == link_dir_chars(
            part_crc,
            base,
            rel,
            ts,
        ),
        parent_chars(link_dir_chars(part_crc, base, rel, ts)) + "/img"@ == img_dir_chars(base, ts),
{
    let date = date_dir_chars(base, ts);
    let dir = link_dir_chars(part_crc, base, rel, ts);
    let file = link_file_chars(part_crc, base, rel, ts);
    let parent = parent_chars(rel);
    let dirname = base_name_chars(parent);
    let fname = base_name_chars(rel);
    reveal_strlit("/");
    reveal_strlit(".");
    assert("/"@ =~= seq!['/']);
    assert("."@ =~= seq!['.']);

    // The file name after the last slash of `rel` holds no slash, so the
    // link file's parent is the link directory.
    lemma_base_name_no_slash(rel);
    assert(file =~= dir + seq!['/'] + fname);
    lemma_parent_of_concat(dir, fname);

    // The link directory's own name holds no slash either, so its parent
    // is the date directory.
    let h1 = hex8_chars(part_crc as int);
    let h2 = hex8_chars(crc32c_of(vstd::utf8::encode_utf8(parent)) as int);
    lemma_hex8_no_slash(part_crc as int);
    lemma_hex8_no_slash(crc32c_of(vstd::utf8::encode_utf8(parent)) as int);
    lemma_base_name_no_slash(parent);
    lemma_no_slash_concat(h1, "."@);
    lemma_no_slash_concat(h1 + "."@, h2);
    lemma_no_slash_concat(h1 + "."@ + h2, "."@);
    lemma_no_slash_concat(h1 + "."@ + h2 + "."@, dirname);
    let tail = h1 + "."@ + h2 + "."@ + dirname;
    assert(dir =~= date + seq!['/'] + tail);
    lemma_parent_of_concat(date, tail);
}

pub(crate) fn find_last_slash(s: &str) -> (r: Option<usize>)
    ensures
        match r {
            Some(i) => last_slash(s@) == i && i < s@.len(),
            None => last_slash(s@) == -1,
        },
{
    let n = s.unicode_len();
    let mut i: usize = n;
    proof {
        assert(s@.subrange(0, n as int) =~= s@);
    }
    while i > 0
        invariant
            i <= n,
            n == s@.len(),
            last_slash(s@) == last_slash(s@.subrange(0, i as int)),
        decreases i,
    {
        let c = s.get_char(i - 1);
        if c == '/' {
            proof {
                assert(s@.subrange(0, i as int)[i - 1] == '/');
            }
            return Some(i - 1);
        }
        proof {
            assert(s@.subrange(0, i as int).drop_last() =~= s@.subrange(0, i as int - 1));
        }
        i = i - 1;
    }
    proof {
        assert(s@.subrange(0, 0).len() == 0);
    }
    None
}

/// Derives the archive locations of one photo.
///
/// `partition_crc` is the fingerprint of the source's partition id, `rel`
/// the path of the original relative to the source root (normalized, `/`
/// separated), `photo_timestamp` the photo's wall-clock time when known. A
/// relative path without a parent directory is rejected.
pub fn build_paths(
    partition_crc: u32,
    target_base_dir: &str,
    source_relative_path: &str,
    photo_timestamp: Option<&PhotoDateTime>,
) -> (r: Result<ArchivedPhotoPaths, ArchiveError>)
    requires
        match photo_timestamp {
            Some(dt) => valid_dt(*dt),
            None => true,
        },
    ensures
        match r {
            Ok(p) => {
                &&& valid_rel_path(source_relative_path@)
                &&& p.date_path@ == date_dir_chars(target_base_dir@, deref_opt(photo_timestamp))
                &&& p.img_path@ == img_dir_chars(target_base_dir@, deref_opt(photo_timestamp))
                &&& p.link_dir_path@ == link_dir_chars(
                    partition_crc,
                    target_base_dir@,
                    source_relative_path@,
                    deref_opt(photo_timestamp),
                )
                &&& p.link_file_path@ == link_file_chars(
                    partition_crc,
                    target_base_dir@,
                    source_relative_path@,
                    deref_opt(photo_timestamp),
                )
            },
            Err(e) => !valid_rel_path(source_relative_path@) && e
                == ArchiveError::InvalidSourcePath,
        },
{
    let n = source_relative_path.unicode_len();
    let ls = match find_last_slash(source_relative_path) {
        Some(i) => i,
        None => {
            return Err(ArchiveError::InvalidSourcePath);
        },
    };
    if ls < 1 {
        return Err(ArchiveError::InvalidSourcePath);
    }
    if source_relative_path.get_char(ls - 1) == '/' {
        return Err(ArchiveError::InvalidSourcePath);
    }
    if ls + 1 >= n {
        return Err(ArchiveError::InvalidSourcePath);
    }

    let parent = source_relative_path.substring_char(0, ls);
    let fname = source_relative_path.substring_char(ls + 1, n);
    proof {
        assert(parent@ == parent_chars(source_relative_path@));
        assert(fname@ =~= base_name_chars(source_relative_path@));
    }
    let dstart: usize = match find_last_slash(parent) {
        Some(j) => j + 1,
        None => 0,
    };
    let dirname = parent.substring_char(dstart, ls);
    proof {
        assert(dirname@ =~= base_name_chars(parent_chars(source_relative_path@)));
    }
    let dir_crc = crc32c(parent.as_bytes());

    let mut date_path = String::new();
    date_path.append(target_base_dir);
    match photo_timestamp {
        Some(dt) => {
            date_path.append("/");
            append_u64_dec(&mut date_path, dt.year as u64);
            date_path.append("/");
            append_pad2(&mut date_path, dt.month);
            date_path.append(".");
            append_pad2(&mut date_path, dt.day);
        },
        None => {
            date_path.append("/no-date");
        },
    }
    proof {
        assert(date_path@ =~= date_dir_chars(target_base_dir@, deref_opt(photo_timestamp)));
    }

    let mut img_path = date_path.clone();
    img_path.append("/img");

    let mut link_dir_path = date_path.clone();
    link_dir_path.append("/");
    append_hex8(&mut link_dir_path, partition_crc);
    link_dir_path.append(".");
    append_hex8(&mut link_dir_path, dir_crc);
    link_dir_path.append(".");
    link_dir_path.append(dirname);
    proof {
        assert(link_dir_path@ =~= link_dir_chars(
            partition_crc,
            target_base_dir@,
            source_relative_path@,
            deref_opt(photo_timestamp),
        ));
    }

    let mut link_file_path = link_dir_path.clone();
    link_file_path.append("/");
    link_file_path.append(fname);
    proof {
        assert(link_file_path@ =~= link_file_chars(
            partition_crc,
            target_base_dir@,
            source_relative_path@,
            deref_opt(photo_timestamp),
        ));
    }

    Ok(ArchivedPhotoPaths { date_path, img_path, link_dir_path, link_file_path })
}

/// Derives the thumbnail file name of one photo.
///
/// With a photo timestamp the name carries its time of day; without one it
/// carries the file's modification time in UTC, which must fall before the
/// year 10000 for its rendering to fit four year digits.
pub fn build_filename(photo_ts: Option<&PhotoDateTime>, file_ts: u64, crc: u32) -> (r: Result<
    String,
    ArchiveError,
>)
    requires
        match photo_ts {
            Some(dt) => valid_dt(*dt),
            None => true,
        },
    ensures
        match r {
            Ok(s) => {
                &&& (photo_ts is None ==> file_ts < EPOCH_TO_YEAR10000_SECS)
                &&& s@ == thumb_filename_chars(deref_opt(photo_ts), file_ts as int, crc)
            },
            Err(e) => photo_ts is None && file_ts >= EPOCH_TO_YEAR10000_SECS && e
                == ArchiveError::TimestampOutOfRange,
        },
{
    let mut s = String::new();
    match photo_ts {
        Some(dt) => {
            append_pad2(&mut s, dt.hour);
            append_pad2(&mut s, dt.minute);
            append_pad2(&mut s, dt.second);
        },
        None => {
            if file_ts >= EPOCH_TO_YEAR10000_SECS {
                return Err(ArchiveError::TimestampOutOfRange);
            }
            let u = dt_from_unix_secs(file_ts);
            append_pad4(&mut s, u.year);
            append_pad2(&mut s, u.month);
            append_pad2(&mut s, u.day);
            s.append("-");
            append_pad2(&mut s, u.hour);
            append_pad2(&mut s, u.minute);
            append_pad2(&mut s, u.second);
        },
    }
    s.append("_");
    append_hex8(&mut s, crc);
    s.append(".jpg");
    proof {
        assert(s@ =~= thumb_filename_chars(deref_opt(photo_ts), file_ts as int, crc));
    }
    Ok(s)
}

} // verus!
