//! The retainer: pruning the record log and reclaiming orphaned thumbnails.
//!
//! Walking the log with a user predicate yields a keep decision per record.
//! This module turns those decisions into a plan: which record lines stay,
//! which link files and (possibly emptied) link directories belong to
//! dropped records, and which thumbnail files no surviving record
//! references. A thumbnail queued for deletion by a dropped record is
//! rescued when any record that shares it is kept — in log order, as the
//! kept set only grows.
use crate::checksum::crc32c;
use crate::datetime::valid_dt;
use crate::datetime::PhotoDateTime;
use crate::datetime::EPOCH_TO_YEAR10000_SECS;
use crate::paths::build_filename;
use crate::paths::build_paths;
use crate::paths::img_dir_chars;
use crate::paths::link_dir_chars;
use crate::paths::link_file_chars;
use crate::paths::thumb_filename_chars;
use crate::paths::valid_rel_path;
use crate::records::stored_ts_dt;
use crate::records::JsonRowView;
use crate::records::PhotoArchiveJsonRow;
use crate::sync::part_crc_of;
use crate::text::str_eq;
use crate::ArchiveError;
use vstd::prelude::*;

verus! {

/// The photo timestamp a stored record denotes.
pub open spec fn row_dt(row: JsonRowView) -> Option<PhotoDateTime> {
    stored_ts_dt(row.timestamp)
}

/// Whether a stored record can be mapped back to archive paths: its source
/// path has a parent directory, and its file timestamp is renderable when
/// it must stand in for a missing photo timestamp.
pub open spec fn row_ok(row: JsonRowView) -> bool {
    &&& valid_rel_path(row.path)
    &&& (row_dt(row) is Some || row.file_ts < EPOCH_TO_YEAR10000_SECS as int)
}

/// The thumbnail file a stored record references.
#[verifier::opaque]
pub open spec fn row_thumb_chars(row: JsonRowView, target: Seq<char>) -> Seq<char> {
    img_dir_chars(target, row_dt(row)) + "/"@ + thumb_filename_chars(
        row_dt(row),
        row.file_ts,
        row.crc as u32,
    )
}

/// The link file a stored record references.
#[verifier::opaque]
pub open spec fn row_link_file_chars(row: JsonRowView, target: Seq<char>) -> Seq<char> {
    link_file_chars(part_crc_of(row.source), target, row.path, row_dt(row))
}

/// The link directory a stored record references.
#[verifier::opaque]
pub open spec fn row_link_dir_chars(row: JsonRowView, target: Seq<char>) -> Seq<char> {
    link_dir_chars(part_crc_of(row.source), target, row.path, row_dt(row))
}

/// Whether some string of `v` reads `t`.
pub open spec fn has_str(v: Seq<String>, t: Seq<char>) -> bool {
    exists|i: int| 0 <= i < v.len() && v[i]@ == t
}

/// Whether the strings of `v` are pairwise distinct.
pub open spec fn distinct_str(v: Seq<String>) -> bool {
    forall|i: int, j: int| 0 <= i < j < v.len() ==> v[i]@ != v[j]@
}

/// Whether a kept record among the first `n` references thumbnail `t`.
pub open spec fn kept_thumb_among(
    rows: Seq<JsonRowView>,
    keep: Seq<bool>,
    n: int,
    target: Seq<char>,
    t: Seq<char>,
) -> bool {
    exists|i: int| 0 <= i < n && keep[i] && row_thumb_chars(rows[i], target) == t
}

/// Whether a dropped record among the first `n` references thumbnail `t`.
pub open spec fn dropped_thumb_among(
    rows: Seq<JsonRowView>,
    keep: Seq<bool>,
    n: int,
    target: Seq<char>,
    t: Seq<char>,
) -> bool {
    exists|i: int| 0 <= i < n && !keep[i] && row_thumb_chars(rows[i], target) == t
}

/// The link file and directory of each dropped record among the first `n`,
/// in log order.
pub open spec fn dropped_links_upto(
    rows: Seq<JsonRowView>,
    keep: Seq<bool>,
    n: int,
    target: Seq<char>,
) -> Seq<(Seq<char>, Seq<char>)>
    decreases n,
{
    if n <= 0 {
        Seq::empty()
    } else {
        let prev = dropped_links_upto(rows, keep, n - 1, target);
        if keep[n - 1] {
            prev
        } else {
            prev.push((row_link_file_chars(rows[n - 1], target), row_link_dir_chars(rows[n - 1], target)))
        }
    }
}

/// The link-file side of one dropped record.
pub struct DroppedLink {
    pub link_file: String,
    pub link_dir: String,
}

/// What the retainer must do after the log rewrite.
pub struct RetainPlan {
    /// Thumbnails some kept record references.
    pub thumbs_kept: Vec<String>,
    /// Thumbnails only dropped records reference: delete them.
    pub thumbs_to_remove: Vec<String>,
    /// Link files of dropped records, in log order: delete each, then its
    /// directory when emptied.
    pub dropped_links: Vec<DroppedLink>,
}

fn find_str(v: &Vec<String>, s: &str) -> (r: Option<usize>)
    ensures
        match r {
            Some(j) => j < v@.len() && v@[j as int]@ == s@ && has_str(v@, s@),
            None => !has_str(v@, s@),
        },
{
    let mut i: usize = 0;
    while i < v.len()
        invariant
            i <= v@.len(),
            forall|j: int| 0 <= j < i ==> v@[j]@ != s@,
        decreases v@.len() - i,
    {
        if str_eq(v[i].as_str(), s) {
            proof {
                assert(0 <= i < v@.len() && v@[i as int]@ == s@);
            }
            return Some(i);
        }
        i = i + 1;
    }
    None
}

/// Removing one of pairwise-distinct strings removes exactly it.
proof fn lemma_remove_str(v: Seq<String>, j: int)
    requires
        0 <= j < v.len(),
        distinct_str(v),
    ensures
        forall|t: Seq<char>|
            #![trigger has_str(v.remove(j), t)]
            has_str(v.remove(j), t) <==> (has_str(v, t) && t != v[j]@),
        distinct_str(v.remove(j)),
{
    assert forall|t: Seq<char>| has_str(v.remove(j), t) <==> (has_str(v, t) && t != v[j]@) by {
        if has_str(v.remove(j), t) {
            let k = choose|k: int| 0 <= k < v.remove(j).len() && v.remove(j)[k]@ == t;
            if k < j {
                assert(v[k]@ == t);
            } else {
                assert(v[k + 1]@ == t);
            }
        }
        if has_str(v, t) && t != v[j]@ {
            let k = choose|k: int| 0 <= k < v.len() && v[k]@ == t;
            if k < j {
                assert(v.remove(j)[k]@ == t);
            } else {
                assert(k > j);
                assert(v.remove(j)[k - 1]@ == t);
            }
        }
    }
}

/// Appending a string extends the membership by exactly it.
proof fn lemma_push_str(v: Seq<String>, x: String)
    ensures
        forall|t: Seq<char>|
            #![trigger has_str(v.push(x), t)]
            has_str(v.push(x), t) <==> (has_str(v, t) || t == x@),
        !has_str(v, x@) && distinct_str(v) ==> distinct_str(v.push(x)),
{
    assert forall|t: Seq<char>| has_str(v.push(x), t) <==> (has_str(v, t) || t == x@) by {
        if has_str(v.push(x), t) {
            let k = choose|k: int| 0 <= k < v.push(x).len() && v.push(x)[k]@ == t;
            if k < v.len() {
                assert(v[k]@ == t);
            }
        }
        if has_str(v, t) {
            let k = choose|k: int| 0 <= k < v.len() && v[k]@ == t;
            assert(v.push(x)[k]@ == t);
        }
        if t == x@ {
            assert(v.push(x)[v.len() as int]@ == t);
        }
    }
}

/// Taking one more record into account extends the kept and dropped
/// thumbnail memberships by exactly that record's thumbnail, on its side
/// of the verdict.
proof fn lemma_among_step(rows: Seq<JsonRowView>, keep: Seq<bool>, n: int, target: Seq<char>)
    requires
        0 <= n < rows.len(),
        rows.len() == keep.len(),
    ensures
        forall|t: Seq<char>|
            #![trigger kept_thumb_among(rows, keep, n + 1, target, t)]
            kept_thumb_among(rows, keep, n + 1, target, t) <==> (kept_thumb_among(
                rows,
                keep,
                n,
                target,
                t,
            ) || (keep[n] && row_thumb_chars(rows[n], target) == t)),
        forall|t: Seq<char>|
            #![trigger dropped_thumb_among(rows, keep, n + 1, target, t)]
            dropped_thumb_among(rows, keep, n + 1, target, t) <==> (dropped_thumb_among(
                rows,
                keep,
                n,
                target,
                t,
            ) || (!keep[n] && row_thumb_chars(rows[n], target) == t)),
{
    assert forall|t: Seq<char>|
        kept_thumb_among(rows, keep, n + 1, target, t) <==> (kept_thumb_among(
            rows,
            keep,
            n,
            target,
            t,
        ) || (keep[n] && row_thumb_chars(rows[n], target) == t)) by {
        if kept_thumb_among(rows, keep, n + 1, target, t) {
            let k = choose|k: int|
                0 <= k < n + 1 && keep[k] && row_thumb_chars(rows[k], target) == t;
            if k < n {
                assert(kept_thumb_among(rows, keep, n, target, t));
            }
        }
        if kept_thumb_among(rows, keep, n, target, t) {
            let k = choose|k: int| 0 <= k < n && keep[k] && row_thumb_chars(rows[k], target) == t;
            assert(0 <= k < n + 1 && keep[k] && row_thumb_chars(rows[k], target) == t);
        }
        if keep[n] && row_thumb_chars(rows[n], target) == t {
            assert(0 <= n < n + 1 && keep[n] && row_thumb_chars(rows[n], target) == t);
        }
    }
    assert forall|t: Seq<char>|
        dropped_thumb_among(rows, keep, n + 1, target, t) <==> (dropped_thumb_among(
            rows,
            keep,
            n,
            target,
            t,
        ) || (!keep[n] && row_thumb_chars(rows[n], target) == t)) by {
        if dropped_thumb_among(rows, keep, n + 1, target, t) {
            let k = choose|k: int|
                0 <= k < n + 1 && !keep[k] && row_thumb_chars(rows[k], target) == t;
            if k < n {
                assert(dropped_thumb_among(rows, keep, n, target, t));
            }
        }
        if dropped_thumb_among(rows, keep, n, target, t) {
            let k = choose|k: int| 0 <= k < n && !keep[k] && row_thumb_chars(rows[k], target) == t;
            assert(0 <= k < n + 1 && !keep[k] && row_thumb_chars(rows[k], target) == t);
        }
        if !keep[n] && row_thumb_chars(rows[n], target) == t {
            assert(0 <= n < n + 1 && !keep[n] && row_thumb_chars(rows[n], target) == t);
        }
    }
}

/// Maps one stored record back to the archive files it references.
///
/// Succeeds exactly when the record's source path has a parent directory
/// and its timestamps are renderable.
pub fn row_archive_paths(row: &PhotoArchiveJsonRow, target: &str) -> (r: Result<
    (String, String, String),
    ArchiveError,
>)
    ensures
        match r {
            Ok((thumb, link_file, link_dir)) => {
                &&& row_ok(row@)
                &&& thumb@ == row_thumb_chars(row@, target@)
                &&& link_file@ == row_link_file_chars(row@, target@)
                &&& link_dir@ == row_link_dir_chars(row@, target@)
            },
            Err(e) => !row_ok(row@),
        },
{
    proof {
        reveal(row_thumb_chars);
        reveal(row_link_file_chars);
        reveal(row_link_dir_chars);
    }
    let ts = row.timestamp();
    let pc = crc32c(row.source_id().as_bytes());
    let src_path = row.source_path();
    let paths = match build_paths(pc, target, src_path.as_str(), ts.as_ref()) {
        Ok(p) => p,
        Err(e) => {
            return Err(e);
        },
    };
    let fname = match build_filename(ts.as_ref(), row.file_timestamp(), row.digest()) {
        Ok(f) => f,
        Err(e) => {
            return Err(e);
        },
    };
    let mut thumb = paths.img_path;
    thumb.append("/");
    thumb.append(fname.as_str());
    proof {
        assert(thumb@ =~= row_thumb_chars(row@, target@));
    }
    Ok((thumb, paths.link_file_path, paths.link_dir_path))
}

/// Derives the retention plan from the keep decision of every record.
///
/// `rows` are all records of the log in order, `keep[i]` the predicate's
/// verdict on `rows[i]`. Succeeds exactly when every record maps back to
/// archive paths; the plan then lists the thumbnails kept records
/// reference, the thumbnails only dropped records reference, and the link
/// files of dropped records. A record's failure to map back surfaces as
/// the path error of the first record that fails.
#[verifier::rlimit(100)]
pub fn retain_plan(rows: &Vec<PhotoArchiveJsonRow>, keep: &Vec<bool>, target: &str) -> (r: Result<
    RetainPlan,
    ArchiveError,
>)
    requires
        keep@.len() == rows@.len(),
    ensures
        ({
            let rviews = rows@.map_values(|row: PhotoArchiveJsonRow| row@);
            let n = rows@.len() as int;
            match r {
                Ok(plan) => {
                    &&& forall|j: int| 0 <= j < n ==> row_ok(rviews[j])
                    &&& forall|t: Seq<char>|
                        has_str(plan.thumbs_kept@, t) <==> kept_thumb_among(
                            rviews,
                            keep@,
                            n,
                            target@,
                            t,
                        )
                    &&& forall|t: Seq<char>|
                        has_str(plan.thumbs_to_remove@, t) <==> (dropped_thumb_among(
                            rviews,
                            keep@,
                            n,
                            target@,
                            t,
                        ) && !kept_thumb_among(rviews, keep@, n, target@, t))
                    &&& plan.dropped_links@.map_values(
                        |d: DroppedLink| (d.link_file@, d.link_dir@),
                    ) == dropped_links_upto(rviews, keep@, n, target@)
                },
                Err(e) => exists|j: int| 0 <= j < n && !row_ok(rviews[j]),
            }
        }),
{
    let ghost rviews = rows@.map_values(|row: PhotoArchiveJsonRow| row@);
    let mut thumbs_kept: Vec<String> = Vec::new();
    let mut thumbs_to_remove: Vec<String> = Vec::new();
    let mut dropped_links: Vec<DroppedLink> = Vec::new();
    let mut i: usize = 0;
    while i < rows.len()
        invariant
            keep@.len() == rows@.len(),
            i <= rows@.len(),
            rviews == rows@.map_values(|row: PhotoArchiveJsonRow| row@),
            forall|j: int| 0 <= j < i ==> row_ok(rviews[j]),
            forall|t: Seq<char>|
                has_str(thumbs_kept@, t) <==> kept_thumb_among(rviews, keep@, i as int, target@, t),
            forall|t: Seq<char>|
                has_str(thumbs_to_remove@, t) <==> (dropped_thumb_among(
                    rviews,
                    keep@,
                    i as int,
                    target@,
                    t,
                ) && !kept_thumb_among(rviews, keep@, i as int, target@, t)),
            distinct_str(thumbs_to_remove@),
            dropped_links@.map_values(|d: DroppedLink| (d.link_file@, d.link_dir@))
                == dropped_links_upto(rviews, keep@, i as int, target@),
        decreases rows@.len() - i,
    {
        let ghost n0 = i as int;
        let row = &rows[i];
        proof {
            assert(rviews[n0] == rows@[n0]@);
        }
        let (thumb, link_file, link_dir) = match row_archive_paths(row, target) {
            Ok(p) => p,
            Err(e) => {
                return Err(e);
            },
        };
        let ghost tv = thumb@;
        proof {
            lemma_among_step(rviews, keep@, n0, target@);
        }
        if keep[i] {
            match find_str(&thumbs_to_remove, thumb.as_str()) {
                Some(j) => {
                    proof {
                        lemma_remove_str(thumbs_to_remove@, j as int);
                    }
                    thumbs_to_remove.remove(j);
                },
                None => {},
            }
            proof {
                lemma_push_str(thumbs_kept@, thumb);
            }
            thumbs_kept.push(thumb);
            proof {
                assert(dropped_links_upto(rviews, keep@, n0 + 1, target@) == dropped_links_upto(
                    rviews,
                    keep@,
                    n0,
                    target@,
                ));
            }
        } else {
            let in_kept = find_str(&thumbs_kept, thumb.as_str());
            let in_rem = find_str(&thumbs_to_remove, thumb.as_str());
            if in_kept.is_none() && in_rem.is_none() {
                proof {
                    lemma_push_str(thumbs_to_remove@, thumb);
                }
                thumbs_to_remove.push(thumb);
            }
            let ghost old_links = dropped_links@;
            dropped_links.push(DroppedLink { link_file, link_dir });
            proof {
                assert(dropped_links@.map_values(|d: DroppedLink| (d.link_file@, d.link_dir@))
                    =~= old_links.map_values(|d: DroppedLink| (d.link_file@, d.link_dir@)).push(
                    (
                        row_link_file_chars(rviews[n0], target@),
                        row_link_dir_chars(rviews[n0], target@),
                    ),
                ));
            }
        }
        proof {
            assert(tv == row_thumb_chars(rviews[n0], target@));
            assert forall|t: Seq<char>|
                has_str(thumbs_kept@, t) <==> kept_thumb_among(
                    rviews,
                    keep@,
                    n0 + 1,
                    target@,
                    t,
                ) by {}
            assert forall|t: Seq<char>|
                has_str(thumbs_to_remove@, t) <==> (dropped_thumb_among(
                    rviews,
                    keep@,
                    n0 + 1,
                    target@,
                    t,
                ) && !kept_thumb_among(rviews, keep@, n0 + 1, target@, t)) by {
                assert(dropped_thumb_among(rviews, keep@, n0 + 1, target@, t) <==> (
                dropped_thumb_among(rviews, keep@, n0, target@, t) || (!keep@[n0] && tv == t)));
                assert(kept_thumb_among(rviews, keep@, n0 + 1, target@, t) <==> (kept_thumb_among(
                    rviews,
                    keep@,
                    n0,
                    target@,
                    t,
                ) || (keep@[n0] && tv == t)));
            }
        }
        i = i + 1;
    }
    proof {
        assert(rviews.len() == rows@.len());
    }
    Ok(RetainPlan { thumbs_kept, thumbs_to_remove, dropped_links })
}

/// Law: retention is monotone. After the rewrite, a thumbnail that any
/// record referenced survives exactly when a kept record references it:
/// the removal set a plan derives spares every thumbnail a kept record
/// shares, however the keep and drop decisions interleave.
pub proof fn lemma_retain_preserves_kept_thumbs(
    rows: Seq<JsonRowView>,
    keep: Seq<bool>,
    removed: Seq<String>,
    target: Seq<char>,
)
    requires
        keep.len() == rows.len(),
        forall|t: Seq<char>|
            has_str(removed, t) <==> (dropped_thumb_among(rows, keep, rows.len() as int, target, t)
                && !kept_thumb_among(rows, keep, rows.len() as int, target, t)),
    ensures
        forall|t: Seq<char>|
            ((exists|i: int|
                0 <= i < rows.len() && row_thumb_chars(rows[i], target) == t) && !has_str(
                removed,
                t,
            )) <==> kept_thumb_among(rows, keep, rows.len() as int, target, t),
{
    let n = rows.len() as int;
    assert forall|t: Seq<char>|
        ((exists|i: int| 0 <= i < rows.len() && row_thumb_chars(rows[i], target) == t) && !has_str(
            removed,
            t,
        )) <==> kept_thumb_among(rows, keep, n, target, t) by {
        if (exists|i: int| 0 <= i < rows.len() && row_thumb_chars(rows[i], target) == t)
            && !has_str(removed, t) {
            let i = choose|i: int| 0 <= i < rows.len() && row_thumb_chars(rows[i], target) == t;
            if keep[i] {
                assert(kept_thumb_among(rows, keep, n, target, i_thumb(rows, i, target)));
                assert(kept_thumb_among(rows, keep, n, target, t));
            } else {
                assert(dropped_thumb_among(rows, keep, n, target, t));
            }
        }
        if kept_thumb_among(rows, keep, n, target, t) {
            let i = choose|i: int|
                0 <= i < n && keep[i] && row_thumb_chars(rows[i], target) == t;
            assert(exists|j: int| 0 <= j < rows.len() && row_thumb_chars(rows[j], target) == t);
        }
    }
}

/// The thumbnail of row `i` (trigger helper).
pub open spec fn i_thumb(rows: Seq<JsonRowView>, i: int, target: Seq<char>) -> Seq<char> {
    row_thumb_chars(rows[i], target)
}

/// The record lines whose keep flag is set, in order.
pub open spec fn kept_lines_upto(lines: Seq<Seq<u8>>, keep: Seq<bool>, n: int) -> Seq<Seq<u8>>
    decreases n,
{
    if n <= 0 {
        Seq::empty()
    } else {
        let prev = kept_lines_upto(lines, keep, n - 1);
        if keep[n - 1] {
            prev.push(lines[n - 1])
        } else {
            prev
        }
    }
}

/// Law: the rewritten log holds exactly the records the predicate kept, in
/// their original order. `lines` are the log's lines and `keep` the
/// predicate's verdicts; the result is the new log.
pub fn filter_kept_lines(lines: &Vec<Vec<u8>>, keep: &Vec<bool>) -> (r: Vec<Vec<u8>>)
    requires
        keep@.len() == lines@.len(),
    ensures
        r@.map_values(|l: Vec<u8>| l@) == kept_lines_upto(
            lines@.map_values(|l: Vec<u8>| l@),
            keep@,
            lines@.len() as int,
        ),
{
    let ghost lviews = lines@.map_values(|l: Vec<u8>| l@);
    let mut out: Vec<Vec<u8>> = Vec::new();
    let mut i: usize = 0;
    while i < lines.len()
        invariant
            keep@.len() == lines@.len(),
            i <= lines@.len(),
            lviews == lines@.map_values(|l: Vec<u8>| l@),
            out@.map_values(|l: Vec<u8>| l@) == kept_lines_upto(lviews, keep@, i as int),
        decreases lines@.len() - i,
    {
        if keep[i] {
            let ghost old_out = out@;
            let mut copy: Vec<u8> = Vec::new();
            let mut k: usize = 0;
            while k < lines[i].len()
                invariant
                    i < lines@.len(),
                    k <= lines@[i as int]@.len(),
                    copy@ == lines@[i as int]@.subrange(0, k as int),
                decreases lines@[i as int]@.len() - k,
            {
                let b = lines[i][k];
                copy.push(b);
                proof {
                    assert(copy@ =~= lines@[i as int]@.subrange(0, k + 1));
                }
                k = k + 1;
            }
            proof {
                assert(copy@ =~= lines@[i as int]@);
            }
            out.push(copy);
            proof {
                assert(out@.map_values(|l: Vec<u8>| l@) =~= old_out.map_values(
                    |l: Vec<u8>| l@,
                ).push(lviews[i as int]));
            }
        }
        i = i + 1;
    }
    proof {
        assert(lviews.len() == lines@.len());
    }
    out
}

} // verus!
