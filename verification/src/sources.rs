//! The source registry: one row per storage volume ever imported.
//!
//! The registry lives as newline-delimited JSON at
//! `<archive>/sources.ndjson`. This module holds the row type, the lookup
//! and duplicate-refusal rules, and (with the record codec) the on-disk row
//! rendering. Reading and appending the file itself is the caller's I/O.
use crate::text::str_eq;
use vstd::prelude::*;

verus! {

/// One registered source: a stable id with its human description.
#[derive(Debug)]
pub struct SourceJsonRow {
    pub id: String,
    pub name: String,
    pub group: String,
    pub tags: Vec<String>,
}

/// The spec-level contents of one registry row.
pub ghost struct SourceRowView {
    pub id: Seq<char>,
    pub name: Seq<char>,
    pub group: Seq<char>,
    pub tags: Seq<Seq<char>>,
}

impl View for SourceJsonRow {
    type V = SourceRowView;

    open spec fn view(&self) -> SourceRowView {
        SourceRowView {
            id: self.id@,
            name: self.name@,
            group: self.group@,
            tags: self.tags@.map_values(|t: String| t@),
        }
    }
}

impl SourceJsonRow {
    /// The one-line rendering used when listing registered sources:
    /// `<id><TAB><name><TAB>[<group>]`.
    pub fn describe(&self) -> (r: String)
        ensures
            r@ == self.id@ + "\t"@ + self.name@ + "\t["@ + self.group@ + "]"@,
    {
        let mut s = self.id.clone();
        s.append("\t");
        s.append(self.name.as_str());
        s.append("\t[");
        s.append(self.group.as_str());
        s.append("]");
        proof {
            assert(s@ =~= self.id@ + "\t"@ + self.name@ + "\t["@ + self.group@ + "]"@);
        }
        s
    }
}

/// Whether some row of `rows` carries the id `id`.
pub open spec fn id_registered(rows: Seq<SourceJsonRow>, id: Seq<char>) -> bool {
    exists|i: int| 0 <= i < rows.len() && rows[i].id@ == id
}

/// The sources registry of one archive.
pub struct SourcesRepo {
    pub archive_dir: String,
}

impl SourcesRepo {
    pub fn new(archive_dir: String) -> (r: SourcesRepo)
        ensures
            r.archive_dir@ == archive_dir@,
    {
        SourcesRepo { archive_dir }
    }

    /// The registry file: `<archive>/sources.ndjson`.
    pub fn db_path(&self) -> (r: String)
        ensures
            r@ == self.archive_dir@ + "/sources.ndjson"@,
    {
        let mut s = self.archive_dir.clone();
        s.append("/sources.ndjson");
        proof {
            assert(s@ =~= self.archive_dir@ + "/sources.ndjson"@);
        }
        s
    }
}

/// The first registered row carrying `source_id`, if any.
///
/// `rows` are the registry's rows in file order; the first match wins, as
/// when scanning the file top to bottom.
pub fn find_by_id<'a>(rows: &'a Vec<SourceJsonRow>, source_id: &str) -> (r: Option<
    &'a SourceJsonRow,
>)
    ensures
        match r {
            Some(row) => {
                &&& id_registered(rows@, source_id@)
                &&& row.id@ == source_id@
                &&& exists|i: int|
                    0 <= i < rows@.len() && *row == rows@[i] && (forall|j: int|
                        0 <= j < i ==> rows@[j].id@ != source_id@)
            },
            None => !id_registered(rows@, source_id@),
        },
{
    let mut i: usize = 0;
    while i < rows.len()
        invariant
            i <= rows@.len(),
            forall|j: int| 0 <= j < i ==> rows@[j].id@ != source_id@,
        decreases rows@.len() - i,
    {
        if str_eq(rows[i].id.as_str(), source_id) {
            proof {
                let w = i as int;
                assert(0 <= w < rows@.len() && rows@[w].id@ == source_id@);
            }
            return Some(&rows[i]);
        }
        i = i + 1;
    }
    None
}

} // verus!
