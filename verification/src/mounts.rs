//! Mounted-partition descriptors.
//!
//! The engine consumes sources as mounted partitions: a stable partition id,
//! the device behind it, and the mount point. Enumerating partitions is the
//! platform's business; this module holds the descriptors, the supported
//! filesystem whitelist, and the selection of one mounted partition by id.
use crate::text::str_eq;
use vstd::prelude::*;

verus! {

/// A partition known to the system.
#[derive(Clone, Debug)]
pub struct PartitionInfo {
    pub device_path: String,
    pub partition_id: String,
}

/// A partition that is currently mounted.
#[derive(Clone, Debug)]
pub struct MountedPartitionInfo {
    pub mount_point: String,
    pub fs_type: String,
    pub info: PartitionInfo,
}

impl MountedPartitionInfo {
    /// The one-line rendering used when listing sources:
    /// `<partition id><TAB><mount point>`.
    pub fn describe(&self) -> (r: String)
        ensures
            r@ == self.info.partition_id@ + "\t"@ + self.mount_point@,
    {
        let mut s = self.info.partition_id.clone();
        s.append("\t");
        s.append(self.mount_point.as_str());
        proof {
            assert(s@ =~= self.info.partition_id@ + "\t"@ + self.mount_point@);
        }
        s
    }
}

/// Whether the engine imports photos from this filesystem type.
pub open spec fn supported_fs_chars(fs: Seq<char>) -> bool {
    fs == "vfat"@ || fs == "ntfs3"@ || fs == "fuseblk"@
}

/// Whether the engine imports photos from this filesystem type; removable
/// media come as `vfat`, `ntfs3` or `fuseblk`.
pub fn is_supported_fs(fs_type: &str) -> (r: bool)
    ensures
        r == supported_fs_chars(fs_type@),
{
    str_eq(fs_type, "vfat") || str_eq(fs_type, "ntfs3") || str_eq(fs_type, "fuseblk")
}

/// The `/dev/disk/by-uuid` node of a partition id.
pub fn disk_by_uuid_device_path(uuid: &str) -> (r: String)
    ensures
        r@ == "/dev/disk/by-uuid/"@ + uuid@,
{
    let mut s = String::new();
    s.append("/dev/disk/by-uuid/");
    s.append(uuid);
    proof {
        assert(s@ =~= "/dev/disk/by-uuid/"@ + uuid@);
    }
    s
}

/// Why no single mounted partition could be selected.
#[derive(Clone, Copy, Debug, PartialEq, Eq, Structural)]
pub enum PartitionLookupError {
    /// No mounted supported partition carries the requested id.
    NoPartitionFound,
    /// More than one mounted partition carries the requested id.
    MultiplePartitionsFound,
}

/// How many of the mounted partitions carry `id`.
pub open spec fn count_matching(mounts: Seq<MountedPartitionInfo>, id: Seq<char>) -> int
    decreases mounts.len(),
{
    if mounts.len() == 0 {
        0
    } else {
        count_matching(mounts.drop_last(), id) + if mounts.last().info.partition_id@ == id {
            1int
        } else {
            0int
        }
    }
}

/// Selects the one mounted partition carrying `partition_id`.
///
/// Succeeds exactly when one entry of `mounts` matches, and returns that
/// entry; reports whether none or several matched otherwise.
pub fn partition_by_id(mounts: &Vec<MountedPartitionInfo>, partition_id: &str) -> (r: Result<
    MountedPartitionInfo,
    PartitionLookupError,
>)
    ensures
        match r {
            Ok(m) => count_matching(mounts@, partition_id@) == 1 && exists|i: int|
                0 <= i < mounts@.len() && mounts@[i].info.partition_id@ == partition_id@ && m
                    .mount_point@ == mounts@[i].mount_point@ && m.fs_type@ == mounts@[i].fs_type@
                    && m.info.partition_id@ == mounts@[i].info.partition_id@ && m.info.device_path@
                    == mounts@[i].info.device_path@,
            Err(PartitionLookupError::NoPartitionFound) => count_matching(mounts@, partition_id@)
                == 0,
            Err(PartitionLookupError::MultiplePartitionsFound) => count_matching(
                mounts@,
                partition_id@,
            ) >= 2,
        },
{
    let mut found: Option<usize> = None;
    let mut i: usize = 0;
    while i < mounts.len()
        invariant
            i <= mounts@.len(),
            match found {
                Some(j) => j < i && mounts@[j as int].info.partition_id@ == partition_id@
                    && count_matching(mounts@.subrange(0, i as int), partition_id@) == 1,
                None => count_matching(mounts@.subrange(0, i as int), partition_id@) == 0,
            },
        decreases mounts@.len() - i,
    {
        proof {
            assert(mounts@.subrange(0, i + 1).drop_last() =~= mounts@.subrange(0, i as int));
            assert(mounts@.subrange(0, i + 1).last() == mounts@[i as int]);
        }
        if str_eq(mounts[i].info.partition_id.as_str(), partition_id) {
            if found.is_some() {
                proof {
                    lemma_count_matching_prefix(mounts@, partition_id@, i + 1);
                }
                return Err(PartitionLookupError::MultiplePartitionsFound);
            }
            found = Some(i);
        }
        i = i + 1;
    }
    proof {
        assert(mounts@.subrange(0, mounts@.len() as int) =~= mounts@);
    }
    match found {
        Some(j) => {
            let m = &mounts[j];
            Ok(
                MountedPartitionInfo {
                    mount_point: m.mount_point.clone(),
                    fs_type: m.fs_type.clone(),
                    info: PartitionInfo {
                        device_path: m.info.device_path.clone(),
                        partition_id: m.info.partition_id.clone(),
                    },
                },
            )
        },
        None => Err(PartitionLookupError::NoPartitionFound),
    }
}

/// A prefix with two matches means the whole sequence has at least two.
proof fn lemma_count_matching_prefix(mounts: Seq<MountedPartitionInfo>, id: Seq<char>, k: int)
    requires
        0 <= k <= mounts.len(),
    ensures
        count_matching(mounts, id) >= count_matching(mounts.subrange(0, k), id),
    decreases mounts.len() - k,
{
    if k < mounts.len() {
        lemma_count_matching_prefix(mounts, id, k + 1);
        assert(mounts.subrange(0, k + 1).drop_last() =~= mounts.subrange(0, k));
        assert(count_matching(mounts.subrange(0, k + 1), id) >= count_matching(
            mounts.subrange(0, k),
            id,
        ));
    } else {
        assert(mounts.subrange(0, k) =~= mounts);
    }
}

} // verus!
