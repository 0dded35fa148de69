use photo_archive::mounts::disk_by_uuid_device_path;
use photo_archive::mounts::is_supported_fs;
use photo_archive::mounts::partition_by_id;
use photo_archive::mounts::MountedPartitionInfo;
use photo_archive::mounts::PartitionInfo;
use photo_archive::mounts::PartitionLookupError;
use photo_archive::sources::SourceJsonRow;
use photo_archive::sources::SourcesRepo;

fn mounted(id: &str, mount: &str) -> MountedPartitionInfo {
    MountedPartitionInfo {
        mount_point: String::from(mount),
        fs_type: String::from("vfat"),
        info: PartitionInfo {
            device_path: String::from("/dev/sdb1"),
            partition_id: String::from(id),
        },
    }
}

#[test]
fn supported_filesystems() {
    assert!(is_supported_fs("vfat"));
    assert!(is_supported_fs("ntfs3"));
    assert!(is_supported_fs("fuseblk"));
    assert!(!is_supported_fs("ext4"));
    assert!(!is_supported_fs("btrfs"));
    assert!(!is_supported_fs(""));
}

#[test]
fn by_uuid_device_node() {
    assert_eq!(disk_by_uuid_device_path("ABCD-1234"), "/dev/disk/by-uuid/ABCD-1234");
}

#[test]
fn selects_single_matching_partition() {
    let mounts = vec![mounted("X", "/mnt/x"), mounted("Y", "/mnt/y")];
    let m = partition_by_id(&mounts, "Y").unwrap();
    assert_eq!(m.mount_point, "/mnt/y");
    assert_eq!(m.info.partition_id, "Y");
}

#[test]
fn refuses_missing_or_ambiguous_partition() {
    let mounts = vec![mounted("X", "/mnt/x"), mounted("X", "/mnt/x2")];
    assert_eq!(
        partition_by_id(&mounts, "Z").unwrap_err(),
        PartitionLookupError::NoPartitionFound
    );
    assert_eq!(
        partition_by_id(&mounts, "X").unwrap_err(),
        PartitionLookupError::MultiplePartitionsFound
    );
}

#[test]
fn describes_mounted_partition() {
    assert_eq!(mounted("ABCD-1234", "/mnt/x").describe(), "ABCD-1234\t/mnt/x");
}

#[test]
fn registry_path_and_row_description() {
    let repo = SourcesRepo::new(String::from("/archive"));
    assert_eq!(repo.db_path(), "/archive/sources.ndjson");
    let row = SourceJsonRow {
        id: String::from("ABCD-1234"),
        name: String::from("card"),
        group: String::from("ROOT"),
        tags: vec![],
    };
    assert_eq!(row.describe(), "ABCD-1234\tcard\t[ROOT]");
}

#[test]
fn finds_first_row_by_id() {
    let rows = vec![
        SourceJsonRow {
            id: String::from("A"),
            name: String::from("first"),
            group: String::from("g"),
            tags: vec![],
        },
        SourceJsonRow {
            id: String::from("A"),
            name: String::from("second"),
            group: String::from("g"),
            tags: vec![],
        },
    ];
    let row = photo_archive::sources::find_by_id(&rows, "A").unwrap();
    assert_eq!(row.name, "first");
    assert!(photo_archive::sources::find_by_id(&rows, "B").is_none());
}
