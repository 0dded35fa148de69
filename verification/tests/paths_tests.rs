use photo_archive::datetime::PhotoDateTime;
use photo_archive::paths::build_filename;
use photo_archive::paths::build_paths;
use photo_archive::text::hex8_string;
use photo_archive::ArchiveError;

fn crc_of(bytes: &[u8]) -> u32 {
    crc::Crc::<u32>::new(&crc::CRC_32_ISCSI).checksum(bytes)
}

fn ts_2021() -> PhotoDateTime {
    PhotoDateTime { year: 2021, month: 6, day: 7, hour: 14, minute: 23, second: 5 }
}

#[test]
fn builds_dated_paths() {
    let part_crc = crc_of(b"ABCD-1234");
    let ts = ts_2021();
    let p = build_paths(part_crc, "/archive", "DCIM/100/IMG_0001.jpg", Some(&ts)).unwrap();
    assert_eq!(p.date_path, "/archive/2021/06.07");
    assert_eq!(p.img_path, "/archive/2021/06.07/img");
    let dir_crc = crc_of(b"DCIM/100");
    let expected_link_dir = format!(
        "/archive/2021/06.07/{}.{}.100",
        hex8_string(part_crc),
        hex8_string(dir_crc)
    );
    assert_eq!(p.link_dir_path, expected_link_dir);
    assert_eq!(p.link_file_path, format!("{expected_link_dir}/IMG_0001.jpg"));
}

#[test]
fn builds_no_date_paths() {
    let p = build_paths(0xDEADBEEF, "/archive", "DCIM/100/IMG_0001.jpg", None).unwrap();
    assert_eq!(p.date_path, "/archive/no-date");
    assert_eq!(p.img_path, "/archive/no-date/img");
}

#[test]
fn checksum_matches_crc_crate() {
    // The library's wrapper and the crate agree on a known vector:
    // CRC-32C("123456789") is 0xE3069283.
    assert_eq!(photo_archive::checksum::crc32c(b"123456789"), 0xE3069283);
    assert_eq!(crc_of(b"123456789"), 0xE3069283);
}

#[test]
fn rejects_path_without_parent() {
    for bad in ["IMG_0001.jpg", "/IMG_0001.jpg", "DCIM/", ""] {
        let r = build_paths(0, "/archive", bad, None);
        assert!(matches!(r, Err(ArchiveError::InvalidSourcePath)), "{bad}");
    }
}

#[test]
fn deterministic_layout() {
    let ts = ts_2021();
    let a = build_paths(7, "/a", "x/y/z.jpg", Some(&ts)).unwrap();
    let b = build_paths(7, "/a", "x/y/z.jpg", Some(&ts)).unwrap();
    assert_eq!(a.date_path, b.date_path);
    assert_eq!(a.img_path, b.img_path);
    assert_eq!(a.link_dir_path, b.link_dir_path);
    assert_eq!(a.link_file_path, b.link_file_path);
    let fa = build_filename(Some(&ts), 0, 99).unwrap();
    let fb = build_filename(Some(&ts), 0, 99).unwrap();
    assert_eq!(fa, fb);
}

#[test]
fn symlink_target_resolves_into_img_dir() {
    let ts = ts_2021();
    let p = build_paths(1, "/archive", "DCIM/100/IMG_0001.jpg", Some(&ts)).unwrap();
    // The link file sits in the link dir, the link dir in the date dir.
    let (link_parent, _) = p.link_file_path.rsplit_once('/').unwrap();
    assert_eq!(link_parent, p.link_dir_path);
    let (dir_parent, _) = p.link_dir_path.rsplit_once('/').unwrap();
    assert_eq!(dir_parent, p.date_path);
    // So ../img from the link file's directory is the img dir.
    assert_eq!(format!("{dir_parent}/img"), p.img_path);
}

#[test]
fn timed_filename() {
    let ts = ts_2021();
    let name = build_filename(Some(&ts), 999, 0x0AB54321).unwrap();
    assert_eq!(name, "142305_0AB54321.jpg");
}

#[test]
fn no_date_filename_uses_utc_mtime() {
    let name = build_filename(None, 1577934245, 0xFFFFFFFF).unwrap();
    assert_eq!(name, "20200102-030405_FFFFFFFF.jpg");
}

#[test]
fn filename_rejects_unrenderable_mtime() {
    let r = build_filename(None, 253402300800, 0);
    assert!(matches!(r, Err(ArchiveError::TimestampOutOfRange)));
    // With a photo timestamp the mtime does not matter.
    let ts = ts_2021();
    assert!(build_filename(Some(&ts), 253402300800, 0).is_ok());
}
