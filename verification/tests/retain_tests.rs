use photo_archive::records::PhotoArchiveJsonRow;
use photo_archive::retain::filter_kept_lines;
use photo_archive::retain::retain_plan;
use photo_archive::retain::row_archive_paths;
use photo_archive::ArchiveError;

/// A record whose thumbnail name is driven by the digest and timestamp.
fn record(ts: i64, path: &str, digest: u32) -> PhotoArchiveJsonRow {
    PhotoArchiveJsonRow {
        timestamp: Some(ts),
        file_ts: ts as u64,
        source: String::from("ABCD-1234"),
        path: String::from(path),
        exif: vec![],
        size: 100,
        height: 3000,
        width: 4000,
        crc: digest,
    }
}

#[test]
fn maps_record_back_to_paths() {
    let (thumb, link_file, link_dir) =
        row_archive_paths(&record(1623075785, "DCIM/100/IMG_0001.jpg", 0x0AB54321), "/archive")
            .unwrap();
    assert_eq!(thumb, "/archive/2021/06.07/img/142305_0AB54321.jpg");
    assert!(link_file.starts_with("/archive/2021/06.07/"));
    assert!(link_file.ends_with("/IMG_0001.jpg"));
    assert!(link_file.starts_with(&format!("{link_dir}/")));
}

#[test]
fn refuses_record_with_no_parent_dir() {
    let r = row_archive_paths(&record(0, "orphan.jpg", 1), "/archive");
    assert!(matches!(r, Err(ArchiveError::InvalidSourcePath)));
}

#[test]
fn retain_drops_half_and_rescues_shared_thumbnail() {
    // Ten records of one year; the first five share one thumbnail path
    // (same timestamp and digest). The predicate keeps the first five and
    // drops the rest: the shared thumbnail survives because a kept record
    // references it, and every dropped record's own thumbnail goes.
    let mut rows = Vec::new();
    for k in 0..5u32 {
        rows.push(record(1623075785, &format!("DCIM/100/IMG_000{k}.jpg"), 0x11111111));
    }
    for k in 5..10u32 {
        rows.push(record(1623075785 + k as i64, &format!("DCIM/100/IMG_000{k}.jpg"), k));
    }
    let keep: Vec<bool> = (0..10).map(|k| k < 5).collect();
    let plan = retain_plan(&rows, &keep, "/archive").unwrap();

    let shared = "/archive/2021/06.07/img/142305_11111111.jpg";
    assert!(plan.thumbs_kept.contains(&String::from(shared)));
    assert!(!plan.thumbs_to_remove.contains(&String::from(shared)));
    assert_eq!(plan.thumbs_to_remove.len(), 5);
    assert_eq!(plan.dropped_links.len(), 5);
    for d in &plan.dropped_links {
        assert!(d.link_file.starts_with(&format!("{}/", d.link_dir)));
    }
}

#[test]
fn later_keep_rescues_earlier_drop() {
    // The first record of a shared thumbnail is dropped, a later one kept:
    // the log-order walk takes the thumbnail off the removal set again.
    let rows = vec![
        record(1623075785, "DCIM/100/A.jpg", 7),
        record(1623075785, "DCIM/100/B.jpg", 7),
    ];
    let keep = vec![false, true];
    let plan = retain_plan(&rows, &keep, "/archive").unwrap();
    assert!(plan.thumbs_to_remove.is_empty());
    assert_eq!(plan.dropped_links.len(), 1);
}

#[test]
fn drop_all_removes_thumbnail_once() {
    let rows = vec![
        record(1623075785, "DCIM/100/A.jpg", 7),
        record(1623075785, "DCIM/100/B.jpg", 7),
    ];
    let keep = vec![false, false];
    let plan = retain_plan(&rows, &keep, "/archive").unwrap();
    assert_eq!(plan.thumbs_to_remove.len(), 1);
    assert_eq!(plan.dropped_links.len(), 2);
}

#[test]
fn retain_refuses_unmappable_record() {
    let rows = vec![record(0, "orphan.jpg", 1)];
    let keep = vec![true];
    assert!(retain_plan(&rows, &keep, "/archive").is_err());
}

#[test]
fn kept_lines_survive_in_order() {
    let lines: Vec<Vec<u8>> = vec![b"a".to_vec(), b"b".to_vec(), b"c".to_vec(), b"d".to_vec()];
    let keep = vec![true, false, true, false];
    let out = filter_kept_lines(&lines, &keep);
    assert_eq!(out, vec![b"a".to_vec(), b"c".to_vec()]);
}
