use photo_archive::codec::parse_record_line;
use photo_archive::codec::parse_source_line;
use photo_archive::codec::parse_source_lines;
use photo_archive::codec::record_line;
use photo_archive::codec::source_line;
use photo_archive::codec::write_entry_line;
use photo_archive::datetime::PhotoDateTime;
use photo_archive::records::PhotoArchiveJsonRow;
use photo_archive::records::PhotoArchiveRecordsStore;
use photo_archive::records::PhotoArchiveRow;
use photo_archive::sources::SourceJsonRow;
use photo_archive::sync::SyncSetupError;

fn sample_json_row() -> PhotoArchiveJsonRow {
    PhotoArchiveJsonRow {
        timestamp: Some(1623075785),
        file_ts: 1623075785,
        source: String::from("ABCD-1234"),
        path: String::from("DCIM/100/IMG_0001.jpg"),
        exif: vec![0x45, 0x78, 0x69, 0x66],
        size: 123456,
        height: 3000,
        width: 4000,
        crc: 0xDEADBEEF,
    }
}

#[test]
fn renders_record_schema() {
    let line = record_line(&sample_json_row());
    let text = String::from_utf8(line).unwrap();
    assert_eq!(
        text,
        "{\"ts\":1623075785,\"fts\":1623075785,\"src\":\"ABCD-1234\",\
         \"pth\":\"DCIM/100/IMG_0001.jpg\",\"exf\":\"RXhpZg==\",\
         \"siz\":123456,\"hgh\":3000,\"wdt\":4000,\"crc\":3735928559}"
    );
}

#[test]
fn record_line_is_valid_json_for_serde() {
    let line = record_line(&sample_json_row());
    let text = String::from_utf8(line).unwrap();
    let v: serde_json::Value = serde_json::from_str(&text).unwrap();
    assert_eq!(v["ts"], serde_json::Value::from(1623075785i64));
    assert_eq!(v["fts"], serde_json::Value::from(1623075785u64));
    assert_eq!(v["src"], serde_json::Value::from("ABCD-1234"));
    assert_eq!(v["pth"], serde_json::Value::from("DCIM/100/IMG_0001.jpg"));
    assert_eq!(v["exf"], serde_json::Value::from("RXhpZg=="));
    assert_eq!(v["siz"], serde_json::Value::from(123456u64));
    assert_eq!(v["hgh"], serde_json::Value::from(3000u32));
    assert_eq!(v["wdt"], serde_json::Value::from(4000u32));
    assert_eq!(v["crc"], serde_json::Value::from(3735928559u32));
}

#[test]
fn record_round_trip() {
    let row = sample_json_row();
    let line = record_line(&row);
    let back = parse_record_line(&line).unwrap();
    assert_eq!(back.timestamp, row.timestamp);
    assert_eq!(back.file_ts, row.file_ts);
    assert_eq!(back.source, row.source);
    assert_eq!(back.path, row.path);
    assert_eq!(back.exif, row.exif);
    assert_eq!(back.size, row.size);
    assert_eq!(back.height, row.height);
    assert_eq!(back.width, row.width);
    assert_eq!(back.crc, row.crc);
}

#[test]
fn record_round_trip_null_ts_and_escapes() {
    let row = PhotoArchiveJsonRow {
        timestamp: None,
        file_ts: 0,
        source: String::from("a\"b\\c"),
        path: String::from("x/\n\u{1}/ünicode.jpg"),
        exif: vec![],
        size: 0,
        height: 300,
        width: 300,
        crc: 0,
    };
    let line = record_line(&row);
    let text = String::from_utf8(line.clone()).unwrap();
    assert!(text.starts_with("{\"ts\":null,"));
    assert!(text.contains("a\\\"b\\\\c"));
    assert!(text.contains("\\n"));
    assert!(text.contains("\\u0001"));
    let back = parse_record_line(&line).unwrap();
    assert_eq!(back.timestamp, None);
    assert_eq!(back.source, row.source);
    assert_eq!(back.path, row.path);
    assert_eq!(back.exif, row.exif);
}

#[test]
fn record_round_trip_exif_padding_cases() {
    for exif in [vec![], vec![1], vec![1, 2], vec![1, 2, 3], vec![1, 2, 3, 4], vec![255, 0, 127]]
    {
        let mut row = sample_json_row();
        row.exif = exif.clone();
        let back = parse_record_line(&record_line(&row)).unwrap();
        assert_eq!(back.exif, exif);
    }
}

#[test]
fn rejects_malformed_record_lines() {
    assert!(parse_record_line(b"").is_none());
    assert!(parse_record_line(b"{}").is_none());
    assert!(parse_record_line(b"not json").is_none());
    assert!(parse_record_line(b"{\"ts\":null}").is_none());
    // Trailing garbage after the closing brace.
    let mut line = record_line(&sample_json_row());
    line.push(b' ');
    assert!(parse_record_line(&line).is_none());
    // A field value out of range.
    let text = "{\"ts\":null,\"fts\":0,\"src\":\"s\",\"pth\":\"p/q.jpg\",\"exf\":\"\",\
                \"siz\":0,\"hgh\":4294967296,\"wdt\":1,\"crc\":1}";
    assert!(parse_record_line(text.as_bytes()).is_none());
}

#[test]
fn negative_timestamp_round_trip() {
    let mut row = sample_json_row();
    row.timestamp = Some(-1);
    let line = record_line(&row);
    let text = String::from_utf8(line.clone()).unwrap();
    assert!(text.starts_with("{\"ts\":-1,"));
    assert_eq!(parse_record_line(&line).unwrap().timestamp, Some(-1));
}

#[test]
fn record_round_trip_varied_rows() {
    // A spread of timestamps, blob lengths and string contents, all
    // surviving the write-then-read cycle byte for byte.
    for k in 0..50u32 {
        let exif: Vec<u8> = (0..k as u8).map(|b| b.wrapping_mul(37).wrapping_add(k as u8)).collect();
        let row = PhotoArchiveJsonRow {
            timestamp: if k % 3 == 0 { None } else { Some(k as i64 * 7919 - 100000) },
            file_ts: k as u64 * 104729,
            source: format!("src-{k}-\"q\""),
            path: format!("dir {k}/su\\b/IMG_{k:04}.jpg"),
            exif,
            size: u64::MAX - k as u64,
            height: 300 + k,
            width: u32::MAX - k,
            crc: k.wrapping_mul(2654435761),
        };
        let line = record_line(&row);
        let back = parse_record_line(&line).unwrap();
        assert_eq!(back.timestamp, row.timestamp);
        assert_eq!(back.file_ts, row.file_ts);
        assert_eq!(back.source, row.source);
        assert_eq!(back.path, row.path);
        assert_eq!(back.exif, row.exif);
        assert_eq!(back.size, row.size);
        assert_eq!(back.height, row.height);
        assert_eq!(back.width, row.width);
        assert_eq!(back.crc, row.crc);
    }
}

#[test]
fn write_frame_targets_year_bucket() {
    let store = PhotoArchiveRecordsStore::new("/archive");
    let row = PhotoArchiveRow {
        photo_ts: Some(PhotoDateTime { year: 2021, month: 6, day: 7, hour: 14, minute: 23, second: 5 }),
        file_ts: 1623075785,
        source_id: String::from("ABCD-1234"),
        source_path: String::from("DCIM/100/IMG_0001.jpg"),
        exif: None,
        size: 10,
        height: 3000,
        width: 4000,
        digest: 1,
    };
    let (path, line) = store.write_frame(row);
    assert_eq!(path, "/archive/2021/index.json");
    let text = String::from_utf8(line).unwrap();
    assert!(text.starts_with("{\"ts\":1623075785,"));
    assert!(text.ends_with("}\n"));
}

#[test]
fn write_frame_no_date_bucket() {
    let store = PhotoArchiveRecordsStore::new("/archive");
    let row = PhotoArchiveRow {
        photo_ts: None,
        file_ts: 5,
        source_id: String::from("S"),
        source_path: String::from("a/b.jpg"),
        exif: Some(vec![9, 9]),
        size: 10,
        height: 301,
        width: 302,
        digest: 1,
    };
    let (path, line) = store.write_frame(row);
    assert_eq!(path, "/archive/no-date/index.json");
    assert!(String::from_utf8(line).unwrap().starts_with("{\"ts\":null,"));
}

fn sample_source_row() -> SourceJsonRow {
    SourceJsonRow {
        id: String::from("ABCD-1234"),
        name: String::from("camera card"),
        group: String::from("ROOT"),
        tags: vec![String::from("travel"), String::from("2021")],
    }
}

#[test]
fn renders_source_schema() {
    let line = source_line(&sample_source_row());
    let text = String::from_utf8(line).unwrap();
    assert_eq!(
        text,
        "{\"id\":\"ABCD-1234\",\"name\":\"camera card\",\"group\":\"ROOT\",\
         \"tags\":[\"travel\",\"2021\"]}"
    );
}

#[test]
fn source_round_trip() {
    for tags in [vec![], vec![String::from("one")], vec![String::from("a"), String::from("b")]] {
        let mut row = sample_source_row();
        row.tags = tags.clone();
        let back = parse_source_line(&source_line(&row)).unwrap();
        assert_eq!(back.id, row.id);
        assert_eq!(back.name, row.name);
        assert_eq!(back.group, row.group);
        assert_eq!(back.tags, tags);
    }
}

#[test]
fn source_lines_skip_unparseable() {
    let good = source_line(&sample_source_row());
    let lines = vec![b"garbage".to_vec(), good.clone(), b"{\"id\":1}".to_vec()];
    let rows = parse_source_lines(&lines);
    assert_eq!(rows.len(), 1);
    assert_eq!(rows[0].id, "ABCD-1234");
}

#[test]
fn write_entry_refuses_duplicate_id() {
    let existing = vec![sample_source_row()];
    let mut row = sample_source_row();
    row.name = String::from("other name");
    match write_entry_line(&existing, &row) {
        Err(SyncSetupError::AlreadyRegistered { id, name }) => {
            assert_eq!(id, "ABCD-1234");
            assert_eq!(name, "camera card");
        },
        _ => panic!("expected a duplicate-id refusal"),
    }
    let fresh = SourceJsonRow {
        id: String::from("EFGH-5678"),
        name: String::from("n"),
        group: String::from("g"),
        tags: vec![],
    };
    let line = write_entry_line(&existing, &fresh).unwrap();
    assert!(String::from_utf8(line).unwrap().ends_with("\n"));
}
