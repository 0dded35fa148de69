use photo_archive::datetime::PhotoDateTime;
use photo_archive::mounts::MountedPartitionInfo;
use photo_archive::mounts::PartitionInfo;
use photo_archive::sources::SourceJsonRow;
use photo_archive::sync::check_image_size;
use photo_archive::sync::extract_timestamp;
use photo_archive::sync::image_outcome;
use photo_archive::sync::is_supported_image_path;
use photo_archive::sync::resolve_sync_source;
use photo_archive::sync::strip_source_prefix;
use photo_archive::sync::thumb_dimensions;
use photo_archive::sync::DecodeOutcome;
use photo_archive::sync::ImagePlan;
use photo_archive::sync::MetaOutcome;
use photo_archive::sync::SourceCoordinates;
use photo_archive::sync::SynchronizationEvent;
use photo_archive::sync::SyncSource;
use photo_archive::text::hex8_string;

fn crc_of(bytes: &[u8]) -> u32 {
    crc::Crc::<u32>::new(&crc::CRC_32_ISCSI).checksum(bytes)
}

fn ts_2021() -> PhotoDateTime {
    PhotoDateTime { year: 2021, month: 6, day: 7, hour: 14, minute: 23, second: 5 }
}

#[test]
fn thumbnail_dimensions_preserve_aspect() {
    // Landscape 4000x3000 shrinks to 300x225.
    assert_eq!(thumb_dimensions(4000, 3000), (300, 225));
    // Portrait mirrors it.
    assert_eq!(thumb_dimensions(3000, 4000), (225, 300));
    // Square images get both edges at the thumbnail edge.
    assert_eq!(thumb_dimensions(512, 512), (300, 300));
    // The longer edge is always exactly 300.
    for (w, h) in [(301u32, 5000u32), (5000, 301), (300, 300), (1999, 333)] {
        let (nw, nh) = thumb_dimensions(w, h);
        assert_eq!(nw.max(nh), 300, "{w}x{h}");
        // Aspect ratio within one pixel of rounding.
        if h > w {
            assert_eq!(nw, w * 300 / h);
        } else {
            assert_eq!(nh, h * 300 / w);
        }
    }
}

#[test]
fn size_gate_cause_text() {
    assert_eq!(check_image_size(200, 150).unwrap(), "Image is too small 200x150");
    assert_eq!(check_image_size(299, 4000).unwrap(), "Image is too small 299x4000");
    assert_eq!(check_image_size(4000, 299).unwrap(), "Image is too small 4000x299");
    assert!(check_image_size(300, 300).is_none());
}

#[test]
fn timestamp_tag_preference_order() {
    let ok = "2021-06-07 14:23:05";
    let other = "1999-01-01 00:00:00";
    assert_eq!(extract_timestamp(Some(ok), Some(other), Some(other)), Some(ts_2021()));
    assert_eq!(
        extract_timestamp(None, Some(ok), Some(other)),
        Some(ts_2021())
    );
    assert_eq!(extract_timestamp(None, None, Some(ok)), Some(ts_2021()));
    assert_eq!(extract_timestamp(None, None, None), None);
    // A present but unparseable first tag wins and yields nothing.
    assert_eq!(extract_timestamp(Some("broken"), Some(ok), None), None);
}

#[test]
fn supported_extensions() {
    assert!(is_supported_image_path("/mnt/card/DCIM/100/IMG_0001.jpg"));
    assert!(is_supported_image_path("/mnt/card/DCIM/100/IMG_0001.JPG"));
    assert!(is_supported_image_path("a/b.jpeg"));
    assert!(is_supported_image_path("a/b.JpEg"));
    assert!(!is_supported_image_path("a/b.png"));
    assert!(!is_supported_image_path("a/b.jpg.bak"));
    assert!(!is_supported_image_path("a/jpg"));
    assert!(!is_supported_image_path("a/.jpg"));
    assert!(!is_supported_image_path("movie.mp4"));
}

#[test]
fn strips_source_prefix() {
    assert_eq!(
        strip_source_prefix("/mnt/card/DCIM/100/IMG.jpg", "/mnt/card"),
        Some(String::from("DCIM/100/IMG.jpg"))
    );
    assert_eq!(strip_source_prefix("/mnt/card", "/mnt/card"), Some(String::new()));
    assert_eq!(strip_source_prefix("/other/x.jpg", "/mnt/card"), None);
}

struct Scene {
    link_exists: bool,
    thumb_exists: bool,
    decode: DecodeOutcome,
    meta: MetaOutcome,
    photo_ts: Option<PhotoDateTime>,
}

fn run(scene: Scene) -> Result<ImagePlan, photo_archive::ArchiveError> {
    image_outcome(
        "ABCD-1234",
        "/archive",
        "/mnt/card/DCIM/100/IMG_0001.jpg",
        "DCIM/100/IMG_0001.jpg",
        scene.photo_ts.as_ref(),
        None,
        scene.link_exists,
        scene.decode,
        scene.meta,
        0x0AB54321,
        scene.thumb_exists,
    )
}

#[test]
fn timestamped_image_is_stored() {
    // A 4000x3000 image with a photo timestamp lands under its date.
    let plan = run(Scene {
        link_exists: false,
        thumb_exists: false,
        decode: DecodeOutcome::Decoded { width: 4000, height: 3000 },
        meta: MetaOutcome::Meta { modified: 1623075785, size: 123456 },
        photo_ts: Some(ts_2021()),
    })
    .unwrap();
    match plan {
        ImagePlan::Store { generate, thumb_file, link_target, record, event } => {
            assert!(generate);
            assert_eq!(thumb_file, "/archive/2021/06.07/img/142305_0AB54321.jpg");
            assert_eq!(link_target, "../img/142305_0AB54321.jpg");
            assert_eq!(record.source_id, "ABCD-1234");
            assert_eq!(record.source_path, "DCIM/100/IMG_0001.jpg");
            assert_eq!(record.photo_ts, Some(ts_2021()));
            assert_eq!(record.file_ts, 1623075785);
            assert_eq!(record.size, 123456);
            assert_eq!(record.width, 4000);
            assert_eq!(record.height, 3000);
            assert_eq!(record.digest, 0x0AB54321);
            match event {
                SynchronizationEvent::Stored { src, dst, generated, partial } => {
                    assert_eq!(src, "/mnt/card/DCIM/100/IMG_0001.jpg");
                    assert_eq!(dst, "/archive/2021/06.07/img/142305_0AB54321.jpg");
                    assert!(generated);
                    assert!(!partial);
                },
                _ => panic!("expected a stored event"),
            }
        },
        _ => panic!("expected a store plan"),
    }
}

#[test]
fn image_without_exif_is_partial_under_no_date() {
    let plan = run(Scene {
        link_exists: false,
        thumb_exists: false,
        decode: DecodeOutcome::Decoded { width: 4000, height: 3000 },
        meta: MetaOutcome::Meta { modified: 1577934245, size: 10 },
        photo_ts: None,
    })
    .unwrap();
    match plan {
        ImagePlan::Store { thumb_file, record, event, .. } => {
            assert_eq!(thumb_file, "/archive/no-date/img/20200102-030405_0AB54321.jpg");
            assert_eq!(record.photo_ts, None);
            match event {
                SynchronizationEvent::Stored { partial, .. } => assert!(partial),
                _ => panic!("expected a stored event"),
            }
        },
        _ => panic!("expected a store plan"),
    }
}

#[test]
fn too_small_image_is_ignored() {
    let plan = run(Scene {
        link_exists: false,
        thumb_exists: false,
        decode: DecodeOutcome::Decoded { width: 200, height: 150 },
        meta: MetaOutcome::Meta { modified: 0, size: 1 },
        photo_ts: None,
    })
    .unwrap();
    match plan {
        ImagePlan::Ignore { event: SynchronizationEvent::Ignored { cause, .. } } => {
            assert_eq!(cause, "Image is too small 200x150");
        },
        _ => panic!("expected an ignore plan"),
    }
}

#[test]
fn existing_link_is_skipped() {
    // The idempotency gate: a second run over the same image does nothing.
    let plan = run(Scene {
        link_exists: true,
        thumb_exists: true,
        decode: DecodeOutcome::Decoded { width: 4000, height: 3000 },
        meta: MetaOutcome::Meta { modified: 1623075785, size: 123456 },
        photo_ts: Some(ts_2021()),
    })
    .unwrap();
    match plan {
        ImagePlan::Skip { event: SynchronizationEvent::Skipped { existing, .. } } => {
            let part = hex8_string(crc_of(b"ABCD-1234"));
            let dir = hex8_string(crc_of(b"DCIM/100"));
            assert_eq!(
                existing,
                format!("/archive/2021/06.07/{part}.{dir}.100/IMG_0001.jpg")
            );
        },
        _ => panic!("expected a skip plan"),
    }
}

#[test]
fn existing_thumb_is_reused() {
    let plan = run(Scene {
        link_exists: false,
        thumb_exists: true,
        decode: DecodeOutcome::Decoded { width: 4000, height: 3000 },
        meta: MetaOutcome::Meta { modified: 1623075785, size: 123456 },
        photo_ts: Some(ts_2021()),
    })
    .unwrap();
    match plan {
        ImagePlan::Store { generate, event, .. } => {
            assert!(!generate);
            match event {
                SynchronizationEvent::Stored { generated, .. } => assert!(!generated),
                _ => panic!("expected a stored event"),
            }
        },
        _ => panic!("expected a store plan"),
    }
}

#[test]
fn decode_failure_is_errored() {
    let plan = run(Scene {
        link_exists: false,
        thumb_exists: false,
        decode: DecodeOutcome::DecodeFailed { cause: String::from("bad magic") },
        meta: MetaOutcome::Meta { modified: 0, size: 1 },
        photo_ts: None,
    })
    .unwrap();
    match plan {
        ImagePlan::Fail { event: SynchronizationEvent::Errored { cause, .. } } => {
            assert_eq!(cause, "Error processing image - bad magic");
        },
        _ => panic!("expected a fail plan"),
    }
}

#[test]
fn metadata_failure_is_errored() {
    let plan = run(Scene {
        link_exists: false,
        thumb_exists: false,
        decode: DecodeOutcome::Decoded { width: 500, height: 500 },
        meta: MetaOutcome::MetaFailed { cause: String::from("stat failed") },
        photo_ts: None,
    })
    .unwrap();
    match plan {
        ImagePlan::Fail { event: SynchronizationEvent::Errored { cause, .. } } => {
            assert_eq!(cause, "Error processing image - stat failed");
        },
        _ => panic!("expected a fail plan"),
    }
}

#[test]
fn every_image_yields_exactly_one_terminal_event() {
    // A thousand synthetic images, one call each: every call yields exactly
    // one terminal outcome, and a record exactly when it is stored.
    let mut stored = 0u32;
    let mut ignored = 0u32;
    let mut skipped = 0u32;
    let mut errored = 0u32;
    let mut records = 0u32;
    for k in 0..1000u32 {
        let plan = run(Scene {
            link_exists: k % 7 == 0,
            thumb_exists: k % 3 == 0,
            decode: if k % 5 == 0 {
                DecodeOutcome::DecodeFailed { cause: String::from("bad") }
            } else {
                DecodeOutcome::Decoded { width: 200 + k % 400, height: 200 + (k / 2) % 400 }
            },
            meta: MetaOutcome::Meta { modified: k as u64, size: k as u64 },
            photo_ts: if k % 2 == 0 { Some(ts_2021()) } else { None },
        })
        .unwrap();
        match plan {
            ImagePlan::Store { .. } => {
                stored += 1;
                records += 1;
            },
            ImagePlan::Ignore { .. } => ignored += 1,
            ImagePlan::Skip { .. } => skipped += 1,
            ImagePlan::Fail { .. } => errored += 1,
        }
    }
    assert_eq!(stored + ignored + skipped + errored, 1000);
    assert_eq!(records, stored);
}

fn mount() -> MountedPartitionInfo {
    MountedPartitionInfo {
        mount_point: String::from("/mnt/card"),
        fs_type: String::from("vfat"),
        info: PartitionInfo {
            device_path: String::from("/dev/sdb1"),
            partition_id: String::from("ABCD-1234"),
        },
    }
}

fn registered() -> Vec<SourceJsonRow> {
    vec![SourceJsonRow {
        id: String::from("ABCD-1234"),
        name: String::from("card"),
        group: String::from("ROOT"),
        tags: vec![],
    }]
}

#[test]
fn new_source_must_be_unregistered() {
    let source = SyncSource::New {
        coord: SourceCoordinates::Id(String::from("ABCD-1234")),
        name: String::from("card"),
        group: String::from("ROOT"),
        tags: vec![],
    };
    let plan = resolve_sync_source(source, &mount(), &Vec::new()).unwrap();
    assert_eq!(plan.source_dir, "/mnt/card");
    assert_eq!(plan.source_id, "ABCD-1234");
    let entry = plan.new_entry.unwrap();
    assert_eq!(entry.id, "ABCD-1234");
    assert_eq!(entry.name, "card");

    let source = SyncSource::New {
        coord: SourceCoordinates::Id(String::from("ABCD-1234")),
        name: String::from("again"),
        group: String::from("ROOT"),
        tags: vec![],
    };
    match resolve_sync_source(source, &mount(), &registered()) {
        Err(photo_archive::sync::SyncSetupError::AlreadyRegistered { id, name }) => {
            assert_eq!(id, "ABCD-1234");
            assert_eq!(name, "card");
        },
        _ => panic!("expected a duplicate refusal"),
    }
}

#[test]
fn existing_source_must_be_registered() {
    let source = SyncSource::Existing {
        coord: SourceCoordinates::Path(String::from("/mnt/card")),
    };
    let plan = resolve_sync_source(source, &mount(), &registered()).unwrap();
    assert!(plan.new_entry.is_none());

    let source = SyncSource::Existing {
        coord: SourceCoordinates::Id(String::from("ABCD-1234")),
    };
    match resolve_sync_source(source, &mount(), &Vec::new()) {
        Err(photo_archive::sync::SyncSetupError::NotRegistered { id }) => {
            assert_eq!(id, "ABCD-1234");
        },
        _ => panic!("expected a not-registered refusal"),
    }
}
