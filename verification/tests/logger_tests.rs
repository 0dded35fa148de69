use photo_archive::datetime::PhotoDateTime;
use photo_archive::logger::log_file_name;
use photo_archive::logger::log_line;
use photo_archive::logger::LogStream;
use photo_archive::sync::SynchronizationEvent;

#[test]
fn log_file_names_carry_run_time_and_source() {
    let now = PhotoDateTime { year: 2021, month: 6, day: 7, hour: 14, minute: 23, second: 5 };
    assert_eq!(
        log_file_name(&now, "ABCD-1234", LogStream::Completed),
        "20210607-1423_ABCD-1234_CMP.log"
    );
    assert_eq!(
        log_file_name(&now, "ABCD-1234", LogStream::Ignored),
        "20210607-1423_ABCD-1234_IGN.log"
    );
    assert_eq!(
        log_file_name(&now, "ABCD-1234", LogStream::Errored),
        "20210607-1423_ABCD-1234_ERR.log"
    );
}

#[test]
fn stored_goes_to_completed_log() {
    let evt = SynchronizationEvent::Stored {
        src: String::from("/mnt/a.jpg"),
        dst: String::from("/archive/x.jpg"),
        generated: true,
        partial: false,
    };
    let (stream, line) = log_line(&evt).unwrap();
    assert_eq!(stream, LogStream::Completed);
    assert_eq!(line, "src: \"/mnt/a.jpg\" dst: \"/archive/x.jpg\" gen: true par: false\n");
}

#[test]
fn skipped_and_ignored_share_a_log() {
    let evt = SynchronizationEvent::Skipped {
        src: String::from("/mnt/a.jpg"),
        existing: String::from("/archive/l.jpg"),
    };
    let (stream, line) = log_line(&evt).unwrap();
    assert_eq!(stream, LogStream::Ignored);
    assert_eq!(line, "src: \"/mnt/a.jpg\" cause: file already exists \"/archive/l.jpg\"\n");

    let evt = SynchronizationEvent::Ignored {
        src: String::from("/mnt/a.jpg"),
        cause: String::from("Image is too small 200x150"),
    };
    let (stream, line) = log_line(&evt).unwrap();
    assert_eq!(stream, LogStream::Ignored);
    assert_eq!(line, "src: \"/mnt/a.jpg\" cause: Image is too small 200x150\n");
}

#[test]
fn errored_quotes_its_cause() {
    let evt = SynchronizationEvent::Errored {
        src: String::from("/mnt/a.jpg"),
        cause: String::from("boom"),
    };
    let (stream, line) = log_line(&evt).unwrap();
    assert_eq!(stream, LogStream::Errored);
    assert_eq!(line, "src: \"/mnt/a.jpg\" cause: 'boom'\n");
}

#[test]
fn scan_events_reach_no_log_file() {
    assert!(log_line(&SynchronizationEvent::ScanProgress { count: 5 }).is_none());
    assert!(log_line(&SynchronizationEvent::ScanCompleted { count: 5 }).is_none());
}

#[test]
fn paths_with_quotes_are_escaped() {
    let evt = SynchronizationEvent::Errored {
        src: String::from("/mnt/we\"ird\\name.jpg"),
        cause: String::from("c"),
    };
    let (_, line) = log_line(&evt).unwrap();
    assert_eq!(line, "src: \"/mnt/we\\\"ird\\\\name.jpg\" cause: 'c'\n");
}
