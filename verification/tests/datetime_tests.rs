use chrono::Datelike;
use chrono::Timelike;
use photo_archive::datetime::dt_from_epoch_opt;
use photo_archive::datetime::dt_from_unix_secs;
use photo_archive::datetime::epoch_secs_exec;
use photo_archive::datetime::parse_exif_datetime;
use photo_archive::datetime::PhotoDateTime;

fn dt(year: u16, month: u8, day: u8, hour: u8, minute: u8, second: u8) -> PhotoDateTime {
    PhotoDateTime { year, month, day, hour, minute, second }
}

#[test]
fn epoch_secs_of_known_instant() {
    assert_eq!(epoch_secs_exec(&dt(2021, 6, 7, 14, 23, 5)), 1623075785);
    assert_eq!(epoch_secs_exec(&dt(2020, 1, 2, 3, 4, 5)), 1577934245);
    assert_eq!(epoch_secs_exec(&dt(1970, 1, 1, 0, 0, 0)), 0);
    assert_eq!(epoch_secs_exec(&dt(1969, 12, 31, 23, 59, 59)), -1);
}

#[test]
fn unix_split_of_known_instant() {
    assert_eq!(dt_from_unix_secs(1623075785), dt(2021, 6, 7, 14, 23, 5));
    assert_eq!(dt_from_unix_secs(1577934245), dt(2020, 1, 2, 3, 4, 5));
    assert_eq!(dt_from_unix_secs(0), dt(1970, 1, 1, 0, 0, 0));
    // Leap day of a leap year.
    assert_eq!(dt_from_unix_secs(951827696), dt(2000, 2, 29, 12, 34, 56));
}

#[test]
fn epoch_round_trip() {
    for ts in [0i64, 1, 86399, 86400, 951827696, 1623075785, 4102444800, -1, -86400, -62167219200]
    {
        let d = dt_from_epoch_opt(ts).unwrap();
        assert_eq!(epoch_secs_exec(&d), ts);
    }
}

#[test]
fn epoch_out_of_range() {
    assert!(dt_from_epoch_opt(253402300800).is_none());
    assert!(dt_from_epoch_opt(-62167219201).is_none());
    assert!(dt_from_epoch_opt(253402300799).is_some());
    assert!(dt_from_epoch_opt(-62167219200).is_some());
}

#[test]
fn agrees_with_chrono() {
    for ts in [0i64, 1234567890, 1623075785, 1577934245, 2147483647, 951827696] {
        let ours = dt_from_epoch_opt(ts).unwrap();
        let theirs = chrono::DateTime::from_timestamp(ts, 0).unwrap().naive_utc();
        assert_eq!(ours.year as i32, theirs.year());
        assert_eq!(ours.month as u32, theirs.month());
        assert_eq!(ours.day as u32, theirs.day());
        assert_eq!(ours.hour as u32, theirs.hour());
        assert_eq!(ours.minute as u32, theirs.minute());
        assert_eq!(ours.second as u32, theirs.second());
        assert_eq!(epoch_secs_exec(&ours), theirs.and_utc().timestamp());
    }
}

#[test]
fn parses_exif_datetime() {
    assert_eq!(parse_exif_datetime("2021-06-07 14:23:05"), Some(dt(2021, 6, 7, 14, 23, 5)));
    assert_eq!(parse_exif_datetime("2000-02-29 00:00:00"), Some(dt(2000, 2, 29, 0, 0, 0)));
    assert_eq!(parse_exif_datetime("0001-01-01 00:00:00"), Some(dt(1, 1, 1, 0, 0, 0)));
}

#[test]
fn rejects_bad_exif_datetime() {
    // Wrong shape.
    assert_eq!(parse_exif_datetime("2021-06-07T14:23:05"), None);
    assert_eq!(parse_exif_datetime("2021-06-07 14:23"), None);
    assert_eq!(parse_exif_datetime(""), None);
    assert_eq!(parse_exif_datetime("yyyy-mm-dd hh:mm:ss"), None);
    // Not a real instant.
    assert_eq!(parse_exif_datetime("2021-02-29 00:00:00"), None);
    assert_eq!(parse_exif_datetime("1900-02-29 00:00:00"), None);
    assert_eq!(parse_exif_datetime("2021-13-01 00:00:00"), None);
    assert_eq!(parse_exif_datetime("2021-00-01 00:00:00"), None);
    assert_eq!(parse_exif_datetime("2021-06-00 00:00:00"), None);
    assert_eq!(parse_exif_datetime("2021-06-07 24:00:00"), None);
    assert_eq!(parse_exif_datetime("2021-06-07 00:60:00"), None);
    assert_eq!(parse_exif_datetime("2021-06-07 00:00:60"), None);
}
