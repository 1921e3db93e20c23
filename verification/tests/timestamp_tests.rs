use chrono::{Datelike, NaiveDate, Timelike};
use litepad::timestamp::{backup_filename, is_backup_filename, Timestamp};

fn stamp(year: i32, month: u32, day: u32, hour: u32, minute: u32, second: u32) -> Timestamp {
    Timestamp::new(year, month, day, hour, minute, second).unwrap()
}

fn formatted_by_chrono(t: &Timestamp) -> String {
    let date = NaiveDate::from_ymd_opt(t.year, t.month, t.day).unwrap();
    let time = date.and_hms_opt(t.hour, t.minute, t.second).unwrap();
    format!("litepad_backup_{}.zip", time.format("%Y%m%d_%H%M%S"))
}

#[test]
fn filename_is_zero_padded_and_fixed_width() {
    assert_eq!(backup_filename(&stamp(2024, 3, 7, 9, 5, 1)), "litepad_backup_20240307_090501.zip");
    assert_eq!(
        backup_filename(&stamp(1999, 12, 31, 23, 59, 59)),
        "litepad_backup_19991231_235959.zip"
    );
    assert_eq!(backup_filename(&stamp(7, 1, 1, 0, 0, 0)), "litepad_backup_00070101_000000.zip");
    assert_eq!(backup_filename(&stamp(0, 1, 1, 0, 0, 0)), "litepad_backup_00000101_000000.zip");
}

#[test]
fn years_outside_four_digits_carry_a_sign() {
    assert_eq!(backup_filename(&stamp(10000, 1, 1, 0, 0, 0)), "litepad_backup_+100000101_000000.zip");
    assert_eq!(backup_filename(&stamp(-5, 1, 1, 0, 0, 0)), "litepad_backup_-00050101_000000.zip");
    assert_eq!(
        backup_filename(&stamp(-12345, 6, 7, 8, 9, 10)),
        "litepad_backup_-123450607_080910.zip"
    );
}

#[test]
fn filename_agrees_with_chrono_formatting() {
    let years = [-262143, -10000, -9999, -1000, -999, -1, 0, 1, 9, 10, 99, 100, 999, 1000, 1970,
        2024, 9999, 10000, 99999, 262142];
    let days = [(1, 1), (2, 28), (6, 15), (10, 9), (12, 31)];
    let times = [(0, 0, 0), (9, 5, 1), (12, 30, 45), (23, 59, 59)];
    for year in years.iter() {
        for (month, day) in days.iter() {
            for (hour, minute, second) in times.iter() {
                let t = stamp(*year, *month, *day, *hour, *minute, *second);
                assert_eq!(backup_filename(&t), formatted_by_chrono(&t));
            }
        }
    }
}

#[test]
fn fields_out_of_range_make_no_timestamp() {
    assert!(Timestamp::new(2024, 0, 1, 0, 0, 0).is_none());
    assert!(Timestamp::new(2024, 13, 1, 0, 0, 0).is_none());
    assert!(Timestamp::new(2024, 1, 0, 0, 0, 0).is_none());
    assert!(Timestamp::new(2024, 1, 32, 0, 0, 0).is_none());
    assert!(Timestamp::new(2024, 1, 1, 24, 0, 0).is_none());
    assert!(Timestamp::new(2024, 1, 1, 0, 60, 0).is_none());
    assert!(Timestamp::new(2024, 1, 1, 0, 0, 60).is_none());
    let t = Timestamp::new(2024, 12, 31, 23, 59, 59).unwrap();
    assert_eq!((t.year, t.month, t.day, t.hour, t.minute, t.second), (2024, 12, 31, 23, 59, 59));
}

#[test]
fn naming_convention_is_prefix_and_suffix() {
    assert!(is_backup_filename("litepad_backup_20240307_090501.zip"));
    assert!(is_backup_filename("litepad_backup_.zip"));
    assert!(is_backup_filename("litepad_backup_anything.zip"));
    assert!(!is_backup_filename("litepad_backup_20240307_090501.zip.tmp"));
    assert!(!is_backup_filename("Litepad_backup_20240307_090501.zip"));
    assert!(!is_backup_filename("xlitepad_backup_20240307_090501.zip"));
    assert!(!is_backup_filename("litepad_backup.zip"));
    assert!(!is_backup_filename(".zip"));
    assert!(!is_backup_filename(""));
    assert!(is_backup_filename(&backup_filename(&stamp(2024, 3, 7, 9, 5, 1))));
}

#[test]
fn later_archives_have_later_names() {
    let moments = [
        stamp(0, 1, 1, 0, 0, 0),
        stamp(999, 12, 31, 23, 59, 59),
        stamp(1000, 1, 1, 0, 0, 0),
        stamp(2023, 12, 31, 23, 59, 59),
        stamp(2024, 1, 1, 0, 0, 0),
        stamp(2024, 1, 1, 0, 0, 1),
        stamp(2024, 1, 1, 0, 1, 0),
        stamp(2024, 1, 1, 1, 0, 0),
        stamp(2024, 1, 2, 0, 0, 0),
        stamp(2024, 2, 1, 0, 0, 0),
        stamp(2024, 10, 9, 8, 7, 6),
        stamp(9999, 12, 31, 23, 59, 59),
    ];
    for i in 0..moments.len() {
        for j in 0..moments.len() {
            let a = backup_filename(&moments[i]);
            let b = backup_filename(&moments[j]);
            assert_eq!(a <= b, i <= j);
        }
    }
}

#[test]
fn the_time_of_the_clock_makes_a_name() {
    let now = chrono::Local::now();
    let made =
        Timestamp::new(now.year(), now.month(), now.day(), now.hour(), now.minute(), now.second())
            .unwrap();
    let name = backup_filename(&made);
    assert!(is_backup_filename(&name));
    assert_eq!(name, format!("litepad_backup_{}.zip", now.format("%Y%m%d_%H%M%S")));
    assert_eq!(name.len(), 34);
}
