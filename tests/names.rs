use fhcleanup::name::{extract, MarkedName};
use fhcleanup::stamp::Timestamp;

fn marked(name: &str) -> MarkedName {
    match extract(name) {
        Ok(Some(m)) => m,
        Ok(None) => panic!("no marker found in {}", name),
        Err(e) => panic!("invalid date {}", e.date),
    }
}

#[test]
fn plain_name_has_no_marker() {
    assert!(matches!(extract("report.txt"), Ok(None)));
    assert!(matches!(extract(""), Ok(None)));
}

#[test]
fn canonical_name_is_left_alone() {
    let m = marked("report (2023_01_01 10_00_00 UTC).txt");
    assert_eq!(m.canonical_name, "report.txt");
    assert!(matches!(extract(&m.canonical_name), Ok(None)));
}

#[test]
fn simple_marker_is_read() {
    let m = marked("report (2023_01_02 10_20_30 UTC).txt");
    assert_eq!(m.canonical_name, "report.txt");
    assert_eq!(
        m.timestamp,
        Timestamp { year: 2023, month: 1, day: 2, hour: 10, minute: 20, second: 30 }
    );
}

#[test]
fn stacked_markers_take_last_date() {
    let m = marked("a (2020_05_06 07_08_09 UTC).b (2021_11_12 13_14_15 UTC).txt");
    assert_eq!(m.canonical_name, "ab.txt");
    assert_eq!(
        m.timestamp,
        Timestamp { year: 2021, month: 11, day: 12, hour: 13, minute: 14, second: 15 }
    );
}

#[test]
fn fragments_are_trimmed_of_unicode_space() {
    let m = marked("\u{a0}notes\t (2023_01_01 10_00_00 UTC).md");
    assert_eq!(m.canonical_name, "notes.md");
}

#[test]
fn extension_after_last_marker_is_kept_whole() {
    let m = marked("archive (2023_01_01 10_00_00 UTC).tar.gz");
    assert_eq!(m.canonical_name, "archive.tar.gz");
    let m = marked("x (2023_01_01 10_00_00 UTC).");
    assert_eq!(m.canonical_name, "x.");
}

#[test]
fn marker_needs_trailing_dot_and_digits() {
    assert!(matches!(extract("r (2023_01_01 10_00_00 UTC)txt"), Ok(None)));
    assert!(matches!(extract("r (2023_01_0a 10_00_00 UTC).txt"), Ok(None)));
    assert!(matches!(extract("r (2023-01-01 10_00_00 UTC).txt"), Ok(None)));
}

#[test]
fn invalid_month_is_an_error() {
    match extract("r (2023_13_01 10_00_00 UTC).txt") {
        Err(e) => assert_eq!(e.date, "2023_13_01 10_00_00"),
        _ => panic!("expected an invalid date"),
    }
}

#[test]
fn leap_day_follows_the_calendar() {
    assert!(extract("r (2023_02_29 10_00_00 UTC).txt").is_err());
    assert!(matches!(extract("r (2024_02_29 10_00_00 UTC).txt"), Ok(Some(_))));
    assert!(matches!(extract("r (2000_02_29 10_00_00 UTC).txt"), Ok(Some(_))));
    assert!(extract("r (1900_02_29 10_00_00 UTC).txt").is_err());
}

#[test]
fn time_of_day_bounds() {
    assert!(matches!(extract("r (2023_06_30 23_59_60 UTC).txt"), Ok(Some(_))));
    assert!(extract("r (2023_06_30 24_00_00 UTC).txt").is_err());
    assert!(extract("r (2023_06_30 10_60_00 UTC).txt").is_err());
    assert!(extract("r (2023_06_30 10_00_61 UTC).txt").is_err());
    assert!(extract("r (2023_04_31 10_00_00 UTC).txt").is_err());
}

#[test]
fn timestamp_key_orders_chronologically() {
    let a = Timestamp { year: 2023, month: 1, day: 1, hour: 10, minute: 0, second: 0 };
    let b = Timestamp { year: 2023, month: 1, day: 2, hour: 10, minute: 0, second: 0 };
    assert_eq!(a.key(), 20230101100000);
    assert!(a.key() < b.key());
}

#[test]
fn canonical_name_may_form_a_new_marker() {
    let name = "(2023_01_01 10_00_00 UTC(2023_01_01 10_00_00 UTC).)(2023_01_01 10_00_00 UTC).txt";
    let m = marked(name);
    assert_eq!(m.canonical_name, "(2023_01_01 10_00_00 UTC).txt");
    let again = marked(&m.canonical_name);
    assert_eq!(again.canonical_name, ".txt");
}

#[test]
fn ideographic_and_line_separators_are_trimmed() {
    let m = marked("\u{3000}memo\u{2028}\u{85} (2023_01_01 10_00_00 UTC).txt");
    assert_eq!(m.canonical_name, "memo.txt");
    let m = marked("x\u{200b} (2023_01_01 10_00_00 UTC).txt");
    assert_eq!(m.canonical_name, "x\u{200b}.txt");
}
