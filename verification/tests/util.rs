use shaken::util::{
    commas_i64, commas_u64, format_time_map, get_timestamp, join_with, to_millis,
    CommaSeparated, Timestamp,
};

#[test]
fn thousands_separators() {
    assert_eq!(0u64.comma_separate(), "0");
    assert_eq!(999u64.comma_separate(), "999");
    assert_eq!(1000u64.comma_separate(), "1,000");
    assert_eq!(1_234_567usize.comma_separate(), "1,234,567");
    assert_eq!(1_000_001u32.comma_separate(), "1,000,001");
    assert_eq!(u64::MAX.comma_separate(), "18,446,744,073,709,551,615");
    assert_eq!((-5i64).comma_separate(), "-5");
    assert_eq!((-12345i64).comma_separate(), "-12345");
    assert_eq!(12345i32.comma_separate(), "12,345");
    assert_eq!(commas_i64(1_000_000), "1,000,000");
    // without the separators the digits are those of the number
    assert_eq!(commas_u64(9_876_543_210).replace(',', ""), "9876543210");
}

#[test]
fn joined_lists() {
    let items = vec!["a".to_string(), "b".to_string(), "c".to_string()];
    assert_eq!(join_with(&items, ", "), "a, b, c");
    assert_eq!(join_with(&items[..1], ", "), "a");
    assert_eq!(join_with(&[], ", "), "");
}

#[test]
fn time_in_prose() {
    assert_eq!(format_time_map(&[("days", 2), ("hours", 0), ("seconds", 1)]), "2 days and 1 second");
    assert_eq!(
        format_time_map(&[("days", 1), ("hours", 2), ("minutes", 3), ("seconds", 4)]),
        "1 day, 2 hours, 3 minutes and 4 seconds"
    );
    assert_eq!(format_time_map(&[("minutes", 5)]), "5 minutes");
    assert_eq!(format_time_map(&[("minutes", 0)]), "");
    assert_eq!(3_661u64.as_readable_time(), "1 hour, 1 minute and 1 second");
    assert_eq!(90_061u64.as_readable_time(), "1 day, 1 hour, 1 minute and 1 second");
}

#[test]
fn clock_faces() {
    assert_eq!(59u64.as_timestamp(), "00:59");
    assert_eq!(3_599u64.as_timestamp(), "59:59");
    assert_eq!(3_661u64.as_timestamp(), "01:01:01");
    assert_eq!(360_000u64.as_timestamp(), "100:00:00");
}

#[test]
fn milliseconds() {
    assert_eq!(to_millis(1, 999_999_999), Some(1_999));
    assert_eq!(to_millis(u64::MAX, 0), None);
    assert!(get_timestamp() > 1_500_000_000_000);
}
