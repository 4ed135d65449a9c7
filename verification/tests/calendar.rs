use yada::calendar::{is_date_like, timestamp_to_date_fixed};

#[test]
fn epoch_is_the_first_of_january_1970() {
    assert_eq!(timestamp_to_date_fixed(0), (1970, 1, 1));
    assert_eq!(timestamp_to_date_fixed(86_399), (1970, 1, 1));
    assert_eq!(timestamp_to_date_fixed(86_400), (1970, 1, 2));
}

#[test]
fn year_and_day_are_those_of_the_date() {
    // 2024-01-01, 2100-01-01, 1971-01-01
    assert_eq!(timestamp_to_date_fixed(1_704_067_200), (2024, 1, 1));
    assert_eq!(timestamp_to_date_fixed(4_102_444_800), (2100, 1, 1));
    assert_eq!(timestamp_to_date_fixed(31_536_000), (1971, 1, 1));
    // 1970-01-31
    assert_eq!(timestamp_to_date_fixed(2_592_000), (1970, 1, 31));
}

#[test]
fn month_is_one_behind_from_february_on() {
    // 1970-02-01, 1970-02-15, 1970-02-28, 1970-03-01
    assert_eq!(timestamp_to_date_fixed(2_678_400), (1970, 1, 1));
    assert_eq!(timestamp_to_date_fixed(3_888_000), (1970, 1, 15));
    assert_eq!(timestamp_to_date_fixed(5_011_200), (1970, 1, 28));
    assert_eq!(timestamp_to_date_fixed(5_097_600), (1970, 2, 1));
    // 2023-11-14, 2023-12-31, 1970-12-31
    assert_eq!(timestamp_to_date_fixed(1_700_000_000), (2023, 10, 14));
    assert_eq!(timestamp_to_date_fixed(1_703_980_800), (2023, 11, 31));
    assert_eq!(timestamp_to_date_fixed(31_535_999), (1970, 11, 31));
}

#[test]
fn leap_day_of_2000() {
    // 2000-02-29, 2000-03-01
    assert_eq!(timestamp_to_date_fixed(951_782_400), (2000, 1, 29));
    assert_eq!(timestamp_to_date_fixed(951_868_800), (2000, 2, 1));
}

#[test]
fn day_count_is_kept_in_32_bits_signed() {
    let day = 86_400u64;
    assert_eq!(timestamp_to_date_fixed(day * 2_147_483_647), (5_881_580, 6, 11));
    assert_eq!(timestamp_to_date_fixed(day * 2_147_483_648), (1970, 1, 1));
    assert_eq!(timestamp_to_date_fixed(day * 4_294_967_296), (1970, 1, 1));
    assert_eq!(timestamp_to_date_fixed(day * (4_294_967_296 + 45)), (1970, 1, 15));
    assert_eq!(timestamp_to_date_fixed(u64::MAX), (3_172_604, 5, 2));
}

#[test]
fn date_shape_is_ten_bytes_with_two_hyphens() {
    assert!(is_date_like("2024-03-01"));
    assert!(is_date_like("0000-00-00"));
    assert!(is_date_like("abcd-ef-gh"));
    assert!(is_date_like("----------"));
    assert!(!is_date_like(""));
    assert!(!is_date_like("2024-03-1"));
    assert!(!is_date_like("2024-03-011"));
    assert!(!is_date_like("2024/03/01"));
    assert!(!is_date_like("2024-03_01"));
    assert!(!is_date_like("20240-3-01"));
    // ten bytes, but fewer characters
    assert!(!is_date_like("\u{e9}\u{e9}\u{e9}\u{e9}-\u{e9}"));
    // ten characters, but more bytes
    assert!(!is_date_like("202\u{e9}-03-01"));
    // ten bytes and nine characters, hyphens in place
    assert!(is_date_like("2024-03-\u{e9}"));
}
