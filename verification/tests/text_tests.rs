use egui_android::text::{char_count, splice_string};
use egui_android::ime_service::MAX_POLL_TIMEOUT_MS;

#[test]
fn char_count_counts_scalar_values() {
    assert_eq!(char_count(""), 0);
    assert_eq!(char_count("abc"), 3);
    assert_eq!(char_count("привет"), 6);
    assert_eq!(char_count("a🎉"), 2);
}

#[test]
fn splice_string_clamps_the_range() {
    assert_eq!(splice_string("hello", 1, 3, "XY"), "hXYlo");
    assert_eq!(splice_string("hello", 5, 5, "!"), "hello!");
    assert_eq!(splice_string("hello", 9, 12, "?"), "hello?");
    assert_eq!(splice_string("hello", 3, 1, "-"), "hel-lo");
    assert_eq!(splice_string("при", 0, 3, "вет"), "вет");
}

#[test]
fn poll_cap_is_a_tenth_of_a_second() {
    assert_eq!(MAX_POLL_TIMEOUT_MS, 100);
}
