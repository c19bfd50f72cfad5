use sky_monitor::clock::{
    MAX_INSTANT_NANOS, MIN_INSTANT_NANOS, clock_string, hour_label_string, hour_start, hours_covering, rfc3339_string, seconds_between, unix_seconds,
    utc_hour,
};
use sky_monitor::text::{insert_text_sorted, push_decimal, push_fixed, push_int, push_joined, push_two_digits, str_eq, str_lt};

const SEC: i128 = 1_000_000_000;
const HOUR: i128 = 3_600 * SEC;
const DAY_START_NS: i128 = 1_780_876_800 * SEC;

#[test]
fn string_order_matches_std() {
    let words = ["", "a", "ab", "b", "abc", "Z", "é", "track-1", "track-10", "track-2"];
    for a in words {
        for b in words {
            assert_eq!(str_lt(a, b), a < b, "{a:?} < {b:?}");
            assert_eq!(str_eq(a, b), a == b);
        }
    }
}

#[test]
fn decimal_and_fixed_rendering() {
    let mut s = String::new();
    push_decimal(&mut s, 0);
    push_decimal(&mut s, 1_780_876_800);
    assert_eq!(s, "01780876800");
    let mut t = String::new();
    push_int(&mut t, -42);
    t.push(' ');
    push_int(&mut t, i64::MIN);
    assert_eq!(t, "-42 -9223372036854775808");
    let mut f = String::new();
    push_fixed(&mut f, 7, 0);
    f.push(' ');
    push_fixed(&mut f, -3, 2);
    assert_eq!(f, "7 -3.00");
    let mut d = String::new();
    push_two_digits(&mut d, 7);
    push_two_digits(&mut d, 42);
    assert_eq!(d, "0742");
    let mut j = String::from("[");
    push_joined(&mut j, &vec!["a".to_string(), "b".to_string(), "c".to_string()], "; ");
    assert_eq!(j, "[a; b; c");
}

#[test]
fn sorted_insertion_keeps_order() {
    let mut v: Vec<String> = Vec::new();
    for w in ["m", "c", "x", "a", "n"] {
        insert_text_sorted(&mut v, w.to_string());
    }
    assert_eq!(v, vec!["a", "c", "m", "n", "x"]);
}

#[test]
fn clock_helpers() {
    let t = DAY_START_NS + 27 * HOUR + 13 * 60 * SEC + 5 * SEC + 7;
    assert_eq!(hour_start(t), DAY_START_NS + 27 * HOUR);
    assert_eq!(utc_hour(t), 3);
    assert_eq!(clock_string(t), "03:13");
    assert_eq!(unix_seconds(t), 1_780_876_800 + 27 * 3600 + 13 * 60 + 5);
    assert_eq!(unix_seconds(-1), -1);
    assert_eq!(hour_start(-1), -HOUR);
    assert_eq!(seconds_between(DAY_START_NS, DAY_START_NS + 61 * SEC - 1), 60);
    assert_eq!(seconds_between(DAY_START_NS + 61 * SEC - 1, DAY_START_NS), -60);
}

#[test]
fn chrono_renderings() {
    assert_eq!(rfc3339_string(DAY_START_NS), "2026-06-08T00:00:00+00:00");
    assert_eq!(rfc3339_string(DAY_START_NS + 500_000_000), "2026-06-08T00:00:00.500+00:00");
    assert_eq!(hour_label_string(DAY_START_NS + 27 * HOUR + 1), "2026-06-09T03");
    assert_eq!(hour_label_string(-1), "1969-12-31T23");
}

#[test]
fn hours_covering_spans_every_touched_hour() {
    let h = hours_covering(DAY_START_NS + 10 * 60 * SEC, DAY_START_NS + 2 * HOUR);
    assert_eq!(h, vec![DAY_START_NS, DAY_START_NS + HOUR, DAY_START_NS + 2 * HOUR]);
    assert_eq!(hours_covering(DAY_START_NS + 5, DAY_START_NS + 5), vec![DAY_START_NS]);
    assert!(hours_covering(DAY_START_NS + 5, DAY_START_NS - 1).is_empty());
}

#[test]
fn supported_range_is_chrono_range() {
    assert_eq!(rfc3339_string(MIN_INSTANT_NANOS), "-262143-01-01T00:00:00+00:00");
    assert_eq!(rfc3339_string(MAX_INSTANT_NANOS), "+262142-12-31T23:59:59.999999999+00:00");
    assert_eq!(hour_start(MIN_INSTANT_NANOS + 5), MIN_INSTANT_NANOS);
    assert_eq!(hour_label_string(MAX_INSTANT_NANOS), "+262142-12-31T23");
}
