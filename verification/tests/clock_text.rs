use tailchatter::clock::{hms_since_epoch, hms_string, now_hms};
use tailchatter::text::{
    chars_of, decimal_string, find, join_strings, split_trimmed_nonempty, str_eq, trim_str,
    two_digit_string,
};

#[test]
fn hms_of_seconds() {
    assert_eq!(hms_string(0), "00:00:00");
    assert_eq!(hms_string(3661), "01:01:01");
    assert_eq!(hms_string(86399), "23:59:59");
    assert_eq!(hms_string(86400), "00:00:00");
    assert_eq!(hms_string(86400 * 3 + 13 * 3600 + 5 * 60 + 7), "13:05:07");
    assert_eq!(hms_string(u64::MAX), "07:00:15");
}

#[test]
fn now_is_a_time_of_day() {
    let t = now_hms();
    let b = t.as_bytes();
    assert_eq!(b.len(), 8);
    assert_eq!(b[2], b':');
    assert_eq!(b[5], b':');
    let h: u32 = t[0..2].parse().unwrap();
    let m: u32 = t[3..5].parse().unwrap();
    let s: u32 = t[6..8].parse().unwrap();
    assert!(h < 24 && m < 60 && s < 60);
}

#[test]
fn numbers_in_decimal() {
    assert_eq!(decimal_string(0), "0");
    assert_eq!(decimal_string(7), "7");
    assert_eq!(decimal_string(42069), "42069");
    assert_eq!(decimal_string(u64::MAX), "18446744073709551615");
    assert_eq!(two_digit_string(0), "00");
    assert_eq!(two_digit_string(9), "09");
    assert_eq!(two_digit_string(59), "59");
}

#[test]
fn trimming_and_comparing() {
    assert_eq!(trim_str("  a b \t\n"), "a b");
    assert_eq!(trim_str("   "), "");
    assert_eq!(trim_str("\u{3000}x\u{a0}"), "x");
    assert!(str_eq("abc", "abc"));
    assert!(!str_eq("abc", "abd"));
}

#[test]
fn joining_and_splitting() {
    let parts = vec!["a".to_string(), "b".to_string(), "c".to_string()];
    assert_eq!(join_strings(&parts, ", "), "a, b, c");
    assert_eq!(join_strings(&Vec::new(), ", "), "");
    let cs = chars_of(" a, ,b ,, c ");
    assert_eq!(split_trimmed_nonempty(&cs, ','), vec!["a".to_string(), "b".to_string(), "c".to_string()]);
    let cs = chars_of("");
    assert!(split_trimmed_nonempty(&cs, ',').is_empty());
}

#[test]
fn finding_a_pattern() {
    let s = chars_of("alice: hi: there");
    let p = chars_of(": ");
    assert_eq!(find(&s, &p), Some(5));
    let q = chars_of("zz");
    assert_eq!(find(&s, &q), None);
}

#[test]
fn clock_before_the_epoch_reads_midnight() {
    assert_eq!(hms_since_epoch(None), "00:00:00");
    assert_eq!(hms_since_epoch(Some(3661)), "01:01:01");
    assert_eq!(hms_since_epoch(Some(0)), "00:00:00");
}
