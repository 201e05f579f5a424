use startgg_interactions::startgg::RequestCounter;
use startgg_interactions::startgg_ignores::IgnoredSet;
use startgg_interactions::text::{decimal_between, parse_i64, push_decimal, text_equals};

#[test]
fn parse_i64_accepts_what_rust_accepts() {
    assert_eq!(parse_i64("42"), Some(42));
    assert_eq!(parse_i64("-7"), Some(-7));
    assert_eq!(parse_i64("+5"), Some(5));
    assert_eq!(parse_i64("007"), Some(7));
    assert_eq!(parse_i64("9223372036854775807"), Some(i64::MAX));
    assert_eq!(parse_i64("-9223372036854775808"), Some(i64::MIN));
}

#[test]
fn parse_i64_rejects_what_rust_rejects() {
    for s in ["", "-", "+", "abc", " 1", "1 ", "1.5", "--1", "9223372036854775808", "-9223372036854775809", "99999999999999999999999"] {
        assert_eq!(parse_i64(s), None, "{}", s);
        assert!(s.parse::<i64>().is_err());
    }
}

#[test]
fn decimal_writes_like_format() {
    for n in [0i64, 7, 10, 99, 100, -1, -45, i64::MAX, i64::MIN] {
        let mut s = String::from("x");
        push_decimal(&mut s, n);
        assert_eq!(s, format!("x{}", n));
    }
    assert_eq!(decimal_between("wrr", 46, "bbtagpc"), "wrr46bbtagpc");
}

#[test]
fn text_equals_compares_characters() {
    assert!(text_equals("COMPLETED", "COMPLETED"));
    assert!(!text_equals("COMPLETED", "CREATED"));
    assert!(!text_equals("", "A"));
    assert!(text_equals("", ""));
}

#[test]
fn ignored_sets_are_corrected() {
    let t = IgnoredSet::is_ignored_set(106458660).unwrap();
    assert_eq!((t.standings[0].id, t.standings[0].has_won, t.standings[0].score), (1321163, true, 3));
    assert_eq!((t.standings[1].id, t.standings[1].has_won, t.standings[1].score), (682369, false, 1));
    let t = IgnoredSet::is_ignored_set(106458667).unwrap();
    assert_eq!((t.standings[0].id, t.standings[1].id, t.standings[1].score), (162430, 48752, 0));
    let t = IgnoredSet::is_ignored_set(106458668).unwrap();
    assert_eq!((t.standings[0].id, t.standings[0].has_won), (682369, false));
    assert_eq!((t.standings[1].id, t.standings[1].has_won, t.standings[1].score), (48752, true, 3));
    assert!(IgnoredSet::is_ignored_set(1).is_none());
}

#[test]
fn request_counter_waits_every_fiftieth() {
    let mut c = RequestCounter::new();
    let waits: Vec<usize> = (1..=120).filter(|_| c.register_request()).collect();
    assert_eq!(waits, vec![50, 100]);
}
