use uvp::time::{latest_of, parse_time, Timestamp};

#[test]
fn parses_email_dates() {
    let t = parse_time("Tue, 01 Jul 2003 10:52:37 +0200").unwrap();
    assert_eq!(t, Timestamp { secs: 1057049557, nanos: 0, offset_secs: 7200 });
}

#[test]
fn parses_iso_dates() {
    let t = parse_time("2021-05-06T08:08:09.5+01:00").unwrap();
    assert_eq!(t, Timestamp { secs: 1620284889, nanos: 500_000_000, offset_secs: 3600 });
}

#[test]
fn rejects_other_dates() {
    assert!(parse_time("6 May 2021").is_none());
    assert!(parse_time("").is_none());
}

#[test]
fn stored_text_round_trips() {
    let t = Timestamp { secs: 1057049557, nanos: 0, offset_secs: 7200 };
    let text = t.to_text().unwrap();
    assert_eq!(text, "2003-07-01T10:52:37+02:00");
    assert_eq!(Timestamp::from_text(&text), Some(t));
    assert!(Timestamp { secs: 0, nanos: 0, offset_secs: 90_000 }.to_text().is_none());
}

#[test]
fn comparison_ignores_offsets() {
    let a = Timestamp { secs: 10, nanos: 5, offset_secs: 3600 };
    let b = Timestamp { secs: 10, nanos: 5, offset_secs: 0 };
    assert!(!a.is_later_than(&b));
    assert!(!b.is_later_than(&a));
    assert_eq!(latest_of(a, b), b);
    let c = Timestamp { secs: 10, nanos: 6, offset_secs: 0 };
    assert!(c.is_later_than(&a));
    assert_eq!(latest_of(c, a), c);
}

#[test]
fn far_dates_still_have_a_text() {
    let far = Timestamp { secs: 8_000_000_000_000, nanos: 0, offset_secs: 0 };
    assert!(far.to_text().is_some());
    let early = Timestamp { secs: -8_000_000_000_000, nanos: 999_999_999, offset_secs: -3600 };
    assert!(early.to_text().is_some());
}
