use notebookx::timestamp::{
    Timestamp, FIRST_FOUR_DIGIT_SECS, LAST_FOUR_DIGIT_SECS, MAX_UNIX_SECS, MIN_UNIX_SECS,
};

fn stamp(secs: i64, nanos: u32) -> Timestamp {
    Timestamp::new(secs, nanos).unwrap()
}

#[test]
fn new_accepts_what_chrono_accepts() {
    let cases: Vec<(i64, u32)> = vec![
        (0, 0),
        (0, 999_999_999),
        (0, 1_000_000_000),
        (59, 1_000_000_000),
        (59, 1_999_999_999),
        (59, 2_000_000_000),
        (58, 1_000_000_000),
        (-1, 1_500_000_000),
        (-2, 1_500_000_000),
        (-61, 1_000_000_000),
        (MIN_UNIX_SECS, 0),
        (MIN_UNIX_SECS - 1, 0),
        (MIN_UNIX_SECS + 59, 1_999_999_999),
        (MAX_UNIX_SECS, 999_999_999),
        (MAX_UNIX_SECS, 1_999_999_999),
        (MAX_UNIX_SECS + 1, 0),
        (i64::MAX, 0),
        (i64::MIN, 0),
        (1_431_648_000, u32::MAX),
    ];
    for (secs, nanos) in cases {
        let ours = Timestamp::new(secs, nanos);
        let theirs = chrono::DateTime::from_timestamp(secs, nanos);
        assert_eq!(ours.is_some(), theirs.is_some(), "secs {} nanos {}", secs, nanos);
        if let (Some(t), Some(d)) = (ours, theirs) {
            assert_eq!(t.secs(), d.timestamp());
            assert_eq!(t.nanos(), d.timestamp_subsec_nanos());
        }
    }
}

#[test]
fn four_digit_years_are_where_the_constants_say() {
    let first = chrono::DateTime::from_timestamp(FIRST_FOUR_DIGIT_SECS, 0).unwrap();
    assert_eq!(first.to_rfc3339(), "0000-01-01T00:00:00+00:00");
    let last = chrono::DateTime::from_timestamp(LAST_FOUR_DIGIT_SECS, 0).unwrap();
    assert_eq!(last.to_rfc3339(), "9999-12-31T23:59:59+00:00");
}

#[test]
fn text_of_an_instant() {
    assert_eq!(stamp(1_431_648_000, 0).to_rfc3339(), "2015-05-15T00:00:00+00:00");
    assert_eq!(stamp(1_431_648_060, 500_000_000).to_rfc3339(), "2015-05-15T00:01:00.500+00:00");
    assert_eq!(stamp(1_431_648_060, 453_829).to_rfc3339(), "2015-05-15T00:01:00.000453829+00:00");
    assert_eq!(stamp(1_431_648_060, 453_000).to_rfc3339(), "2015-05-15T00:01:00.000453+00:00");
    assert_eq!(stamp(0, 0).to_rfc3339(), "1970-01-01T00:00:00+00:00");
    assert_eq!(stamp(-1, 0).to_rfc3339(), "1969-12-31T23:59:59+00:00");
}

#[test]
fn instant_of_a_text() {
    let t = Timestamp::parse_from_rfc3339("1996-12-19T16:39:57-08:00").unwrap();
    assert_eq!(t.secs(), 851_042_397);
    assert_eq!(t.nanos(), 0);
    let z = Timestamp::parse_from_rfc3339("2015-05-15T00:01:00.5Z").unwrap();
    assert_eq!(z, stamp(1_431_648_060, 500_000_000));
    assert_eq!(Timestamp::parse_from_rfc3339("yesterday"), None);
    assert_eq!(Timestamp::parse_from_rfc3339(""), None);
    assert_eq!(Timestamp::parse_from_rfc3339("2015-05-15"), None);
    assert_eq!(Timestamp::parse_from_rfc3339("2015-13-15T00:00:00Z"), None);
}

#[test]
fn text_of_a_four_digit_year_reads_back() {
    let cases = vec![
        stamp(FIRST_FOUR_DIGIT_SECS, 0),
        stamp(LAST_FOUR_DIGIT_SECS, 999_999_999),
        stamp(LAST_FOUR_DIGIT_SECS, 1_999_999_999),
        stamp(1_435_708_799, 1_500_000_000),
        stamp(0, 1),
        stamp(-1, 999_000_000),
        stamp(1_700_000_000, 123_456_789),
    ];
    for t in cases {
        let text = t.to_rfc3339();
        assert_eq!(Timestamp::parse_from_rfc3339(&text), Some(t), "{}", text);
        assert!(text
            .chars()
            .all(|c| c.is_ascii_digit() || c == '-' || c == '+' || c == ':' || c == '.' || c == 'T'));
    }
    assert_eq!(stamp(1_435_708_799, 1_500_000_000).to_rfc3339(), "2015-06-30T23:59:60.500+00:00");
}

#[test]
fn text_of_a_later_year_does_not_read_back() {
    let t = stamp(LAST_FOUR_DIGIT_SECS + 1, 0);
    let text = t.to_rfc3339();
    assert_eq!(text, "+10000-01-01T00:00:00+00:00");
    assert_eq!(Timestamp::parse_from_rfc3339(&text), None);
    let early = stamp(FIRST_FOUR_DIGIT_SECS - 1, 0);
    assert_eq!(early.to_rfc3339(), "-0001-12-31T23:59:59+00:00");
    assert_eq!(Timestamp::parse_from_rfc3339(&early.to_rfc3339()), None);
}

#[test]
fn the_ends_of_the_range_have_a_text() {
    assert_eq!(stamp(MIN_UNIX_SECS, 0).to_rfc3339(), "-262143-01-01T00:00:00+00:00");
    assert_eq!(
        stamp(MAX_UNIX_SECS, 999_999_999).to_rfc3339(),
        "+262142-12-31T23:59:59.999999999+00:00"
    );
}

#[test]
fn now_is_an_instant_of_our_days() {
    let t = Timestamp::now();
    assert_eq!(Timestamp::new(t.secs(), t.nanos()), Some(t));
    assert!(t.secs() > 1_700_000_000);
    assert!(t.nanos() < 1_000_000_000);
    let later = Timestamp::now();
    assert!((later.secs(), later.nanos()) >= (t.secs(), t.nanos()));
}
