use feedcore::cursor::Cursor;
use feedcore::cursor::encode_cursor;
use feedcore::cursor::parse_cursor;
use feedcore::tweets::TweetService;

const T0: i64 = 1_600_000_000_000_000;

fn ts_of(i: u64) -> i64 {
    T0 + (i as i64 - 1) * 1_000_000
}

fn seeded(n: u64) -> TweetService {
    let mut svc = TweetService::new();
    for i in 1..=n {
        svc.create_tweet(format!("tweet {i}"), ts_of(i)).unwrap();
    }
    svc
}

fn rfc3339(ts: i64) -> String {
    chrono::DateTime::<chrono::Utc>::from_timestamp_micros(ts)
        .unwrap()
        .to_rfc3339()
}

fn page_ids(svc: &TweetService, limit: i64, before: Option<&str>) -> (Vec<u64>, Option<String>) {
    let (items, next) = svc.timeline_cursor(limit, before).unwrap();
    (items.iter().map(|t| t.id).collect(), next)
}

#[test]
fn five_tweets_page_through_with_limit_two() {
    // Create five tweets in order, then walk the cursor timeline with
    // pages of two: [5, 4] with a cursor at tweet 4, then [3, 2], then
    // [1] with no cursor (end of data).
    let svc = seeded(5);

    let (ids, next) = page_ids(&svc, 2, None);
    assert_eq!(ids, vec![5, 4]);
    let next = next.expect("full page must carry a cursor");
    assert_eq!(next, format!("{}|4", rfc3339(ts_of(4))));

    let (ids, next) = page_ids(&svc, 2, Some(&next));
    assert_eq!(ids, vec![3, 2]);
    let next = next.expect("full page must carry a cursor");
    assert_eq!(next, format!("{}|2", rfc3339(ts_of(2))));

    let (ids, next) = page_ids(&svc, 2, Some(&next));
    assert_eq!(ids, vec![1]);
    assert_eq!(next, None);
}

#[test]
fn concatenated_pages_cover_everything_once_for_any_page_size() {
    let svc = seeded(7);
    for limit in [1i64, 2, 3, 5, 7, 50] {
        let mut seen: Vec<u64> = Vec::new();
        let mut cursor: Option<String> = None;
        loop {
            let (ids, next) = page_ids(&svc, limit, cursor.as_deref());
            seen.extend(ids);
            match next {
                Some(c) => cursor = Some(c),
                None => break,
            }
        }
        assert_eq!(seen, vec![7, 6, 5, 4, 3, 2, 1], "page size {limit}");
    }
}

#[test]
fn shared_timestamps_neither_skip_nor_repeat() {
    // All five tweets share one creation instant, so the id alone breaks
    // the ties; walking with pages of two must still cover everything
    // exactly once.
    let mut svc = TweetService::new();
    for i in 1..=5u64 {
        svc.create_tweet(format!("tweet {i}"), T0).unwrap();
    }
    let mut seen: Vec<u64> = Vec::new();
    let mut cursor: Option<String> = None;
    loop {
        let (ids, next) = page_ids(&svc, 2, cursor.as_deref());
        seen.extend(ids);
        match next {
            Some(c) => cursor = Some(c),
            None => break,
        }
    }
    assert_eq!(seen, vec![5, 4, 3, 2, 1]);
}

#[test]
fn issued_pages_are_stable_under_insertion() {
    let mut svc = seeded(4);
    let (first, next) = page_ids(&svc, 2, None);
    assert_eq!(first, vec![4, 3]);
    let cursor = next.unwrap();
    let (second, _) = page_ids(&svc, 2, Some(&cursor));
    assert_eq!(second, vec![2, 1]);

    // A newer tweet arrives after the cursor was issued: refetching with
    // the same cursor returns the same page.
    svc.create_tweet("tweet 5".to_string(), ts_of(5)).unwrap();
    let (refetched, _) = page_ids(&svc, 2, Some(&cursor));
    assert_eq!(refetched, second);
}

#[test]
fn cursor_limit_is_clamped() {
    let svc = seeded(5);
    let (ids, _) = page_ids(&svc, 0, None);
    assert_eq!(ids, vec![5]);
    let (ids, next) = page_ids(&svc, 1000, None);
    assert_eq!(ids, vec![5, 4, 3, 2, 1]);
    assert_eq!(next, None);
}

#[test]
fn malformed_cursors_fall_back_to_the_first_page() {
    let svc = seeded(3);
    let (plain, _) = page_ids(&svc, 2, None);
    for bad in [
        "",
        "garbage",
        "|",
        "|5",
        "x|y",
        "2020-01-01T00:00:00+00:00|",
        "2020-01-01T00:00:00+00:00|12x",
        "2020-99-99T00:00:00+00:00|5",
        "2020-01-01T00:00:00|5",
        "2020-01-01T00:00:00+00:00|-3",
    ] {
        let (ids, _) = page_ids(&svc, 2, Some(bad));
        assert_eq!(ids, plain, "cursor {bad:?} must be treated as absent");
    }
}

#[test]
fn cursor_wire_format_is_exact() {
    // The epoch with id 1: the wire form is pinned byte for byte.
    let c = Cursor { ts: 0, id: 1 };
    assert_eq!(encode_cursor(c), "1970-01-01T00:00:00+00:00|1");
    assert_eq!(parse_cursor("1970-01-01T00:00:00+00:00|1"), Some(c));
}

#[test]
fn cursors_round_trip_through_their_wire_form() {
    for c in [
        Cursor { ts: 0, id: 1 },
        Cursor { ts: 1, id: u64::MAX },
        Cursor { ts: T0 + 123_456, id: 42 },
        Cursor { ts: 253_402_300_799_999_999, id: 7 },
    ] {
        let wire = encode_cursor(c);
        assert_eq!(parse_cursor(&wire), Some(c), "wire {wire:?}");
    }
}

#[test]
fn parse_accepts_offsets_and_fractions() {
    // Equivalent instants written differently parse to the same cursor.
    let base = parse_cursor("1970-01-01T00:00:00+00:00|9").unwrap();
    assert_eq!(parse_cursor("1970-01-01T01:00:00+01:00|9"), Some(base));
    assert_eq!(parse_cursor("1970-01-01T00:00:00.000000+00:00|9"), Some(base));
    assert_eq!(
        parse_cursor("1970-01-01T00:00:00.5+00:00|9"),
        Some(Cursor { ts: 500_000, id: 9 })
    );
}
