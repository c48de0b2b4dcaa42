use feedcore::errors::TweetServiceError;
use feedcore::tweets::TweetService;

const T0: i64 = 1_600_000_000_000_000;

fn seeded(n: u64) -> TweetService {
    let mut svc = TweetService::new();
    for i in 0..n {
        let content = format!("tweet {}", i + 1);
        let r = svc.create_tweet(content, T0 + (i as i64) * 1_000_000);
        assert!(r.is_ok());
    }
    svc
}

#[test]
fn create_assigns_increasing_ids_from_one() {
    let mut svc = TweetService::new();
    let a = svc.create_tweet("first".to_string(), T0).unwrap();
    let b = svc.create_tweet("second".to_string(), T0 + 1).unwrap();
    assert_eq!(a.id, 1);
    assert_eq!(b.id, 2);
    assert_eq!(a.content, "first");
    assert_eq!(b.content, "second");
}

#[test]
fn created_tweet_is_readable_with_same_content() {
    let mut svc = TweetService::new();
    let made = svc.create_tweet("hello there".to_string(), T0).unwrap();
    let got = svc.get_tweet(made.id).unwrap();
    assert_eq!(got.id, made.id);
    assert_eq!(got.content, "hello there");
}

#[test]
fn stored_content_is_the_submitted_text_untrimmed() {
    // The length rule reads the trimmed form, but the stored text is the
    // submitted one.
    let mut svc = TweetService::new();
    let made = svc.create_tweet("  padded  ".to_string(), T0).unwrap();
    assert_eq!(made.content, "  padded  ");
    let got = svc.get_tweet(made.id).unwrap();
    assert_eq!(got.content, "  padded  ");
}

#[test]
fn create_rejects_blank_and_overlong_content() {
    let mut svc = TweetService::new();
    assert_eq!(
        svc.create_tweet("   ".to_string(), T0).unwrap_err(),
        TweetServiceError::EmptyContent
    );
    assert_eq!(
        svc.create_tweet("a".repeat(281), T0).unwrap_err(),
        TweetServiceError::ContentTooLong
    );
    // Nothing was stored by the failed attempts.
    assert_eq!(svc.get_tweet(1).unwrap_err(), TweetServiceError::NotFound);
}

#[test]
fn get_missing_tweet_is_not_found() {
    let svc = seeded(3);
    assert_eq!(svc.get_tweet(99).unwrap_err(), TweetServiceError::NotFound);
    assert_eq!(svc.get_tweet(0).unwrap_err(), TweetServiceError::NotFound);
}

#[test]
fn repeated_reads_return_identical_results() {
    let svc = seeded(3);
    let a = svc.get_tweet(2).unwrap();
    let b = svc.get_tweet(2).unwrap();
    assert_eq!(a.id, b.id);
    assert_eq!(a.content, b.content);
    let e1 = svc.get_tweet(42).unwrap_err();
    let e2 = svc.get_tweet(42).unwrap_err();
    assert_eq!(e1, e2);
}

#[test]
fn offset_timeline_pages_newest_first() {
    let svc = seeded(5);
    let page = svc.timeline(2, 1).unwrap();
    let ids: Vec<u64> = page.iter().map(|t| t.id).collect();
    assert_eq!(ids, vec![4, 3]);
}

#[test]
fn offset_timeline_clamps_its_inputs() {
    let svc = seeded(5);
    // limit below 1 becomes 1; negative offset becomes 0.
    let ids: Vec<u64> = svc.timeline(0, -7).unwrap().iter().map(|t| t.id).collect();
    assert_eq!(ids, vec![5]);
    // limit above 50 becomes 50: all five come back.
    let ids: Vec<u64> = svc.timeline(1000, 0).unwrap().iter().map(|t| t.id).collect();
    assert_eq!(ids, vec![5, 4, 3, 2, 1]);
    // offset past the end yields an empty page.
    assert!(svc.timeline(10, 99).unwrap().is_empty());
}

#[test]
fn exhausted_id_space_is_a_storage_failure() {
    let mut svc = TweetService::new();
    svc.next_id = u64::MAX;
    assert_eq!(
        svc.create_tweet("fine content".to_string(), T0).unwrap_err(),
        TweetServiceError::DatabaseError
    );
}

#[test]
fn monotonic_instants_survive_a_clock_step_back() {
    let mut svc = TweetService::new();
    svc.create_tweet("late clock".to_string(), T0 + 5_000_000).unwrap();
    // The clock reads earlier than the newest stored tweet: the store
    // still assigns a non-decreasing instant, so the timeline order
    // stays insertion order.
    svc.create_tweet("early clock".to_string(), T0).unwrap();
    let ids: Vec<u64> = svc.timeline(10, 0).unwrap().iter().map(|t| t.id).collect();
    assert_eq!(ids, vec![2, 1]);
}
