use feedcore::errors::TweetServiceError;
use feedcore::errors::UserServiceError;
use feedcore::validate::validate_tweet_content;
use feedcore::validate::validate_username;

#[test]
fn content_plain_is_ok_and_trimmed() {
    let r = validate_tweet_content("hello world");
    assert_eq!(r, Ok("hello world"));
}

#[test]
fn content_is_trimmed_at_both_ends() {
    let r = validate_tweet_content("  hello \n");
    assert_eq!(r, Ok("hello"));
}

#[test]
fn content_empty_is_rejected() {
    assert_eq!(validate_tweet_content(""), Err(TweetServiceError::EmptyContent));
}

#[test]
fn content_blank_is_rejected_as_empty() {
    assert_eq!(validate_tweet_content(" \t\r\n  "), Err(TweetServiceError::EmptyContent));
}

#[test]
fn content_at_bound_is_ok() {
    let s = "a".repeat(280);
    assert_eq!(validate_tweet_content(&s), Ok(s.as_str()));
}

#[test]
fn content_over_bound_is_rejected() {
    let s = "a".repeat(281);
    assert_eq!(validate_tweet_content(&s), Err(TweetServiceError::ContentTooLong));
}

#[test]
fn content_length_counts_scalar_values_after_trimming() {
    // 280 non-ASCII scalar values padded with blanks: trimmed length is
    // exactly at the bound, so it passes; one more fails.
    let s = format!("  {}  ", "é".repeat(280));
    let expected = "é".repeat(280);
    assert_eq!(validate_tweet_content(&s), Ok(expected.as_str()));
    let s2 = format!("  {}  ", "é".repeat(281));
    assert_eq!(validate_tweet_content(&s2), Err(TweetServiceError::ContentTooLong));
}

#[test]
fn empty_takes_precedence_over_too_long() {
    // More than 280 characters, all of them blanks: empty after trimming.
    let s = " ".repeat(300);
    assert_eq!(validate_tweet_content(&s), Err(TweetServiceError::EmptyContent));
}

#[test]
fn username_plain_is_ok() {
    assert_eq!(validate_username(" alice "), Ok("alice"));
}

#[test]
fn username_blank_is_rejected() {
    assert_eq!(validate_username("   "), Err(UserServiceError::EmptyUsername));
}
