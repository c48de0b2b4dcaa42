//! Validation layer: content and username rules shared by the write paths.
//!
//! The trimming rule is fixed here once for the whole crate: leading and
//! trailing ASCII blanks (space, tab, line feed, carriage return) are
//! removed, and lengths are counted in Unicode scalar values of the
//! trimmed text.

use vstd::prelude::*;
use vstd::string::StrSliceExecFns;
use crate::errors::TweetServiceError;
use crate::errors::UserServiceError;

verus! {

/// Upper bound on the trimmed length of a tweet, in Unicode scalar values.
pub const MAX_TWEET_CHARS: usize = 280;

/// The characters the trimming rule removes at either end.
pub open spec fn is_space(c: char) -> bool {
    c == ' ' || c == '\t' || c == '\n' || c == '\r'
}

/// `s` with its leading blanks removed.
pub open spec fn trim_start(s: Seq<char>) -> Seq<char>
    decreases s.len(),
{
    if s.len() > 0 && is_space(s[0]) {
        trim_start(s.drop_first())
    } else {
        s
    }
}

/// `s` with its trailing blanks removed.
pub open spec fn trim_end(s: Seq<char>) -> Seq<char>
    decreases s.len(),
{
    if s.len() > 0 && is_space(s.last()) {
        trim_end(s.drop_last())
    } else {
        s
    }
}

/// The trimmed form of `s`: blanks removed at both ends.
pub open spec fn trim(s: Seq<char>) -> Seq<char> {
    trim_end(trim_start(s))
}

proof fn lemma_trim_start_at(s: Seq<char>, lo: int)
    requires
        0 <= lo <= s.len(),
        forall|i: int| 0 <= i < lo ==> is_space(s[i]),
        lo == s.len() || !is_space(s[lo]),
    ensures
        trim_start(s) == s.skip(lo),
    decreases lo,
{
    if lo == 0 {
        assert(s.skip(0) =~= s);
    } else {
        assert(is_space(s[0]));
        let d = s.drop_first();
        assert(forall|i: int| 0 <= i < lo - 1 ==> is_space(#[trigger] d[i]));
        lemma_trim_start_at(d, lo - 1);
        assert(d.skip(lo - 1) =~= s.skip(lo));
    }
}

proof fn lemma_trim_end_at(s: Seq<char>, hi: int)
    requires
        0 <= hi <= s.len(),
        forall|i: int| hi <= i < s.len() ==> is_space(s[i]),
        hi == 0 || !is_space(s[hi - 1]),
    ensures
        trim_end(s) == s.take(hi),
    decreases s.len(),
{
    if hi == s.len() {
        assert(s.take(hi) =~= s);
    } else {
        assert(is_space(s.last()));
        let d = s.drop_last();
        lemma_trim_end_at(d, hi);
        assert(d.take(hi) =~= s.take(hi));
    }
}

fn is_space_char(c: char) -> (b: bool)
    ensures
        b == is_space(c),
{
    c == ' ' || c == '\t' || c == '\n' || c == '\r'
}

/// Returns the trimmed form of `s` under the crate's trimming rule.
pub fn trim_str<'a>(s: &'a str) -> (t: &'a str)
    ensures
        t@ == trim(s@),
{
    let n = s.unicode_len();
    let mut lo: usize = 0;
    while lo < n && is_space_char(s.get_char(lo))
        invariant
            0 <= lo <= n,
            n == s@.len(),
            forall|i: int| 0 <= i < lo ==> is_space(s@[i]),
        decreases n - lo,
    {
        lo = lo + 1;
    }
    let mut hi: usize = n;
    if lo == n {
        hi = n;
    } else {
        while hi > lo && is_space_char(s.get_char(hi - 1))
            invariant
                lo <= hi <= n,
                n == s@.len(),
                lo < n,
                !is_space(s@[lo as int]),
                forall|i: int| hi <= i < n ==> is_space(s@[i]),
            decreases hi,
        {
            hi = hi - 1;
        }
        assert(hi > lo) by {
            if hi <= lo {
                assert(is_space(s@[lo as int]));
            }
        }
    }
    proof {
        lemma_trim_start_at(s@, lo as int);
        lemma_trim_end_at(s@.skip(lo as int), hi - lo);
        assert(s@.skip(lo as int).take(hi - lo) =~= s@.subrange(lo as int, hi as int));
    }
    s.substring_char(lo, hi)
}

/// Gate on tweet content: `Ok` carries the trimmed text exactly when the
/// trimmed length lies in `1 ..= MAX_TWEET_CHARS`; an empty result is
/// reported before an overlong one.
pub fn validate_tweet_content<'a>(s: &'a str) -> (r: Result<&'a str, TweetServiceError>)
    ensures
        match r {
            Ok(t) => t@ == trim(s@) && 1 <= trim(s@).len() <= MAX_TWEET_CHARS,
            Err(TweetServiceError::EmptyContent) => trim(s@).len() == 0,
            Err(TweetServiceError::ContentTooLong) => trim(s@).len() > MAX_TWEET_CHARS,
            Err(_) => false,
        },
{
    let t = trim_str(s);
    let len = t.unicode_len();
    if len == 0 {
        Err(TweetServiceError::EmptyContent)
    } else if len > MAX_TWEET_CHARS {
        Err(TweetServiceError::ContentTooLong)
    } else {
        Ok(t)
    }
}

/// Gate on usernames: `Ok` carries the trimmed text exactly when it is
/// non-empty.
pub fn validate_username<'a>(s: &'a str) -> (r: Result<&'a str, UserServiceError>)
    ensures
        match r {
            Ok(t) => t@ == trim(s@) && trim(s@).len() >= 1,
            Err(UserServiceError::EmptyUsername) => trim(s@).len() == 0,
            Err(_) => false,
        },
{
    let t = trim_str(s);
    if t.unicode_len() == 0 {
        Err(UserServiceError::EmptyUsername)
    } else {
        Ok(t)
    }
}

} // verus!
