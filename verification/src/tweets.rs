//! Tweets: the stored record, its wire shapes, and the content store
//! with its timeline queries.

use vstd::prelude::*;
use crate::cursor::Cursor;
use crate::cursor::encode_cursor;
use crate::cursor::encode_cursor_spec;
use crate::cursor::parse_cursor;
use crate::cursor::parse_cursor_spec;
use crate::errors::TweetServiceError;
use crate::pager::clamp_limit;
use crate::pager::cut_of;
use crate::pager::eligible;
use crate::pager::page_items;
use crate::pager::page_len;
use crate::pager::page_next;
use crate::pager::sorted_keys;
use crate::rfc3339::MAX_TS_MICROS;
use crate::validate::MAX_TWEET_CHARS;
use crate::validate::trim;
use crate::validate::validate_tweet_content;

verus! {

/// Request body of tweet creation.
pub struct CreateTweetRequest {
    pub content: String,
}

/// Query parameters of the offset timeline.
pub struct TimelineParams {
    pub limit: Option<i64>,
    pub offset: Option<i64>,
}

/// Query parameters of the cursor timeline.
pub struct CursorTimelineParams {
    pub limit: Option<i64>,
    pub before: Option<String>,
}

/// A stored tweet as handed back to callers.
#[derive(Debug)]
pub struct TweetResponse {
    pub id: u64,
    pub content: String,
}

/// Ghost image of a stored tweet.
pub ghost struct TweetV {
    pub id: u64,
    pub content: Seq<char>,
    pub created_at: i64,
}

/// A stored tweet.  `id` and `created_at` are store-assigned: ids are
/// unique and increase with insertion order, creation instants never
/// decrease (but may repeat at store time-resolution).
#[derive(Debug)]
pub struct Tweet {
    pub id: u64,
    pub content: String,
    pub created_at: i64,
}

impl View for Tweet {
    type V = TweetV;

    open spec fn view(&self) -> TweetV {
        TweetV { id: self.id, content: self.content@, created_at: self.created_at }
    }
}

impl Clone for Tweet {
    fn clone(&self) -> (r: Self)
        ensures
            r@ == self@,
    {
        Tweet { id: self.id, content: self.content.clone(), created_at: self.created_at }
    }
}

/// The composite sort key of a tweet.  `created_at` alone is not unique,
/// so the unique id breaks ties; the pair is totally ordered.
pub open spec fn key_of(t: TweetV) -> Cursor {
    Cursor { ts: t.created_at, id: t.id }
}

/// A tweet the store can hold: its instant is in the renderable range.
pub open spec fn tweet_inv(t: TweetV) -> bool {
    0 <= t.created_at <= MAX_TS_MICROS
}

/// The stored tweet with the given id, if any.
pub open spec fn tweet_lookup(s: Seq<TweetV>, id: u64) -> Option<TweetV>
    decreases s.len(),
{
    if s.len() == 0 {
        None
    } else if s.last().id == id {
        Some(s.last())
    } else {
        tweet_lookup(s.drop_last(), id)
    }
}

/// A tweet created with a fresh id is immediately readable under that id.
pub proof fn lemma_created_tweet_readable(s: Seq<TweetV>, t: TweetV)
    requires
        forall|i: int| 0 <= i < s.len() ==> (#[trigger] s[i]).id != t.id,
    ensures
        tweet_lookup(s.push(t), t.id) == Some(t),
{
    assert(s.push(t).last() == t);
}

/// The creation instant the store assigns when asked to insert while the
/// clock reads `now`: never before the newest stored tweet, clamped into
/// the renderable range.
pub open spec fn assigned_ts(s: Seq<TweetV>, now: i64) -> i64 {
    let base = if s.len() > 0 && s.last().created_at > now {
        s.last().created_at
    } else {
        now
    };
    if base < 0 {
        0
    } else if base > MAX_TS_MICROS {
        MAX_TS_MICROS
    } else {
        base
    }
}

/// The content store and its read paths: point lookup, offset timeline,
/// and keyset (cursor) timeline.  All state is append-only; tweets are
/// immutable and never deleted.
pub struct TweetService {
    pub tweets: Vec<Tweet>,
    pub next_id: u64,
}

impl TweetService {
    /// Ghost image of the stored timeline, oldest first.
    pub open spec fn timeline_view(&self) -> Seq<TweetV> {
        self.tweets@.map_values(|t: Tweet| t@)
    }

    /// Well-formedness: ids are unique, at least 1, below `next_id`, and
    /// increase with insertion order; creation instants never decrease
    /// and stay renderable.
    pub open spec fn wf(&self) -> bool {
        let s = self.timeline_view();
        &&& forall|i: int, j: int|
            #![trigger s[i], s[j]]
            0 <= i < j < s.len() ==> s[i].id < s[j].id && s[i].created_at <= s[j].created_at
        &&& forall|i: int| 0 <= i < s.len() ==> tweet_inv(#[trigger] s[i]) && 1 <= s[i].id
            < self.next_id
        &&& 1 <= self.next_id
    }

    /// Insertion order agrees with the composite-key order, strictly.
    pub proof fn lemma_wf_sorted(&self)
        requires
            self.wf(),
        ensures
            sorted_keys(self.timeline_view()),
    {
    }

    /// An empty store; ids start at 1.
    pub fn new() -> (s: Self)
        ensures
            s.wf(),
            s.timeline_view() == Seq::<TweetV>::empty(),
            s.next_id == 1,
    {
        let s = TweetService { tweets: Vec::new(), next_id: 1 };
        proof {
            assert(s.timeline_view() =~= Seq::<TweetV>::empty());
        }
        s
    }

    /// Creates a tweet at clock reading `now`.  Content is gated by the
    /// validation layer (empty reported before overlong); the stored
    /// text is the submitted one, untrimmed, while the length rule reads
    /// the trimmed form.  The store assigns the next id and a
    /// non-decreasing creation instant.
    pub fn create_tweet(&mut self, content: String, now: i64) -> (r: Result<
        TweetResponse,
        TweetServiceError,
    >)
        requires
            old(self).wf(),
        ensures
            final(self).wf(),
            trim(content@).len() == 0 ==> r == Err::<TweetResponse, TweetServiceError>(
                TweetServiceError::EmptyContent,
            ) && *final(self) == *old(self),
            trim(content@).len() > MAX_TWEET_CHARS ==> r == Err::<TweetResponse,
                TweetServiceError,
            >(TweetServiceError::ContentTooLong) && *final(self) == *old(self),
            1 <= trim(content@).len() <= MAX_TWEET_CHARS && old(self).next_id == u64::MAX ==> r
                == Err::<TweetResponse, TweetServiceError>(TweetServiceError::DatabaseError)
                && *final(self) == *old(self),
            1 <= trim(content@).len() <= MAX_TWEET_CHARS && old(self).next_id < u64::MAX ==> {
                &&& r is Ok
                &&& r->Ok_0.id == old(self).next_id
                &&& r->Ok_0.content@ == content@
                &&& final(self).next_id == old(self).next_id + 1
                &&& final(self).timeline_view() == old(self).timeline_view().push(
                    TweetV {
                        id: old(self).next_id,
                        content: content@,
                        created_at: assigned_ts(old(self).timeline_view(), now),
                    },
                )
                &&& tweet_lookup(final(self).timeline_view(), old(self).next_id) == Some(
                    TweetV {
                        id: old(self).next_id,
                        content: content@,
                        created_at: assigned_ts(old(self).timeline_view(), now),
                    },
                )
            },
    {
        match validate_tweet_content(content.as_str()) {
            Err(e) => Err(e),
            Ok(_) => {
                if self.next_id == u64::MAX {
                    return Err(TweetServiceError::DatabaseError);
                }
                let n = self.tweets.len();
                let mut ts = now;
                if n > 0 {
                    let last_ts = self.tweets[n - 1].created_at;
                    if last_ts > ts {
                        ts = last_ts;
                    }
                }
                if ts < 0 {
                    ts = 0;
                }
                if ts > MAX_TS_MICROS {
                    ts = MAX_TS_MICROS;
                }
                let id = self.next_id;
                let resp_content = content.clone();
                let t = Tweet { id, content, created_at: ts };
                self.tweets.push(t);
                self.next_id = id + 1;
                proof {
                    let sv = old(self).timeline_view();
                    let nv = self.timeline_view();
                    let tv = TweetV {
                        id: old(self).next_id,
                        content: resp_content@,
                        created_at: ts,
                    };
                    assert(nv =~= sv.push(tv));
                    assert(ts == assigned_ts(sv, now));
                    lemma_created_tweet_readable(sv, tv);
                    assert(sv.len() > 0 ==> ts >= sv.last().created_at);
                    assert forall|i: int, j: int|
                        #![trigger nv[i], nv[j]]
                        0 <= i < j < nv.len() implies nv[i].id < nv[j].id && nv[i].created_at
                        <= nv[j].created_at by {
                        if j < nv.len() - 1 {
                            assert(sv[i].id < sv[j].id && sv[i].created_at <= sv[j].created_at);
                        } else {
                            assert(nv[i] == sv[i]);
                            if i < sv.len() - 1 {
                                assert(sv[i].created_at <= sv[sv.len() - 1].created_at);
                            }
                        }
                    }
                }
                Ok(TweetResponse { id, content: resp_content })
            },
        }
    }

    /// Point lookup by id; the result is a function of the stored state
    /// alone, so repeated reads of one state return identical results.
    pub fn get_tweet(&self, id: u64) -> (r: Result<TweetResponse, TweetServiceError>)
        requires
            self.wf(),
        ensures
            match tweet_lookup(self.timeline_view(), id) {
                Some(t) => r is Ok && r->Ok_0.id == t.id && r->Ok_0.content@ == t.content,
                None => r == Err::<TweetResponse, TweetServiceError>(TweetServiceError::NotFound),
            },
    {
        let ghost s = self.timeline_view();
        let mut i = self.tweets.len();
        proof {
            assert(s.take(i as int) =~= s);
        }
        while i > 0
            invariant
                0 <= i <= s.len(),
                s == self.timeline_view(),
                tweet_lookup(s, id) == tweet_lookup(s.take(i as int), id),
            decreases i,
        {
            proof {
                assert(s.take(i as int).drop_last() =~= s.take(i - 1));
                assert(s.take(i as int).last() == s[i - 1]);
            }
            i = i - 1;
            if self.tweets[i].id == id {
                let t = &self.tweets[i];
                return Ok(TweetResponse { id: t.id, content: t.content.clone() });
            }
        }
        proof {
            assert(s.take(0) =~= Seq::<TweetV>::empty());
        }
        Err(TweetServiceError::NotFound)
    }

    /// Offset timeline: newest first, `limit` clamped into `1 ..= 50`,
    /// `offset` floored at 0.  Kept as the simpler non-default mode; it
    /// has none of the keyset guarantees when rows arrive between pages.
    pub fn timeline(&self, limit: i64, offset: i64) -> (r: Result<
        Vec<TweetResponse>,
        TweetServiceError,
    >)
        requires
            self.wf(),
        ensures
            r is Ok,
            ({
                let s = self.timeline_view();
                let off = if offset < 0 { 0 } else { offset as int };
                let lim = clamp_limit(limit) as int;
                let avail = if s.len() < off { 0 } else { s.len() - off };
                let cnt = if avail < lim { avail } else { lim };
                let v = r->Ok_0@;
                &&& v.len() == cnt
                &&& forall|j: int|
                    0 <= j < cnt ==> (#[trigger] v[j]).id == s[s.len() - off - 1 - j].id
                        && v[j].content@ == s[s.len() - off - 1 - j].content
            }),
    {
        let lim = clamp_limit_exec(limit);
        let lim_us = lim as usize;
        let n = self.tweets.len();
        let ghost s = self.timeline_view();
        let mut v: Vec<TweetResponse> = Vec::new();
        let off_u: u64 = if offset < 0 {
            0
        } else {
            offset as u64
        };
        if off_u >= n as u64 {
            return Ok(v);
        }
        let off = off_u as usize;
        let start = n - off;
        let mut j: usize = 0;
        while j < lim_us && j < start
            invariant
                0 <= j <= start,
                j <= lim_us,
                start == n - off,
                off < n,
                n == s.len(),
                s == self.timeline_view(),
                v@.len() == j,
                forall|jj: int|
                    0 <= jj < j ==> (#[trigger] v@[jj]).id == s[start - 1 - jj].id
                        && v@[jj].content@ == s[start - 1 - jj].content,
            decreases start - j,
        {
            let t = &self.tweets[start - 1 - j];
            v.push(TweetResponse { id: t.id, content: t.content.clone() });
            j = j + 1;
        }
        Ok(v)
    }

    /// One page of the keyset timeline: up to `limit` (clamped) tweets
    /// strictly below `before` — all of them when no cursor is given —
    /// newest first, together with the cursor that resumes below the
    /// page, present exactly when the page came back full.
    pub fn timeline_page(&self, limit: i64, before: Option<Cursor>) -> (r: (
        Vec<Tweet>,
        Option<Cursor>,
    ))
        requires
            self.wf(),
        ensures
            ({
                let s = self.timeline_view();
                let k = cut_of(s, before);
                let lim = clamp_limit(limit) as int;
                &&& r.0@.map_values(|t: Tweet| t@) == page_items(s, lim, k)
                &&& r.1 == page_next(s, lim, k)
                &&& r.1 is Some ==> r.1->0.wf()
            }),
    {
        let n = self.tweets.len();
        let ghost s = self.timeline_view();
        proof {
            self.lemma_wf_sorted();
        }
        let mut k = n;
        if let Some(c) = before {
            proof {
                assert(s.take(k as int) =~= s);
            }
            while k > 0 && !eligible_exec(&self.tweets[k - 1], &c)
                invariant
                    0 <= k <= n,
                    n == s.len(),
                    s == self.timeline_view(),
                    before == Some(c),
                    cut_of(s, before) == cut_of(s.take(k as int), before),
                decreases k,
            {
                proof {
                    assert(s.take(k as int).drop_last() =~= s.take(k - 1));
                    assert(s.take(k as int).last() == s[k - 1]);
                }
                k = k - 1;
            }
            proof {
                if k > 0 {
                    assert(s.take(k as int).last() == s[k - 1]);
                    assert(cut_of(s.take(k as int), before) == k);
                } else {
                    assert(s.take(0) =~= Seq::<TweetV>::empty());
                }
            }
        } else {
            proof {
                if n > 0 {
                    assert(eligible(s.last(), before));
                }
            }
        }
        assert(k == cut_of(s, before));
        let lim = clamp_limit_exec(limit) as usize;
        let take_n = if k < lim {
            k
        } else {
            lim
        };
        let mut items: Vec<Tweet> = Vec::new();
        let mut j: usize = 0;
        while j < take_n
            invariant
                0 <= j <= take_n,
                take_n <= k,
                k <= n,
                n == s.len(),
                s == self.timeline_view(),
                items@.len() == j,
                forall|jj: int| 0 <= jj < j ==> (#[trigger] items@[jj])@ == s[k - 1 - jj],
            decreases take_n - j,
        {
            let t = self.tweets[k - 1 - j].clone();
            items.push(t);
            j = j + 1;
        }
        proof {
            assert(items@.map_values(|t: Tweet| t@) =~= page_items(
                s,
                lim as int,
                k as int,
            ));
        }
        let next = if k >= lim {
            let t = &self.tweets[k - lim];
            Some(Cursor { ts: t.created_at, id: t.id })
        } else {
            None
        };
        (items, next)
    }

    /// Cursor timeline over the wire shapes: `before` is parsed
    /// leniently — malformed text means no cursor, resuming from the top
    /// rather than failing — the page is read as in `timeline_page`, and
    /// `next_cursor` is rendered in its wire form, which parses back to
    /// the key it encodes.
    pub fn timeline_cursor(&self, limit: i64, before: Option<&str>) -> (r: Result<
        (Vec<TweetResponse>, Option<String>),
        TweetServiceError,
    >)
        requires
            self.wf(),
        ensures
            r is Ok,
            ({
                let s = self.timeline_view();
                let b = match before {
                    Some(bs) => parse_cursor_spec(bs@),
                    None => None::<Cursor>,
                };
                let k = cut_of(s, b);
                let lim = clamp_limit(limit) as int;
                let items = r->Ok_0.0@;
                let next = r->Ok_0.1;
                &&& items.len() == page_len(lim, k)
                &&& forall|j: int|
                    0 <= j < items.len() ==> (#[trigger] items[j]).id == page_items(s, lim, k)[j].id
                        && items[j].content@ == page_items(s, lim, k)[j].content
                &&& match page_next(s, lim, k) {
                    Some(c) => next is Some && next->0@ == encode_cursor_spec(c)
                        && parse_cursor_spec(next->0@) == Some(c),
                    None => next is None,
                }
            }),
    {
        let b = match before {
            Some(bs) => parse_cursor(bs),
            None => None,
        };
        let (page, next) = self.timeline_page(limit, b);
        let ghost s = self.timeline_view();
        let ghost lim = clamp_limit(limit) as int;
        let ghost k = cut_of(s, b);
        proof {
            self.lemma_wf_sorted();
            crate::pager::lemma_cut_sound(s, b);
            assert(0 <= k - page_len(lim, k) <= k <= s.len());
            assert(page_items(s, lim, k).len() == page_len(lim, k));
        }
        let mut items: Vec<TweetResponse> = Vec::new();
        let mut j: usize = 0;
        while j < page.len()
            invariant
                0 <= j <= page@.len(),
                page@.map_values(|t: Tweet| t@) == page_items(s, lim, k),
                items@.len() == j,
                forall|jj: int|
                    0 <= jj < j ==> (#[trigger] items@[jj]).id == page_items(s, lim, k)[jj].id
                        && items@[jj].content@ == page_items(s, lim, k)[jj].content,
            decreases page@.len() - j,
        {
            let t = &page[j];
            proof {
                assert(page@.map_values(|t: Tweet| t@)[j as int] == page@[j as int]@);
            }
            items.push(TweetResponse { id: t.id, content: t.content.clone() });
            j = j + 1;
        }
        let next_s = match next {
            Some(c) => Some(encode_cursor(c)),
            None => None,
        };
        Ok((items, next_s))
    }
}

fn clamp_limit_exec(limit: i64) -> (l: i64)
    ensures
        l == clamp_limit(limit),
        1 <= l <= 50,
{
    if limit < 1 {
        1
    } else if limit > 50 {
        50
    } else {
        limit
    }
}

fn eligible_exec(t: &Tweet, c: &Cursor) -> (b: bool)
    ensures
        b == eligible(t@, Some(*c)),
{
    t.created_at < c.ts || (t.created_at == c.ts && t.id < c.id)
}

} // verus!
