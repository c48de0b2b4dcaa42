//! Keyset pagination over an ascending timeline.
//!
//! The store keeps tweets in ascending composite-key order, so the tweets
//! that lie strictly below a cursor always form a prefix.  A page is a
//! window read downward from the top of that prefix; the next cursor is
//! the key of the last tweet of a full page.  The laws at the end state
//! why this scheme neither skips nor repeats: successive pages driven by
//! `next_cursor` partition the whole timeline, and pages already issued
//! do not change when newer tweets arrive.

use vstd::prelude::*;
use crate::cursor::Cursor;
use crate::cursor::cursor_lt;
use crate::tweets::TweetV;
use crate::tweets::key_of;

verus! {

/// Page sizes are silently clamped into `1 ..= 50`, never rejected.
pub open spec fn clamp_limit(limit: i64) -> i64 {
    if limit < 1 {
        1
    } else if limit > 50 {
        50
    } else {
        limit
    }
}

/// The keys of `s` are strictly increasing: the store's insertion order
/// agrees with the composite order, and no key repeats.
pub open spec fn sorted_keys(s: Seq<TweetV>) -> bool {
    forall|i: int, j: int|
        #![trigger s[i], s[j]]
        0 <= i < j < s.len() ==> cursor_lt(key_of(s[i]), key_of(s[j]))
}

/// May `t` appear on a page resumed after `before`?  With no cursor every
/// tweet is eligible; with one, exactly those strictly below it.
pub open spec fn eligible(t: TweetV, before: Option<Cursor>) -> bool {
    match before {
        None => true,
        Some(c) => cursor_lt(key_of(t), c),
    }
}

/// `k` splits `s` into the eligible prefix and the ineligible rest.
pub open spec fn is_cut(s: Seq<TweetV>, before: Option<Cursor>, k: int) -> bool {
    &&& 0 <= k <= s.len()
    &&& forall|i: int| 0 <= i < k ==> eligible(#[trigger] s[i], before)
    &&& forall|i: int| k <= i < s.len() ==> !eligible(#[trigger] s[i], before)
}

/// Length of the eligible prefix of `s`, scanning down from the top until
/// an eligible tweet appears.
pub open spec fn cut_of(s: Seq<TweetV>, before: Option<Cursor>) -> int
    decreases s.len(),
{
    if s.len() == 0 {
        0
    } else if !eligible(s.last(), before) {
        cut_of(s.drop_last(), before)
    } else {
        s.len() as int
    }
}

/// How many tweets a page holds when `k` are eligible: `lim`, or all of
/// them when fewer remain.
pub open spec fn page_len(lim: int, k: int) -> int {
    if k < lim {
        k
    } else {
        lim
    }
}

/// The page itself: the top `page_len` eligible tweets, highest key first.
pub open spec fn page_items(s: Seq<TweetV>, lim: int, k: int) -> Seq<TweetV> {
    s.subrange(k - page_len(lim, k), k).reverse()
}

/// The resumption key: the key of the last tweet of a full page, and
/// absent when the page ran short (the timeline is exhausted).
pub open spec fn page_next(s: Seq<TweetV>, lim: int, k: int) -> Option<Cursor> {
    if k >= lim {
        Some(key_of(s[k - lim]))
    } else {
        None
    }
}

/// Everything the pager will ever hand out from eligible-prefix `k` on,
/// page after page, each page resumed at the previous one's end.
pub open spec fn pages_from(s: Seq<TweetV>, lim: int, k: int) -> Seq<TweetV>
    decreases k when lim >= 1
{
    if k <= 0 {
        Seq::empty()
    } else {
        page_items(s, lim, k) + pages_from(s, lim, k - page_len(lim, k))
    }
}

/// In a sorted timeline the eligible tweets form a prefix, and `cut_of`
/// finds exactly its length.
pub proof fn lemma_cut_sound(s: Seq<TweetV>, before: Option<Cursor>)
    requires
        sorted_keys(s),
    ensures
        is_cut(s, before, cut_of(s, before)),
    decreases s.len(),
{
    if s.len() == 0 {
    } else if !eligible(s.last(), before) {
        let d = s.drop_last();
        assert(forall|i: int| 0 <= i < d.len() ==> d[i] == s[i]);
        lemma_cut_sound(d, before);
    } else {
        assert forall|i: int| 0 <= i < s.len() implies eligible(#[trigger] s[i], before) by {
            if i < s.len() - 1 {
                assert(cursor_lt(key_of(s[i]), key_of(s.last())));
            }
        }
    }
}

/// The cut is unique: two indices that both split eligible from
/// ineligible coincide.
pub proof fn lemma_cut_unique(s: Seq<TweetV>, before: Option<Cursor>, k1: int, k2: int)
    requires
        is_cut(s, before, k1),
        is_cut(s, before, k2),
    ensures
        k1 == k2,
{
    if k1 < k2 {
        assert(eligible(s[k1], before));
        assert(!eligible(s[k1], before));
    }
    if k2 < k1 {
        assert(eligible(s[k2], before));
        assert(!eligible(s[k2], before));
    }
}

/// A cursor issued for the tweet at position `j` resumes exactly below
/// it: the eligible prefix is `s[..j]`.
pub proof fn lemma_issued_cursor_cut(s: Seq<TweetV>, j: int)
    requires
        sorted_keys(s),
        0 <= j < s.len(),
    ensures
        cut_of(s, Some(key_of(s[j]))) == j,
{
    let b = Some(key_of(s[j]));
    lemma_cut_sound(s, b);
    assert(is_cut(s, b, j));
    lemma_cut_unique(s, b, cut_of(s, b), j);
}

/// Law: resuming at a full page's `next_cursor` continues exactly where
/// the page ended — the eligible prefix shrinks by precisely one page,
/// so nothing is skipped and nothing repeats between successive pages.
pub proof fn lemma_next_cursor_resumes(s: Seq<TweetV>, lim: int, before: Option<Cursor>)
    requires
        lim >= 1,
        sorted_keys(s),
        page_next(s, lim, cut_of(s, before)) is Some,
    ensures
        cut_of(s, Some(page_next(s, lim, cut_of(s, before))->0)) == cut_of(s, before) - lim,
{
    let k = cut_of(s, before);
    lemma_cut_sound(s, before);
    lemma_issued_cursor_cut(s, k - lim);
}

proof fn lemma_pages_from_take(s: Seq<TweetV>, lim: int, k: int)
    requires
        lim >= 1,
        0 <= k <= s.len(),
    ensures
        pages_from(s, lim, k) =~= s.take(k).reverse(),
    decreases k,
{
    if k <= 0 {
        assert(s.take(0).reverse() =~= Seq::<TweetV>::empty());
    } else {
        let l = page_len(lim, k);
        lemma_pages_from_take(s, lim, k - l);
        assert(pages_from(s, lim, k) =~= s.take(k).reverse()) by {
            assert(forall|i: int|
                0 <= i < l ==> page_items(s, lim, k)[i] == #[trigger] s.take(k).reverse()[i]);
            assert(forall|i: int|
                l <= i < k ==> pages_from(s, lim, k - l)[i - l] == #[trigger] s.take(
                    k,
                ).reverse()[i]);
        }
    }
}

/// Totality of keyset pagination: starting from the top and feeding each
/// page's `next_cursor` into the next request yields every tweet exactly
/// once — the concatenation of all pages is the whole timeline, highest
/// key first — and, the timeline being sorted, in strictly decreasing
/// composite-key order with no duplicates and no gaps, whatever the page
/// size.
pub proof fn lemma_pagination_totality(s: Seq<TweetV>, lim: int)
    requires
        lim >= 1,
        sorted_keys(s),
    ensures
        pages_from(s, lim, s.len() as int) == s.reverse(),
        forall|i: int, j: int|
            #![trigger s.reverse()[i], s.reverse()[j]]
            0 <= i < j < s.len() ==> cursor_lt(
                key_of(s.reverse()[j]),
                key_of(s.reverse()[i]),
            ),
{
    lemma_pages_from_take(s, lim, s.len() as int);
    assert(s.take(s.len() as int) =~= s);
}

/// Stability of issued pages: once a cursor exists, appending a tweet
/// with a higher key than everything stored changes neither the items
/// nor the next cursor of the page that cursor resumes.
pub proof fn lemma_page_stability(s: Seq<TweetV>, t: TweetV, lim: int, c: Cursor)
    requires
        lim >= 1,
        sorted_keys(s),
        forall|i: int| 0 <= i < s.len() ==> cursor_lt(key_of(#[trigger] s[i]), key_of(t)),
        exists|j: int| 0 <= j < s.len() && c == key_of(#[trigger] s[j]),
    ensures
        cut_of(s.push(t), Some(c)) == cut_of(s, Some(c)),
        page_items(s.push(t), lim, cut_of(s.push(t), Some(c))) == page_items(
            s,
            lim,
            cut_of(s, Some(c)),
        ),
        page_next(s.push(t), lim, cut_of(s.push(t), Some(c))) == page_next(
            s,
            lim,
            cut_of(s, Some(c)),
        ),
{
    let j = choose|j: int| 0 <= j < s.len() && c == key_of(#[trigger] s[j]);
    assert(cursor_lt(key_of(s[j]), key_of(t)));
    assert(!eligible(t, Some(c)));
    let p = s.push(t);
    assert(p.last() == t);
    assert(p.drop_last() =~= s);
    assert(cut_of(p, Some(c)) == cut_of(s, Some(c)));
    let k = cut_of(s, Some(c));
    lemma_cut_sound(s, Some(c));
    assert(0 <= k <= s.len());
    assert(0 <= k - page_len(lim, k));
    assert(p.subrange(k - page_len(lim, k), k) =~= s.subrange(k - page_len(lim, k), k));
    if k >= lim {
        assert(p[k - lim] == s[k - lim]);
    }
}

} // verus!
