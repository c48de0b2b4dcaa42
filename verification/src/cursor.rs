//! The opaque resumption token of the cursor timeline.
//!
//! A cursor is the composite sort key `(created_at, id)` of the last tweet
//! of a page.  On the wire it is exactly
//! `"<RFC 3339 timestamp>|<decimal id>"`; that shape is a compatibility
//! surface, so encoding and parsing are pinned down here character by
//! character.  Parsing is total: any malformed text simply yields no
//! cursor, and the pager then starts from the top.

use vstd::prelude::*;
use vstd::string::StrSliceExecFns;
use vstd::string::StringExecFns;
use crate::digits::dec_rep;
use crate::digits::lemma_dec_roundtrip;
use crate::digits::parse_dec;
use crate::digits::parse_u64_dec;
use crate::digits::u64_to_dec_string;
use crate::rfc3339::MAX_TS_MICROS;
use crate::rfc3339::format_rfc3339_micros;
use crate::rfc3339::parse_rfc3339_micros;
use crate::rfc3339::rfc3339_of;
use crate::rfc3339::rfc3339_parse;

verus! {

/// The composite sort key of a tweet: creation instant in microseconds
/// since the Unix epoch, then the unique id as a tie-breaker.
#[derive(Clone, Copy, Debug, PartialEq, Eq, Structural)]
pub struct Cursor {
    pub ts: i64,
    pub id: u64,
}

impl Cursor {
    /// A cursor the store can have issued: its instant is renderable.
    pub open spec fn wf(self) -> bool {
        0 <= self.ts <= MAX_TS_MICROS
    }
}

/// Strict lexicographic order on composite keys: instant first, id as the
/// tie-breaker.
pub open spec fn cursor_lt(a: Cursor, b: Cursor) -> bool {
    a.ts < b.ts || (a.ts == b.ts && a.id < b.id)
}

/// The exact wire form of a cursor.
pub open spec fn encode_cursor_spec(c: Cursor) -> Seq<char> {
    rfc3339_of(c.ts) + seq!['|'] + dec_rep(c.id as nat)
}

/// Index of the first `'|'` in `s`, or `s.len()` if there is none.
pub open spec fn first_bar(s: Seq<char>) -> int
    decreases s.len(),
{
    if s.len() == 0 {
        0
    } else if s[0] == '|' {
        0
    } else {
        1 + first_bar(s.drop_first())
    }
}

/// What parsing a wire cursor yields: split at the first `'|'`, read the
/// left part as an RFC 3339 instant and the right part as a decimal id;
/// anything else is no cursor at all.
pub open spec fn parse_cursor_spec(s: Seq<char>) -> Option<Cursor> {
    let k = first_bar(s);
    if k == s.len() {
        None
    } else {
        match (rfc3339_parse(s.take(k)), parse_dec(s.skip(k + 1))) {
            (Some(ts), Some(id)) => Some(Cursor { ts, id }),
            _ => None,
        }
    }
}

proof fn lemma_first_bar_at(s: Seq<char>, k: int)
    requires
        0 <= k <= s.len(),
        forall|i: int| 0 <= i < k ==> s[i] != '|',
        k == s.len() || s[k] == '|',
    ensures
        first_bar(s) == k,
    decreases k,
{
    if k == 0 {
    } else {
        assert(s[0] != '|');
        let d = s.drop_first();
        assert(forall|i: int| 0 <= i < k - 1 ==> #[trigger] d[i] != '|');
        lemma_first_bar_at(d, k - 1);
    }
}

/// Renders a cursor in its wire form.  Encoding is injective up to
/// parsing: the produced text parses back to exactly this cursor, which
/// is what lets a caller feed `next_cursor` into the next request.
pub fn encode_cursor(c: Cursor) -> (r: String)
    requires
        c.wf(),
    ensures
        r@ == encode_cursor_spec(c),
        parse_cursor_spec(r@) == Some(c),
{
    let mut r = format_rfc3339_micros(c.ts);
    r.append("|");
    let ids = u64_to_dec_string(c.id);
    r.append(ids.as_str());
    proof {
        reveal_strlit("|");
        let s = encode_cursor_spec(c);
        assert(r@ =~= s);
        let k = rfc3339_of(c.ts).len() as int;
        assert(forall|i: int| 0 <= i < k ==> s[i] != '|');
        assert(s[k] == '|');
        lemma_first_bar_at(s, k);
        assert(s.take(k) =~= rfc3339_of(c.ts));
        assert(s.skip(k + 1) =~= dec_rep(c.id as nat));
        lemma_dec_roundtrip(c.id);
    }
    r
}

/// Parses a wire cursor; total, yielding `None` on malformed text.
pub fn parse_cursor(s: &str) -> (r: Option<Cursor>)
    ensures
        r == parse_cursor_spec(s@),
{
    let n = s.unicode_len();
    let mut k: usize = 0;
    while k < n && s.get_char(k) != '|'
        invariant
            0 <= k <= n,
            n == s@.len(),
            forall|i: int| 0 <= i < k ==> s@[i] != '|',
        decreases n - k,
    {
        k = k + 1;
    }
    proof {
        lemma_first_bar_at(s@, k as int);
    }
    if k == n {
        return None;
    }
    let ts_part = s.substring_char(0, k);
    let id_part = s.substring_char(k + 1, n);
    proof {
        assert(ts_part@ =~= s@.take(k as int));
        assert(id_part@ =~= s@.skip(k + 1));
    }
    match (parse_rfc3339_micros(ts_part), parse_u64_dec(id_part)) {
        (Some(ts), Some(id)) => Some(Cursor { ts, id }),
        _ => None,
    }
}

} // verus!
