//! Follow-graph consistency engine.
//!
//! The state is a set of directed edges; per ordered pair it is a
//! two-state machine, Absent or Present.  The rules: no self-follow
//! ever, a duplicate follow is rejected (not absorbed), an unfollow of
//! an absent edge is rejected.  The check and the write are one atomic
//! step against this store, so the edge-set invariants — no self-loop,
//! no duplicate pair — hold at all times.

use vstd::prelude::*;
use crate::errors::FollowServiceError;

verus! {

/// Request body of follow and unfollow.
pub struct FollowRequest {
    pub follower_id: i32,
    pub following_id: i32,
}

/// A directed follow edge: `follower_id` follows `following_id`.
#[derive(Clone, Copy, Debug, PartialEq, Eq, Structural)]
pub struct FollowEdge {
    pub follower_id: i32,
    pub following_id: i32,
}

/// The transition a follow request makes on the edge set: rejected as a
/// self-follow before anything else, then as a duplicate; otherwise the
/// edge becomes Present.
pub open spec fn follow_step(edges: Set<FollowEdge>, a: i32, b: i32) -> (
    Set<FollowEdge>,
    Result<(), FollowServiceError>,
) {
    let e = FollowEdge { follower_id: a, following_id: b };
    if a == b {
        (edges, Err(FollowServiceError::CannotFollowSelf))
    } else if edges.contains(e) {
        (edges, Err(FollowServiceError::AlreadyFollowing))
    } else {
        (edges.insert(e), Ok(()))
    }
}

/// The transition an unfollow request makes: rejected when the edge is
/// Absent, otherwise the edge becomes Absent.
pub open spec fn unfollow_step(edges: Set<FollowEdge>, a: i32, b: i32) -> (
    Set<FollowEdge>,
    Result<(), FollowServiceError>,
) {
    let e = FollowEdge { follower_id: a, following_id: b };
    if !edges.contains(e) {
        (edges, Err(FollowServiceError::NotFollowing))
    } else {
        (edges.remove(e), Ok(()))
    }
}

/// The relationship store together with its consistency gate.
pub struct FollowService {
    pub edges: Vec<FollowEdge>,
}

impl FollowService {
    /// Ghost image of the store: the set of Present edges.
    pub open spec fn edge_set(&self) -> Set<FollowEdge> {
        self.edges@.to_set()
    }

    /// Well-formedness: no pair is stored twice, and no edge is a
    /// self-loop.
    pub open spec fn wf(&self) -> bool {
        let s = self.edges@;
        &&& forall|i: int, j: int| #![trigger s[i], s[j]] 0 <= i < j < s.len() ==> s[i] != s[j]
        &&& forall|i: int|
            0 <= i < s.len() ==> (#[trigger] s[i]).follower_id != s[i].following_id
    }

    /// An empty relationship store.
    pub fn new() -> (s: Self)
        ensures
            s.wf(),
            s.edge_set() == Set::<FollowEdge>::empty(),
    {
        let s = FollowService { edges: Vec::new() };
        proof {
            assert(s.edge_set() =~= Set::<FollowEdge>::empty());
        }
        s
    }

    /// Is the edge `(follower_id, following_id)` Present?
    pub fn is_following(&self, follower_id: i32, following_id: i32) -> (b: bool)
        ensures
            b == self.edge_set().contains(
                FollowEdge { follower_id, following_id },
            ),
    {
        let e = FollowEdge { follower_id, following_id };
        let n = self.edges.len();
        let mut i: usize = 0;
        while i < n
            invariant
                0 <= i <= n,
                n == self.edges@.len(),
                e == (FollowEdge { follower_id, following_id }),
                forall|j: int| 0 <= j < i ==> self.edges@[j] != e,
            decreases n - i,
        {
            if self.edges[i] == e {
                assert(self.edges@.contains(e));
                return true;
            }
            i = i + 1;
        }
        assert(!self.edges@.contains(e));
        false
    }

    /// Follow: one atomic check-then-act step against the store, so the
    /// uniqueness rule cannot be raced past it.
    pub fn follow(&mut self, follower_id: i32, following_id: i32) -> (r: Result<
        (),
        FollowServiceError,
    >)
        requires
            old(self).wf(),
        ensures
            final(self).wf(),
            final(self).edge_set() == follow_step(
                old(self).edge_set(),
                follower_id,
                following_id,
            ).0,
            r == follow_step(old(self).edge_set(), follower_id, following_id).1,
    {
        if follower_id == following_id {
            return Err(FollowServiceError::CannotFollowSelf);
        }
        if self.is_following(follower_id, following_id) {
            return Err(FollowServiceError::AlreadyFollowing);
        }
        let e = FollowEdge { follower_id, following_id };
        proof {
            assert(!old(self).edges@.contains(e));
        }
        self.edges.push(e);
        proof {
            old(self).edges@.lemma_push_to_set_commute(e);
            let s = self.edges@;
            assert forall|i: int, j: int| #![trigger s[i], s[j]] 0 <= i < j < s.len() implies s[i]
                != s[j] by {
                if j == s.len() - 1 {
                    assert(old(self).edges@[i] == s[i]);
                    assert(old(self).edges@.contains(s[i]));
                }
            }
        }
        Ok(())
    }

    /// Unfollow: rejected when the edge is Absent, otherwise the edge
    /// is removed in the same atomic step that observed it.
    pub fn unfollow(&mut self, follower_id: i32, following_id: i32) -> (r: Result<
        (),
        FollowServiceError,
    >)
        requires
            old(self).wf(),
        ensures
            final(self).wf(),
            final(self).edge_set() == unfollow_step(
                old(self).edge_set(),
                follower_id,
                following_id,
            ).0,
            r == unfollow_step(old(self).edge_set(), follower_id, following_id).1,
    {
        let e = FollowEdge { follower_id, following_id };
        let n = self.edges.len();
        let mut i: usize = 0;
        while i < n
            invariant
                0 <= i <= n,
                old(self).wf(),
                self.edges@ == old(self).edges@,
                n == self.edges@.len(),
                e == (FollowEdge { follower_id, following_id }),
                forall|j: int| 0 <= j < i ==> self.edges@[j] != e,
            decreases n - i,
        {
            if self.edges[i] == e {
                assert(self.edges@.contains(e));
                self.edges.remove(i);
                proof {
                    lemma_remove_at_to_set(old(self).edges@, i as int);
                    let s = self.edges@;
                    let o = old(self).edges@;
                    assert forall|p: int, q: int|
                        #![trigger s[p], s[q]]
                        0 <= p < q < s.len() implies s[p] != s[q] by {
                        let p2 = if p < i { p } else { p + 1 };
                        let q2 = if q < i { q } else { q + 1 };
                        assert(s[p] == o[p2]);
                        assert(s[q] == o[q2]);
                    }
                    assert forall|p: int|
                        0 <= p < s.len() implies (#[trigger] s[p]).follower_id
                        != s[p].following_id by {
                        let p2 = if p < i { p } else { p + 1 };
                        assert(s[p] == o[p2]);
                    }
                }
                return Ok(());
            }
            i = i + 1;
        }
        assert(!self.edges@.contains(e));
        Err(FollowServiceError::NotFollowing)
    }
}

/// Removing position `i` from a duplicate-free sequence removes exactly
/// that element from its set image.
proof fn lemma_remove_at_to_set(s: Seq<FollowEdge>, i: int)
    requires
        0 <= i < s.len(),
        forall|p: int, q: int| #![trigger s[p], s[q]] 0 <= p < q < s.len() ==> s[p] != s[q],
    ensures
        s.remove(i).to_set() == s.to_set().remove(s[i]),
{
    let lhs = s.remove(i).to_set();
    let rhs = s.to_set().remove(s[i]);
    assert forall|x: FollowEdge| lhs.contains(x) implies rhs.contains(x) by {
        let j = choose|j: int| 0 <= j < s.remove(i).len() && s.remove(i)[j] == x;
        let j2 = if j < i { j } else { j + 1 };
        assert(s[j2] == x);
        assert(s.contains(x));
        assert(x != s[i]);
    }
    assert forall|x: FollowEdge| rhs.contains(x) implies lhs.contains(x) by {
        let j = choose|j: int| 0 <= j < s.len() && s[j] == x;
        if j < i {
            assert(s.remove(i)[j] == x);
        } else {
            assert(j > i);
            assert(s.remove(i)[j - 1] == x);
        }
        assert(s.remove(i).contains(x));
    }
    assert(lhs =~= rhs);
}

/// Law: a self-follow always fails with `CannotFollowSelf` and changes
/// nothing, whatever the state.
pub proof fn lemma_self_follow_rejected(edges: Set<FollowEdge>, a: i32)
    ensures
        follow_step(edges, a, a).0 == edges,
        follow_step(edges, a, a).1 == Err::<(), FollowServiceError>(
            FollowServiceError::CannotFollowSelf,
        ),
{
}

/// Law: after a successful follow, following the same pair again fails
/// with `AlreadyFollowing` and changes nothing.
pub proof fn lemma_duplicate_follow_rejected(edges: Set<FollowEdge>, a: i32, b: i32)
    requires
        follow_step(edges, a, b).1 is Ok,
    ensures
        follow_step(follow_step(edges, a, b).0, a, b).0 == follow_step(edges, a, b).0,
        follow_step(follow_step(edges, a, b).0, a, b).1 == Err::<(), FollowServiceError>(
            FollowServiceError::AlreadyFollowing,
        ),
{
}

/// Law: an unfollow of an edge that is Absent fails with `NotFollowing`
/// and changes nothing.
pub proof fn lemma_unfollow_absent_rejected(edges: Set<FollowEdge>, a: i32, b: i32)
    requires
        !edges.contains(FollowEdge { follower_id: a, following_id: b }),
    ensures
        unfollow_step(edges, a, b).0 == edges,
        unfollow_step(edges, a, b).1 == Err::<(), FollowServiceError>(
            FollowServiceError::NotFollowing,
        ),
{
}

/// Law: from an Absent edge with distinct endpoints, follow, unfollow
/// and follow again all succeed — the pair's machine walks
/// Absent, Present, Absent, Present — and the final state holds the
/// edge.
pub proof fn lemma_follow_unfollow_follow(edges: Set<FollowEdge>, a: i32, b: i32)
    requires
        a != b,
        !edges.contains(FollowEdge { follower_id: a, following_id: b }),
    ensures
        follow_step(edges, a, b).1 is Ok,
        unfollow_step(follow_step(edges, a, b).0, a, b).1 is Ok,
        follow_step(unfollow_step(follow_step(edges, a, b).0, a, b).0, a, b).1 is Ok,
        follow_step(unfollow_step(follow_step(edges, a, b).0, a, b).0, a, b).0 == edges.insert(
            FollowEdge { follower_id: a, following_id: b },
        ),
{
    let e = FollowEdge { follower_id: a, following_id: b };
    assert(edges.insert(e).contains(e));
    assert(edges.insert(e).remove(e) =~= edges);
}

} // verus!
