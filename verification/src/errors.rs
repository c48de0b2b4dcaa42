//! Error taxonomy of the feed core.
//!
//! Validation errors and domain-rule errors carry a specific reason;
//! all infrastructure failures collapse into a single opaque kind.

use vstd::prelude::*;

verus! {

/// Failure kinds of the tweet paths: creation, point lookup, timelines.
#[derive(Clone, Copy, Debug, PartialEq, Eq, Structural)]
pub enum TweetServiceError {
    /// Content is empty after trimming.
    EmptyContent,
    /// Content exceeds the length bound after trimming.
    ContentTooLong,
    /// No tweet with the requested id exists.
    NotFound,
    /// The underlying store failed.
    DatabaseError,
}

/// Failure kinds of user registration.
#[derive(Clone, Copy, Debug, PartialEq, Eq, Structural)]
pub enum UserServiceError {
    /// Username is empty after trimming.
    EmptyUsername,
    /// The underlying store failed.
    DatabaseError,
}

/// Failure kinds of the follow-graph operations.
#[derive(Clone, Copy, Debug, PartialEq, Eq, Structural)]
pub enum FollowServiceError {
    /// A user may not follow themselves.
    CannotFollowSelf,
    /// The directed edge already exists.
    AlreadyFollowing,
    /// The directed edge does not exist, so there is nothing to remove.
    NotFollowing,
    /// The underlying store failed.
    DatabaseError,
}

} // verus!
