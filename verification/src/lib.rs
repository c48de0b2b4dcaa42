//! Verified core of a small social-feed backend.
//!
//! The crate holds the logic that ordering and consistency depend on:
//! content and username validation, the opaque timeline cursor codec,
//! keyset (cursor-based) timeline pagination over an append-only tweet
//! store, and the follow-graph consistency rules (no self-follow, no
//! duplicate edge, explicit unfollow).  Transport, routing and process
//! startup live outside this crate and talk to it through plain values.

pub mod cursor;
pub mod digits;
pub mod errors;
pub mod follow;
pub mod pager;
pub mod rfc3339;
pub mod tweets;
pub mod users;
pub mod validate;
