//! The session record, as the storage core sees it: shape only.
//!
//! Sessions are issued and validated by the authentication collaborator; the
//! core never enforces expiry — it is a plain timestamp comparison made
//! elsewhere. Timestamps are unix seconds.

use vstd::prelude::*;

verus! {

/// One session of one user: a bearer token and its CSRF companion, with
/// creation, update and expiry timestamps. A user has many sessions, and
/// deleting the user deletes them all.
#[derive(Debug)]
pub struct Model {
    pub id: i32,
    pub user_id: i32,
    pub token: String,
    pub csrf: String,
    pub created_at: i64,
    pub updated_at: i64,
    pub expires_at: i64,
}

impl Model {
    /// Whether the session is past its expiry at time `now`.
    pub fn is_expired(&self, now: i64) -> (r: bool)
        ensures
            r == (self.expires_at <= now),
    {
        self.expires_at <= now
    }
}

} // verus!
