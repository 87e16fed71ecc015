//! The data that the server sends and the client keeps.

use vstd::prelude::*;

verus! {

/// `serde_json::Value`: an arbitrary JSON document, carried through unread.
#[verifier::external_type_specification]
#[verifier::external_body]
pub struct ExJsonValue(serde_json::Value);

/// How urgent a notification is.
#[derive(Debug, Clone, Copy, PartialEq, Eq, Structural)]
pub enum Priority {
    Low,
    Medium,
    High,
    Critical,
}

/// Where a notification stands for its reader.
#[derive(Debug, Clone, Copy, PartialEq, Eq, Structural)]
pub enum Status {
    Unread,
    Read,
    Archived,
}

/// A notification as the server describes it.
#[derive(Debug, Clone)]
pub struct Notification {
    pub id: String,
    pub user_id: String,
    pub title: String,
    pub message: Option<String>,
    pub priority: Priority,
    pub status: Status,
    pub source: Option<String>,
    pub created_at: String,
    pub read_at: Option<String>,
    pub metadata: Option<serde_json::Value>,
}

/// One page of a notification listing.
#[derive(Debug, Clone)]
pub struct PaginatedNotifications {
    pub items: Vec<Notification>,
    pub total: i64,
    pub limit: i64,
    pub offset: i64,
}

/// The account that an API token belongs to.
#[derive(Debug, Clone)]
pub struct UserResponse {
    pub id: String,
    pub email: String,
    pub name: String,
    pub created_at: String,
    pub last_login_at: String,
}

/// A change of a notification's status, pushed by the server.
#[derive(Debug, Clone)]
pub struct StatusChangeEvent {
    pub id: String,
    pub status: Status,
}

} // verus!
