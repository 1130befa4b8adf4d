//! The records the store keeps, and the copies the engine hands out.

use vstd::prelude::*;
use crate::clock::Timestamp;
use crate::types::{GroupType, LogOperationType, LogTargetType, RoleType, TrustType, User};

verus! {

/// A named group. The name identifies the group and never changes; the
/// numeric id is what other records refer to.
#[derive(Debug, PartialEq, Eq)]
pub struct Group {
    pub id: i32,
    pub name: String,
    pub typ: GroupType,
    pub trust: TrustType,
    pub description: String,
    pub group_expiration: Option<i32>,
    pub created: Timestamp,
    pub terms: String,
    pub invitation_email: String,
    /// Whether the group is in use. A group that saw no activity is marked
    /// inactive before it is deleted for good.
    pub active: bool,
}

impl Clone for Group {
    fn clone(&self) -> (r: Group)
        ensures
            r == *self,
    {
        Group {
            id: self.id,
            name: self.name.clone(),
            typ: self.typ,
            trust: self.trust,
            description: self.description.clone(),
            group_expiration: self.group_expiration,
            created: self.created,
            terms: self.terms.clone(),
            invitation_email: self.invitation_email.clone(),
            active: self.active,
        }
    }
}

/// What a caller supplies to create a group.
#[derive(Debug, PartialEq, Eq)]
pub struct NewGroup {
    pub name: String,
    pub typ: GroupType,
    pub description: String,
    pub trust: TrustType,
    pub group_expiration: Option<i32>,
}

/// A role of one group.
#[derive(Debug, PartialEq, Eq)]
pub struct Role {
    pub id: i32,
    pub group_id: i32,
    pub typ: RoleType,
    pub name: String,
}

impl Clone for Role {
    fn clone(&self) -> (r: Role)
        ensures
            r == *self,
    {
        Role { id: self.id, group_id: self.group_id, typ: self.typ, name: self.name.clone() }
    }
}

/// The fact that a user belongs to a group: the role held, when the
/// membership lapses, and who added the user when.
#[derive(Clone, Copy, Debug, PartialEq, Eq, Structural)]
pub struct Membership {
    pub user_uuid: u128,
    pub group_id: i32,
    pub role_id: i32,
    pub expiration: Option<Timestamp>,
    pub added_by: u128,
    pub added_ts: Timestamp,
}

/// What the store caches of a user's profile.
#[derive(Debug, PartialEq, Eq)]
pub struct UserProfile {
    pub user_uuid: u128,
    /// The login id under which the identity service knows the user.
    pub user_id: String,
    pub picture: String,
    pub first_name: String,
    pub last_name: String,
    pub username: String,
    pub email: String,
    pub trust: TrustType,
}

impl Clone for UserProfile {
    fn clone(&self) -> (r: UserProfile)
        ensures
            r == *self,
    {
        UserProfile {
            user_uuid: self.user_uuid,
            user_id: self.user_id.clone(),
            picture: self.picture.clone(),
            first_name: self.first_name.clone(),
            last_name: self.last_name.clone(),
            username: self.username.clone(),
            email: self.email.clone(),
            trust: self.trust,
        }
    }
}

impl UserProfile {
    /// The user the profile belongs to.
    pub fn user(&self) -> (r: User)
        ensures
            r.user_uuid == self.user_uuid,
    {
        User { user_uuid: self.user_uuid }
    }
}

/// A pending invitation of a user into a group.
#[derive(Clone, Copy, Debug, PartialEq, Eq, Structural)]
pub struct Invitation {
    pub group_id: i32,
    pub user_uuid: u128,
    pub invitation_expiration: Option<Timestamp>,
    pub group_expiration: Option<i32>,
    pub added_by: u128,
}

/// A pending request of a user to join a group.
#[derive(Clone, Copy, Debug, PartialEq, Eq, Structural)]
pub struct Request {
    pub group_id: i32,
    pub user_uuid: u128,
    pub request_expiration: Option<Timestamp>,
}

/// One entry of the audit log.
#[derive(Debug, PartialEq, Eq)]
pub struct LogEntry {
    pub group_id: i32,
    pub host_uuid: u128,
    pub user_uuid: Option<u128>,
    pub target: LogTargetType,
    pub operation: LogOperationType,
    pub body: Option<String>,
}

/// The mathematical content of a [`LogEntry`].
pub struct LogEntryView {
    pub group_id: i32,
    pub host_uuid: u128,
    pub user_uuid: Option<u128>,
    pub target: LogTargetType,
    pub operation: LogOperationType,
    pub body: Option<Seq<char>>,
}

impl View for LogEntry {
    type V = LogEntryView;

    open spec fn view(&self) -> LogEntryView {
        LogEntryView {
            group_id: self.group_id,
            host_uuid: self.host_uuid,
            user_uuid: self.user_uuid,
            target: self.target,
            operation: self.operation,
            body: text_of(self.body),
        }
    }
}

impl Clone for LogEntry {
    fn clone(&self) -> (r: LogEntry)
        ensures
            r@ == self@,
    {
        LogEntry {
            group_id: self.group_id,
            host_uuid: self.host_uuid,
            user_uuid: self.user_uuid,
            target: self.target,
            operation: self.operation,
            body: clone_text(&self.body),
        }
    }
}

/// The mathematical content of the audit log.
pub open spec fn log_view(logs: Seq<LogEntry>) -> Seq<LogEntryView> {
    logs.map_values(|e: LogEntry| e@)
}

/// A copy of an optional text.
pub fn clone_text(text: &Option<String>) -> (r: Option<String>)
    ensures
        text_of(r) == text_of(*text),
{
    match text {
        Some(s) => Some(s.clone()),
        None => None,
    }
}

/// Who acts on which group, and on which user if any: the part of an audit
/// entry that is known before the operation runs.
#[derive(Clone, Copy, Debug, PartialEq, Eq, Structural)]
pub struct LogContext {
    pub group_id: i32,
    pub host_uuid: u128,
    pub user_uuid: Option<u128>,
}

impl LogContext {
    /// The context of an action of `host_uuid` on the group `group_id`.
    pub fn with(group_id: i32, host_uuid: u128) -> (r: LogContext)
        ensures
            r == (LogContext { group_id, host_uuid, user_uuid: None }),
    {
        LogContext { group_id, host_uuid, user_uuid: None }
    }

    /// The same context, with `user_uuid` as the user acted upon.
    pub fn with_user(self, user_uuid: u128) -> (r: LogContext)
        ensures
            r == (LogContext { user_uuid: Some(user_uuid), ..self }),
    {
        LogContext { group_id: self.group_id, host_uuid: self.host_uuid, user_uuid: Some(user_uuid) }
    }
}

/// The mathematical content of an optional text.
pub open spec fn text_of(body: Option<String>) -> Option<Seq<char>> {
    match body {
        Some(s) => Some(s@),
        None => None,
    }
}

/// The comment of an audit entry that holds the text `body`.
pub fn log_comment_body(body: &str) -> (r: Option<String>)
    ensures
        text_of(r) == Some(body@),
{
    Some(String::from_str(body))
}

/// Whether `membership` has an expiration at or before `instant`.
pub open spec fn expired_by(membership: Membership, instant: Timestamp) -> bool {
    match membership.expiration {
        Some(e) => e.micros <= instant.micros,
        None => false,
    }
}

impl Membership {
    /// Whether the membership has an expiration at or before `instant`.
    pub fn is_expired_by(&self, instant: Timestamp) -> (r: bool)
        ensures
            r == expired_by(*self, instant),
    {
        match self.expiration {
            Some(e) => e.micros <= instant.micros,
            None => false,
        }
    }

    /// The user who holds the membership.
    pub fn user(&self) -> (r: User)
        ensures
            r.user_uuid == self.user_uuid,
    {
        User { user_uuid: self.user_uuid }
    }
}

} // verus!
