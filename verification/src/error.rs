//! The errors of the engine and their place in the error taxonomy.

use vstd::prelude::*;

verus! {

/// The categories under which every failure is reported to a caller.
#[derive(Clone, Copy, Debug, PartialEq, Eq, Structural)]
pub enum ErrorKind {
    NotFound,
    Conflict,
    Storage,
    Sync,
    Upstream,
}

/// A failure of an engine operation.
#[derive(Clone, Copy, Debug, PartialEq, Eq, Structural)]
pub enum PacksError {
    /// No group carries the given name or id.
    GroupNotFound,
    /// No profile is known for the given user.
    UserNotFound,
    /// The group lacks the role that the operation needs.
    RoleNotFound,
    /// The user holds no membership in the group.
    MembershipNotFound,
    /// No pending request matches.
    RequestNotFound,
    /// A role would be assigned or created against the rule that a group owns
    /// exactly one member role and one admin role, and only its own roles.
    RoleInvariantViolation,
    /// The group name is taken.
    GroupNameTaken,
    /// The actor lacks the standing that the operation asks for.
    NotAllowed,
    /// The store cannot take another record.
    StorageError,
    /// The identity service failed after the local change was committed.
    SyncError,
    /// The identity service failed on a read that had to precede the change.
    UpstreamError,
    /// A transfer took the membership from the old holder and failed to
    /// establish it for the new one.
    TransferIncomplete,
}

/// Whether `r` is the failure `e`.
pub open spec fn failed_with<T>(r: Result<T, PacksError>, e: PacksError) -> bool {
    r matches Err(got) && got == e
}

impl PacksError {
    /// The category of the error.
    pub open spec fn spec_kind(self) -> ErrorKind {
        match self {
            PacksError::GroupNotFound => ErrorKind::NotFound,
            PacksError::UserNotFound => ErrorKind::NotFound,
            PacksError::RoleNotFound => ErrorKind::NotFound,
            PacksError::MembershipNotFound => ErrorKind::NotFound,
            PacksError::RequestNotFound => ErrorKind::NotFound,
            PacksError::RoleInvariantViolation => ErrorKind::Conflict,
            PacksError::GroupNameTaken => ErrorKind::Conflict,
            PacksError::NotAllowed => ErrorKind::Conflict,
            PacksError::StorageError => ErrorKind::Storage,
            PacksError::SyncError => ErrorKind::Sync,
            PacksError::UpstreamError => ErrorKind::Upstream,
            PacksError::TransferIncomplete => ErrorKind::Sync,
        }
    }

    /// The category of the error.
    pub fn kind(&self) -> (r: ErrorKind)
        ensures
            r == self.spec_kind(),
    {
        match self {
            PacksError::GroupNotFound => ErrorKind::NotFound,
            PacksError::UserNotFound => ErrorKind::NotFound,
            PacksError::RoleNotFound => ErrorKind::NotFound,
            PacksError::MembershipNotFound => ErrorKind::NotFound,
            PacksError::RequestNotFound => ErrorKind::NotFound,
            PacksError::RoleInvariantViolation => ErrorKind::Conflict,
            PacksError::GroupNameTaken => ErrorKind::Conflict,
            PacksError::NotAllowed => ErrorKind::Conflict,
            PacksError::StorageError => ErrorKind::Storage,
            PacksError::SyncError => ErrorKind::Sync,
            PacksError::UpstreamError => ErrorKind::Upstream,
            PacksError::TransferIncomplete => ErrorKind::Sync,
        }
    }

    /// Whether the local state was already changed when the error arose, so
    /// that only the call to the identity service may be tried again.
    pub fn after_commit(&self) -> (r: bool)
        ensures
            r == (self.spec_kind() == ErrorKind::Sync),
    {
        match self {
            PacksError::SyncError => true,
            PacksError::TransferIncomplete => true,
            _ => false,
        }
    }
}

impl PacksError {
    /// What the error says, in words.
    pub open spec fn spec_message(self) -> Seq<char> {
        match self {
            PacksError::GroupNotFound => "group not found"@,
            PacksError::UserNotFound => "user not found"@,
            PacksError::RoleNotFound => "role not found"@,
            PacksError::MembershipNotFound => "membership not found"@,
            PacksError::RequestNotFound => "request not found"@,
            PacksError::RoleInvariantViolation => "role does not fit the group"@,
            PacksError::GroupNameTaken => "group name is taken"@,
            PacksError::NotAllowed => "not allowed"@,
            PacksError::StorageError => "storage error"@,
            PacksError::SyncError => "profile update failed after the change was made"@,
            PacksError::UpstreamError => "identity service failed"@,
            PacksError::TransferIncomplete => "transfer left the subject without membership"@,
        }
    }

    /// What the error says, in words.
    pub fn message(&self) -> (r: &'static str)
        ensures
            r@ == self.spec_message(),
    {
        match self {
            PacksError::GroupNotFound => "group not found",
            PacksError::UserNotFound => "user not found",
            PacksError::RoleNotFound => "role not found",
            PacksError::MembershipNotFound => "membership not found",
            PacksError::RequestNotFound => "request not found",
            PacksError::RoleInvariantViolation => "role does not fit the group",
            PacksError::GroupNameTaken => "group name is taken",
            PacksError::NotAllowed => "not allowed",
            PacksError::StorageError => "storage error",
            PacksError::SyncError => "profile update failed after the change was made",
            PacksError::UpstreamError => "identity service failed",
            PacksError::TransferIncomplete => "transfer left the subject without membership",
        }
    }
}

/// An error as an administrative caller sees it: its category and the
/// error itself.
#[derive(Clone, Copy, Debug, PartialEq, Eq, Structural)]
pub struct ApiError {
    pub kind: ErrorKind,
    pub error: PacksError,
}

/// The error `e` as an administrative caller sees it.
pub open spec fn api_error(e: PacksError) -> ApiError {
    ApiError { kind: e.spec_kind(), error: e }
}

/// The result `r` without the category of its error.
pub open spec fn plain<T>(r: Result<T, ApiError>) -> Result<T, PacksError> {
    match r {
        Ok(t) => Ok(t),
        Err(a) => Err(a.error),
    }
}

/// Whether the error of `r`, if it has one, carries its own category.
pub open spec fn categorized<T>(r: Result<T, ApiError>) -> bool {
    r matches Err(a) ==> a == api_error(a.error)
}

impl ApiError {
    /// The error `e` as an administrative caller sees it.
    pub fn of(e: PacksError) -> (r: ApiError)
        ensures
            r == api_error(e),
    {
        ApiError { kind: e.kind(), error: e }
    }

    /// Hands a result to an administrative caller.
    pub fn wrap<T>(r: Result<T, PacksError>) -> (out: Result<T, ApiError>)
        ensures
            plain(out) == r,
            categorized(out),
    {
        match r {
            Ok(t) => Ok(t),
            Err(e) => Err(ApiError::of(e)),
        }
    }
}

} // verus!
