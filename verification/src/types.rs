//! The plain vocabulary of the engine: users, roles, trust tiers and the
//! classification of audit records.

use vstd::prelude::*;

verus! {

/// The role a membership carries inside its group.
#[derive(Clone, Copy, Debug, PartialEq, Eq, Structural)]
pub enum RoleType {
    Admin,
    Curator,
    Member,
}

/// The trust tier of a group or of a user, from the least to the most
/// restricted population.
#[derive(Clone, Copy, Debug, PartialEq, Eq, Structural)]
pub enum TrustType {
    Public,
    Authenticated,
    Vouched,
    Ndaed,
    Staff,
}

/// How a group takes in new members.
#[derive(Clone, Copy, Debug, PartialEq, Eq, Structural)]
pub enum GroupType {
    Closed,
    Reviewed,
    Open,
}

/// The kind of record an audit entry is about.
#[derive(Clone, Copy, Debug, PartialEq, Eq, Structural)]
pub enum LogTargetType {
    Group,
    Terms,
    Membership,
    Role,
    Invitation,
    Request,
}

/// What an audited operation did to its target.
#[derive(Clone, Copy, Debug, PartialEq, Eq, Structural)]
pub enum LogOperationType {
    Created,
    Deleted,
    Updated,
}

/// The identifier of the system actor: the nil UUID, all 128 bits zero.
pub const SYSTEM_UUID: u128 = 0;

/// A user, known to the engine by the 128-bit value of its UUID alone.
#[derive(Clone, Copy, Debug, PartialEq, Eq, Structural)]
pub struct User {
    pub user_uuid: u128,
}

/// The nil UUID as a 128-bit value, made by `uuid::Uuid::nil` and read with
/// `Uuid::as_u128`. The crate documents the nil UUID as the one with all 128
/// bits set to zero.
#[verifier::external_body]
fn nil_uuid() -> (value: u128)
    ensures
        value == 0,
{
    uuid::Uuid::nil().as_u128()
}

impl User {
    /// The reserved actor that stands for the system itself. It hosts every
    /// action that no person initiated, such as the expiration sweep.
    pub fn system() -> (r: User)
        ensures
            r.user_uuid == SYSTEM_UUID,
    {
        User { user_uuid: nil_uuid() }
    }

    /// Whether this is the system actor.
    pub fn is_system(&self) -> (r: bool)
        ensures
            r == (self.user_uuid == SYSTEM_UUID),
    {
        self.user_uuid == SYSTEM_UUID
    }
}

impl Default for User {
    /// The default user is the system actor.
    fn default() -> (r: User)
        ensures
            r.user_uuid == SYSTEM_UUID,
    {
        User::system()
    }
}

impl TrustType {
    /// The rank of the tier: 0 for `Public` up to 4 for `Staff`.
    pub open spec fn rank(self) -> int {
        match self {
            TrustType::Public => 0,
            TrustType::Authenticated => 1,
            TrustType::Vouched => 2,
            TrustType::Ndaed => 3,
            TrustType::Staff => 4,
        }
    }

    /// The rank of the tier as a number.
    pub fn level(&self) -> (r: u8)
        ensures
            r == self.rank(),
    {
        match self {
            TrustType::Public => 0,
            TrustType::Authenticated => 1,
            TrustType::Vouched => 2,
            TrustType::Ndaed => 3,
            TrustType::Staff => 4,
        }
    }

    /// Whether a holder of this tier may see what is restricted to `needed`.
    pub fn covers(&self, needed: &TrustType) -> (r: bool)
        ensures
            r == (self.rank() >= needed.rank()),
    {
        self.level() >= needed.level()
    }
}

impl RoleType {
    /// Whether the role carries curator or admin standing.
    pub open spec fn is_elevated(self) -> bool {
        self != RoleType::Member
    }

    /// Whether the role carries curator or admin standing.
    pub fn elevated(&self) -> (r: bool)
        ensures
            r == self.is_elevated(),
    {
        match self {
            RoleType::Member => false,
            _ => true,
        }
    }
}

} // verus!
