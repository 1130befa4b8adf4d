//! The relational state of the engine and its well-formedness.
//!
//! The store holds the tables of groups, roles, memberships, cached user
//! profiles, pending invitations and requests, and the audit log. The rules
//! that the tables obey together are collected in [`Store::wf`]: names and ids
//! identify groups, a pair of group and user identifies a membership, every
//! membership carries a role of its own group, and no group owns two member
//! roles or two admin roles.

use vstd::prelude::*;
use crate::model::{
    log_view, text_of, Group, Invitation, LogContext, LogEntry, LogEntryView, Membership, Request,
    Role, UserProfile,
};
use crate::types::{LogOperationType, LogTargetType, RoleType};

verus! {

/// The whole state that the engine keeps.
#[derive(Debug, PartialEq, Eq)]
pub struct Store {
    pub groups: Vec<Group>,
    pub roles: Vec<Role>,
    pub memberships: Vec<Membership>,
    pub users: Vec<UserProfile>,
    pub invitations: Vec<Invitation>,
    pub requests: Vec<Request>,
    pub logs: Vec<LogEntry>,
    pub next_group_id: i32,
    pub next_role_id: i32,
}

/// The identity of a membership: its group and its user.
pub open spec fn key_of(m: Membership) -> (i32, u128) {
    (m.group_id, m.user_uuid)
}

/// Whether row `i` of `rows` is the membership with identity `k`.
pub open spec fn row_with_key(rows: Seq<Membership>, k: (i32, u128), i: int) -> bool {
    0 <= i < rows.len() && key_of(rows[i]) == k
}

/// Whether no two rows share a group and a user.
pub open spec fn unique_keys(rows: Seq<Membership>) -> bool {
    forall|i: int, j: int|
        #![trigger rows[i], rows[j]]
        0 <= i < j < rows.len() ==> key_of(rows[i]) != key_of(rows[j])
}

/// The membership table as the mapping it stands for: from a group and a
/// user to the membership of that user in that group.
pub open spec fn member_map(rows: Seq<Membership>) -> Map<(i32, u128), Membership> {
    Map::new(
        |k: (i32, u128)| exists|i: int| row_with_key(rows, k, i),
        |k: (i32, u128)| rows[choose|i: int| row_with_key(rows, k, i)],
    )
}

/// Whether row `i` of `groups` is the group called `name`.
pub open spec fn group_at(groups: Seq<Group>, name: Seq<char>, i: int) -> bool {
    0 <= i < groups.len() && groups[i].name@ == name
}

/// Whether row `i` of `groups` is the group with the id `id`.
pub open spec fn group_id_at(groups: Seq<Group>, id: i32, i: int) -> bool {
    0 <= i < groups.len() && groups[i].id == id
}

/// Whether row `k` of `roles` is a role of type `typ` of the group `group_id`.
pub open spec fn role_at(roles: Seq<Role>, group_id: i32, typ: RoleType, k: int) -> bool {
    0 <= k < roles.len() && roles[k].group_id == group_id && roles[k].typ == typ
}

/// Whether row `k` of `roles` is the first role of type `typ` of the group
/// `group_id`.
pub open spec fn first_role_at(roles: Seq<Role>, group_id: i32, typ: RoleType, k: int) -> bool {
    role_at(roles, group_id, typ, k) && forall|j: int|
        0 <= j < k ==> !role_at(roles, group_id, typ, j)
}

/// Whether row `k` of `roles` is the role `role_id`, and a role of the group
/// `group_id`.
pub open spec fn role_id_at(roles: Seq<Role>, role_id: i32, group_id: i32, k: int) -> bool {
    0 <= k < roles.len() && roles[k].id == role_id && roles[k].group_id == group_id
}

/// Whether row `i` of `users` is the profile of `user_uuid`.
pub open spec fn user_at(users: Seq<UserProfile>, user_uuid: u128, i: int) -> bool {
    0 <= i < users.len() && users[i].user_uuid == user_uuid
}

/// Names and ids identify groups, and every id was handed out already.
pub open spec fn groups_wf(groups: Seq<Group>, next_id: i32) -> bool {
    &&& forall|i: int, j: int|
        #![trigger groups[i], groups[j]]
        0 <= i < j < groups.len() ==> groups[i].id != groups[j].id && groups[i].name@
            != groups[j].name@
    &&& forall|i: int| 0 <= i < groups.len() ==> (#[trigger] groups[i]).id < next_id
}

/// Ids identify roles, every role belongs to a group that exists, and a
/// group owns at most one role of each type other than curator.
pub open spec fn roles_wf(roles: Seq<Role>, groups: Seq<Group>, next_id: i32) -> bool {
    &&& forall|i: int, j: int|
        #![trigger roles[i], roles[j]]
        0 <= i < j < roles.len() ==> roles[i].id != roles[j].id
    &&& forall|i: int| 0 <= i < roles.len() ==> (#[trigger] roles[i]).id < next_id
    &&& forall|i: int|
        0 <= i < roles.len() ==> exists|g: int| group_id_at(groups, (#[trigger] roles[i]).group_id, g)
    &&& forall|i: int, j: int|
        #![trigger roles[i], roles[j]]
        0 <= i < j < roles.len() && roles[i].group_id == roles[j].group_id && roles[i].typ
            == roles[j].typ ==> roles[i].typ == RoleType::Curator
}

/// A pair of group and user identifies a membership, and the role of every
/// membership is a role of the membership's own group.
pub open spec fn memberships_wf(rows: Seq<Membership>, roles: Seq<Role>) -> bool {
    &&& unique_keys(rows)
    &&& forall|i: int|
        0 <= i < rows.len() ==> exists|k: int|
            role_id_at(roles, (#[trigger] rows[i]).role_id, rows[i].group_id, k)
}

/// The UUID identifies a cached profile.
pub open spec fn users_wf(users: Seq<UserProfile>) -> bool {
    forall|i: int, j: int|
        #![trigger users[i], users[j]]
        0 <= i < j < users.len() ==> users[i].user_uuid != users[j].user_uuid
}

impl Store {
    /// The rules that the tables obey together.
    pub open spec fn wf(&self) -> bool {
        &&& groups_wf(self.groups@, self.next_group_id)
        &&& roles_wf(self.roles@, self.groups@, self.next_role_id)
        &&& memberships_wf(self.memberships@, self.roles@)
        &&& users_wf(self.users@)
    }

    /// The memberships as a mapping from group and user.
    pub open spec fn members(&self) -> Map<(i32, u128), Membership> {
        member_map(self.memberships@)
    }

    /// Whether a group is called `name`.
    pub open spec fn has_group(&self, name: Seq<char>) -> bool {
        exists|i: int| group_at(self.groups@, name, i)
    }

    /// The row of the group called `name`.
    pub open spec fn group_pos(&self, name: Seq<char>) -> int {
        choose|i: int| group_at(self.groups@, name, i)
    }

    /// The group called `name`.
    pub open spec fn group(&self, name: Seq<char>) -> Group {
        self.groups@[self.group_pos(name)]
    }

    /// The id of the group called `name`.
    pub open spec fn group_id(&self, name: Seq<char>) -> i32 {
        self.group(name).id
    }

    /// Whether a group has the id `id`.
    pub open spec fn has_group_id(&self, id: i32) -> bool {
        exists|i: int| group_id_at(self.groups@, id, i)
    }

    /// The group with the id `id`.
    pub open spec fn group_by_id(&self, id: i32) -> Group {
        self.groups@[choose|i: int| group_id_at(self.groups@, id, i)]
    }

    /// Whether the group `group_id` owns a role of type `typ`.
    pub open spec fn has_role(&self, group_id: i32, typ: RoleType) -> bool {
        exists|k: int| role_at(self.roles@, group_id, typ, k)
    }

    /// The first role of type `typ` of the group `group_id`: the only one
    /// where the type is member or admin.
    pub open spec fn role(&self, group_id: i32, typ: RoleType) -> Role {
        self.roles@[choose|k: int| first_role_at(self.roles@, group_id, typ, k)]
    }

    /// The role with the id `role_id`.
    pub open spec fn role_by_id(&self, role_id: i32) -> Role {
        self.roles@[choose|k: int| 0 <= k < self.roles@.len() && self.roles@[k].id == role_id]
    }

    /// Whether `user_uuid` holds a membership in the group `group_id`.
    pub open spec fn is_member(&self, group_id: i32, user_uuid: u128) -> bool {
        self.members().contains_key((group_id, user_uuid))
    }

    /// Whether a profile is cached for `user_uuid`.
    pub open spec fn has_user(&self, user_uuid: u128) -> bool {
        exists|i: int| user_at(self.users@, user_uuid, i)
    }

    /// The cached profile of `user_uuid`.
    pub open spec fn user(&self, user_uuid: u128) -> UserProfile {
        self.users@[choose|i: int| user_at(self.users@, user_uuid, i)]
    }

    /// Every group owns a member role and an admin role. Together with
    /// [`Store::wf`] it owns exactly one of each.
    pub open spec fn role_invariant(&self) -> bool {
        forall|i: int|
            0 <= i < self.groups@.len() ==> self.has_role(
                (#[trigger] self.groups@[i]).id,
                RoleType::Member,
            ) && self.has_role(self.groups@[i].id, RoleType::Admin)
    }

    /// An empty store. The first group and the first role that it takes in
    /// get the id 1.
    pub fn new() -> (r: Store)
        ensures
            r.wf(),
            r.role_invariant(),
            r.next_group_id == 1,
            r.next_role_id == 1,
            r.groups@.len() == 0,
            r.roles@.len() == 0,
            r.memberships@.len() == 0,
            r.users@.len() == 0,
            r.invitations@.len() == 0,
            r.requests@.len() == 0,
            r.logs@.len() == 0,
            r.members() == Map::<(i32, u128), Membership>::empty(),
    {
        let r = Store {
            groups: Vec::new(),
            roles: Vec::new(),
            memberships: Vec::new(),
            users: Vec::new(),
            invitations: Vec::new(),
            requests: Vec::new(),
            logs: Vec::new(),
            next_group_id: 1,
            next_role_id: 1,
        };
        assert(r.members() =~= Map::<(i32, u128), Membership>::empty());
        r
    }
}

/// Whether the entry records the given actor, subject, target, operation
/// and comment.
pub open spec fn entry_is(
    e: LogEntry,
    ctx: LogContext,
    target: LogTargetType,
    operation: LogOperationType,
    body: Option<Seq<char>>,
) -> bool {
    &&& e.group_id == ctx.group_id
    &&& e.host_uuid == ctx.host_uuid
    &&& e.user_uuid == ctx.user_uuid
    &&& e.target == target
    &&& e.operation == operation
    &&& text_of(e.body) == body
}

/// Whether `after` is `before` with exactly one entry appended, and that
/// entry records the given actor, subject, target, operation and comment.
pub open spec fn log_appended(
    before: Seq<LogEntry>,
    after: Seq<LogEntry>,
    ctx: LogContext,
    target: LogTargetType,
    operation: LogOperationType,
    body: Option<Seq<char>>,
) -> bool {
    &&& after.len() == before.len() + 1
    &&& after.drop_last() == before
    &&& entry_is(after.last(), ctx, target, operation, body)
}

/// The content of the entry that records the given actor, subject, target,
/// operation and comment.
pub open spec fn record(
    ctx: LogContext,
    target: LogTargetType,
    operation: LogOperationType,
    body: Option<Seq<char>>,
) -> LogEntryView {
    LogEntryView {
        group_id: ctx.group_id,
        host_uuid: ctx.host_uuid,
        user_uuid: ctx.user_uuid,
        target,
        operation,
        body,
    }
}

/// An appended entry extends the content of the log by its record.
pub proof fn lemma_log_appended(
    before: Seq<LogEntry>,
    after: Seq<LogEntry>,
    ctx: LogContext,
    target: LogTargetType,
    operation: LogOperationType,
    body: Option<Seq<char>>,
)
    requires
        log_appended(before, after, ctx, target, operation, body),
    ensures
        log_view(after) == log_view(before).push(record(ctx, target, operation, body)),
{
    assert(after.drop_last() == before);
    assert(log_view(after) =~= log_view(before).push(record(ctx, target, operation, body))) by {
        assert(log_view(after).len() == before.len() + 1);
        assert forall|i: int| 0 <= i < before.len() implies log_view(after)[i] == log_view(
            before,
        )[i] by {
            assert(after[i] == after.drop_last()[i]);
        }
        assert(after.last()@ == record(ctx, target, operation, body));
    }
}

impl Store {
    /// Whether the group table is that of `before`.
    pub open spec fn keeps_groups(&self, before: &Store) -> bool {
        self.groups@ == before.groups@ && self.next_group_id == before.next_group_id
    }

    /// Whether the role table is that of `before`.
    pub open spec fn keeps_roles(&self, before: &Store) -> bool {
        self.roles@ == before.roles@ && self.next_role_id == before.next_role_id
    }

    /// Whether the cached profiles, the invitations and the requests are
    /// those of `before`.
    pub open spec fn keeps_people(&self, before: &Store) -> bool {
        &&& self.users@ == before.users@
        &&& self.invitations@ == before.invitations@
        &&& self.requests@ == before.requests@
    }

    /// Whether the store differs from `before` in the audit log at most.
    pub open spec fn keeps_all_but_log(&self, before: &Store) -> bool {
        &&& self.keeps_groups(before)
        &&& self.keeps_roles(before)
        &&& self.keeps_people(before)
        &&& self.memberships@ == before.memberships@
    }

    /// Whether the store differs from `before` in the memberships and the
    /// audit log at most.
    pub open spec fn keeps_all_but_members_and_log(&self, before: &Store) -> bool {
        &&& self.keeps_groups(before)
        &&& self.keeps_roles(before)
        &&& self.keeps_people(before)
    }

    /// The row of the group called `name`, if there is one.
    pub fn find_group(&self, name: &str) -> (r: Option<usize>)
        requires
            self.wf(),
        ensures
            r is Some <==> self.has_group(name@),
            r matches Some(i) ==> group_at(self.groups@, name@, i as int) && self.group_pos(name@)
                == i,
    {
        let key = String::from_str(name);
        let mut i: usize = 0;
        while i < self.groups.len()
            invariant
                self.wf(),
                i <= self.groups.len(),
                key@ == name@,
                forall|j: int| 0 <= j < i ==> !group_at(self.groups@, name@, j),
            decreases self.groups.len() - i,
        {
            if self.groups[i].name == key {
                proof {
                    lemma_group_pos(self.groups@, self.next_group_id, name@, i as int);
                }
                return Some(i);
            }
            i += 1;
        }
        None
    }

    /// The row of the group with the id `id`, if there is one.
    pub fn find_group_by_id(&self, id: i32) -> (r: Option<usize>)
        requires
            self.wf(),
        ensures
            r is Some <==> self.has_group_id(id),
            r matches Some(i) ==> group_id_at(self.groups@, id, i as int) && self.group_by_id(id)
                == self.groups@[i as int],
    {
        let mut i: usize = 0;
        while i < self.groups.len()
            invariant
                self.wf(),
                i <= self.groups.len(),
                forall|j: int| 0 <= j < i ==> !group_id_at(self.groups@, id, j),
            decreases self.groups.len() - i,
        {
            if self.groups[i].id == id {
                proof {
                    assert(group_id_at(self.groups@, id, i as int));
                    lemma_group_by_id(self.groups@, self.next_group_id, id, i as int);
                }
                return Some(i);
            }
            i += 1;
        }
        None
    }

    /// The first role of type `typ` that the group `group_id` owns, if it
    /// owns one.
    pub fn find_role(&self, group_id: i32, typ: RoleType) -> (r: Option<usize>)
        requires
            self.wf(),
        ensures
            r is Some <==> self.has_role(group_id, typ),
            r matches Some(k) ==> first_role_at(self.roles@, group_id, typ, k as int)
                && self.role(group_id, typ) == self.roles@[k as int],
    {
        let mut k: usize = 0;
        while k < self.roles.len()
            invariant
                self.wf(),
                k <= self.roles.len(),
                forall|j: int| 0 <= j < k ==> !role_at(self.roles@, group_id, typ, j),
            decreases self.roles.len() - k,
        {
            if self.roles[k].group_id == group_id && self.roles[k].typ == typ {
                proof {
                    assert(first_role_at(self.roles@, group_id, typ, k as int));
                    lemma_first_role(self.roles@, group_id, typ, k as int);
                }
                return Some(k);
            }
            k += 1;
        }
        None
    }

    /// The row of the role with the id `role_id`, if there is one.
    pub fn find_role_by_id(&self, role_id: i32) -> (r: Option<usize>)
        requires
            self.wf(),
        ensures
            r is Some <==> exists|k: int| 0 <= k < self.roles@.len() && self.roles@[k].id == role_id,
            r matches Some(k) ==> k < self.roles@.len() && self.roles@[k as int].id == role_id
                && self.role_by_id(role_id) == self.roles@[k as int],
    {
        let mut k: usize = 0;
        while k < self.roles.len()
            invariant
                self.wf(),
                k <= self.roles.len(),
                forall|j: int| 0 <= j < k ==> self.roles@[j].id != role_id,
            decreases self.roles.len() - k,
        {
            if self.roles[k].id == role_id {
                proof {
                    lemma_role_by_id(self.roles@, self.groups@, self.next_role_id, role_id, k as int);
                }
                return Some(k);
            }
            k += 1;
        }
        None
    }

    /// The row of the membership of `user_uuid` in the group `group_id`, if
    /// the user holds one.
    pub fn find_membership(&self, group_id: i32, user_uuid: u128) -> (r: Option<usize>)
        requires
            self.wf(),
        ensures
            r is Some <==> self.is_member(group_id, user_uuid),
            r matches Some(i) ==> row_with_key(self.memberships@, (group_id, user_uuid), i as int)
                && self.members()[(group_id, user_uuid)] == self.memberships@[i as int],
    {
        let mut i: usize = 0;
        while i < self.memberships.len()
            invariant
                self.wf(),
                i <= self.memberships.len(),
                forall|j: int|
                    0 <= j < i ==> !row_with_key(self.memberships@, (group_id, user_uuid), j),
            decreases self.memberships.len() - i,
        {
            if self.memberships[i].group_id == group_id && self.memberships[i].user_uuid == user_uuid {
                proof {
                    lemma_member_map_row(self.memberships@, i as int);
                }
                return Some(i);
            }
            i += 1;
        }
        None
    }

    /// The row of the cached profile of `user_uuid`, if there is one.
    pub fn find_user(&self, user_uuid: u128) -> (r: Option<usize>)
        requires
            self.wf(),
        ensures
            r is Some <==> self.has_user(user_uuid),
            r matches Some(i) ==> user_at(self.users@, user_uuid, i as int) && self.user(user_uuid)
                == self.users@[i as int],
    {
        let mut i: usize = 0;
        while i < self.users.len()
            invariant
                self.wf(),
                i <= self.users.len(),
                forall|j: int| 0 <= j < i ==> !user_at(self.users@, user_uuid, j),
            decreases self.users.len() - i,
        {
            if self.users[i].user_uuid == user_uuid {
                proof {
                    assert(user_at(self.users@, user_uuid, i as int));
                    let j = choose|j: int| user_at(self.users@, user_uuid, j);
                    if j < i {
                        assert(self.users@[j].user_uuid != self.users@[i as int].user_uuid);
                    } else if i < j {
                        assert(self.users@[i as int].user_uuid != self.users@[j].user_uuid);
                    }
                }
                return Some(i);
            }
            i += 1;
        }
        None
    }

    /// Appends one entry to the audit log.
    pub fn db_log(
        &mut self,
        ctx: &LogContext,
        target: LogTargetType,
        operation: LogOperationType,
        body: Option<String>,
    )
        ensures
            log_appended(old(self).logs@, final(self).logs@, *ctx, target, operation, text_of(body)),
            final(self).keeps_all_but_log(old(self)),
            old(self).wf() ==> final(self).wf(),
            old(self).role_invariant() ==> final(self).role_invariant(),
    {
        self.logs.push(
            LogEntry {
                group_id: ctx.group_id,
                host_uuid: ctx.host_uuid,
                user_uuid: ctx.user_uuid,
                target,
                operation,
                body,
            },
        );
        assert(self.logs@.drop_last() =~= old(self).logs@);
        proof {
            lemma_role_invariant_kept(*old(self), *self);
        }
    }
}

/// A name belongs to one row of a well-formed group table.
pub proof fn lemma_group_pos(groups: Seq<Group>, next_id: i32, name: Seq<char>, i: int)
    requires
        groups_wf(groups, next_id),
        group_at(groups, name, i),
    ensures
        (choose|j: int| group_at(groups, name, j)) == i,
{
    let j = choose|j: int| group_at(groups, name, j);
    assert(group_at(groups, name, j));
    if i < j {
        assert(groups[i].name@ != groups[j].name@);
    } else if j < i {
        assert(groups[j].name@ != groups[i].name@);
    }
}

/// An id belongs to one row of a well-formed group table.
pub proof fn lemma_group_by_id(groups: Seq<Group>, next_id: i32, id: i32, i: int)
    requires
        groups_wf(groups, next_id),
        group_id_at(groups, id, i),
    ensures
        (choose|j: int| group_id_at(groups, id, j)) == i,
{
    let j = choose|j: int| group_id_at(groups, id, j);
    assert(group_id_at(groups, id, j));
    if i < j {
        assert(groups[i].id != groups[j].id);
    } else if j < i {
        assert(groups[j].id != groups[i].id);
    }
}

/// Only one row is the first role of a type of a group.
pub proof fn lemma_first_role(roles: Seq<Role>, group_id: i32, typ: RoleType, k: int)
    requires
        first_role_at(roles, group_id, typ, k),
    ensures
        (choose|j: int| first_role_at(roles, group_id, typ, j)) == k,
{
    let j = choose|j: int| first_role_at(roles, group_id, typ, j);
    if k < j {
        assert(!role_at(roles, group_id, typ, k));
    } else if j < k {
        assert(!role_at(roles, group_id, typ, j));
    }
}

/// A group owns one role of a type other than curator at most.
pub proof fn lemma_role_pos(
    roles: Seq<Role>,
    groups: Seq<Group>,
    next_id: i32,
    group_id: i32,
    typ: RoleType,
    k: int,
)
    requires
        roles_wf(roles, groups, next_id),
        role_at(roles, group_id, typ, k),
        typ != RoleType::Curator,
    ensures
        (choose|j: int| role_at(roles, group_id, typ, j)) == k,
{
    let j = choose|j: int| role_at(roles, group_id, typ, j);
    assert(role_at(roles, group_id, typ, j));
    if k < j {
        assert(roles[k].typ == roles[j].typ);
    } else if j < k {
        assert(roles[j].typ == roles[k].typ);
    }
}

/// An id belongs to one row of a well-formed role table.
pub proof fn lemma_role_by_id(roles: Seq<Role>, groups: Seq<Group>, next_id: i32, role_id: i32, k: int)
    requires
        roles_wf(roles, groups, next_id),
        0 <= k < roles.len(),
        roles[k].id == role_id,
    ensures
        (choose|j: int| 0 <= j < roles.len() && roles[j].id == role_id) == k,
{
    let j = choose|j: int| 0 <= j < roles.len() && roles[j].id == role_id;
    if k < j {
        assert(roles[k].id != roles[j].id);
    } else if j < k {
        assert(roles[j].id != roles[k].id);
    }
}

/// In a table with unique identities, every row is the value of its own
/// identity in the mapping.
pub proof fn lemma_member_map_row(rows: Seq<Membership>, i: int)
    requires
        unique_keys(rows),
        0 <= i < rows.len(),
    ensures
        member_map(rows).contains_key(key_of(rows[i])),
        member_map(rows)[key_of(rows[i])] == rows[i],
{
    let k = key_of(rows[i]);
    assert(row_with_key(rows, k, i));
    let j = choose|j: int| row_with_key(rows, k, j);
    assert(row_with_key(rows, k, j));
    if i < j {
        assert(key_of(rows[i]) != key_of(rows[j]));
    } else if j < i {
        assert(key_of(rows[j]) != key_of(rows[i]));
    }
}

/// Appending a row with a new identity inserts it into the mapping.
pub proof fn lemma_member_map_push(rows: Seq<Membership>, m: Membership)
    requires
        unique_keys(rows),
        !member_map(rows).contains_key(key_of(m)),
    ensures
        unique_keys(rows.push(m)),
        member_map(rows.push(m)) == member_map(rows).insert(key_of(m), m),
{
    let after = rows.push(m);
    assert forall|i: int, j: int| 0 <= i < j < after.len() implies key_of(#[trigger] after[i])
        != key_of(#[trigger] after[j]) by {
        if j == rows.len() {
            assert(after[i] == rows[i]);
            if key_of(rows[i]) == key_of(m) {
                assert(row_with_key(rows, key_of(m), i));
            }
        } else {
            assert(after[i] == rows[i] && after[j] == rows[j]);
        }
    }
    let left = member_map(after);
    let right = member_map(rows).insert(key_of(m), m);
    assert forall|k: (i32, u128)| left.contains_key(k) <==> right.contains_key(k) by {
        if left.contains_key(k) {
            let i = choose|i: int| row_with_key(after, k, i);
            if i < rows.len() {
                assert(row_with_key(rows, k, i));
            }
        }
        if right.contains_key(k) {
            if k == key_of(m) {
                assert(row_with_key(after, k, rows.len() as int));
            } else {
                let i = choose|i: int| row_with_key(rows, k, i);
                assert(row_with_key(after, k, i));
            }
        }
    }
    assert forall|k: (i32, u128)| left.contains_key(k) implies left[k] == right[k] by {
        let i = choose|i: int| row_with_key(after, k, i);
        lemma_member_map_row(after, i);
        if i < rows.len() {
            assert(after[i] == rows[i]);
            lemma_member_map_row(rows, i);
        }
    }
    assert(left =~= right);
}

/// Replacing a row by one of the same identity replaces its value in the
/// mapping.
pub proof fn lemma_member_map_update(rows: Seq<Membership>, i: int, m: Membership)
    requires
        unique_keys(rows),
        0 <= i < rows.len(),
        key_of(rows[i]) == key_of(m),
    ensures
        unique_keys(rows.update(i, m)),
        member_map(rows.update(i, m)) == member_map(rows).insert(key_of(m), m),
{
    let after = rows.update(i, m);
    assert forall|a: int, b: int| 0 <= a < b < after.len() implies key_of(#[trigger] after[a])
        != key_of(#[trigger] after[b]) by {
        assert(key_of(after[a]) == key_of(rows[a]));
        assert(key_of(after[b]) == key_of(rows[b]));
    }
    let left = member_map(after);
    let right = member_map(rows).insert(key_of(m), m);
    assert forall|k: (i32, u128)| left.contains_key(k) <==> right.contains_key(k) by {
        if left.contains_key(k) {
            let a = choose|a: int| row_with_key(after, k, a);
            assert(key_of(after[a]) == key_of(rows[a]));
            assert(row_with_key(rows, k, a));
        }
        if right.contains_key(k) {
            if k == key_of(m) {
                assert(row_with_key(after, k, i));
            } else {
                let a = choose|a: int| row_with_key(rows, k, a);
                assert(key_of(after[a]) == key_of(rows[a]));
                assert(row_with_key(after, k, a));
            }
        }
    }
    assert forall|k: (i32, u128)| left.contains_key(k) implies left[k] == right[k] by {
        let a = choose|a: int| row_with_key(after, k, a);
        lemma_member_map_row(after, a);
        if a != i {
            assert(after[a] == rows[a]);
            lemma_member_map_row(rows, a);
            if a < i {
                assert(key_of(rows[a]) != key_of(rows[i]));
            } else {
                assert(key_of(rows[i]) != key_of(rows[a]));
            }
        }
    }
    assert(left =~= right);
}

/// Deleting a row removes its identity from the mapping.
pub proof fn lemma_member_map_remove(rows: Seq<Membership>, i: int)
    requires
        unique_keys(rows),
        0 <= i < rows.len(),
    ensures
        unique_keys(rows.remove(i)),
        member_map(rows.remove(i)) == member_map(rows).remove(key_of(rows[i])),
{
    let after = rows.remove(i);
    let origin = |a: int| if a < i { a } else { a + 1 };
    assert forall|a: int| 0 <= a < after.len() implies after[a] == rows[origin(a)] by {}
    assert forall|a: int, b: int| 0 <= a < b < after.len() implies key_of(#[trigger] after[a])
        != key_of(#[trigger] after[b]) by {
        assert(after[a] == rows[origin(a)]);
        assert(after[b] == rows[origin(b)]);
        assert(key_of(rows[origin(a)]) != key_of(rows[origin(b)]));
    }
    let gone = key_of(rows[i]);
    let left = member_map(after);
    let right = member_map(rows).remove(gone);
    assert forall|k: (i32, u128)| left.contains_key(k) <==> right.contains_key(k) by {
        if left.contains_key(k) {
            let a = choose|a: int| row_with_key(after, k, a);
            assert(after[a] == rows[origin(a)]);
            assert(row_with_key(rows, k, origin(a)));
            if origin(a) < i {
                assert(key_of(rows[origin(a)]) != key_of(rows[i]));
            } else {
                assert(key_of(rows[i]) != key_of(rows[origin(a)]));
            }
        }
        if right.contains_key(k) {
            let a = choose|a: int| row_with_key(rows, k, a);
            assert(a != i);
            let b = if a < i { a } else { a - 1 };
            assert(after[b] == rows[a]);
            assert(row_with_key(after, k, b));
        }
    }
    assert forall|k: (i32, u128)| left.contains_key(k) implies left[k] == right[k] by {
        let a = choose|a: int| row_with_key(after, k, a);
        lemma_member_map_row(after, a);
        assert(after[a] == rows[origin(a)]);
        lemma_member_map_row(rows, origin(a));
    }
    assert(left =~= right);
}

/// Whether some row of `rows` carries the identity `k`.
pub open spec fn has_key(rows: Seq<Membership>, k: (i32, u128)) -> bool {
    exists|i: int| row_with_key(rows, k, i)
}

/// Whether some row of `rows` that satisfies `pred` carries the identity
/// `k`.
pub open spec fn has_key_where(
    rows: Seq<Membership>,
    pred: spec_fn(Membership) -> bool,
    k: (i32, u128),
) -> bool {
    exists|j: int| row_with_key(rows, k, j) && pred(rows[j])
}

/// Keeping the rows that satisfy `pred` keeps the identities unique, and
/// the identities that remain are those of the rows that satisfy `pred`.
pub proof fn lemma_filter_rows(rows: Seq<Membership>, pred: spec_fn(Membership) -> bool)
    requires
        unique_keys(rows),
    ensures
        unique_keys(rows.filter(pred)),
        forall|k: (i32, u128)|
            #[trigger] has_key(rows.filter(pred), k) <==> has_key_where(rows, pred, k),
    decreases rows.len(),
{
    if rows.len() == 0 {
        assert(rows.filter(pred) =~= Seq::<Membership>::empty()) by {
            reveal(Seq::filter);
        }
    } else {
        let rest = rows.drop_last();
        let last = rows.last();
        assert(rows =~= rest.push(last));
        assert forall|i: int, j: int| 0 <= i < j < rest.len() implies key_of(#[trigger] rest[i])
            != key_of(#[trigger] rest[j]) by {
            assert(rest[i] == rows[i] && rest[j] == rows[j]);
        }
        lemma_filter_rows(rest, pred);
        rest.lemma_filter_push(last, pred);
        let kept = rows.filter(pred);
        let before = rest.filter(pred);
        assert forall|k: (i32, u128)| #[trigger]
            has_key(kept, k) <==> has_key_where(rows, pred, k) by {
            if has_key(kept, k) {
                let i = choose|i: int| row_with_key(kept, k, i);
                if i < before.len() {
                    assert(kept[i] == before[i]);
                    assert(row_with_key(before, k, i));
                    assert(has_key(before, k));
                    let j = choose|j: int| row_with_key(rest, k, j) && pred(rest[j]);
                    assert(rows[j] == rest[j]);
                    assert(row_with_key(rows, k, j) && pred(rows[j]));
                } else {
                    assert(pred(last) && kept[i] == last);
                    assert(row_with_key(rows, k, rows.len() - 1) && pred(rows[rows.len() - 1]));
                }
            }
            if has_key_where(rows, pred, k) {
                let j = choose|j: int| row_with_key(rows, k, j) && pred(rows[j]);
                if j < rest.len() {
                    assert(rest[j] == rows[j]);
                    assert(row_with_key(rest, k, j) && pred(rest[j]));
                    assert(has_key_where(rest, pred, k));
                    assert(has_key(before, k));
                    let i = choose|i: int| row_with_key(before, k, i);
                    assert(kept[i] == before[i]);
                    assert(row_with_key(kept, k, i));
                } else {
                    assert(kept[before.len() as int] == last);
                    assert(row_with_key(kept, k, before.len() as int));
                }
            }
        }
        assert forall|a: int, b: int| 0 <= a < b < kept.len() implies key_of(#[trigger] kept[a])
            != key_of(#[trigger] kept[b]) by {
            if b < before.len() {
                assert(kept[a] == before[a] && kept[b] == before[b]);
            } else {
                assert(kept[a] == before[a]);
                assert(kept[b] == last);
                if key_of(before[a]) == key_of(last) {
                    let k = key_of(last);
                    assert(row_with_key(before, k, a));
                    assert(has_key(before, k));
                    let j = choose|j: int| row_with_key(rest, k, j) && pred(rest[j]);
                    assert(rows[j] == rest[j]);
                    assert(key_of(rows[j]) != key_of(rows[rows.len() - 1]));
                }
            }
        }
    }
}

/// The mapping of the rows that satisfy `pred` is the mapping of all rows
/// without the identities whose membership does not satisfy `pred`.
pub proof fn lemma_member_map_filter(rows: Seq<Membership>, pred: spec_fn(Membership) -> bool)
    requires
        unique_keys(rows),
    ensures
        unique_keys(rows.filter(pred)),
        member_map(rows.filter(pred)) == member_map(rows).remove_keys(
            Set::new(|k: (i32, u128)| member_map(rows).contains_key(k) && !pred(member_map(rows)[k])),
        ),
{
    lemma_filter_rows(rows, pred);
    let kept = rows.filter(pred);
    let left = member_map(kept);
    let gone = Set::new(
        |k: (i32, u128)| member_map(rows).contains_key(k) && !pred(member_map(rows)[k]),
    );
    let right = member_map(rows).remove_keys(gone);
    assert forall|k: (i32, u128)| left.contains_key(k) <==> right.contains_key(k) by {
        if left.contains_key(k) {
            assert(has_key(kept, k));
            let j = choose|j: int| row_with_key(rows, k, j) && pred(rows[j]);
            lemma_member_map_row(rows, j);
        }
        if right.contains_key(k) {
            let j = choose|j: int| row_with_key(rows, k, j);
            lemma_member_map_row(rows, j);
            assert(row_with_key(rows, k, j) && pred(rows[j]));
            assert(has_key_where(rows, pred, k));
            assert(has_key(kept, k));
        }
    }
    assert forall|k: (i32, u128)| left.contains_key(k) implies left[k] == right[k] by {
        let i = choose|i: int| row_with_key(kept, k, i);
        lemma_member_map_row(kept, i);
        assert(kept.contains(kept[i]));
        rows.lemma_filter_contains_rev(pred, kept[i]);
        let j = choose|j: int| 0 <= j < rows.len() && rows[j] == kept[i];
        lemma_member_map_row(rows, j);
    }
    assert(left =~= right);
}

/// A store with the groups and the roles of a store in which every group
/// owns its member role and its admin role is such a store too.
pub proof fn lemma_role_invariant_kept(before: Store, after: Store)
    requires
        after.groups@ == before.groups@,
        after.roles@ == before.roles@,
    ensures
        before.role_invariant() ==> after.role_invariant(),
{
    if before.role_invariant() {
        assert forall|i: int| 0 <= i < after.groups@.len() implies after.has_role(
            (#[trigger] after.groups@[i]).id,
            RoleType::Member,
        ) && after.has_role(after.groups@[i].id, RoleType::Admin) by {
            let g = before.groups@[i].id;
            let km = choose|k: int| role_at(before.roles@, g, RoleType::Member, k);
            assert(role_at(after.roles@, g, RoleType::Member, km));
            let ka = choose|k: int| role_at(before.roles@, g, RoleType::Admin, k);
            assert(role_at(after.roles@, g, RoleType::Admin, ka));
        }
    }
}

} // verus!
