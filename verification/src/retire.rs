//! The end of a group: a group that is out of use is deleted for good,
//! together with its roles, its memberships, its invitations and its
//! requests. The audit log keeps what it recorded of the group.

use vstd::prelude::*;
use crate::error::{failed_with, PacksError};
use crate::lifecycle::{calls_view, SyncCall, SyncCallView};
use crate::model::{Group, Invitation, LogContext, Membership, Request, Role};
use crate::sequences::{
    lemma_filter_keeps_order, lemma_filter_map_step, lemma_filter_member, lemma_filter_step,
    lemma_map_push, lemma_take_all,
};
use crate::store::{
    group_id_at, lemma_filter_rows, lemma_member_map_filter, lemma_member_map_row, log_appended,
    member_map, role_at, role_id_at, row_with_key, Store,
};
use crate::types::{LogOperationType, LogTargetType, RoleType};

verus! {

/// The groups other than the group `group_id`.
pub open spec fn other_group(group_id: i32) -> spec_fn(Group) -> bool {
    |g: Group| g.id != group_id
}

/// The roles of groups other than the group `group_id`.
pub open spec fn role_elsewhere(group_id: i32) -> spec_fn(Role) -> bool {
    |r: Role| r.group_id != group_id
}

/// The memberships in groups other than the group `group_id`.
pub open spec fn member_elsewhere(group_id: i32) -> spec_fn(Membership) -> bool {
    |m: Membership| m.group_id != group_id
}

/// The memberships in the group `group_id`.
pub open spec fn member_of(group_id: i32) -> spec_fn(Membership) -> bool {
    |m: Membership| m.group_id == group_id
}

/// The invitations into groups other than the group `group_id`.
pub open spec fn invitation_elsewhere(group_id: i32) -> spec_fn(Invitation) -> bool {
    |i: Invitation| i.group_id != group_id
}

/// The requests to join groups other than the group `group_id`.
pub open spec fn request_elsewhere(group_id: i32) -> spec_fn(Request) -> bool {
    |r: Request| r.group_id != group_id
}

/// The call that takes the group called `name` from the profile of the
/// holder of a membership.
pub open spec fn leaving(name: Seq<char>) -> spec_fn(Membership) -> SyncCallView {
    |m: Membership| SyncCallView::RemoveGroup { user_uuid: m.user_uuid, group_name: name }
}

/// What [`delete_inactive_group`] leaves behind and returns.
pub open spec fn delete_inactive_group_post(
    before: &Store,
    after: &Store,
    r: Result<Vec<SyncCall>, PacksError>,
    host_uuid: u128,
    group_name: Seq<char>,
) -> bool {
    let group_id = before.group_id(group_name);
    &&& !before.has_group(group_name) ==> failed_with(r, PacksError::GroupNotFound)
    &&& before.has_group(group_name) && before.group(group_name).active ==> failed_with(
        r,
        PacksError::NotAllowed,
    )
    &&& before.has_group(group_name) && !before.group(group_name).active ==> r is Ok
    &&& r is Err ==> *after == *before
    &&& r matches Ok(calls) ==> {
        &&& after.groups@ == before.groups@.filter(other_group(group_id))
        &&& after.next_group_id == before.next_group_id
        &&& after.roles@ == before.roles@.filter(role_elsewhere(group_id))
        &&& after.next_role_id == before.next_role_id
        &&& after.memberships@ == before.memberships@.filter(member_elsewhere(group_id))
        &&& after.members() == before.members().remove_keys(
            Set::new(|k: (i32, u128)| k.0 == group_id),
        )
        &&& after.invitations@ == before.invitations@.filter(invitation_elsewhere(group_id))
        &&& after.requests@ == before.requests@.filter(request_elsewhere(group_id))
        &&& after.users@ == before.users@
        &&& !after.has_group(group_name)
        &&& log_appended(
            before.logs@,
            after.logs@,
            LogContext { group_id, host_uuid, user_uuid: None },
            LogTargetType::Group,
            LogOperationType::Deleted,
            None,
        )
        &&& calls_view(calls@) == before.memberships@.filter(member_of(group_id)).map_values(
            leaving(group_name),
        )
    }
}

/// The groups other than the group `group_id`.
fn groups_without(store: &Store, group_id: i32) -> (kept: Vec<Group>)
    ensures
        kept@ == store.groups@.filter(other_group(group_id)),
{
    let ghost rows = store.groups@;
    let mut kept: Vec<Group> = Vec::new();
    let mut i: usize = 0;
    assert(rows.take(0).filter(other_group(group_id)) =~= Seq::<Group>::empty());
    while i < store.groups.len()
        invariant
            i <= store.groups.len(),
            rows == store.groups@,
            kept@ == rows.take(i as int).filter(other_group(group_id)),
        decreases store.groups.len() - i,
    {
        proof {
            lemma_filter_step(rows, i as int, other_group(group_id));
        }
        if store.groups[i].id != group_id {
            kept.push(store.groups[i].clone());
        }
        i += 1;
    }
    proof {
        lemma_take_all(rows);
    }
    kept
}

/// The roles of groups other than the group `group_id`.
fn roles_without(store: &Store, group_id: i32) -> (kept: Vec<Role>)
    ensures
        kept@ == store.roles@.filter(role_elsewhere(group_id)),
{
    let ghost rows = store.roles@;
    let mut kept: Vec<Role> = Vec::new();
    let mut i: usize = 0;
    assert(rows.take(0).filter(role_elsewhere(group_id)) =~= Seq::<Role>::empty());
    while i < store.roles.len()
        invariant
            i <= store.roles.len(),
            rows == store.roles@,
            kept@ == rows.take(i as int).filter(role_elsewhere(group_id)),
        decreases store.roles.len() - i,
    {
        proof {
            lemma_filter_step(rows, i as int, role_elsewhere(group_id));
        }
        if store.roles[i].group_id != group_id {
            kept.push(store.roles[i].clone());
        }
        i += 1;
    }
    proof {
        lemma_take_all(rows);
    }
    kept
}

/// The memberships in groups other than the group `group_id`, and the
/// calls that take the group called `group_name` from the profiles of those
/// who were in it.
fn members_without(store: &Store, group_id: i32, group_name: &str) -> (r: (
    Vec<Membership>,
    Vec<SyncCall>,
))
    ensures
        r.0@ == store.memberships@.filter(member_elsewhere(group_id)),
        calls_view(r.1@) == store.memberships@.filter(member_of(group_id)).map_values(
            leaving(group_name@),
        ),
{
    let ghost rows = store.memberships@;
    let mut kept: Vec<Membership> = Vec::new();
    let mut calls: Vec<SyncCall> = Vec::new();
    let mut i: usize = 0;
    assert(rows.take(0).filter(member_elsewhere(group_id)) =~= Seq::<Membership>::empty());
    assert(calls_view(calls@) =~= rows.take(0).filter(member_of(group_id)).map_values(
        leaving(group_name@),
    ));
    while i < store.memberships.len()
        invariant
            i <= store.memberships.len(),
            rows == store.memberships@,
            kept@ == rows.take(i as int).filter(member_elsewhere(group_id)),
            calls_view(calls@) == rows.take(i as int).filter(member_of(group_id)).map_values(
                leaving(group_name@),
            ),
        decreases store.memberships.len() - i,
    {
        let m = store.memberships[i];
        proof {
            lemma_filter_step(rows, i as int, member_elsewhere(group_id));
            lemma_filter_map_step(rows, i as int, member_of(group_id), leaving(group_name@));
        }
        if m.group_id != group_id {
            kept.push(m);
        } else {
            let call = SyncCall::RemoveGroup {
                user_uuid: m.user_uuid,
                group_name: String::from_str(group_name),
            };
            proof {
                lemma_map_push(calls@, call, |c: SyncCall| c@);
            }
            calls.push(call);
        }
        i += 1;
    }
    proof {
        lemma_take_all(rows);
    }
    (kept, calls)
}

/// The invitations into groups other than the group `group_id`.
fn invitations_without(store: &Store, group_id: i32) -> (kept: Vec<Invitation>)
    ensures
        kept@ == store.invitations@.filter(invitation_elsewhere(group_id)),
{
    let ghost rows = store.invitations@;
    let mut kept: Vec<Invitation> = Vec::new();
    let mut i: usize = 0;
    assert(rows.take(0).filter(invitation_elsewhere(group_id)) =~= Seq::<Invitation>::empty());
    while i < store.invitations.len()
        invariant
            i <= store.invitations.len(),
            rows == store.invitations@,
            kept@ == rows.take(i as int).filter(invitation_elsewhere(group_id)),
        decreases store.invitations.len() - i,
    {
        let row = store.invitations[i];
        proof {
            lemma_filter_step(rows, i as int, invitation_elsewhere(group_id));
        }
        if row.group_id != group_id {
            kept.push(row);
        }
        i += 1;
    }
    proof {
        lemma_take_all(rows);
    }
    kept
}

/// The requests to join groups other than the group `group_id`.
fn requests_without(store: &Store, group_id: i32) -> (kept: Vec<Request>)
    ensures
        kept@ == store.requests@.filter(request_elsewhere(group_id)),
{
    let ghost rows = store.requests@;
    let mut kept: Vec<Request> = Vec::new();
    let mut i: usize = 0;
    assert(rows.take(0).filter(request_elsewhere(group_id)) =~= Seq::<Request>::empty());
    while i < store.requests.len()
        invariant
            i <= store.requests.len(),
            rows == store.requests@,
            kept@ == rows.take(i as int).filter(request_elsewhere(group_id)),
        decreases store.requests.len() - i,
    {
        let row = store.requests[i];
        proof {
            lemma_filter_step(rows, i as int, request_elsewhere(group_id));
        }
        if row.group_id != group_id {
            kept.push(row);
        }
        i += 1;
    }
    proof {
        lemma_take_all(rows);
    }
    kept
}

/// A store without one of its groups, and without the roles and the
/// memberships of that group, obeys the rules of the tables, and every group
/// that is left owns the roles it owned.
pub proof fn lemma_group_removed(before: Store, after: Store, group_id: i32)
    requires
        before.wf(),
        after.groups@ == before.groups@.filter(other_group(group_id)),
        after.next_group_id == before.next_group_id,
        after.roles@ == before.roles@.filter(role_elsewhere(group_id)),
        after.next_role_id == before.next_role_id,
        after.memberships@ == before.memberships@.filter(member_elsewhere(group_id)),
        after.users@ == before.users@,
    ensures
        after.wf(),
        before.role_invariant() ==> after.role_invariant(),
        after.members() == before.members().remove_keys(Set::new(|k: (i32, u128)| k.0 == group_id)),
        !after.has_group_id(group_id),
{
    let groups = before.groups@;
    let kept_groups = after.groups@;
    let roles = before.roles@;
    let kept_roles = after.roles@;
    let rows = before.memberships@;
    let kept_rows = after.memberships@;
    assert forall|a: int| 0 <= a < kept_groups.len() implies groups.contains(
        #[trigger] kept_groups[a],
    ) && kept_groups[a].id != group_id by {
        assert(kept_groups.contains(kept_groups[a]));
        lemma_filter_member(groups, other_group(group_id), kept_groups[a]);
    }
    assert forall|a: int| 0 <= a < kept_roles.len() implies roles.contains(#[trigger] kept_roles[a])
        && kept_roles[a].group_id != group_id by {
        assert(kept_roles.contains(kept_roles[a]));
        lemma_filter_member(roles, role_elsewhere(group_id), kept_roles[a]);
    }
    assert forall|a: int| 0 <= a < kept_rows.len() implies rows.contains(#[trigger] kept_rows[a])
        && kept_rows[a].group_id != group_id by {
        assert(kept_rows.contains(kept_rows[a]));
        lemma_filter_member(rows, member_elsewhere(group_id), kept_rows[a]);
    }
    // The groups that are left are told apart as before.
    assert forall|a: int, b: int| 0 <= a < b < kept_groups.len() implies (#[trigger] kept_groups[a]).id
        != (#[trigger] kept_groups[b]).id && kept_groups[a].name@ != kept_groups[b].name@ by {
        lemma_filter_keeps_order(groups, other_group(group_id), a, b);
        let (i, j) = choose|i: int, j: int|
            0 <= i < j < groups.len() && groups[i] == kept_groups[a] && groups[j] == kept_groups[b];
        assert(groups[i].id != groups[j].id && groups[i].name@ != groups[j].name@);
    }
    assert forall|a: int| 0 <= a < kept_groups.len() implies (#[trigger] kept_groups[a]).id
        < after.next_group_id by {
        let i = choose|i: int| 0 <= i < groups.len() && groups[i] == kept_groups[a];
        assert(groups[i].id < before.next_group_id);
    }
    // The roles that are left are told apart as before, and their groups are left.
    assert forall|a: int, b: int| 0 <= a < b < kept_roles.len() implies (#[trigger] kept_roles[a]).id
        != (#[trigger] kept_roles[b]).id by {
        lemma_filter_keeps_order(roles, role_elsewhere(group_id), a, b);
        let (i, j) = choose|i: int, j: int|
            0 <= i < j < roles.len() && roles[i] == kept_roles[a] && roles[j] == kept_roles[b];
        assert(roles[i].id != roles[j].id);
    }
    assert forall|a: int, b: int|
        0 <= a < b < kept_roles.len() && (#[trigger] kept_roles[a]).group_id == (
        #[trigger] kept_roles[b]).group_id && kept_roles[a].typ
            == kept_roles[b].typ implies kept_roles[a].typ == RoleType::Curator by {
        lemma_filter_keeps_order(roles, role_elsewhere(group_id), a, b);
        let (i, j) = choose|i: int, j: int|
            0 <= i < j < roles.len() && roles[i] == kept_roles[a] && roles[j] == kept_roles[b];
        assert(roles[i].typ == roles[j].typ);
    }
    assert forall|a: int| 0 <= a < kept_roles.len() implies (#[trigger] kept_roles[a]).id
        < after.next_role_id by {
        let i = choose|i: int| 0 <= i < roles.len() && roles[i] == kept_roles[a];
        assert(roles[i].id < before.next_role_id);
    }
    assert forall|a: int| 0 <= a < kept_roles.len() implies exists|g: int|
        group_id_at(kept_groups, (#[trigger] kept_roles[a]).group_id, g) by {
        let i = choose|i: int| 0 <= i < roles.len() && roles[i] == kept_roles[a];
        assert(roles[i] == kept_roles[a]);
        let g = choose|g: int| group_id_at(groups, roles[i].group_id, g);
        assert(group_id_at(groups, roles[i].group_id, g));
        assert(groups.contains(groups[g]));
        lemma_filter_member(groups, other_group(group_id), groups[g]);
        let h = choose|h: int| 0 <= h < kept_groups.len() && kept_groups[h] == groups[g];
        assert(group_id_at(kept_groups, kept_roles[a].group_id, h));
    }
    // The memberships that are left are told apart as before, and their roles are left.
    lemma_filter_rows(rows, member_elsewhere(group_id));
    assert forall|a: int| 0 <= a < kept_rows.len() implies exists|k: int|
        role_id_at(kept_roles, (#[trigger] kept_rows[a]).role_id, kept_rows[a].group_id, k) by {
        let i = choose|i: int| 0 <= i < rows.len() && rows[i] == kept_rows[a];
        assert(rows[i] == kept_rows[a]);
        let k = choose|k: int| role_id_at(roles, rows[i].role_id, rows[i].group_id, k);
        assert(role_id_at(roles, rows[i].role_id, rows[i].group_id, k));
        assert(roles.contains(roles[k]));
        lemma_filter_member(roles, role_elsewhere(group_id), roles[k]);
        let h = choose|h: int| 0 <= h < kept_roles.len() && kept_roles[h] == roles[k];
        assert(role_id_at(kept_roles, kept_rows[a].role_id, kept_rows[a].group_id, h));
    }
    assert(after.wf());
    // The mapping loses the identities of the group.
    lemma_member_map_filter(rows, member_elsewhere(group_id));
    assert forall|k: (i32, u128)| member_map(rows).contains_key(k) implies (#[trigger] member_map(
        rows,
    )[k]).group_id == k.0 by {
        let j = choose|j: int| row_with_key(rows, k, j);
        lemma_member_map_row(rows, j);
    }
    assert(member_map(rows).remove_keys(
        Set::new(
            |k: (i32, u128)|
                member_map(rows).contains_key(k) && !member_elsewhere(group_id)(member_map(rows)[k]),
        ),
    ) =~= member_map(rows).remove_keys(Set::new(|k: (i32, u128)| k.0 == group_id)));
    // Every group that is left owns the roles it owned.
    if before.role_invariant() {
        assert forall|a: int| 0 <= a < kept_groups.len() implies after.has_role(
            (#[trigger] kept_groups[a]).id,
            RoleType::Member,
        ) && after.has_role(kept_groups[a].id, RoleType::Admin) by {
            let id = kept_groups[a].id;
            let i = choose|i: int| 0 <= i < groups.len() && groups[i] == kept_groups[a];
            assert(groups[i] == kept_groups[a]);
            assert(before.has_role(groups[i].id, RoleType::Member));
            assert(before.has_role(groups[i].id, RoleType::Admin));
            let km = choose|k: int| role_at(roles, id, RoleType::Member, k);
            assert(roles.contains(roles[km]));
            lemma_filter_member(roles, role_elsewhere(group_id), roles[km]);
            let hm = choose|h: int| 0 <= h < kept_roles.len() && kept_roles[h] == roles[km];
            assert(role_at(kept_roles, id, RoleType::Member, hm));
            let ka = choose|k: int| role_at(roles, id, RoleType::Admin, k);
            assert(roles.contains(roles[ka]));
            lemma_filter_member(roles, role_elsewhere(group_id), roles[ka]);
            let ha = choose|h: int| 0 <= h < kept_roles.len() && kept_roles[h] == roles[ka];
            assert(role_at(kept_roles, id, RoleType::Admin, ha));
        }
    }
    if after.has_group_id(group_id) {
        let g = choose|g: int| group_id_at(kept_groups, group_id, g);
        assert(kept_groups[g].id != group_id);
    }
}

/// Deletes the group called `group_name`, which must be out of use, with
/// its roles, its memberships, its invitations and its requests, and yields
/// the calls that take the group from the profiles of those who were in it.
pub fn delete_inactive_group(host_uuid: u128, store: &mut Store, group_name: &str) -> (r: Result<
    Vec<SyncCall>,
    PacksError,
>)
    requires
        old(store).wf(),
    ensures
        final(store).wf(),
        delete_inactive_group_post(old(store), final(store), r, host_uuid, group_name@),
        old(store).role_invariant() ==> final(store).role_invariant(),
{
    let gi = match store.find_group(group_name) {
        Some(gi) => gi,
        None => {
            return Err(PacksError::GroupNotFound);
        },
    };
    if store.groups[gi].active {
        return Err(PacksError::NotAllowed);
    }
    let group_id: i32 = store.groups[gi].id;
    let groups = groups_without(store, group_id);
    let roles = roles_without(store, group_id);
    let (memberships, calls) = members_without(store, group_id, group_name);
    let invitations = invitations_without(store, group_id);
    let requests = requests_without(store, group_id);
    store.groups = groups;
    store.roles = roles;
    store.memberships = memberships;
    store.invitations = invitations;
    store.requests = requests;
    proof {
        lemma_group_removed(*old(store), *store, group_id);
        if store.has_group(group_name@) {
            let a = choose|a: int| crate::store::group_at(store.groups@, group_name@, a);
            assert(store.groups@.contains(store.groups@[a]));
            lemma_filter_member(old(store).groups@, other_group(group_id), store.groups@[a]);
            let i = choose|i: int|
                0 <= i < old(store).groups@.len() && old(store).groups@[i] == store.groups@[a];
            assert(crate::store::group_at(old(store).groups@, group_name@, i));
            crate::store::lemma_group_pos(
                old(store).groups@,
                old(store).next_group_id,
                group_name@,
                i,
            );
        }
    }
    let log_ctx = LogContext::with(group_id, host_uuid);
    store.db_log(&log_ctx, LogTargetType::Group, LogOperationType::Deleted, None);
    Ok(calls)
}

} // verus!
