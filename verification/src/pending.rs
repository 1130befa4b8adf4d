//! Invitations and requests: the records of users who are about to enter a
//! group, and the sweeps that drop them once they have lapsed.

use vstd::prelude::*;
use crate::clock::{utc_now, Timestamp};
use crate::lifecycle::{SyncCall, SyncCallView};
use crate::member::{add_to_group_at, add_to_group_post};
use crate::error::{failed_with, PacksError};
use crate::model::{Invitation, LogContext, Request};
use crate::sequences::{lemma_filter_step, lemma_take_all};
use crate::store::{log_appended, Store};
use crate::types::{LogOperationType, LogTargetType, User};

verus! {

/// Whether the expiration `expiration` is at or before `instant`.
pub open spec fn lapsed_at(expiration: Option<Timestamp>, instant: Timestamp) -> bool {
    match expiration {
        Some(e) => e.micros <= instant.micros,
        None => false,
    }
}

/// Whether the expiration `expiration` is at or before `instant`.
pub fn has_lapsed(expiration: Option<Timestamp>, instant: Timestamp) -> (r: bool)
    ensures
        r == lapsed_at(expiration, instant),
{
    match expiration {
        Some(e) => e.micros <= instant.micros,
        None => false,
    }
}

/// The invitations that are still open at `instant`.
pub open spec fn open_invitation(instant: Timestamp) -> spec_fn(Invitation) -> bool {
    |i: Invitation| !lapsed_at(i.invitation_expiration, instant)
}

/// The requests that are still open at `instant`.
pub open spec fn open_request(instant: Timestamp) -> spec_fn(Request) -> bool {
    |r: Request| !lapsed_at(r.request_expiration, instant)
}

/// The requests to join the group `group_id`.
pub open spec fn request_for(group_id: i32) -> spec_fn(Request) -> bool {
    |r: Request| r.group_id == group_id
}

/// The requests other than those of `user_uuid` to join the group
/// `group_id`.
pub open spec fn request_not_of(group_id: i32, user_uuid: u128) -> spec_fn(Request) -> bool {
    |r: Request| !(r.group_id == group_id && r.user_uuid == user_uuid)
}

/// Whether `user_uuid` has asked to join the group `group_id`.
pub open spec fn has_request(requests: Seq<Request>, group_id: i32, user_uuid: u128) -> bool {
    exists|i: int|
        0 <= i < requests.len() && (#[trigger] requests[i]).group_id == group_id
            && requests[i].user_uuid == user_uuid
}

/// What [`expire_invitations_at`] leaves behind.
pub open spec fn expire_invitations_post(before: &Store, after: &Store, now: Timestamp) -> bool {
    &&& after.invitations@ == before.invitations@.filter(open_invitation(now))
    &&& after.keeps_groups(before)
    &&& after.keeps_roles(before)
    &&& after.memberships@ == before.memberships@
    &&& after.users@ == before.users@
    &&& after.requests@ == before.requests@
    &&& after.logs@ == before.logs@
}

/// Drops the invitations that have lapsed by `now`. Nobody is told.
pub fn expire_invitations_at(store: &mut Store, now: Timestamp)
    requires
        old(store).wf(),
    ensures
        final(store).wf(),
        expire_invitations_post(old(store), final(store), now),
        old(store).role_invariant() ==> final(store).role_invariant(),
{
    let ghost rows = store.invitations@;
    let mut kept: Vec<Invitation> = Vec::new();
    let mut i: usize = 0;
    assert(rows.take(0).filter(open_invitation(now)) =~= Seq::<Invitation>::empty());
    while i < store.invitations.len()
        invariant
            i <= store.invitations.len(),
            rows == store.invitations@,
            kept@ == rows.take(i as int).filter(open_invitation(now)),
        decreases store.invitations.len() - i,
    {
        let row = store.invitations[i];
        proof {
            lemma_filter_step(rows, i as int, open_invitation(now));
        }
        if !has_lapsed(row.invitation_expiration, now) {
            kept.push(row);
        }
        i += 1;
    }
    proof {
        lemma_take_all(rows);
    }
    store.invitations = kept;
}

/// [`expire_invitations_at`] at the current time.
pub fn expire_invitations(store: &mut Store)
    requires
        old(store).wf(),
    ensures
        final(store).wf(),
        exists|now: Timestamp| expire_invitations_post(old(store), final(store), now),
        old(store).role_invariant() ==> final(store).role_invariant(),
{
    let now = utc_now();
    expire_invitations_at(store, now)
}

/// What [`expire_requests_at`] leaves behind.
pub open spec fn expire_requests_post(before: &Store, after: &Store, now: Timestamp) -> bool {
    &&& after.requests@ == before.requests@.filter(open_request(now))
    &&& after.keeps_groups(before)
    &&& after.keeps_roles(before)
    &&& after.memberships@ == before.memberships@
    &&& after.users@ == before.users@
    &&& after.invitations@ == before.invitations@
    &&& after.logs@ == before.logs@
}

/// Drops the requests that have lapsed by `now`. Nobody is told.
pub fn expire_requests_at(store: &mut Store, now: Timestamp)
    requires
        old(store).wf(),
    ensures
        final(store).wf(),
        expire_requests_post(old(store), final(store), now),
        old(store).role_invariant() ==> final(store).role_invariant(),
{
    let ghost rows = store.requests@;
    let mut kept: Vec<Request> = Vec::new();
    let mut i: usize = 0;
    assert(rows.take(0).filter(open_request(now)) =~= Seq::<Request>::empty());
    while i < store.requests.len()
        invariant
            i <= store.requests.len(),
            rows == store.requests@,
            kept@ == rows.take(i as int).filter(open_request(now)),
        decreases store.requests.len() - i,
    {
        let row = store.requests[i];
        proof {
            lemma_filter_step(rows, i as int, open_request(now));
        }
        if !has_lapsed(row.request_expiration, now) {
            kept.push(row);
        }
        i += 1;
    }
    proof {
        lemma_take_all(rows);
    }
    store.requests = kept;
}

/// [`expire_requests_at`] at the current time.
pub fn expire_requests(store: &mut Store)
    requires
        old(store).wf(),
    ensures
        final(store).wf(),
        exists|now: Timestamp| expire_requests_post(old(store), final(store), now),
        old(store).role_invariant() ==> final(store).role_invariant(),
{
    let now = utc_now();
    expire_requests_at(store, now)
}

/// Records that `host` invites `user` into the group called `group_name`.
pub fn add_invitation(
    store: &mut Store,
    group_name: &str,
    host: &User,
    user: &User,
    invitation_expiration: Option<Timestamp>,
    group_expiration: Option<i32>,
) -> (r: Result<(), PacksError>)
    requires
        old(store).wf(),
    ensures
        final(store).wf(),
        r is Ok <==> old(store).has_group(group_name@),
        r is Err ==> failed_with(r, PacksError::GroupNotFound) && *final(store) == *old(store),
        r is Ok ==> {
            let group_id = old(store).group_id(group_name@);
            &&& final(store).invitations@ == old(store).invitations@.push(
                Invitation {
                    group_id,
                    user_uuid: user.user_uuid,
                    invitation_expiration,
                    group_expiration,
                    added_by: host.user_uuid,
                },
            )
            &&& final(store).keeps_groups(old(store))
            &&& final(store).keeps_roles(old(store))
            &&& final(store).memberships@ == old(store).memberships@
            &&& final(store).users@ == old(store).users@
            &&& final(store).requests@ == old(store).requests@
            &&& log_appended(
                old(store).logs@,
                final(store).logs@,
                LogContext {
                    group_id,
                    host_uuid: host.user_uuid,
                    user_uuid: Some(user.user_uuid),
                },
                LogTargetType::Invitation,
                LogOperationType::Created,
                None,
            )
        },
        old(store).role_invariant() ==> final(store).role_invariant(),
{
    let gi = match store.find_group(group_name) {
        Some(gi) => gi,
        None => {
            return Err(PacksError::GroupNotFound);
        },
    };
    let group_id: i32 = store.groups[gi].id;
    store.invitations.push(
        Invitation {
            group_id,
            user_uuid: user.user_uuid,
            invitation_expiration,
            group_expiration,
            added_by: host.user_uuid,
        },
    );
    let log_ctx = LogContext::with(group_id, host.user_uuid).with_user(user.user_uuid);
    store.db_log(&log_ctx, LogTargetType::Invitation, LogOperationType::Created, None);
    Ok(())
}

/// Records that `user` asks to join the group called `group_name`.
pub fn add_request(
    store: &mut Store,
    group_name: &str,
    user: &User,
    request_expiration: Option<Timestamp>,
) -> (r: Result<(), PacksError>)
    requires
        old(store).wf(),
    ensures
        final(store).wf(),
        r is Ok <==> old(store).has_group(group_name@),
        r is Err ==> failed_with(r, PacksError::GroupNotFound) && *final(store) == *old(store),
        r is Ok ==> {
            let group_id = old(store).group_id(group_name@);
            &&& final(store).requests@ == old(store).requests@.push(
                Request { group_id, user_uuid: user.user_uuid, request_expiration },
            )
            &&& final(store).keeps_groups(old(store))
            &&& final(store).keeps_roles(old(store))
            &&& final(store).memberships@ == old(store).memberships@
            &&& final(store).users@ == old(store).users@
            &&& final(store).invitations@ == old(store).invitations@
            &&& log_appended(
                old(store).logs@,
                final(store).logs@,
                LogContext {
                    group_id,
                    host_uuid: user.user_uuid,
                    user_uuid: Some(user.user_uuid),
                },
                LogTargetType::Request,
                LogOperationType::Created,
                None,
            )
        },
        old(store).role_invariant() ==> final(store).role_invariant(),
{
    let gi = match store.find_group(group_name) {
        Some(gi) => gi,
        None => {
            return Err(PacksError::GroupNotFound);
        },
    };
    let group_id: i32 = store.groups[gi].id;
    store.requests.push(Request { group_id, user_uuid: user.user_uuid, request_expiration });
    let log_ctx = LogContext::with(group_id, user.user_uuid).with_user(user.user_uuid);
    store.db_log(&log_ctx, LogTargetType::Request, LogOperationType::Created, None);
    Ok(())
}

/// The requests to join the group called `group_name`, in the order in
/// which they were made.
pub fn pending_requests(store: &Store, group_name: &str) -> (r: Result<Vec<Request>, PacksError>)
    requires
        store.wf(),
    ensures
        r is Ok <==> store.has_group(group_name@),
        r is Err ==> failed_with(r, PacksError::GroupNotFound),
        r matches Ok(found) ==> found@ == store.requests@.filter(
            request_for(store.group_id(group_name@)),
        ),
{
    let gi = match store.find_group(group_name) {
        Some(gi) => gi,
        None => {
            return Err(PacksError::GroupNotFound);
        },
    };
    let group_id: i32 = store.groups[gi].id;
    let ghost rows = store.requests@;
    let mut found: Vec<Request> = Vec::new();
    let mut i: usize = 0;
    assert(rows.take(0).filter(request_for(group_id)) =~= Seq::<Request>::empty());
    while i < store.requests.len()
        invariant
            i <= store.requests.len(),
            rows == store.requests@,
            found@ == rows.take(i as int).filter(request_for(group_id)),
        decreases store.requests.len() - i,
    {
        let row = store.requests[i];
        proof {
            lemma_filter_step(rows, i as int, request_for(group_id));
        }
        if row.group_id == group_id {
            found.push(row);
        }
        i += 1;
    }
    proof {
        lemma_take_all(rows);
    }
    Ok(found)
}

/// What [`reject_request`] leaves behind and returns.
pub open spec fn reject_request_post(
    before: &Store,
    after: &Store,
    r: Result<(), PacksError>,
    host: User,
    group_name: Seq<char>,
    member: User,
) -> bool {
    let group_id = before.group_id(group_name);
    let asked = has_request(before.requests@, group_id, member.user_uuid);
    &&& !before.has_group(group_name) ==> failed_with(r, PacksError::GroupNotFound)
    &&& before.has_group(group_name) && !asked ==> failed_with(r, PacksError::RequestNotFound)
    &&& before.has_group(group_name) && asked ==> r is Ok
    &&& r is Err ==> *after == *before
    &&& r is Ok ==> {
        &&& after.requests@ == before.requests@.filter(request_not_of(group_id, member.user_uuid))
        &&& after.keeps_groups(before)
        &&& after.keeps_roles(before)
        &&& after.memberships@ == before.memberships@
        &&& after.users@ == before.users@
        &&& after.invitations@ == before.invitations@
        &&& log_appended(
            before.logs@,
            after.logs@,
            LogContext { group_id, host_uuid: host.user_uuid, user_uuid: Some(member.user_uuid) },
            LogTargetType::Request,
            LogOperationType::Deleted,
            None,
        )
    }
}

/// Turns down the request of `member` to join the group called
/// `group_name`, on behalf of `host`.
pub fn reject_request(store: &mut Store, host: &User, group_name: &str, member: &User) -> (r: Result<
    (),
    PacksError,
>)
    requires
        old(store).wf(),
    ensures
        final(store).wf(),
        reject_request_post(old(store), final(store), r, *host, group_name@, *member),
        old(store).role_invariant() ==> final(store).role_invariant(),
{
    let gi = match store.find_group(group_name) {
        Some(gi) => gi,
        None => {
            return Err(PacksError::GroupNotFound);
        },
    };
    let group_id: i32 = store.groups[gi].id;
    let ghost rows = store.requests@;
    let ghost keep = request_not_of(group_id, member.user_uuid);
    let mut kept: Vec<Request> = Vec::new();
    let mut asked = false;
    let mut i: usize = 0;
    assert(rows.take(0).filter(keep) =~= Seq::<Request>::empty());
    while i < store.requests.len()
        invariant
            i <= store.requests.len(),
            rows == store.requests@,
            keep == request_not_of(group_id, member.user_uuid),
            kept@ == rows.take(i as int).filter(keep),
            asked <==> exists|j: int|
                0 <= j < i && (#[trigger] rows[j]).group_id == group_id && rows[j].user_uuid
                    == member.user_uuid,
        decreases store.requests.len() - i,
    {
        let row = store.requests[i];
        proof {
            lemma_filter_step(rows, i as int, keep);
        }
        if row.group_id == group_id && row.user_uuid == member.user_uuid {
            asked = true;
        } else {
            kept.push(row);
        }
        i += 1;
    }
    proof {
        lemma_take_all(rows);
    }
    if !asked {
        return Err(PacksError::RequestNotFound);
    }
    store.requests = kept;
    let log_ctx = LogContext::with(group_id, host.user_uuid).with_user(member.user_uuid);
    store.db_log(&log_ctx, LogTargetType::Request, LogOperationType::Deleted, None);
    Ok(())
}

/// What [`accept_request`] leaves behind and returns: the user is a member
/// for as long as the group grants by default, and the request is gone.
pub open spec fn accept_request_post(
    before: &Store,
    after: &Store,
    r: Result<SyncCall, PacksError>,
    host: User,
    group_name: Seq<char>,
    member: User,
    now: Timestamp,
) -> bool {
    let group_id = before.group_id(group_name);
    let asked = has_request(before.requests@, group_id, member.user_uuid);
    &&& !before.has_group(group_name) ==> failed_with(r, PacksError::GroupNotFound)
    &&& before.has_group(group_name) && !asked ==> failed_with(r, PacksError::RequestNotFound)
    &&& before.has_group(group_name) && asked && !before.has_role(
        group_id,
        crate::types::RoleType::Member,
    ) ==> failed_with(r, PacksError::RoleNotFound)
    &&& before.has_group(group_name) && asked && before.has_role(
        group_id,
        crate::types::RoleType::Member,
    ) ==> r is Ok
    &&& r is Err ==> *after == *before
    &&& r matches Ok(call) ==> exists|added: Store|
        accepted_by_way_of(before, added, after, call, host, group_name, member, now)
}

/// Whether the acceptance of a request went from `before` by way of
/// `added`, where the user is a member, to `after`, where the request is
/// gone.
pub open spec fn accepted_by_way_of(
    before: &Store,
    added: Store,
    after: &Store,
    call: SyncCall,
    host: User,
    group_name: Seq<char>,
    member: User,
    now: Timestamp,
) -> bool {
    let group_id = before.group_id(group_name);
    &&& add_to_group_post(
        before,
        &added,
        Ok(()),
        group_name,
        host,
        member,
        before.group(group_name).group_expiration,
        now,
    )
    &&& after.members() == added.members()
    &&& after.requests@ == before.requests@.filter(request_not_of(group_id, member.user_uuid))
    &&& after.keeps_groups(before)
    &&& after.keeps_roles(before)
    &&& after.users@ == before.users@
    &&& after.invitations@ == before.invitations@
    &&& log_appended(
        added.logs@,
        after.logs@,
        LogContext { group_id, host_uuid: host.user_uuid, user_uuid: Some(member.user_uuid) },
        LogTargetType::Request,
        LogOperationType::Deleted,
        None,
    )
    &&& call@ == (SyncCallView::AddGroup { user_uuid: member.user_uuid, group_name })
}

/// Whether `user_uuid` has asked to join the group `group_id`.
pub fn has_asked(store: &Store, group_id: i32, user_uuid: u128) -> (r: bool)
    ensures
        r == has_request(store.requests@, group_id, user_uuid),
{
    let mut i: usize = 0;
    while i < store.requests.len()
        invariant
            i <= store.requests.len(),
            forall|j: int|
                0 <= j < i ==> !((#[trigger] store.requests@[j]).group_id == group_id
                    && store.requests@[j].user_uuid == user_uuid),
        decreases store.requests.len() - i,
    {
        if store.requests[i].group_id == group_id && store.requests[i].user_uuid == user_uuid {
            return true;
        }
        i += 1;
    }
    false
}

/// Grants the request of `member` to join the group called `group_name`,
/// on behalf of `host`, at the time `now`, and yields the call that adds the
/// group to the profile of the user.
pub fn accept_request(
    store: &mut Store,
    host: &User,
    group_name: &str,
    member: &User,
    now: Timestamp,
) -> (r: Result<SyncCall, PacksError>)
    requires
        old(store).wf(),
    ensures
        final(store).wf(),
        accept_request_post(old(store), final(store), r, *host, group_name@, *member, now),
        old(store).role_invariant() ==> final(store).role_invariant(),
{
    let gi = match store.find_group(group_name) {
        Some(gi) => gi,
        None => {
            return Err(PacksError::GroupNotFound);
        },
    };
    let expiration = store.groups[gi].group_expiration;
    let group_id: i32 = store.groups[gi].id;
    if !has_asked(store, group_id, member.user_uuid) {
        return Err(PacksError::RequestNotFound);
    }
    match add_to_group_at(store, group_name, host, member, expiration, now) {
        Ok(()) => {},
        Err(e) => {
            return Err(e);
        },
    }
    let ghost added = *store;
    match reject_request(store, host, group_name, member) {
        Ok(()) => {},
        Err(e) => {
            return Err(e);
        },
    }
    let call = SyncCall::AddGroup {
        user_uuid: member.user_uuid,
        group_name: String::from_str(group_name),
    };
    proof {
        assert(accepted_by_way_of(
            old(store),
            added,
            store,
            call,
            *host,
            group_name@,
            *member,
            now,
        ));
    }
    Ok(call)
}

} // verus!
