//! The administrative surface: what an administrator may ask of the engine,
//! freed of transport. Every entry point resolves the actor, carries out the
//! operation, and reports success or an error with its category.

use vstd::prelude::*;
use crate::clock::Timestamp;
use crate::consolidate::{consolidate_post, Reconciled, RemoteGroups};
use crate::error::{categorized, plain, ApiError, PacksError};
use crate::group::{group_changed, update_group_trust, PaginatedGroups};
use crate::lifecycle::{
    add_membership, add_membership_post, remove_silent, revoke_one_post, transfer, transfer_post,
    Removal, SyncCall, SyncCallView, TransferPlan,
};
use crate::member::{get_curator_emails, upsert_post};
use crate::model::{log_view, LogContext, LogEntry, Request};
use crate::pending::{pending_requests, reject_request, reject_request_post, request_for};
use crate::sequences::texts;
use crate::store::{log_appended, Store};
use crate::types::{LogOperationType, LogTargetType, RoleType, TrustType, User, SYSTEM_UUID};
use crate::user::{
    delete_user_post, get_all_member_uuids, get_all_staff_uuids, raw_logs, staff, user_by_id,
    user_with_id, uuid_of,
};

verus! {

/// The authenticated actor of a request and the tier the actor acts at. The
/// engine takes both on trust.
#[derive(Debug, PartialEq, Eq)]
pub struct ScopeAndUser {
    pub user_id: String,
    pub scope: TrustType,
}

/// Whether to report the drift between the store and the identity service
/// or to mend it.
#[derive(Clone, Copy, Debug, PartialEq, Eq, Structural)]
pub struct ConsolidateQuery {
    pub dry_run: bool,
}

/// The trust tier a group is to take.
#[derive(Clone, Copy, Debug, PartialEq, Eq, Structural)]
pub struct ChangeTrust {
    pub trust: TrustType,
}

/// The user to add to a group, for how many days, and whether the system
/// rather than the actor is to stand as the host.
#[derive(Clone, Copy, Debug, PartialEq, Eq, Structural)]
pub struct AddUser {
    pub user_uuid: u128,
    pub group_expiration: Option<i32>,
    pub no_host: bool,
}

/// The page of a listing: `n` is the offset, `s` the size.
#[derive(Clone, Copy, Debug, PartialEq, Eq, Structural)]
pub struct LimitOffsetQuery {
    pub n: i64,
    pub s: i64,
}

/// The membership to hand over, and from whom to whom.
#[derive(Debug, PartialEq, Eq)]
pub struct TransferMemberShip {
    pub group_name: String,
    pub old_user_uuid: u128,
    pub new_user_uuid: u128,
}

/// The size of a page of groups where the request names none.
pub fn default_groups_list_size() -> (r: i64)
    ensures
        r == 20,
{
    20
}

impl Default for LimitOffsetQuery {
    /// The first page, of the default size.
    fn default() -> (r: LimitOffsetQuery)
        ensures
            r == (LimitOffsetQuery { n: 0, s: 20 }),
    {
        LimitOffsetQuery { n: 0, s: default_groups_list_size() }
    }
}

/// The host of an addition: the system where none is wanted, else the
/// actor, who must be known.
pub open spec fn host_of(store: Store, user_id: Seq<char>, no_host: bool) -> Result<User, PacksError> {
    if no_host {
        Ok(User { user_uuid: SYSTEM_UUID })
    } else {
        user_with_id(store.users@, user_id)
    }
}

/// The host of an addition.
pub fn resolve_host(store: &Store, scope_and_user: &ScopeAndUser, no_host: bool) -> (r: Result<
    User,
    PacksError,
>)
    ensures
        r == host_of(*store, scope_and_user.user_id@, no_host),
{
    if no_host {
        Ok(User::default())
    } else {
        user_by_id(store, scope_and_user.user_id.as_str())
    }
}

/// Adds the user of `request` to the group called `group_name`.
pub fn add_member(
    store: &mut Store,
    group_name: &str,
    scope_and_user: &ScopeAndUser,
    request: &AddUser,
    now: Timestamp,
) -> (r: Result<SyncCall, ApiError>)
    requires
        old(store).wf(),
    ensures
        final(store).wf(),
        categorized(r),
        match host_of(*old(store), scope_and_user.user_id@, request.no_host) {
            Err(e) => plain(r) is Err && plain(r)->Err_0 == e && *final(store) == *old(store),
            Ok(host) => add_membership_post(
                old(store),
                final(store),
                plain(r),
                group_name@,
                host,
                User { user_uuid: request.user_uuid },
                request.group_expiration,
                now,
            ),
        },
        old(store).role_invariant() ==> final(store).role_invariant(),
{
    let host = match resolve_host(store, scope_and_user, request.no_host) {
        Ok(host) => host,
        Err(e) => {
            return Err(ApiError::of(e));
        },
    };
    let user = User { user_uuid: request.user_uuid };
    ApiError::wrap(add_membership(store, group_name, &host, &user, request.group_expiration, now))
}

/// Makes the user of `request` an admin of the group called
/// `group_name`, and yields the call that adds the group to the profile of
/// the user.
pub fn add_admin(
    store: &mut Store,
    group_name: &str,
    scope_and_user: &ScopeAndUser,
    request: &AddUser,
    now: Timestamp,
) -> (r: Result<SyncCall, ApiError>)
    requires
        old(store).wf(),
    ensures
        final(store).wf(),
        categorized(r),
        match host_of(*old(store), scope_and_user.user_id@, request.no_host) {
            Err(e) => plain(r) is Err && plain(r)->Err_0 == e && *final(store) == *old(store),
            Ok(host) => upsert_post(
                old(store),
                final(store),
                match r {
                    Ok(_) => Ok(()),
                    Err(a) => Err(a.error),
                },
                group_name@,
                RoleType::Admin,
                host,
                User { user_uuid: request.user_uuid },
                None,
                now,
                "added"@,
            ) && (r matches Ok(call) ==> call@ == (SyncCallView::AddGroup {
                user_uuid: request.user_uuid,
                group_name: group_name@,
            })),
        },
        old(store).role_invariant() ==> final(store).role_invariant(),
{
    let host = match resolve_host(store, scope_and_user, request.no_host) {
        Ok(host) => host,
        Err(e) => {
            return Err(ApiError::of(e));
        },
    };
    let user = User { user_uuid: request.user_uuid };
    match crate::member::add_admin(store, group_name, &host, &user, now) {
        Ok(()) => Ok(
            SyncCall::AddGroup { user_uuid: user.user_uuid, group_name: String::from_str(group_name) },
        ),
        Err(e) => Err(ApiError::of(e)),
    }
}

/// Takes the user `user_uuid` out of the group called `group_name`, by
/// force and without telling the user. The actor must be known.
pub fn remove_member(
    store: &mut Store,
    group_name: &str,
    user_uuid: u128,
    scope_and_user: &ScopeAndUser,
) -> (r: Result<Removal, ApiError>)
    requires
        old(store).wf(),
    ensures
        final(store).wf(),
        categorized(r),
        match user_with_id(old(store).users@, scope_and_user.user_id@) {
            Err(e) => plain(r) is Err && plain(r)->Err_0 == e && *final(store) == *old(store),
            Ok(host) => revoke_one_post(
                old(store),
                final(store),
                group_name@,
                user_uuid,
                host.user_uuid,
                true,
                None,
                None,
                plain(r),
            ),
        },
        old(store).role_invariant() ==> final(store).role_invariant(),
{
    let host = match user_by_id(store, scope_and_user.user_id.as_str()) {
        Ok(host) => host,
        Err(e) => {
            return Err(ApiError::of(e));
        },
    };
    ApiError::wrap(remove_silent(store, group_name, &host, &User { user_uuid }))
}

/// Hands a membership over as `transfer_request` says. The actor must be
/// known.
pub fn transfer_membership(
    store: &mut Store,
    transfer_request: &TransferMemberShip,
    scope_and_user: &ScopeAndUser,
) -> (r: Result<TransferPlan, ApiError>)
    requires
        old(store).wf(),
    ensures
        final(store).wf(),
        categorized(r),
        match user_with_id(old(store).users@, scope_and_user.user_id@) {
            Err(e) => plain(r) is Err && plain(r)->Err_0 == e && *final(store) == *old(store),
            Ok(host) => transfer_post(
                old(store),
                final(store),
                plain(r),
                transfer_request.group_name@,
                host,
                User { user_uuid: transfer_request.old_user_uuid },
                User { user_uuid: transfer_request.new_user_uuid },
            ),
        },
        old(store).role_invariant() ==> final(store).role_invariant(),
{
    let host = match user_by_id(store, scope_and_user.user_id.as_str()) {
        Ok(host) => host,
        Err(e) => {
            return Err(ApiError::of(e));
        },
    };
    ApiError::wrap(
        transfer(
            store,
            transfer_request.group_name.as_str(),
            &host,
            &User { user_uuid: transfer_request.old_user_uuid },
            &User { user_uuid: transfer_request.new_user_uuid },
        ),
    )
}

/// Gives the group called `group_name` the trust tier of `trust_change`.
/// The actor must be known.
pub fn change_trust(
    store: &mut Store,
    group_name: &str,
    scope_and_user: &ScopeAndUser,
    trust_change: &ChangeTrust,
) -> (r: Result<(), ApiError>)
    requires
        old(store).wf(),
    ensures
        final(store).wf(),
        categorized(r),
        match user_with_id(old(store).users@, scope_and_user.user_id@) {
            Err(e) => plain(r) is Err && plain(r)->Err_0 == e,
            Ok(host) => if old(store).has_group(group_name@) {
                let group = old(store).group(group_name@);
                &&& r is Ok
                &&& group_changed(
                    old(store),
                    final(store),
                    group_name@,
                    crate::model::Group { trust: trust_change.trust, ..group },
                )
                &&& log_appended(
                    old(store).logs@,
                    final(store).logs@,
                    LogContext { group_id: group.id, host_uuid: host.user_uuid, user_uuid: None },
                    LogTargetType::Group,
                    LogOperationType::Updated,
                    Some("trust"@),
                )
            } else {
                plain(r) is Err && plain(r)->Err_0 == PacksError::GroupNotFound
            },
        },
        r is Err ==> *final(store) == *old(store),
        old(store).role_invariant() ==> final(store).role_invariant(),
{
    let host = match user_by_id(store, scope_and_user.user_id.as_str()) {
        Ok(host) => host,
        Err(e) => {
            return Err(ApiError::of(e));
        },
    };
    ApiError::wrap(update_group_trust(host.user_uuid, store, group_name, trust_change.trust))
}

/// Deletes the user `user_uuid` with all their memberships.
pub fn delete_user(store: &mut Store, user_uuid: u128) -> (r: Result<(), ApiError>)
    requires
        old(store).wf(),
    ensures
        final(store).wf(),
        r is Ok,
        delete_user_post(old(store), final(store), User { user_uuid }),
        old(store).role_invariant() ==> final(store).role_invariant(),
{
    let user = User { user_uuid };
    crate::user::delete_user(store, &user);
    Ok(())
}

/// The UUIDs of the users of tier staff.
pub fn all_staff_uuids(store: &Store) -> (r: Result<Vec<u128>, ApiError>)
    ensures
        r matches Ok(uuids) && uuids@ == store.users@.filter(staff()).map_values(uuid_of()),
{
    Ok(get_all_staff_uuids(store))
}

/// The UUIDs of all users with a cached profile.
pub fn all_member_uuids(store: &Store) -> (r: Result<Vec<u128>, ApiError>)
    ensures
        r matches Ok(uuids) && uuids@ == store.users@.map_values(uuid_of()),
{
    Ok(get_all_member_uuids(store))
}

/// The whole audit log. The actor must be known.
pub fn all_raw_logs(store: &Store, scope_and_user: &ScopeAndUser) -> (r: Result<
    Vec<LogEntry>,
    ApiError,
>)
    ensures
        categorized(r),
        r is Ok <==> user_with_id(store.users@, scope_and_user.user_id@) is Ok,
        r matches Err(a) ==> a.error == PacksError::UserNotFound,
        r matches Ok(logs) ==> log_view(logs@) == log_view(store.logs@),
{
    match user_by_id(store, scope_and_user.user_id.as_str()) {
        Ok(_) => Ok(raw_logs(store)),
        Err(e) => Err(ApiError::of(e)),
    }
}

/// The mail addresses of the curators and admins of the group called
/// `group_name`.
pub fn curator_emails(store: &Store, group_name: &str) -> (r: Result<Vec<String>, ApiError>)
    requires
        store.wf(),
    ensures
        categorized(r),
        r is Ok <==> store.has_group(group_name@),
        r matches Err(a) ==> a.error == PacksError::GroupNotFound,
        r matches Ok(emails) ==> texts(emails@) == crate::member::curator_emails(
            *store,
            store.group_id(group_name@),
        ),
{
    match store.find_group(group_name) {
        Some(i) => Ok(get_curator_emails(store, store.groups[i].id)),
        None => Err(ApiError::of(PacksError::GroupNotFound)),
    }
}

/// The page of the groups that are out of use that `query` asks for.
pub fn list_inactive_groups(store: &Store, query: &LimitOffsetQuery) -> (r: Result<
    PaginatedGroups,
    ApiError,
>)
    ensures
        r matches Ok(page) && page.groups@ == crate::paging::page_of(
            store.groups@.filter(crate::group::inactive()),
            query.n,
            query.s,
        ) && page.next == crate::paging::next_after(query.n, page.groups@.len() as int),
{
    Ok(crate::group::list_inactive_groups(store, query.s, query.n))
}

/// Turns down the request of the user `user_uuid` to join the group called
/// `group_name`. The actor must be known.
pub fn reject(
    store: &mut Store,
    group_name: &str,
    user_uuid: u128,
    scope_and_user: &ScopeAndUser,
) -> (r: Result<(), ApiError>)
    requires
        old(store).wf(),
    ensures
        final(store).wf(),
        categorized(r),
        match user_with_id(old(store).users@, scope_and_user.user_id@) {
            Err(e) => plain(r) is Err && plain(r)->Err_0 == e && *final(store) == *old(store),
            Ok(host) => reject_request_post(
                old(store),
                final(store),
                plain(r),
                host,
                group_name@,
                User { user_uuid },
            ),
        },
        old(store).role_invariant() ==> final(store).role_invariant(),
{
    let host = match user_by_id(store, scope_and_user.user_id.as_str()) {
        Ok(host) => host,
        Err(e) => {
            return Err(ApiError::of(e));
        },
    };
    ApiError::wrap(reject_request(store, &host, group_name, &User { user_uuid }))
}

/// The requests to join the group called `group_name`.
pub fn pending(store: &Store, group_name: &str) -> (r: Result<Vec<Request>, ApiError>)
    requires
        store.wf(),
    ensures
        categorized(r),
        r is Ok <==> store.has_group(group_name@),
        r matches Err(a) ==> a.error == PacksError::GroupNotFound,
        r matches Ok(found) ==> found@ == store.requests@.filter(
            request_for(store.group_id(group_name@)),
        ),
{
    ApiError::wrap(pending_requests(store, group_name))
}

/// Compares the store with what the identity service said in `remote`, as
/// a dry run or for real as `query` says.
pub fn consolidate_users_with_cis(
    store: &Store,
    query: &ConsolidateQuery,
    remote: &Vec<RemoteGroups>,
) -> (r: Result<Vec<Reconciled>, ApiError>)
    requires
        store.wf(),
    ensures
        r matches Ok(done) && consolidate_post(*store, query.dry_run, remote@, done@),
{
    Ok(crate::consolidate::consolidate_users_with_cis(store, query.dry_run, remote))
}

/// Reserves the name `group_name`. The actor must be known.
pub fn reserve_group(
    store: &mut Store,
    scope_and_user: &ScopeAndUser,
    group_name: &str,
    now: Timestamp,
) -> (r: Result<(), ApiError>)
    requires
        old(store).wf(),
    ensures
        final(store).wf(),
        categorized(r),
        match user_with_id(old(store).users@, scope_and_user.user_id@) {
            Err(e) => plain(r) is Err && plain(r)->Err_0 == e && *final(store) == *old(store),
            Ok(host) => crate::group::reserve_group_post(
                old(store),
                final(store),
                plain(r),
                host.user_uuid,
                group_name@,
                now,
            ),
        },
        old(store).role_invariant() ==> final(store).role_invariant(),
{
    let host = match user_by_id(store, scope_and_user.user_id.as_str()) {
        Ok(host) => host,
        Err(e) => {
            return Err(ApiError::of(e));
        },
    };
    ApiError::wrap(crate::group::reserve_group(host.user_uuid, store, group_name, now))
}

/// Deletes the group called `group_name`, which must be out of use. The
/// actor must be known.
pub fn delete_inactive_group(
    store: &mut Store,
    scope_and_user: &ScopeAndUser,
    group_name: &str,
) -> (r: Result<Vec<SyncCall>, ApiError>)
    requires
        old(store).wf(),
    ensures
        final(store).wf(),
        categorized(r),
        match user_with_id(old(store).users@, scope_and_user.user_id@) {
            Err(e) => plain(r) is Err && plain(r)->Err_0 == e && *final(store) == *old(store),
            Ok(host) => crate::retire::delete_inactive_group_post(
                old(store),
                final(store),
                plain(r),
                host.user_uuid,
                group_name@,
            ),
        },
        old(store).role_invariant() ==> final(store).role_invariant(),
{
    let host = match user_by_id(store, scope_and_user.user_id.as_str()) {
        Ok(host) => host,
        Err(e) => {
            return Err(ApiError::of(e));
        },
    };
    ApiError::wrap(crate::retire::delete_inactive_group(host.user_uuid, store, group_name))
}

/// One page of the members of the group called `group_name`, as the actor
/// may see them at the tier the actor acts at.
pub fn group_members(
    store: &Store,
    group_name: &str,
    scope_and_user: &ScopeAndUser,
    query: Option<String>,
    roles: &Vec<RoleType>,
    page: &LimitOffsetQuery,
) -> (r: Result<crate::listing::PaginatedDisplayMembersAndHost, ApiError>)
    requires
        store.wf(),
    ensures
        categorized(r),
        crate::listing::listing_post(
            *store,
            scope_and_user.scope,
            group_name@,
            crate::model::text_of(query),
            roles@,
            page.s,
            Some(page.n),
            plain(r),
        ),
{
    ApiError::wrap(
        crate::listing::scoped_members_and_host(
            store,
            scope_and_user.scope,
            group_name,
            query,
            roles,
            page.s,
            Some(page.n),
        ),
    )
}

/// All that the store holds of the user `user_uuid`.
pub fn raw_data(store: &Store, user_uuid: u128) -> (r: Result<crate::user::RawUserData, ApiError>)
    requires
        store.wf(),
    ensures
        r matches Ok(data) && crate::user::raw_user_data_post(*store, user_uuid, data),
{
    Ok(crate::user::raw_user_data(store, user_uuid))
}

} // verus!
