//! The cache of user profiles: what the engine needs of a user to address
//! and to name them.

use vstd::prelude::*;
use crate::error::PacksError;
use crate::model::{
    log_view, Invitation, LogContext, LogEntry, LogEntryView, Membership, Request, UserProfile,
};
use crate::partition::held_by;
use crate::sequences::{
    lemma_filter_keeps_order, lemma_filter_map_step, lemma_filter_member, lemma_filter_step,
    lemma_map_push, lemma_take_all, lemma_take_step,
};
use crate::store::{lemma_member_map_filter, record, role_id_at};
use crate::types::{LogOperationType, LogTargetType, TrustType, SYSTEM_UUID};
use crate::store::{user_at, Store};
use crate::types::User;

verus! {

/// Whether row `i` of `users` is a profile with the login id `user_id`.
pub open spec fn user_id_at(users: Seq<UserProfile>, user_id: Seq<char>, i: int) -> bool {
    0 <= i < users.len() && users[i].user_id@ == user_id
}

/// Whether row `i` of `users` is the first profile with the login id
/// `user_id`.
pub open spec fn first_user_id_at(users: Seq<UserProfile>, user_id: Seq<char>, i: int) -> bool {
    user_id_at(users, user_id, i) && forall|j: int| 0 <= j < i ==> !user_id_at(users, user_id, j)
}

/// The first profile among `users` with the login id `user_id`, if there
/// is one.
pub open spec fn profile_with_id(users: Seq<UserProfile>, user_id: Seq<char>) -> Option<UserProfile> {
    if exists|i: int| user_id_at(users, user_id, i) {
        Some(users[choose|i: int| first_user_id_at(users, user_id, i)])
    } else {
        None
    }
}

/// The user among `users` with the login id `user_id`, if there is one.
pub open spec fn user_with_id(users: Seq<UserProfile>, user_id: Seq<char>) -> Result<User, PacksError> {
    match profile_with_id(users, user_id) {
        Some(p) => Ok(User { user_uuid: p.user_uuid }),
        None => Err(PacksError::UserNotFound),
    }
}

/// Only one row is the first with a login id.
pub proof fn lemma_first_user_id(users: Seq<UserProfile>, user_id: Seq<char>, i: int)
    requires
        first_user_id_at(users, user_id, i),
    ensures
        (choose|j: int| first_user_id_at(users, user_id, j)) == i,
{
    let j = choose|j: int| first_user_id_at(users, user_id, j);
    if i < j {
        assert(!user_id_at(users, user_id, i));
    } else if j < i {
        assert(!user_id_at(users, user_id, j));
    }
}

/// The cached profile of `user_uuid`.
pub fn slim_user_profile_by_uuid(store: &Store, user_uuid: u128) -> (r: Result<
    UserProfile,
    PacksError,
>)
    requires
        store.wf(),
    ensures
        store.has_user(user_uuid) ==> r == Ok::<UserProfile, PacksError>(store.user(user_uuid)),
        !store.has_user(user_uuid) ==> r == Err::<UserProfile, PacksError>(
            PacksError::UserNotFound,
        ),
{
    match store.find_user(user_uuid) {
        Some(i) => Ok(store.users[i].clone()),
        None => Err(PacksError::UserNotFound),
    }
}

/// The first cached profile with the login id `user_id`.
pub fn user_profile_by_user_id(store: &Store, user_id: &str) -> (r: Result<UserProfile, PacksError>)
    ensures
        r is Ok <==> exists|i: int| user_id_at(store.users@, user_id@, i),
        r is Err ==> r == Err::<UserProfile, PacksError>(PacksError::UserNotFound),
        r matches Ok(profile) ==> exists|i: int|
            first_user_id_at(store.users@, user_id@, i) && profile == store.users@[i],
        r matches Ok(profile) ==> profile_with_id(store.users@, user_id@) == Some(profile),
        r is Err ==> profile_with_id(store.users@, user_id@) is None,
{
    let key = String::from_str(user_id);
    let mut i: usize = 0;
    while i < store.users.len()
        invariant
            i <= store.users.len(),
            key@ == user_id@,
            forall|j: int| 0 <= j < i ==> !user_id_at(store.users@, user_id@, j),
        decreases store.users.len() - i,
    {
        if store.users[i].user_id == key {
            assert(first_user_id_at(store.users@, user_id@, i as int));
            proof {
                lemma_first_user_id(store.users@, user_id@, i as int);
            }
            return Ok(store.users[i].clone());
        }
        i += 1;
    }
    Err(PacksError::UserNotFound)
}

/// The user with the login id `user_id`.
pub fn user_by_id(store: &Store, user_id: &str) -> (r: Result<User, PacksError>)
    ensures
        r is Ok <==> exists|i: int| user_id_at(store.users@, user_id@, i),
        r is Err ==> r == Err::<User, PacksError>(PacksError::UserNotFound),
        r matches Ok(user) ==> exists|i: int|
            first_user_id_at(store.users@, user_id@, i) && user.user_uuid
                == store.users@[i].user_uuid,
        r == user_with_id(store.users@, user_id@),
{
    match user_profile_by_user_id(store, user_id) {
        Ok(profile) => Ok(profile.user()),
        Err(e) => Err(e),
    }
}

/// Puts `profile` into the cache, in place of an older profile of the same
/// user where there is one.
pub fn update_user_cache(store: &mut Store, profile: UserProfile)
    requires
        old(store).wf(),
    ensures
        final(store).wf(),
        final(store).has_user(profile.user_uuid),
        final(store).user(profile.user_uuid) == profile,
        forall|u: u128|
            u != profile.user_uuid ==> final(store).has_user(u) == old(store).has_user(u) && (
            old(store).has_user(u) ==> final(store).user(u) == old(store).user(u)),
        old(store).has_user(profile.user_uuid) ==> exists|i: int|
            user_at(old(store).users@, profile.user_uuid, i) && final(store).users@ == old(
                store,
            ).users@.update(i, profile),
        !old(store).has_user(profile.user_uuid) ==> final(store).users@ == old(store).users@.push(
            profile,
        ),
        final(store).keeps_groups(old(store)),
        final(store).keeps_roles(old(store)),
        final(store).memberships@ == old(store).memberships@,
        final(store).invitations@ == old(store).invitations@,
        final(store).requests@ == old(store).requests@,
        final(store).logs@ == old(store).logs@,
        old(store).role_invariant() ==> final(store).role_invariant(),
{
    let ghost before = store.users@;
    let ghost uuid = profile.user_uuid;
    match store.find_user(profile.user_uuid) {
        Some(i) => {
            store.users.set(i, profile);
            proof {
                let after = store.users@;
                assert forall|a: int, b: int| 0 <= a < b < after.len() implies (
                #[trigger] after[a]).user_uuid
                    != (#[trigger] after[b]).user_uuid by {
                    assert(after[a].user_uuid == before[a].user_uuid);
                    assert(after[b].user_uuid == before[b].user_uuid);
                }
                lemma_user_rows(after, i as int);
                assert forall|u: u128| u != uuid implies store.has_user(u) == old(store).has_user(u)
                    && (old(store).has_user(u) ==> store.user(u) == old(store).user(u)) by {
                    if old(store).has_user(u) {
                        let a = choose|a: int| user_at(before, u, a);
                        assert(user_at(after, u, a));
                        lemma_user_rows(after, a);
                    }
                    if store.has_user(u) {
                        let a = choose|a: int| user_at(after, u, a);
                        assert(user_at(before, u, a));
                    }
                }
            }
        },
        None => {
            store.users.push(profile);
            proof {
                let after = store.users@;
                assert forall|a: int, b: int| 0 <= a < b < after.len() implies (
                #[trigger] after[a]).user_uuid
                    != (#[trigger] after[b]).user_uuid by {
                    if b == before.len() {
                        assert(after[a] == before[a]);
                        assert(user_at(before, before[a].user_uuid, a));
                    } else {
                        assert(after[a] == before[a] && after[b] == before[b]);
                    }
                }
                lemma_user_rows(after, before.len() as int);
                assert forall|u: u128| u != uuid implies store.has_user(u) == old(store).has_user(u)
                    && (old(store).has_user(u) ==> store.user(u) == old(store).user(u)) by {
                    if old(store).has_user(u) {
                        let a = choose|a: int| user_at(before, u, a);
                        assert(after[a] == before[a]);
                        assert(user_at(after, u, a));
                        lemma_user_rows(after, a);
                    }
                    if store.has_user(u) {
                        let a = choose|a: int| user_at(after, u, a);
                        assert(after[a] == before[a]);
                        assert(user_at(before, u, a));
                    }
                }
            }
        },
    }
}

/// A UUID belongs to one row of a table of profiles with unique UUIDs.
pub proof fn lemma_user_rows(users: Seq<UserProfile>, i: int)
    requires
        crate::store::users_wf(users),
        0 <= i < users.len(),
    ensures
        user_at(users, users[i].user_uuid, i),
        (choose|j: int| user_at(users, users[i].user_uuid, j)) == i,
{
    let u = users[i].user_uuid;
    assert(user_at(users, u, i));
    let j = choose|j: int| user_at(users, u, j);
    if i < j {
        assert(users[i].user_uuid != users[j].user_uuid);
    } else if j < i {
        assert(users[j].user_uuid != users[i].user_uuid);
    }
}

/// The profiles of tier staff.
pub open spec fn staff() -> spec_fn(UserProfile) -> bool {
    |p: UserProfile| p.trust == TrustType::Staff
}

/// The UUID of a profile.
pub open spec fn uuid_of() -> spec_fn(UserProfile) -> u128 {
    |p: UserProfile| p.user_uuid
}

/// The UUIDs of the users of tier staff, in the order of the cache.
pub fn get_all_staff_uuids(store: &Store) -> (r: Vec<u128>)
    ensures
        r@ == store.users@.filter(staff()).map_values(uuid_of()),
{
    let ghost rows = store.users@;
    let mut found: Vec<u128> = Vec::new();
    let mut i: usize = 0;
    assert(rows.take(0).filter(staff()).map_values(uuid_of()) =~= Seq::<u128>::empty());
    while i < store.users.len()
        invariant
            i <= store.users.len(),
            rows == store.users@,
            found@ == rows.take(i as int).filter(staff()).map_values(uuid_of()),
        decreases store.users.len() - i,
    {
        proof {
            lemma_filter_map_step(rows, i as int, staff(), uuid_of());
        }
        let is_staff = match store.users[i].trust {
            TrustType::Staff => true,
            _ => false,
        };
        if is_staff {
            found.push(store.users[i].user_uuid);
        }
        i += 1;
    }
    proof {
        lemma_take_all(rows);
    }
    found
}

/// The UUIDs of all users with a cached profile, in the order of the cache.
pub fn get_all_member_uuids(store: &Store) -> (r: Vec<u128>)
    ensures
        r@ == store.users@.map_values(uuid_of()),
{
    let ghost rows = store.users@;
    let mut found: Vec<u128> = Vec::new();
    let mut i: usize = 0;
    assert(rows.take(0).map_values(uuid_of()) =~= Seq::<u128>::empty());
    while i < store.users.len()
        invariant
            i <= store.users.len(),
            rows == store.users@,
            found@ == rows.take(i as int).map_values(uuid_of()),
        decreases store.users.len() - i,
    {
        proof {
            lemma_take_step(rows, i as int);
            lemma_map_push(rows.take(i as int), rows[i as int], uuid_of());
        }
        found.push(store.users[i].user_uuid);
        i += 1;
    }
    proof {
        lemma_take_all(rows);
    }
    found
}

/// A copy of the whole audit log.
pub fn raw_logs(store: &Store) -> (r: Vec<LogEntry>)
    ensures
        log_view(r@) == log_view(store.logs@),
{
    let ghost rows = store.logs@;
    let mut copy: Vec<LogEntry> = Vec::new();
    let mut i: usize = 0;
    assert(log_view(copy@) =~= log_view(rows.take(0)));
    while i < store.logs.len()
        invariant
            i <= store.logs.len(),
            rows == store.logs@,
            log_view(copy@) == log_view(rows.take(i as int)),
        decreases store.logs.len() - i,
    {
        let entry = store.logs[i].clone();
        proof {
            lemma_take_step(rows, i as int);
            lemma_map_push(rows.take(i as int), rows[i as int], |e: LogEntry| e@);
            lemma_map_push(copy@, entry, |e: LogEntry| e@);
        }
        copy.push(entry);
        i += 1;
    }
    proof {
        lemma_take_all(rows);
    }
    copy
}

/// The memberships that someone other than `user_uuid` holds.
pub open spec fn not_held_by(user_uuid: u128) -> spec_fn(Membership) -> bool {
    |m: Membership| m.user_uuid != user_uuid
}

/// The profiles of users other than `user_uuid`.
pub open spec fn profile_not_of(user_uuid: u128) -> spec_fn(UserProfile) -> bool {
    |p: UserProfile| p.user_uuid != user_uuid
}

/// The invitations of users other than `user_uuid`.
pub open spec fn invitation_not_of(user_uuid: u128) -> spec_fn(Invitation) -> bool {
    |i: Invitation| i.user_uuid != user_uuid
}

/// The requests of users other than `user_uuid`.
pub open spec fn request_not_by(user_uuid: u128) -> spec_fn(Request) -> bool {
    |r: Request| r.user_uuid != user_uuid
}

/// The record of the removal of the membership `m` when its holder is
/// deleted.
pub open spec fn deletion_record() -> spec_fn(Membership) -> LogEntryView {
    |m: Membership|
        record(
            LogContext { group_id: m.group_id, host_uuid: SYSTEM_UUID, user_uuid: Some(m.user_uuid) },
            LogTargetType::Membership,
            LogOperationType::Deleted,
            Some("deleted"@),
        )
}

/// What [`delete_user`] leaves behind: the user holds no membership, has no
/// profile, no invitation and no request, and every membership that was
/// taken away is recorded.
pub open spec fn delete_user_post(before: &Store, after: &Store, user: User) -> bool {
    let uuid = user.user_uuid;
    &&& after.members() == before.members().remove_keys(Set::new(|k: (i32, u128)| k.1 == uuid))
    &&& after.memberships@ == before.memberships@.filter(not_held_by(uuid))
    &&& after.users@ == before.users@.filter(profile_not_of(uuid))
    &&& after.invitations@ == before.invitations@.filter(invitation_not_of(uuid))
    &&& after.requests@ == before.requests@.filter(request_not_by(uuid))
    &&& log_view(after.logs@) == log_view(before.logs@) + before.memberships@.filter(
        held_by(uuid),
    ).map_values(deletion_record())
    &&& after.keeps_groups(before)
    &&& after.keeps_roles(before)
}

/// The memberships that someone other than `uuid` holds.
fn memberships_without(store: &Store, uuid: u128) -> (kept: Vec<Membership>)
    ensures
        kept@ == store.memberships@.filter(not_held_by(uuid)),
{
    let ghost rows = store.memberships@;
    let mut kept: Vec<Membership> = Vec::new();
    let mut i: usize = 0;
    assert(rows.take(0).filter(not_held_by(uuid)) =~= Seq::<Membership>::empty());
    while i < store.memberships.len()
        invariant
            i <= store.memberships.len(),
            rows == store.memberships@,
            kept@ == rows.take(i as int).filter(not_held_by(uuid)),
        decreases store.memberships.len() - i,
    {
        let m = store.memberships[i];
        proof {
            lemma_filter_step(rows, i as int, not_held_by(uuid));
        }
        if m.user_uuid != uuid {
            kept.push(m);
        }
        i += 1;
    }
    proof {
        lemma_take_all(rows);
    }
    kept
}

/// The cached profiles of users other than `uuid`.
fn profiles_without(store: &Store, uuid: u128) -> (kept: Vec<UserProfile>)
    ensures
        kept@ == store.users@.filter(profile_not_of(uuid)),
{
    let ghost cached = store.users@;
    let mut kept: Vec<UserProfile> = Vec::new();
    let mut j: usize = 0;
    assert(cached.take(0).filter(profile_not_of(uuid)) =~= Seq::<UserProfile>::empty());
    while j < store.users.len()
        invariant
            j <= store.users.len(),
            cached == store.users@,
            kept@ == cached.take(j as int).filter(profile_not_of(uuid)),
        decreases store.users.len() - j,
    {
        proof {
            lemma_filter_step(cached, j as int, profile_not_of(uuid));
        }
        if store.users[j].user_uuid != uuid {
            kept.push(store.users[j].clone());
        }
        j += 1;
    }
    proof {
        lemma_take_all(cached);
    }
    kept
}

/// The invitations of users other than `uuid`.
fn invitations_without(store: &Store, uuid: u128) -> (kept: Vec<Invitation>)
    ensures
        kept@ == store.invitations@.filter(invitation_not_of(uuid)),
{
    let ghost invited = store.invitations@;
    let mut kept: Vec<Invitation> = Vec::new();
    let mut a: usize = 0;
    assert(invited.take(0).filter(invitation_not_of(uuid)) =~= Seq::<Invitation>::empty());
    while a < store.invitations.len()
        invariant
            a <= store.invitations.len(),
            invited == store.invitations@,
            kept@ == invited.take(a as int).filter(invitation_not_of(uuid)),
        decreases store.invitations.len() - a,
    {
        let row = store.invitations[a];
        proof {
            lemma_filter_step(invited, a as int, invitation_not_of(uuid));
        }
        if row.user_uuid != uuid {
            kept.push(row);
        }
        a += 1;
    }
    proof {
        lemma_take_all(invited);
    }
    kept
}

/// The requests of users other than `uuid`.
fn requests_without(store: &Store, uuid: u128) -> (kept: Vec<Request>)
    ensures
        kept@ == store.requests@.filter(request_not_by(uuid)),
{
    let ghost asked = store.requests@;
    let mut kept: Vec<Request> = Vec::new();
    let mut b: usize = 0;
    assert(asked.take(0).filter(request_not_by(uuid)) =~= Seq::<Request>::empty());
    while b < store.requests.len()
        invariant
            b <= store.requests.len(),
            asked == store.requests@,
            kept@ == asked.take(b as int).filter(request_not_by(uuid)),
        decreases store.requests.len() - b,
    {
        let row = store.requests[b];
        proof {
            lemma_filter_step(asked, b as int, request_not_by(uuid));
        }
        if row.user_uuid != uuid {
            kept.push(row);
        }
        b += 1;
    }
    proof {
        lemma_take_all(asked);
    }
    kept
}

/// Records the removal of every membership that `uuid` holds.
fn log_deletions(store: &mut Store, uuid: u128)
    ensures
        final(store).keeps_all_but_log(old(store)),
        log_view(final(store).logs@) == log_view(old(store).logs@) + old(store).memberships@.filter(
            held_by(uuid),
        ).map_values(deletion_record()),
{
    let ghost rows = store.memberships@;
    let ghost start = store.logs@;
    let mut i: usize = 0;
    proof {
        assert(log_view(store.logs@) =~= log_view(start) + rows.take(0).filter(
            held_by(uuid),
        ).map_values(deletion_record()));
    }
    while i < store.memberships.len()
        invariant
            i <= store.memberships.len(),
            rows == store.memberships@,
            store.keeps_all_but_log(old(store)),
            start == old(store).logs@,
            log_view(store.logs@) == log_view(start) + rows.take(i as int).filter(
                held_by(uuid),
            ).map_values(deletion_record()),
        decreases store.memberships.len() - i,
    {
        let m = store.memberships[i];
        proof {
            lemma_filter_map_step(rows, i as int, held_by(uuid), deletion_record());
        }
        if m.user_uuid == uuid {
            let ghost logs_before = store.logs@;
            let log_ctx = LogContext::with(m.group_id, SYSTEM_UUID).with_user(uuid);
            store.db_log(
                &log_ctx,
                LogTargetType::Membership,
                LogOperationType::Deleted,
                crate::model::log_comment_body("deleted"),
            );
            proof {
                crate::store::lemma_log_appended(
                    logs_before,
                    store.logs@,
                    log_ctx,
                    LogTargetType::Membership,
                    LogOperationType::Deleted,
                    Some("deleted"@),
                );
                assert(log_view(store.logs@) =~= log_view(start) + rows.take(i as int).filter(
                    held_by(uuid),
                ).map_values(deletion_record()).push(deletion_record()(m)));
            }
        }
        i += 1;
    }
    proof {
        lemma_take_all(rows);
    }
}

/// Deletes `user`: every membership the user holds, recorded as removed by
/// the system, and with them the cached profile, the invitations and the
/// requests of the user.
pub fn delete_user(store: &mut Store, user: &User)
    requires
        old(store).wf(),
    ensures
        final(store).wf(),
        delete_user_post(old(store), final(store), *user),
        old(store).role_invariant() ==> final(store).role_invariant(),
{
    let uuid: u128 = user.user_uuid;
    let kept = memberships_without(store, uuid);
    let profiles = profiles_without(store, uuid);
    let invitations = invitations_without(store, uuid);
    let requests = requests_without(store, uuid);
    log_deletions(store, uuid);
    proof {
        let rows = old(store).memberships@;
        let cached = old(store).users@;
        lemma_member_map_filter(rows, not_held_by(uuid));
        assert forall|k: (i32, u128)| crate::store::member_map(rows).contains_key(k) implies (
        #[trigger] crate::store::member_map(rows)[k]).user_uuid == k.1 by {
            let j = choose|j: int| crate::store::row_with_key(rows, k, j);
            crate::store::lemma_member_map_row(rows, j);
        }
        assert(crate::store::member_map(rows).remove_keys(
            Set::new(
                |k: (i32, u128)|
                    crate::store::member_map(rows).contains_key(k) && !not_held_by(uuid)(
                        crate::store::member_map(rows)[k],
                    ),
            ),
        ) =~= crate::store::member_map(rows).remove_keys(Set::new(|k: (i32, u128)| k.1 == uuid)));
        assert forall|a: int| 0 <= a < kept@.len() implies exists|k: int|
            role_id_at(store.roles@, (#[trigger] kept@[a]).role_id, kept@[a].group_id, k) by {
            assert(kept@.contains(kept@[a]));
            lemma_filter_member(rows, not_held_by(uuid), kept@[a]);
            let b = choose|b: int| 0 <= b < rows.len() && rows[b] == kept@[a];
            assert(rows[b] == kept@[a]);
            let k = choose|k: int| role_id_at(store.roles@, rows[b].role_id, rows[b].group_id, k);
            assert(role_id_at(store.roles@, kept@[a].role_id, kept@[a].group_id, k));
        }
        assert forall|a: int, b: int| 0 <= a < b < profiles@.len() implies (
        #[trigger] profiles@[a]).user_uuid
            != (#[trigger] profiles@[b]).user_uuid by {
            lemma_filter_keeps_order(cached, profile_not_of(uuid), a, b);
            let (i, j) = choose|i: int, j: int|
                0 <= i < j < cached.len() && cached[i] == profiles@[a] && cached[j] == profiles@[b];
            assert(cached[i].user_uuid != cached[j].user_uuid);
        }
    }
    store.memberships = kept;
    store.users = profiles;
    store.invitations = invitations;
    store.requests = requests;
    proof {
        crate::store::lemma_role_invariant_kept(*old(store), *store);
    }
}

/// The invitations of `user_uuid`.
pub open spec fn invitation_of(user_uuid: u128) -> spec_fn(Invitation) -> bool {
    |i: Invitation| i.user_uuid == user_uuid
}

/// The requests of `user_uuid`.
pub open spec fn request_by(user_uuid: u128) -> spec_fn(Request) -> bool {
    |r: Request| r.user_uuid == user_uuid
}

/// The audit entries in which `user_uuid` is the actor or the subject.
pub open spec fn entry_about(user_uuid: u128) -> spec_fn(LogEntry) -> bool {
    |e: LogEntry| e.host_uuid == user_uuid || e.user_uuid == Some(user_uuid)
}

/// All that the store holds of one user.
#[derive(Debug, PartialEq, Eq)]
pub struct RawUserData {
    pub profile: Option<UserProfile>,
    pub memberships: Vec<Membership>,
    pub invitations: Vec<Invitation>,
    pub requests: Vec<Request>,
    pub logs: Vec<LogEntry>,
}

/// What [`raw_user_data`] returns.
pub open spec fn raw_user_data_post(store: Store, user_uuid: u128, r: RawUserData) -> bool {
    &&& store.has_user(user_uuid) ==> r.profile == Some(store.user(user_uuid))
    &&& !store.has_user(user_uuid) ==> r.profile is None
    &&& r.memberships@ == store.memberships@.filter(held_by(user_uuid))
    &&& r.invitations@ == store.invitations@.filter(invitation_of(user_uuid))
    &&& r.requests@ == store.requests@.filter(request_by(user_uuid))
    &&& log_view(r.logs@) == log_view(store.logs@.filter(entry_about(user_uuid)))
}

/// The audit entries in which `user_uuid` is the actor or the subject, in
/// the order of the log.
pub fn logs_about(store: &Store, user_uuid: u128) -> (r: Vec<LogEntry>)
    ensures
        log_view(r@) == log_view(store.logs@.filter(entry_about(user_uuid))),
{
    let ghost rows = store.logs@;
    let ghost pred = entry_about(user_uuid);
    let mut found: Vec<LogEntry> = Vec::new();
    let mut i: usize = 0;
    assert(log_view(found@) =~= log_view(rows.take(0).filter(pred)));
    while i < store.logs.len()
        invariant
            i <= store.logs.len(),
            rows == store.logs@,
            pred == entry_about(user_uuid),
            log_view(found@) == log_view(rows.take(i as int).filter(pred)),
        decreases store.logs.len() - i,
    {
        proof {
            lemma_filter_step(rows, i as int, pred);
        }
        let about = store.logs[i].host_uuid == user_uuid || match store.logs[i].user_uuid {
            Some(subject) => subject == user_uuid,
            None => false,
        };
        if about {
            let entry = store.logs[i].clone();
            proof {
                lemma_map_push(found@, entry, |e: LogEntry| e@);
                lemma_map_push(rows.take(i as int).filter(pred), rows[i as int], |e: LogEntry| e@);
            }
            found.push(entry);
        }
        i += 1;
    }
    proof {
        lemma_take_all(rows);
    }
    found
}

/// All that the store holds of the user `user_uuid`: the cached profile,
/// the memberships, the invitations, the requests, and the audit entries in
/// which the user is the actor or the subject.
pub fn raw_user_data(store: &Store, user_uuid: u128) -> (r: RawUserData)
    requires
        store.wf(),
    ensures
        raw_user_data_post(*store, user_uuid, r),
{
    let profile = match store.find_user(user_uuid) {
        Some(i) => Some(store.users[i].clone()),
        None => None,
    };
    let memberships = crate::partition::memberships_of(&store.memberships, user_uuid);
    let ghost invited = store.invitations@;
    let mut invitations: Vec<Invitation> = Vec::new();
    let mut a: usize = 0;
    assert(invited.take(0).filter(invitation_of(user_uuid)) =~= Seq::<Invitation>::empty());
    while a < store.invitations.len()
        invariant
            a <= store.invitations.len(),
            invited == store.invitations@,
            invitations@ == invited.take(a as int).filter(invitation_of(user_uuid)),
        decreases store.invitations.len() - a,
    {
        let row = store.invitations[a];
        proof {
            lemma_filter_step(invited, a as int, invitation_of(user_uuid));
        }
        if row.user_uuid == user_uuid {
            invitations.push(row);
        }
        a += 1;
    }
    let ghost asked = store.requests@;
    let mut requests: Vec<Request> = Vec::new();
    let mut b: usize = 0;
    assert(asked.take(0).filter(request_by(user_uuid)) =~= Seq::<Request>::empty());
    while b < store.requests.len()
        invariant
            b <= store.requests.len(),
            asked == store.requests@,
            requests@ == asked.take(b as int).filter(request_by(user_uuid)),
        decreases store.requests.len() - b,
    {
        let row = store.requests[b];
        proof {
            lemma_filter_step(asked, b as int, request_by(user_uuid));
        }
        if row.user_uuid == user_uuid {
            requests.push(row);
        }
        b += 1;
    }
    proof {
        lemma_take_all(invited);
        lemma_take_all(asked);
    }
    let logs = logs_about(store, user_uuid);
    RawUserData { profile, memberships, invitations, requests, logs }
}

} // verus!
