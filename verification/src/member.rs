//! The membership table: who belongs to which group, in which role, until
//! when, and on whose word.
//!
//! Adding is an upsert on the pair of group and user, so that it can be
//! repeated safely. Every change appends one entry to the audit log in the
//! same step; an operation that fails leaves the store as it found it.

use vstd::prelude::*;
use crate::clock::{expiration_instant, to_expiration_ts, utc_now, DayWindow, Timestamp};
use crate::error::{failed_with, PacksError};
use crate::group::{add_role, add_role_post};
use crate::model::{expired_by, log_comment_body, text_of, LogContext, Membership, Role};
use crate::sequences::{
    lemma_filter_map_step, lemma_filter_step, lemma_map_push, lemma_take_all, texts,
};
use crate::store::{
    lemma_member_map_push, lemma_member_map_remove, lemma_member_map_update, log_appended,
    role_id_at, Store,
};
use crate::types::{LogOperationType, LogTargetType, RoleType, User};

verus! {

/// Creates the member role of the group `group_id`, on behalf of
/// `host_uuid`.
pub fn add_member_role(host_uuid: u128, store: &mut Store, group_id: i32) -> (r: Result<
    Role,
    PacksError,
>)
    requires
        old(store).wf(),
    ensures
        final(store).wf(),
        add_role_post(
            old(store),
            final(store),
            r,
            LogContext { group_id, host_uuid, user_uuid: None },
            RoleType::Member,
        ),
        old(store).role_invariant() ==> final(store).role_invariant(),
{
    let log_ctx = LogContext::with(group_id, host_uuid);
    add_role(&log_ctx, store, RoleType::Member)
}

/// The role that `user_uuid` holds in the group called `group_name`; none
/// where the group does not exist or the user holds no membership in it.
pub fn role_for(store: &Store, user_uuid: u128, group_name: &str) -> (r: Option<Role>)
    requires
        store.wf(),
    ensures
        r is Some <==> store.has_group(group_name@) && store.is_member(
            store.group_id(group_name@),
            user_uuid,
        ),
        r matches Some(role) ==> role == store.role_by_id(
            store.members()[(store.group_id(group_name@), user_uuid)].role_id,
        ),
{
    let gi = match store.find_group(group_name) {
        Some(gi) => gi,
        None => {
            return None;
        },
    };
    let group_id: i32 = store.groups[gi].id;
    let mi = match store.find_membership(group_id, user_uuid) {
        Some(mi) => mi,
        None => {
            return None;
        },
    };
    let role_id: i32 = store.memberships[mi].role_id;
    proof {
        let m = store.memberships@[mi as int];
        let k = choose|k: int| role_id_at(store.roles@, m.role_id, m.group_id, k);
        assert(role_id_at(store.roles@, m.role_id, m.group_id, k));
    }
    match store.find_role_by_id(role_id) {
        Some(k) => Some(store.roles[k].clone()),
        None => None,
    }
}

/// The member role of the group called `group_name`.
pub fn member_role(store: &Store, group_name: &str) -> (r: Result<Role, PacksError>)
    requires
        store.wf(),
    ensures
        !store.has_group(group_name@) ==> r == Err::<Role, PacksError>(PacksError::GroupNotFound),
        store.has_group(group_name@) && !store.has_role(
            store.group_id(group_name@),
            RoleType::Member,
        ) ==> r == Err::<Role, PacksError>(PacksError::RoleNotFound),
        store.has_group(group_name@) && store.has_role(store.group_id(group_name@), RoleType::Member)
            ==> r == Ok::<Role, PacksError>(
            store.role(store.group_id(group_name@), RoleType::Member),
        ),
{
    let gi = match store.find_group(group_name) {
        Some(gi) => gi,
        None => {
            return Err(PacksError::GroupNotFound);
        },
    };
    match store.find_role(store.groups[gi].id, RoleType::Member) {
        Some(k) => Ok(store.roles[k].clone()),
        None => Err(PacksError::RoleNotFound),
    }
}

/// What [`remove_from_group`] leaves behind and returns.
pub open spec fn remove_from_group_post(
    before: &Store,
    after: &Store,
    r: Result<(), PacksError>,
    host_uuid: u128,
    user_uuid: u128,
    group_name: Seq<char>,
    comment: Option<Seq<char>>,
) -> bool {
    &&& r is Ok <==> before.has_group(group_name)
    &&& r is Err ==> r == Err::<(), PacksError>(PacksError::GroupNotFound) && *after == *before
    &&& r is Ok ==> {
        let group_id = before.group_id(group_name);
        &&& after.members() == before.members().remove((group_id, user_uuid))
        &&& after.keeps_all_but_members_and_log(before)
        &&& log_appended(
            before.logs@,
            after.logs@,
            LogContext { group_id, host_uuid, user_uuid: Some(user_uuid) },
            LogTargetType::Membership,
            LogOperationType::Deleted,
            comment,
        )
    }
}

/// Deletes the membership of `user_uuid` in the group called `group_name`
/// and records the deletion with `comment`. Where the user holds no
/// membership there, nothing is deleted and the entry is recorded all the
/// same.
pub fn remove_from_group(
    host_uuid: u128,
    store: &mut Store,
    user_uuid: u128,
    group_name: &str,
    comment: Option<String>,
) -> (r: Result<(), PacksError>)
    requires
        old(store).wf(),
    ensures
        final(store).wf(),
        remove_from_group_post(
            old(store),
            final(store),
            r,
            host_uuid,
            user_uuid,
            group_name@,
            text_of(comment),
        ),
        old(store).role_invariant() ==> final(store).role_invariant(),
{
    let gi = match store.find_group(group_name) {
        Some(gi) => gi,
        None => {
            return Err(PacksError::GroupNotFound);
        },
    };
    let group_id: i32 = store.groups[gi].id;
    remove_by_id(host_uuid, store, user_uuid, group_id, comment);
    Ok(())
}

/// Deletes the membership of `user_uuid` in the group `group_id`, if there
/// is one, and records the deletion with `comment`.
pub fn remove_by_id(
    host_uuid: u128,
    store: &mut Store,
    user_uuid: u128,
    group_id: i32,
    comment: Option<String>,
)
    requires
        old(store).wf(),
    ensures
        final(store).wf(),
        final(store).members() == old(store).members().remove((group_id, user_uuid)),
        final(store).keeps_all_but_members_and_log(old(store)),
        log_appended(
            old(store).logs@,
            final(store).logs@,
            LogContext { group_id, host_uuid, user_uuid: Some(user_uuid) },
            LogTargetType::Membership,
            LogOperationType::Deleted,
            text_of(comment),
        ),
        old(store).role_invariant() ==> final(store).role_invariant(),
{
    match store.find_membership(group_id, user_uuid) {
        Some(i) => {
            proof {
                lemma_member_map_remove(store.memberships@, i as int);
                let before = store.memberships@;
                let after = before.remove(i as int);
                assert forall|a: int| 0 <= a < after.len() implies exists|k: int|
                    role_id_at(store.roles@, (#[trigger] after[a]).role_id, after[a].group_id, k) by {
                    let b = if a < i { a } else { a + 1 };
                    assert(after[a] == before[b]);
                    let k = choose|k: int|
                        role_id_at(store.roles@, before[b].role_id, before[b].group_id, k);
                    assert(role_id_at(store.roles@, after[a].role_id, after[a].group_id, k));
                }
            }
            store.memberships.remove(i);
        },
        None => {
            assert(store.members().remove((group_id, user_uuid)) =~= store.members());
        },
    }
    let log_ctx = LogContext::with(group_id, host_uuid).with_user(user_uuid);
    store.db_log(&log_ctx, LogTargetType::Membership, LogOperationType::Deleted, comment);
}

/// The membership that an upsert writes for `member` in the group
/// `group_id` on top of the memberships `members`: role, expiration and host
/// are the new ones; the time of joining stays where the user was a member
/// already.
pub open spec fn upserted_in(
    members: Map<(i32, u128), Membership>,
    group_id: i32,
    role_id: i32,
    host: User,
    member: User,
    expiration: Option<i32>,
    now: Timestamp,
) -> Membership {
    Membership {
        user_uuid: member.user_uuid,
        group_id,
        role_id,
        expiration: expiration_instant(expiration, now),
        added_by: host.user_uuid,
        added_ts: if members.contains_key((group_id, member.user_uuid)) {
            members[(group_id, member.user_uuid)].added_ts
        } else {
            now
        },
    }
}

/// The membership that an upsert writes for `member` in the group
/// `group_id` of the store `before`.
pub open spec fn upserted(
    before: &Store,
    group_id: i32,
    role_id: i32,
    host: User,
    member: User,
    expiration: Option<i32>,
    now: Timestamp,
) -> Membership {
    upserted_in(before.members(), group_id, role_id, host, member, expiration, now)
}

/// What an upsert of a membership with the role of type `typ` leaves behind
/// and returns.
pub open spec fn upsert_post(
    before: &Store,
    after: &Store,
    r: Result<(), PacksError>,
    group_name: Seq<char>,
    typ: RoleType,
    host: User,
    member: User,
    expiration: Option<i32>,
    now: Timestamp,
    comment: Seq<char>,
) -> bool {
    &&& !before.has_group(group_name) ==> r == Err::<(), PacksError>(PacksError::GroupNotFound)
    &&& before.has_group(group_name) && !before.has_role(before.group_id(group_name), typ) ==> r
        == Err::<(), PacksError>(PacksError::RoleNotFound)
    &&& before.has_group(group_name) && before.has_role(before.group_id(group_name), typ) ==> r is Ok
    &&& r is Err ==> *after == *before
    &&& r is Ok ==> {
        let group_id = before.group_id(group_name);
        let row = upserted(
            before,
            group_id,
            before.role(group_id, typ).id,
            host,
            member,
            expiration,
            now,
        );
        &&& after.members() == before.members().insert((group_id, member.user_uuid), row)
        &&& after.keeps_all_but_members_and_log(before)
        &&& log_appended(
            before.logs@,
            after.logs@,
            LogContext { group_id, host_uuid: host.user_uuid, user_uuid: Some(member.user_uuid) },
            LogTargetType::Membership,
            LogOperationType::Created,
            Some(comment),
        )
    }
}

/// Writes the membership of `member` in the group called `group_name` with
/// the group's first role of type `typ`, and records it with `comment`.
pub fn upsert_membership(
    store: &mut Store,
    group_name: &str,
    typ: RoleType,
    host: &User,
    member: &User,
    expiration: Option<i32>,
    now: Timestamp,
    comment: &str,
) -> (r: Result<(), PacksError>)
    requires
        old(store).wf(),
    ensures
        final(store).wf(),
        upsert_post(
            old(store),
            final(store),
            r,
            group_name@,
            typ,
            *host,
            *member,
            expiration,
            now,
            comment@,
        ),
        old(store).role_invariant() ==> final(store).role_invariant(),
{
    let gi = match store.find_group(group_name) {
        Some(gi) => gi,
        None => {
            return Err(PacksError::GroupNotFound);
        },
    };
    let group_id: i32 = store.groups[gi].id;
    let ri = match store.find_role(group_id, typ) {
        Some(ri) => ri,
        None => {
            return Err(PacksError::RoleNotFound);
        },
    };
    let role_id: i32 = store.roles[ri].id;
    let until = to_expiration_ts(expiration, now);
    match store.find_membership(group_id, member.user_uuid) {
        Some(i) => {
            let row = Membership {
                user_uuid: member.user_uuid,
                group_id,
                role_id,
                expiration: until,
                added_by: host.user_uuid,
                added_ts: store.memberships[i].added_ts,
            };
            proof {
                lemma_member_map_update(store.memberships@, i as int, row);
                let before = store.memberships@;
                let after = before.update(i as int, row);
                assert forall|a: int| 0 <= a < after.len() implies exists|k: int|
                    role_id_at(store.roles@, (#[trigger] after[a]).role_id, after[a].group_id, k) by {
                    if a == i {
                        assert(role_id_at(store.roles@, row.role_id, row.group_id, ri as int));
                    } else {
                        assert(after[a] == before[a]);
                        let k = choose|k: int|
                            role_id_at(store.roles@, before[a].role_id, before[a].group_id, k);
                        assert(role_id_at(store.roles@, after[a].role_id, after[a].group_id, k));
                    }
                }
            }
            store.memberships.set(i, row);
        },
        None => {
            let row = Membership {
                user_uuid: member.user_uuid,
                group_id,
                role_id,
                expiration: until,
                added_by: host.user_uuid,
                added_ts: now,
            };
            proof {
                lemma_member_map_push(store.memberships@, row);
                let before = store.memberships@;
                let after = before.push(row);
                assert forall|a: int| 0 <= a < after.len() implies exists|k: int|
                    role_id_at(store.roles@, (#[trigger] after[a]).role_id, after[a].group_id, k) by {
                    if a == before.len() {
                        assert(role_id_at(store.roles@, row.role_id, row.group_id, ri as int));
                    } else {
                        assert(after[a] == before[a]);
                        let k = choose|k: int|
                            role_id_at(store.roles@, before[a].role_id, before[a].group_id, k);
                        assert(role_id_at(store.roles@, after[a].role_id, after[a].group_id, k));
                    }
                }
            }
            store.memberships.push(row);
        },
    }
    let log_ctx = LogContext::with(group_id, host.user_uuid).with_user(member.user_uuid);
    store.db_log(
        &log_ctx,
        LogTargetType::Membership,
        LogOperationType::Created,
        log_comment_body(comment),
    );
    Ok(())
}

/// What [`add_to_group_at`] leaves behind and returns.
pub open spec fn add_to_group_post(
    before: &Store,
    after: &Store,
    r: Result<(), PacksError>,
    group_name: Seq<char>,
    host: User,
    member: User,
    expiration: Option<i32>,
    now: Timestamp,
) -> bool {
    upsert_post(before, after, r, group_name, RoleType::Member, host, member, expiration, now, "added"@)
}

/// Makes `member` a member of the group called `group_name` at the time
/// `now`, with `host` as the one who added the user and an optional number
/// of days until the membership lapses. A user who is a member already keeps
/// one membership, which takes the member role, the new expiration and the
/// new host.
pub fn add_to_group_at(
    store: &mut Store,
    group_name: &str,
    host: &User,
    member: &User,
    expiration: Option<i32>,
    now: Timestamp,
) -> (r: Result<(), PacksError>)
    requires
        old(store).wf(),
    ensures
        final(store).wf(),
        add_to_group_post(old(store), final(store), r, group_name@, *host, *member, expiration, now),
        old(store).role_invariant() ==> final(store).role_invariant(),
{
    upsert_membership(store, group_name, RoleType::Member, host, member, expiration, now, "added")
}

/// [`add_to_group_at`] at the current time.
pub fn add_to_group(
    store: &mut Store,
    group_name: &str,
    host: &User,
    member: &User,
    expiration: Option<i32>,
) -> (r: Result<(), PacksError>)
    requires
        old(store).wf(),
    ensures
        final(store).wf(),
        exists|now: Timestamp|
            add_to_group_post(
                old(store),
                final(store),
                r,
                group_name@,
                *host,
                *member,
                expiration,
                now,
            ),
        old(store).role_invariant() ==> final(store).role_invariant(),
{
    let now = utc_now();
    add_to_group_at(store, group_name, host, member, expiration, now)
}

/// What [`renew_at`] leaves behind and returns.
pub open spec fn renew_post(
    before: &Store,
    after: &Store,
    r: Result<(), PacksError>,
    host_uuid: u128,
    group_name: Seq<char>,
    member: User,
    expiration: Option<i32>,
    now: Timestamp,
) -> bool {
    &&& r is Ok <==> before.has_group(group_name)
    &&& r is Err ==> r == Err::<(), PacksError>(PacksError::GroupNotFound) && *after == *before
    &&& r is Ok ==> {
        let group_id = before.group_id(group_name);
        let key = (group_id, member.user_uuid);
        &&& before.is_member(group_id, member.user_uuid) ==> after.members()
            == before.members().insert(
            key,
            Membership { expiration: expiration_instant(expiration, now), ..before.members()[key] },
        )
        &&& !before.is_member(group_id, member.user_uuid) ==> after.members() == before.members()
        &&& after.keeps_all_but_members_and_log(before)
        &&& log_appended(
            before.logs@,
            after.logs@,
            LogContext { group_id, host_uuid, user_uuid: Some(member.user_uuid) },
            LogTargetType::Membership,
            LogOperationType::Updated,
            Some("renewed"@),
        )
    }
}

/// Sets the expiration of the membership of `member` in the group called
/// `group_name` to `expiration` days from `now`, or lifts it. Nothing but the
/// expiration changes; where the user holds no membership nothing changes,
/// and the entry is recorded all the same.
pub fn renew_at(
    host_uuid: u128,
    store: &mut Store,
    group_name: &str,
    member: &User,
    expiration: Option<i32>,
    now: Timestamp,
) -> (r: Result<(), PacksError>)
    requires
        old(store).wf(),
    ensures
        final(store).wf(),
        renew_post(old(store), final(store), r, host_uuid, group_name@, *member, expiration, now),
        old(store).role_invariant() ==> final(store).role_invariant(),
{
    let gi = match store.find_group(group_name) {
        Some(gi) => gi,
        None => {
            return Err(PacksError::GroupNotFound);
        },
    };
    let group_id: i32 = store.groups[gi].id;
    let until = to_expiration_ts(expiration, now);
    match store.find_membership(group_id, member.user_uuid) {
        Some(i) => {
            let current = store.memberships[i];
            let row = Membership {
                user_uuid: current.user_uuid,
                group_id: current.group_id,
                role_id: current.role_id,
                expiration: until,
                added_by: current.added_by,
                added_ts: current.added_ts,
            };
            proof {
                lemma_member_map_update(store.memberships@, i as int, row);
                let before = store.memberships@;
                let after = before.update(i as int, row);
                assert forall|a: int| 0 <= a < after.len() implies exists|k: int|
                    role_id_at(store.roles@, (#[trigger] after[a]).role_id, after[a].group_id, k) by {
                    let k = choose|k: int|
                        role_id_at(store.roles@, before[a].role_id, before[a].group_id, k);
                    assert(role_id_at(store.roles@, after[a].role_id, after[a].group_id, k));
                }
            }
            store.memberships.set(i, row);
        },
        None => {},
    }
    let log_ctx = LogContext::with(group_id, host_uuid).with_user(member.user_uuid);
    store.db_log(
        &log_ctx,
        LogTargetType::Membership,
        LogOperationType::Updated,
        log_comment_body("renewed"),
    );
    Ok(())
}

/// [`renew_at`] at the current time.
pub fn renew(
    host_uuid: u128,
    store: &mut Store,
    group_name: &str,
    member: &User,
    expiration: Option<i32>,
) -> (r: Result<(), PacksError>)
    requires
        old(store).wf(),
    ensures
        final(store).wf(),
        exists|now: Timestamp|
            renew_post(old(store), final(store), r, host_uuid, group_name@, *member, expiration, now),
        old(store).role_invariant() ==> final(store).role_invariant(),
{
    let now = utc_now();
    renew_at(host_uuid, store, group_name, member, expiration, now)
}

/// The memberships of the group `group_id` that belong to someone other
/// than `current`.
pub open spec fn others_in(group_id: i32, current: u128) -> spec_fn(Membership) -> bool {
    |m: Membership| m.group_id == group_id && m.user_uuid != current
}

/// The user of a membership.
pub open spec fn holder() -> spec_fn(Membership) -> User {
    |m: Membership| User { user_uuid: m.user_uuid }
}

/// Everyone else in the group called `group_name`: its members but
/// `current`, in the order of the table.
pub fn get_members_not_current(store: &Store, group_name: &str, current: &User) -> (r: Result<
    Vec<User>,
    PacksError,
>)
    requires
        store.wf(),
    ensures
        !store.has_group(group_name@) ==> r == Err::<Vec<User>, PacksError>(
            PacksError::GroupNotFound,
        ),
        store.has_group(group_name@) ==> r is Ok,
        r matches Ok(users) ==> users@ == store.memberships@.filter(
            others_in(store.group_id(group_name@), current.user_uuid),
        ).map_values(holder()),
{
    let gi = match store.find_group(group_name) {
        Some(gi) => gi,
        None => {
            return Err(PacksError::GroupNotFound);
        },
    };
    let group_id: i32 = store.groups[gi].id;
    let ghost pred = others_in(group_id, current.user_uuid);
    let ghost rows = store.memberships@;
    let mut users: Vec<User> = Vec::new();
    let mut i: usize = 0;
    assert(rows.take(0).filter(pred).map_values(holder()) =~= Seq::<User>::empty());
    while i < store.memberships.len()
        invariant
            i <= store.memberships.len(),
            rows == store.memberships@,
            pred == others_in(group_id, current.user_uuid),
            users@ == rows.take(i as int).filter(pred).map_values(holder()),
        decreases store.memberships.len() - i,
    {
        let m = store.memberships[i];
        proof {
            lemma_filter_map_step(rows, i as int, pred, holder());
        }
        if m.group_id == group_id && m.user_uuid != current.user_uuid {
            users.push(User { user_uuid: m.user_uuid });
        }
        i += 1;
    }
    proof {
        lemma_take_all(rows);
    }
    Ok(users)
}

/// The memberships that have an expiration at or before `instant`.
pub open spec fn lapsed(instant: Timestamp) -> spec_fn(Membership) -> bool {
    |m: Membership| expired_by(m, instant)
}

/// The memberships whose expiration is at or before `before`, in the order
/// of the table.
pub fn get_memberships_expired_before(store: &Store, before: Timestamp) -> (r: Vec<Membership>)
    ensures
        r@ == store.memberships@.filter(lapsed(before)),
{
    let ghost rows = store.memberships@;
    let mut found: Vec<Membership> = Vec::new();
    let mut i: usize = 0;
    assert(rows.take(0).filter(lapsed(before)) =~= Seq::<Membership>::empty());
    while i < store.memberships.len()
        invariant
            i <= store.memberships.len(),
            rows == store.memberships@,
            found@ == rows.take(i as int).filter(lapsed(before)),
        decreases store.memberships.len() - i,
    {
        let m = store.memberships[i];
        proof {
            lemma_filter_step(rows, i as int, lapsed(before));
        }
        if m.is_expired_by(before) {
            found.push(m);
        }
        i += 1;
    }
    proof {
        lemma_take_all(rows);
    }
    found
}

/// The memberships that have an expiration inside `window`.
pub open spec fn lapsing_in(window: DayWindow) -> spec_fn(Membership) -> bool {
    |m: Membership|
        match m.expiration {
            Some(e) => window.lower <= e.micros <= window.upper,
            None => false,
        }
}

/// The memberships whose expiration lies in `window`, in the order of the
/// table.
pub fn get_memberships_expire_between(store: &Store, window: &DayWindow) -> (r: Vec<Membership>)
    ensures
        r@ == store.memberships@.filter(lapsing_in(*window)),
{
    let ghost rows = store.memberships@;
    let mut found: Vec<Membership> = Vec::new();
    let mut i: usize = 0;
    assert(rows.take(0).filter(lapsing_in(*window)) =~= Seq::<Membership>::empty());
    while i < store.memberships.len()
        invariant
            i <= store.memberships.len(),
            rows == store.memberships@,
            found@ == rows.take(i as int).filter(lapsing_in(*window)),
        decreases store.memberships.len() - i,
    {
        let m = store.memberships[i];
        proof {
            lemma_filter_step(rows, i as int, lapsing_in(*window));
        }
        let inside = match m.expiration {
            Some(e) => window.contains(e),
            None => false,
        };
        if inside {
            found.push(m);
        }
        i += 1;
    }
    proof {
        lemma_take_all(rows);
    }
    found
}

/// The type of the role that `user_uuid` holds in the group `group_id`, if
/// the user holds a membership there.
pub fn role_type_for(store: &Store, user_uuid: u128, group_id: i32) -> (r: Option<RoleType>)
    requires
        store.wf(),
    ensures
        r is Some <==> store.is_member(group_id, user_uuid),
        r matches Some(typ) ==> typ == store.role_by_id(
            store.members()[(group_id, user_uuid)].role_id,
        ).typ,
{
    let mi = match store.find_membership(group_id, user_uuid) {
        Some(mi) => mi,
        None => {
            return None;
        },
    };
    let role_id: i32 = store.memberships[mi].role_id;
    proof {
        let m = store.memberships@[mi as int];
        let k = choose|k: int| role_id_at(store.roles@, m.role_id, m.group_id, k);
        assert(role_id_at(store.roles@, m.role_id, m.group_id, k));
    }
    match store.find_role_by_id(role_id) {
        Some(k) => Some(store.roles[k].typ),
        None => None,
    }
}

/// The memberships of the group `group_id` that carry curator or admin
/// standing and whose holder has a cached profile.
pub open spec fn curating(store: Store, group_id: i32) -> spec_fn(Membership) -> bool {
    |m: Membership|
        m.group_id == group_id && store.role_by_id(m.role_id).typ.is_elevated() && store.has_user(
            m.user_uuid,
        )
}

/// The mail address of the holder of a membership.
pub open spec fn email_of(store: Store) -> spec_fn(Membership) -> Seq<char> {
    |m: Membership| store.user(m.user_uuid).email@
}

/// The mail addresses of the curators and admins of the group `group_id`,
/// in the order of the membership table.
pub open spec fn curator_emails(store: Store, group_id: i32) -> Seq<Seq<char>> {
    store.memberships@.filter(curating(store, group_id)).map_values(email_of(store))
}

/// The mail addresses of the curators and admins of the group `group_id`.
pub fn get_curator_emails(store: &Store, group_id: i32) -> (r: Vec<String>)
    requires
        store.wf(),
    ensures
        texts(r@) == curator_emails(*store, group_id),
{
    let ghost rows = store.memberships@;
    let ghost pred = curating(*store, group_id);
    let ghost f = email_of(*store);
    let mut emails: Vec<String> = Vec::new();
    let mut i: usize = 0;
    assert(rows.take(0).filter(pred).map_values(f) =~= Seq::<Seq<char>>::empty());
    assert(texts(emails@) =~= Seq::<Seq<char>>::empty());
    while i < store.memberships.len()
        invariant
            store.wf(),
            i <= store.memberships.len(),
            rows == store.memberships@,
            pred == curating(*store, group_id),
            f == email_of(*store),
            texts(emails@) == rows.take(i as int).filter(pred).map_values(f),
        decreases store.memberships.len() - i,
    {
        let m = store.memberships[i];
        proof {
            lemma_filter_map_step(rows, i as int, pred, f);
            let k = choose|k: int| role_id_at(store.roles@, m.role_id, m.group_id, k);
            assert(role_id_at(store.roles@, m.role_id, m.group_id, k));
        }
        if m.group_id == group_id {
            let elevated = match store.find_role_by_id(m.role_id) {
                Some(k) => store.roles[k].typ.elevated(),
                None => false,
            };
            if elevated {
                match store.find_user(m.user_uuid) {
                    Some(u) => {
                        let email = store.users[u].email.clone();
                        proof {
                            lemma_map_push(emails@, email, |s: String| s@);
                        }
                        emails.push(email);
                    },
                    None => {},
                }
            }
        }
        i += 1;
    }
    proof {
        lemma_take_all(rows);
    }
    emails
}

/// Sets the time at which `user_uuid` joined the group `group_id`. Nothing
/// changes where the user holds no membership there. The change is a
/// correction of what is on record and is not audited.
pub fn set_joined(store: &mut Store, group_id: i32, user_uuid: u128, joined: Timestamp)
    requires
        old(store).wf(),
    ensures
        final(store).wf(),
        old(store).is_member(group_id, user_uuid) ==> final(store).members() == old(
            store,
        ).members().insert(
            (group_id, user_uuid),
            Membership { added_ts: joined, ..old(store).members()[(group_id, user_uuid)] },
        ),
        !old(store).is_member(group_id, user_uuid) ==> final(store).members() == old(store).members(),
        final(store).keeps_all_but_members_and_log(old(store)),
        final(store).logs@ == old(store).logs@,
        old(store).role_invariant() ==> final(store).role_invariant(),
{
    match store.find_membership(group_id, user_uuid) {
        Some(i) => {
            let current = store.memberships[i];
            let row = Membership {
                user_uuid: current.user_uuid,
                group_id: current.group_id,
                role_id: current.role_id,
                expiration: current.expiration,
                added_by: current.added_by,
                added_ts: joined,
            };
            proof {
                lemma_member_map_update(store.memberships@, i as int, row);
                let before = store.memberships@;
                let after = before.update(i as int, row);
                assert forall|a: int| 0 <= a < after.len() implies exists|k: int|
                    role_id_at(store.roles@, (#[trigger] after[a]).role_id, after[a].group_id, k) by {
                    let k = choose|k: int|
                        role_id_at(store.roles@, before[a].role_id, before[a].group_id, k);
                    assert(role_id_at(store.roles@, after[a].role_id, after[a].group_id, k));
                }
            }
            store.memberships.set(i, row);
        },
        None => {},
    }
}

/// Makes `user` an admin of the group called `group_name` at the time
/// `now`, without expiration, with `host` as the one who added the user.
pub fn add_admin(store: &mut Store, group_name: &str, host: &User, user: &User, now: Timestamp) -> (r:
    Result<(), PacksError>)
    requires
        old(store).wf(),
    ensures
        final(store).wf(),
        upsert_post(
            old(store),
            final(store),
            r,
            group_name@,
            RoleType::Admin,
            *host,
            *user,
            None,
            now,
            "added"@,
        ),
        old(store).role_invariant() ==> final(store).role_invariant(),
{
    upsert_membership(store, group_name, RoleType::Admin, host, user, None, now, "added")
}

/// Whether a role has the id `role_id`.
pub open spec fn knows_role(store: &Store, role_id: i32) -> bool {
    exists|k: int| 0 <= k < store.roles@.len() && store.roles@[k].id == role_id
}

/// What [`set_role`] leaves behind and returns.
pub open spec fn set_role_post(
    before: &Store,
    after: &Store,
    r: Result<(), PacksError>,
    host_uuid: u128,
    group_name: Seq<char>,
    member: User,
    role_id: i32,
) -> bool {
    let group_id = before.group_id(group_name);
    let key = (group_id, member.user_uuid);
    let held = before.has_group(group_name) && before.members().contains_key(key);
    &&& !before.has_group(group_name) ==> failed_with(r, PacksError::GroupNotFound)
    &&& before.has_group(group_name) && !before.members().contains_key(key) ==> failed_with(
        r,
        PacksError::MembershipNotFound,
    )
    &&& held && !knows_role(before, role_id) ==> failed_with(r, PacksError::RoleNotFound)
    &&& held && knows_role(before, role_id) && before.role_by_id(role_id).group_id != group_id
        ==> failed_with(r, PacksError::RoleInvariantViolation)
    &&& held && knows_role(before, role_id) && before.role_by_id(role_id).group_id == group_id
        ==> r is Ok
    &&& r is Err ==> *after == *before
    &&& r is Ok ==> {
        &&& after.members() == before.members().insert(
            key,
            Membership { role_id, ..before.members()[key] },
        )
        &&& after.keeps_all_but_members_and_log(before)
        &&& log_appended(
            before.logs@,
            after.logs@,
            LogContext { group_id, host_uuid, user_uuid: Some(member.user_uuid) },
            LogTargetType::Membership,
            LogOperationType::Updated,
            Some("role"@),
        )
    }
}

/// Gives the membership of `member` in the group called `group_name` the
/// role `role_id`, which must be a role of that group, and records the
/// change. Nothing but the role of the membership changes.
pub fn set_role(
    host_uuid: u128,
    store: &mut Store,
    group_name: &str,
    member: &User,
    role_id: i32,
) -> (r: Result<(), PacksError>)
    requires
        old(store).wf(),
    ensures
        final(store).wf(),
        set_role_post(old(store), final(store), r, host_uuid, group_name@, *member, role_id),
        old(store).role_invariant() ==> final(store).role_invariant(),
{
    let gi = match store.find_group(group_name) {
        Some(gi) => gi,
        None => {
            return Err(PacksError::GroupNotFound);
        },
    };
    let group_id: i32 = store.groups[gi].id;
    let i = match store.find_membership(group_id, member.user_uuid) {
        Some(i) => i,
        None => {
            return Err(PacksError::MembershipNotFound);
        },
    };
    let k = match store.find_role_by_id(role_id) {
        Some(k) => k,
        None => {
            return Err(PacksError::RoleNotFound);
        },
    };
    if store.roles[k].group_id != group_id {
        return Err(PacksError::RoleInvariantViolation);
    }
    let current = store.memberships[i];
    let row = Membership {
        user_uuid: current.user_uuid,
        group_id: current.group_id,
        role_id,
        expiration: current.expiration,
        added_by: current.added_by,
        added_ts: current.added_ts,
    };
    proof {
        lemma_member_map_update(store.memberships@, i as int, row);
        let before = store.memberships@;
        let after = before.update(i as int, row);
        assert forall|a: int| 0 <= a < after.len() implies exists|j: int|
            role_id_at(store.roles@, (#[trigger] after[a]).role_id, after[a].group_id, j) by {
            if a == i {
                assert(role_id_at(store.roles@, row.role_id, row.group_id, k as int));
            } else {
                assert(after[a] == before[a]);
                let j = choose|j: int|
                    role_id_at(store.roles@, before[a].role_id, before[a].group_id, j);
                assert(role_id_at(store.roles@, after[a].role_id, after[a].group_id, j));
            }
        }
    }
    store.memberships.set(i, row);
    let log_ctx = LogContext::with(group_id, host_uuid).with_user(member.user_uuid);
    store.db_log(
        &log_ctx,
        LogTargetType::Membership,
        LogOperationType::Updated,
        log_comment_body("role"),
    );
    Ok(())
}

} // verus!
