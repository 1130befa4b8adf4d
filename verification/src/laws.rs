//! The laws of the engine: what holds of its operations taken together.

use vstd::prelude::*;
use crate::batch::{failures, lemma_one_failure};
use crate::clock::{
    expiration_instant, falls_on_day, window_lower, window_upper, Timestamp, MICROS_PER_DAY,
};
use crate::error::PacksError;
use crate::expirations::{
    accountable_mail, can_notify, host_accountable, notices_for, revocation_is, sweep_post,
    sweep_step, Expiry,
};
use crate::lifecycle::{revoke_one_post, revoke_refusal, transfer_post, Removal, TransferPlan};
use crate::listing::{is_listing, lemma_listing_unique, DisplayMemberAndHost};
use crate::mail::{MailView, TemplateView};
use crate::member::{
    add_to_group_post, curator_emails, lapsed, remove_from_group_post, renew_post,
};
use crate::model::{expired_by, Membership};
use crate::store::{role_at, row_with_key, Store};
use crate::types::{LogOperationType, LogTargetType, RoleType, User};

verus! {

/// Adding a user twice to a group leaves one membership of the user in the
/// group, and that membership carries the member role, the expiration and
/// the host of the second call. The first call need not have been the first
/// of all: the time of joining is that of the membership it left. A second
/// call with the arguments of the first changes no membership at all.
pub proof fn law_idempotent_add(
    s0: Store,
    s1: Store,
    s2: Store,
    r1: Result<(), PacksError>,
    r2: Result<(), PacksError>,
    group_name: Seq<char>,
    host1: User,
    host2: User,
    member: User,
    expiration1: Option<i32>,
    expiration2: Option<i32>,
    now1: Timestamp,
    now2: Timestamp,
)
    requires
        s0.wf(),
        s1.wf(),
        s2.wf(),
        add_to_group_post(&s0, &s1, r1, group_name, host1, member, expiration1, now1),
        add_to_group_post(&s1, &s2, r2, group_name, host2, member, expiration2, now2),
        r1 is Ok,
    ensures
        r2 is Ok,
        s2.members().dom() == s1.members().dom(),
        ({
            let key = (s0.group_id(group_name), member.user_uuid);
            let row = s2.members()[key];
            &&& s2.members().contains_key(key)
            &&& row.role_id == s0.role(key.0, RoleType::Member).id
            &&& row.expiration == expiration_instant(expiration2, now2)
            &&& row.added_by == host2.user_uuid
            &&& row.added_ts == s1.members()[key].added_ts
            &&& exists|i: int| row_with_key(s2.memberships@, key, i)
            &&& forall|i: int, j: int|
                row_with_key(s2.memberships@, key, i) && row_with_key(s2.memberships@, key, j) ==> i
                    == j
        }),
        host1 == host2 && expiration1 == expiration2 && now1 == now2 ==> s2.members()
            == s1.members(),
{
    let key = (s0.group_id(group_name), member.user_uuid);
    assert(s1.has_group(group_name) <==> s0.has_group(group_name));
    assert(s1.group_id(group_name) == s0.group_id(group_name));
    assert(s1.has_role(key.0, RoleType::Member) <==> s0.has_role(key.0, RoleType::Member));
    assert(s1.role(key.0, RoleType::Member) == s0.role(key.0, RoleType::Member));
    assert(s1.members().contains_key(key));
    assert(s2.members().dom() =~= s1.members().dom());
    assert forall|i: int, j: int|
        row_with_key(s2.memberships@, key, i) && row_with_key(s2.memberships@, key, j) implies i
            == j by {
        law_one_membership_per_pair(s2, key.0, key.1, i, j);
    }
    if host1 == host2 && expiration1 == expiration2 && now1 == now2 {
        assert(s2.members() =~= s1.members());
    }
}

/// At most one membership exists for a group and a user: two rows of the
/// membership table of a well-formed store that carry the same group and the
/// same user are one row. Every operation of the engine takes well-formed
/// stores to well-formed stores.
pub proof fn law_one_membership_per_pair(s: Store, group_id: i32, user_uuid: u128, i: int, j: int)
    requires
        s.wf(),
        row_with_key(s.memberships@, (group_id, user_uuid), i),
        row_with_key(s.memberships@, (group_id, user_uuid), j),
    ensures
        i == j,
{
    if i < j {
        assert(crate::store::key_of(s.memberships@[i]) != crate::store::key_of(s.memberships@[j]));
    } else if j < i {
        assert(crate::store::key_of(s.memberships@[j]) != crate::store::key_of(s.memberships@[i]));
    }
}

/// After a transfer the new holder has the role and the expiration that
/// the old holder had before it, and the old holder has no membership in the
/// group.
pub proof fn law_transfer_preserves_role_and_expiration(
    s0: Store,
    s1: Store,
    r: Result<TransferPlan, PacksError>,
    group_name: Seq<char>,
    host: User,
    old_user: User,
    new_user: User,
)
    requires
        s0.wf(),
        transfer_post(&s0, &s1, r, group_name, host, old_user, new_user),
        r is Ok,
    ensures
        ({
            let group_id = s0.group_id(group_name);
            let before = s0.members()[(group_id, old_user.user_uuid)];
            let after = s1.members()[(group_id, new_user.user_uuid)];
            &&& s0.is_member(group_id, old_user.user_uuid)
            &&& s1.is_member(group_id, new_user.user_uuid)
            &&& after.role_id == before.role_id
            &&& after.expiration == before.expiration
            &&& !s1.is_member(group_id, old_user.user_uuid)
        }),
{
}

/// The sweep removes exactly the memberships whose expiration is at or
/// before its time: such a membership is gone afterwards, every other
/// membership is there as it was, and no membership has appeared.
pub proof fn law_sweep_removes_exactly_the_lapsed(
    s0: Store,
    s1: Store,
    now: Timestamp,
    r: Seq<Expiry>,
    k: (i32, u128),
)
    requires
        s0.wf(),
        sweep_post(&s0, &s1, now, r),
    ensures
        s0.members().contains_key(k) && expired_by(s0.members()[k], now)
            ==> !s1.members().contains_key(k),
        s0.members().contains_key(k) && !expired_by(s0.members()[k], now)
            ==> s1.members().contains_key(k) && s1.members()[k] == s0.members()[k],
        s1.members().contains_key(k) ==> s0.members().contains_key(k),
{
}

/// Of two memberships with the expirations `t1` and `t2`, where `t1` is at
/// or before the time of the sweep and `t2` is after it, the sweep removes
/// the first and leaves the second untouched.
pub proof fn law_sweep_between(
    s0: Store,
    s1: Store,
    now: Timestamp,
    r: Seq<Expiry>,
    k1: (i32, u128),
    k2: (i32, u128),
    t1: Timestamp,
    t2: Timestamp,
)
    requires
        s0.wf(),
        sweep_post(&s0, &s1, now, r),
        s0.members().contains_key(k1),
        s0.members().contains_key(k2),
        s0.members()[k1].expiration == Some(t1),
        s0.members()[k2].expiration == Some(t2),
        t1.micros <= now.micros < t2.micros,
    ensures
        !s1.members().contains_key(k1),
        s1.members().contains_key(k2),
        s1.members()[k2] == s0.members()[k2],
{
    law_sweep_removes_exactly_the_lapsed(s0, s1, now, r, k1);
    law_sweep_removes_exactly_the_lapsed(s0, s1, now, r, k2);
}

/// A failure of the calls for one user of a sweep touches nothing else:
/// the changes to the store were made for every user before any call, so the
/// memberships of all users that had lapsed are gone whatever the calls come
/// to; the calls of every user are those of the user's own revocation; and
/// the report counts the one failure and no other.
pub proof fn law_partial_failure_isolation(
    s0: Store,
    s1: Store,
    now: Timestamp,
    r: Seq<Expiry>,
    outcomes: Seq<Result<(), PacksError>>,
    bad: int,
)
    requires
        s0.wf(),
        sweep_post(&s0, &s1, now, r),
        outcomes.len() == r.len(),
        0 <= bad < outcomes.len(),
        outcomes[bad] is Err,
        forall|i: int| 0 <= i < outcomes.len() && i != bad ==> outcomes[i] is Ok,
    ensures
        failures(outcomes) == 1,
        forall|k: (i32, u128)|
            s0.members().contains_key(k) && expired_by(s0.members()[k], now)
                ==> !#[trigger] s1.members().contains_key(k),
        forall|i: int|
            0 <= i < r.len() ==> revocation_is(
                (#[trigger] r[i]).revocation,
                sweep_step(s0, s0.memberships@.filter(lapsed(now)), i),
            ),
{
    lemma_one_failure(outcomes, bad);
}

/// The window of a warning stage is one calendar day: it starts at a
/// multiple of a day, spans a day less one microsecond, and holds the instant
/// that lies the given number of days after now.
pub proof fn law_window_is_one_day(now: int, days: int)
    ensures
        window_lower(now, days) % (MICROS_PER_DAY as int) == 0,
        window_lower(now, days) <= now + days * (MICROS_PER_DAY as int) <= window_upper(now, days),
        window_upper(now, days) - window_lower(now, days) == MICROS_PER_DAY - 1,
{
}

/// A membership that lapses in exactly fourteen days is due at the first
/// stage and not at the second; one that lapses in exactly seven days is due
/// at the second and not at the first; and no membership is due at both.
pub proof fn law_notification_stages(now: Timestamp, expiration: Timestamp)
    ensures
        expiration.micros == now.micros + 14 * MICROS_PER_DAY ==> falls_on_day(expiration, now, 14)
            && !falls_on_day(expiration, now, 7),
        expiration.micros == now.micros + 7 * MICROS_PER_DAY ==> falls_on_day(expiration, now, 7)
            && !falls_on_day(expiration, now, 14),
        !(falls_on_day(expiration, now, 14) && falls_on_day(expiration, now, 7)),
{
}

/// At the first stage one message goes out for a membership, with the
/// first template; at the second stage two go out, the second template to
/// those accountable and the member's own template to the member. The
/// message to those accountable goes to the host where the host holds a
/// curator or admin role in the group, and blind-copied to the curators of
/// the group where not.
pub proof fn law_notification_audience(store: Store, m: Membership)
    requires
        can_notify(store, m),
    ensures
        ({
            let group = store.group_by_id(m.group_id).name@;
            let member = store.user(m.user_uuid);
            let first = notices_for(store, m, true);
            let second = notices_for(store, m, false);
            &&& first.len() == 1
            &&& first[0] == accountable_mail(
                store,
                m,
                TemplateView::FirstHostExpiration(group, member.username@),
            )
            &&& second.len() == 2
            &&& second[0] == accountable_mail(
                store,
                m,
                TemplateView::SecondHostExpiration(group, member.username@),
            )
            &&& second[1] == (MailView::Single {
                to: member.email@,
                template: TemplateView::MemberExpiration(group),
            })
        }),
        forall|template: TemplateView|
            host_accountable(store, m) ==> #[trigger] accountable_mail(store, m, template) == (
            MailView::Single { to: store.user(m.added_by).email@, template }),
        forall|template: TemplateView|
            !host_accountable(store, m) ==> #[trigger] accountable_mail(store, m, template) == (
            MailView::Blind { bcc: curator_emails(store, m.group_id), template }),
{
}

/// Whether row `k` is the one role of type `typ` that the group `group_id`
/// owns.
pub open spec fn only_role_at(store: Store, group_id: i32, typ: RoleType, k: int) -> bool {
    role_at(store.roles@, group_id, typ, k) && forall|j: int|
        role_at(store.roles@, group_id, typ, j) ==> j == k
}

/// Every group owns exactly one member role and exactly one admin role:
/// never none, never two. The engine's operations keep it so: they take a
/// store in which every group owns both roles to such a store, and a group
/// comes into being together with its two roles.
pub proof fn law_one_member_role_and_one_admin_role(s: Store, i: int)
    requires
        s.wf(),
        s.role_invariant(),
        0 <= i < s.groups@.len(),
    ensures
        exists|k: int| only_role_at(s, s.groups@[i].id, RoleType::Member, k),
        exists|k: int| only_role_at(s, s.groups@[i].id, RoleType::Admin, k),
{
    let group_id = s.groups@[i].id;
    assert(s.has_role(group_id, RoleType::Member) && s.has_role(group_id, RoleType::Admin));
    let km = choose|k: int| role_at(s.roles@, group_id, RoleType::Member, k);
    assert forall|j: int| role_at(s.roles@, group_id, RoleType::Member, j) implies j == km by {
        crate::store::lemma_role_pos(
            s.roles@,
            s.groups@,
            s.next_role_id,
            group_id,
            RoleType::Member,
            j,
        );
    }
    assert(only_role_at(s, group_id, RoleType::Member, km));
    let ka = choose|k: int| role_at(s.roles@, group_id, RoleType::Admin, k);
    assert forall|j: int| role_at(s.roles@, group_id, RoleType::Admin, j) implies j == ka by {
        crate::store::lemma_role_pos(s.roles@, s.groups@, s.next_role_id, group_id, RoleType::Admin, j);
    }
    assert(only_role_at(s, group_id, RoleType::Admin, ka));
}

/// Whether `after` is the log `before` with exactly one more entry, which
/// is about a membership and records the operation `operation`.
pub open spec fn one_membership_entry(
    before: Store,
    after: Store,
    operation: LogOperationType,
) -> bool {
    &&& after.logs@.len() == before.logs@.len() + 1
    &&& after.logs@.drop_last() == before.logs@
    &&& after.logs@.last().target == LogTargetType::Membership
    &&& after.logs@.last().operation == operation
}

/// A successful addition writes exactly one entry, of a membership
/// created; a failed one writes none.
pub proof fn law_add_is_audited(
    s0: Store,
    s1: Store,
    r: Result<(), PacksError>,
    group_name: Seq<char>,
    host: User,
    member: User,
    expiration: Option<i32>,
    now: Timestamp,
)
    requires
        add_to_group_post(&s0, &s1, r, group_name, host, member, expiration, now),
    ensures
        r is Ok ==> one_membership_entry(s0, s1, LogOperationType::Created),
        r is Err ==> s1.logs@ == s0.logs@,
{
}

/// A successful removal writes exactly one entry, of a membership deleted;
/// a failed one writes none.
pub proof fn law_remove_is_audited(
    s0: Store,
    s1: Store,
    r: Result<(), PacksError>,
    host_uuid: u128,
    user_uuid: u128,
    group_name: Seq<char>,
    comment: Option<Seq<char>>,
)
    requires
        remove_from_group_post(&s0, &s1, r, host_uuid, user_uuid, group_name, comment),
    ensures
        r is Ok ==> one_membership_entry(s0, s1, LogOperationType::Deleted),
        r is Err ==> s1.logs@ == s0.logs@,
{
}

/// A removal through the lifecycle writes exactly one entry where it takes
/// place, and none where it is refused.
pub proof fn law_revocation_is_audited(
    s0: Store,
    s1: Store,
    r: Result<Removal, PacksError>,
    name: Seq<char>,
    user: u128,
    host: u128,
    force: bool,
    address: Option<Seq<char>>,
    comment: Option<Seq<char>>,
)
    requires
        revoke_one_post(&s0, &s1, name, user, host, force, address, comment, r),
    ensures
        r is Ok ==> one_membership_entry(s0, s1, LogOperationType::Deleted),
        r is Err ==> s1.logs@ == s0.logs@,
        r is Ok <==> revoke_refusal(s0, s0.members(), name, user, host, force) is None,
{
}

/// A successful renewal writes exactly one entry, of a membership updated;
/// a failed one writes none.
pub proof fn law_renew_is_audited(
    s0: Store,
    s1: Store,
    r: Result<(), PacksError>,
    host_uuid: u128,
    group_name: Seq<char>,
    member: User,
    expiration: Option<i32>,
    now: Timestamp,
)
    requires
        renew_post(&s0, &s1, r, host_uuid, group_name, member, expiration, now),
    ensures
        r is Ok ==> one_membership_entry(s0, s1, LogOperationType::Updated),
        r is Err ==> s1.logs@ == s0.logs@,
{
}

/// A successful transfer writes exactly one entry, of a membership
/// updated; a failed one writes none.
pub proof fn law_transfer_is_audited(
    s0: Store,
    s1: Store,
    r: Result<TransferPlan, PacksError>,
    group_name: Seq<char>,
    host: User,
    old_user: User,
    new_user: User,
)
    requires
        transfer_post(&s0, &s1, r, group_name, host, old_user, new_user),
    ensures
        r is Ok ==> one_membership_entry(s0, s1, LogOperationType::Updated),
        r is Err ==> s1.logs@ == s0.logs@,
{
}

/// The listing of the members of a group is determined by the rows it
/// shows: two sequences that hold the same rows, each in the order of role,
/// user name and UUID, are the same sequence.
pub proof fn law_listing_is_determined(
    first: Seq<DisplayMemberAndHost>,
    second: Seq<DisplayMemberAndHost>,
    found: Seq<DisplayMemberAndHost>,
)
    requires
        is_listing(first, found),
        is_listing(second, found),
    ensures
        first == second,
{
    lemma_listing_unique(first, second);
}

} // verus!
