//! The scheduled sweeps: warnings ahead of an expiration, and the removal of
//! what has lapsed. The sweeps of invitations and requests are found here as
//! well as with their records.

use vstd::prelude::*;
pub use crate::pending::{
    expire_invitations, expire_invitations_at, expire_requests, expire_requests_at,
};
use crate::clock::{falls_on_day, utc_now, DayWindow, Timestamp};
use crate::group::{get_groups_by_ids, with_id_in};
use crate::lifecycle::{
    calls_view, forced_keys, lemma_forced_revoke, lemma_revoke_directory, revoke_membership,
    revoke_model, revoke_post, RemoveGroups, Revocation, RevokeModel,
};
use crate::mail::{mails_view, send_email, send_emails, Mail, MailView, Template, TemplateView};
use crate::member::{
    curator_emails, get_curator_emails, get_memberships_expire_between,
    get_memberships_expired_before, lapsed, lapsing_in, role_type_for,
};
use crate::model::{expired_by, log_comment_body, log_view, Group, LogEntryView, Membership};
use crate::partition::{group_by_user, held_by, holders, lemma_holders, partitioned};
use crate::sequences::{
    lemma_filter_member, lemma_filter_step, lemma_map_push, lemma_take_all, lemma_take_step, texts,
};
use crate::store::{
    group_at, group_id_at, lemma_group_pos, lemma_member_map_row, role_id_at, row_with_key, Store,
};
use crate::types::{User, SYSTEM_UUID};

verus! {

/// The days ahead of an expiration at which the first warning goes out.
pub const FIRST_WARNING_DAYS: u32 = 14;

/// The days ahead of an expiration at which the second warning goes out.
pub const SECOND_WARNING_DAYS: u32 = 7;

/// The days ahead that a warning stage looks.
pub open spec fn warning_days(first: bool) -> int {
    if first {
        FIRST_WARNING_DAYS as int
    } else {
        SECOND_WARNING_DAYS as int
    }
}

/// The memberships that lapse on the calendar day `days` days after `now`.
pub open spec fn lapsing_on(now: Timestamp, days: int) -> spec_fn(Membership) -> bool {
    |m: Membership|
        match m.expiration {
            Some(e) => falls_on_day(e, now, days),
            None => false,
        }
}

/// Whether the one who added the user is still accountable for the
/// membership `m`: the host has a cached profile and holds a curator or
/// admin role in the group.
pub open spec fn host_accountable(store: Store, m: Membership) -> bool {
    &&& store.has_user(m.added_by)
    &&& store.is_member(m.group_id, m.added_by)
    &&& store.role_by_id(store.members()[(m.group_id, m.added_by)].role_id).typ.is_elevated()
}

/// The warning to those accountable for the membership `m`: to the host
/// where the host is accountable, else blind-copied to the curators of the
/// group.
pub open spec fn accountable_mail(store: Store, m: Membership, template: TemplateView) -> MailView {
    if host_accountable(store, m) {
        MailView::Single { to: store.user(m.added_by).email@, template }
    } else {
        MailView::Blind { bcc: curator_emails(store, m.group_id), template }
    }
}

/// Whether a warning can be issued for the membership `m`: its holder has
/// a cached profile and its group exists.
pub open spec fn can_notify(store: Store, m: Membership) -> bool {
    store.has_user(m.user_uuid) && store.has_group_id(m.group_id)
}

/// The messages that one warning stage sends for the membership `m`. The
/// first stage warns those accountable; the second warns them again and the
/// member as well. A member without a cached profile cannot be named or
/// addressed, and nothing is sent; nor is anything sent for a membership in
/// a group that the store does not know.
pub open spec fn notices_for(store: Store, m: Membership, first: bool) -> Seq<MailView> {
    if !can_notify(store, m) {
        Seq::empty()
    } else {
        let group = store.group_by_id(m.group_id).name@;
        let member = store.user(m.user_uuid);
        if first {
            seq![accountable_mail(store, m, TemplateView::FirstHostExpiration(group, member.username@))]
        } else {
            seq![
                accountable_mail(store, m, TemplateView::SecondHostExpiration(group, member.username@)),
                MailView::Single { to: member.email@, template: TemplateView::MemberExpiration(group) },
            ]
        }
    }
}

/// The messages that one warning stage sends for the memberships `rows`, in
/// their order.
pub open spec fn all_notices(store: Store, rows: Seq<Membership>, first: bool) -> Seq<MailView>
    decreases rows.len(),
{
    if rows.len() == 0 {
        Seq::empty()
    } else {
        all_notices(store, rows.drop_last(), first) + notices_for(store, rows.last(), first)
    }
}

/// The memberships for which a warning can be issued.
pub open spec fn reachable(store: Store) -> spec_fn(Membership) -> bool {
    |m: Membership| can_notify(store, m)
}

/// What a warning stage did.
#[derive(Debug, PartialEq, Eq)]
pub struct Notifications {
    /// The memberships for which the warnings were issued.
    pub count: usize,
    /// The memberships that had to be passed over.
    pub failed: usize,
    /// The messages to deliver, in the order in which they were issued.
    pub mails: Vec<Mail>,
}

/// What [`expiration_notification_at`] returns.
pub open spec fn notification_post(
    store: Store,
    first: bool,
    now: Timestamp,
    r: Notifications,
) -> bool {
    let due = store.memberships@.filter(lapsing_on(now, warning_days(first)));
    &&& r.count == due.filter(reachable(store)).len()
    &&& r.count + r.failed == due.len()
    &&& mails_view(r.mails@) == all_notices(store, due, first)
}

/// The messages that one warning stage sends for the membership `m`; none
/// where no warning can be issued for it.
pub fn notify(store: &Store, m: &Membership, first: bool) -> (r: Option<Vec<Mail>>)
    requires
        store.wf(),
    ensures
        r is Some <==> can_notify(*store, *m),
        r matches Some(mails) ==> mails_view(mails@) == notices_for(*store, *m, first),
{
    let member = match store.find_user(m.user_uuid) {
        Some(i) => &store.users[i],
        None => {
            return None;
        },
    };
    let group = match store.find_group_by_id(m.group_id) {
        Some(g) => &store.groups[g],
        None => {
            return None;
        },
    };
    let host_valid = match role_type_for(store, m.added_by, m.group_id) {
        Some(typ) => typ.elevated(),
        None => false,
    };
    let template = if first {
        Template::FirstHostExpiration(group.name.clone(), member.username.clone())
    } else {
        Template::SecondHostExpiration(group.name.clone(), member.username.clone())
    };
    let accountable = match store.find_user(m.added_by) {
        Some(h) => {
            if host_valid {
                send_email(store.users[h].email.clone(), template)
            } else {
                send_emails(get_curator_emails(store, m.group_id), template)
            }
        },
        None => send_emails(get_curator_emails(store, m.group_id), template),
    };
    let mut mails: Vec<Mail> = Vec::new();
    mails.push(accountable);
    if !first {
        mails.push(send_email(member.email.clone(), Template::MemberExpiration(group.name.clone())));
    }
    assert(mails_view(mails@) =~= notices_for(*store, *m, first));
    Some(mails)
}

/// Issues the warnings of one stage as of the time `now`: the first stage
/// for the memberships that lapse on the fourteenth calendar day from now,
/// the second for those that lapse on the seventh. The store is read only:
/// no membership is removed here.
pub fn expiration_notification_at(store: &Store, first: bool, now: Timestamp) -> (r: Notifications)
    requires
        store.wf(),
    ensures
        notification_post(*store, first, now, r),
{
    let days: u32 = if first {
        FIRST_WARNING_DAYS
    } else {
        SECOND_WARNING_DAYS
    };
    let window = DayWindow::after_days(now, days);
    let due = get_memberships_expire_between(store, &window);
    proof {
        assert(lapsing_in(window) =~= lapsing_on(now, warning_days(first)));
    }
    let ghost rows = due@;
    let mut count: usize = 0;
    let mut failed: usize = 0;
    let mut mails: Vec<Mail> = Vec::new();
    let mut i: usize = 0;
    assert(mails_view(mails@) =~= all_notices(*store, rows.take(0), first));
    assert(rows.take(0).filter(reachable(*store)) =~= Seq::<Membership>::empty());
    while i < due.len()
        invariant
            store.wf(),
            i <= due.len(),
            rows == due@,
            rows == store.memberships@.filter(lapsing_on(now, warning_days(first))),
            count == rows.take(i as int).filter(reachable(*store)).len(),
            count + failed == i,
            mails_view(mails@) == all_notices(*store, rows.take(i as int), first),
        decreases due.len() - i,
    {
        let m = due[i];
        proof {
            lemma_filter_step(rows, i as int, reachable(*store));
            lemma_take_step(rows, i as int);
            assert(rows.take(i + 1).drop_last() =~= rows.take(i as int));
        }
        match notify(store, &m, first) {
            Some(batch) => {
                let mut batch = batch;
                let ghost issued = mails@;
                let ghost fresh = batch@;
                mails.append(&mut batch);
                proof {
                    assert(mails_view(issued + fresh) =~= mails_view(issued) + mails_view(fresh));
                }
                count += 1;
            },
            None => {
                failed += 1;
                assert(all_notices(*store, rows.take(i as int), first) + Seq::<MailView>::empty()
                    =~= all_notices(*store, rows.take(i as int), first));
            },
        }
        i += 1;
    }
    proof {
        lemma_take_all(rows);
    }
    Notifications { count, failed, mails }
}

/// [`expiration_notification_at`] at the current time.
pub fn expiration_notification(store: &Store, first: bool) -> (r: Notifications)
    requires
        store.wf(),
    ensures
        exists|now: Timestamp| notification_post(*store, first, now, r),
{
    let now = utc_now();
    expiration_notification_at(store, first, now)
}

/// The group of a membership.
pub open spec fn group_of() -> spec_fn(Membership) -> i32 {
    |m: Membership| m.group_id
}

/// The name of a group.
pub open spec fn name_of() -> spec_fn(Group) -> Seq<char> {
    |g: Group| g.name@
}

/// The names of the groups of the memberships `rows`, each once, in the
/// order of the group table.
pub open spec fn expiry_names(store: Store, rows: Seq<Membership>) -> Seq<Seq<char>> {
    store.groups@.filter(with_id_in(rows.map_values(group_of()))).map_values(name_of())
}

/// The comment under which the sweep records a removal.
pub open spec fn expired_comment() -> Option<Seq<char>> {
    Some("expired"@)
}

/// Takes `user` out of the groups of the lapsed `memberships`, as the
/// system, by force, and tells the user.
pub fn expire_membership(store: &mut Store, user: &User, memberships: &Vec<Membership>) -> (r:
    Revocation)
    requires
        old(store).wf(),
    ensures
        final(store).wf(),
        revoke_post(
            old(store),
            final(store),
            expiry_names(*old(store), memberships@),
            *user,
            User { user_uuid: SYSTEM_UUID },
            true,
            true,
            expired_comment(),
            r,
        ),
        old(store).role_invariant() ==> final(store).role_invariant(),
{
    let mut ids: Vec<i32> = Vec::new();
    let mut i: usize = 0;
    assert(ids@ =~= memberships@.take(0).map_values(group_of()));
    while i < memberships.len()
        invariant
            i <= memberships.len(),
            ids@ == memberships@.take(i as int).map_values(group_of()),
        decreases memberships.len() - i,
    {
        proof {
            lemma_take_step(memberships@, i as int);
            lemma_map_push(memberships@.take(i as int), memberships@[i as int], group_of());
        }
        ids.push(memberships[i].group_id);
        i += 1;
    }
    proof {
        lemma_take_all(memberships@);
    }
    let groups = get_groups_by_ids(store, &ids);
    let mut names: Vec<String> = Vec::new();
    let mut j: usize = 0;
    assert(texts(names@) =~= groups@.take(0).map_values(name_of()));
    while j < groups.len()
        invariant
            j <= groups.len(),
            texts(names@) == groups@.take(j as int).map_values(name_of()),
        decreases groups.len() - j,
    {
        let name = groups[j].name.clone();
        proof {
            lemma_take_step(groups@, j as int);
            lemma_map_push(groups@.take(j as int), groups@[j as int], name_of());
            lemma_map_push(names@, name, |s: String| s@);
        }
        names.push(name);
        j += 1;
    }
    proof {
        lemma_take_all(groups@);
    }
    let host = User::default();
    let remove_groups = RemoveGroups { user: *user, group_names: names, force: true, notify: true };
    revoke_membership(store, &remove_groups, &host, log_comment_body("expired"))
}

/// What the sweep did for one user.
#[derive(Debug, PartialEq, Eq)]
pub struct Expiry {
    pub user: User,
    pub revocation: Revocation,
}

/// The memberships that have lapsed by `now`.
pub open spec fn expired_keys(members: Map<(i32, u128), Membership>, now: Timestamp) -> Set<
    (i32, u128),
> {
    Set::new(|k: (i32, u128)| members.contains_key(k) && expired_by(members[k], now))
}

/// The revocation that the sweep carries out for the holder at position `k`
/// among the holders of the lapsed memberships `due`.
pub open spec fn sweep_step(store: Store, due: Seq<Membership>, k: int) -> RevokeModel {
    let user = holders(due)[k];
    revoke_model(
        store,
        store.members(),
        expiry_names(store, due.filter(held_by(user))),
        user,
        SYSTEM_UUID,
        true,
        true,
        expired_comment(),
    )
}

/// Whether the revocation reports what the model says.
pub open spec fn revocation_is(r: Revocation, model: RevokeModel) -> bool {
    &&& r.outcomes@ == model.outcomes
    &&& calls_view(r.calls@) == model.calls
    &&& mails_view(r.mails@) == model.mails
}

/// The records that the sweep writes for the first `n` holders of the
/// lapsed memberships `due`.
pub open spec fn sweep_logged(store: Store, due: Seq<Membership>, n: nat) -> Seq<LogEntryView>
    decreases n,
{
    if n == 0 {
        Seq::empty()
    } else {
        sweep_logged(store, due, (n - 1) as nat) + sweep_step(store, due, n - 1).logged
    }
}

/// The memberships among `due` that belong to one of its first `n` holders.
pub open spec fn swept_keys(due: Seq<Membership>, n: int) -> Set<(i32, u128)> {
    Set::new(
        |k: (i32, u128)|
            (exists|i: int| row_with_key(due, k, i)) && (exists|a: int|
                0 <= a < n && #[trigger] holders(due)[a] == k.1),
    )
}

/// What [`expire_memberships_at`] leaves behind and returns: exactly the
/// memberships that had lapsed by `now` are gone, every removal is recorded,
/// and every holder of a lapsed membership has a revocation of their own.
pub open spec fn sweep_post(before: &Store, after: &Store, now: Timestamp, r: Seq<Expiry>) -> bool {
    let due = before.memberships@.filter(lapsed(now));
    &&& after.members() == before.members().remove_keys(expired_keys(before.members(), now))
    &&& after.keeps_all_but_members_and_log(before)
    &&& r.len() == holders(due).len()
    &&& forall|k: int|
        0 <= k < r.len() ==> (#[trigger] r[k]).user.user_uuid == holders(due)[k] && revocation_is(
            r[k].revocation,
            sweep_step(*before, due, k),
        )
    &&& log_view(after.logs@) == log_view(before.logs@) + sweep_logged(
        *before,
        due,
        holders(due).len(),
    )
}

/// A membership of the table belongs to a group that exists.
pub proof fn lemma_member_group_exists(store: Store, m: Membership)
    requires
        store.wf(),
        store.memberships@.contains(m),
    ensures
        store.has_group_id(m.group_id),
{
    let i = choose|i: int| 0 <= i < store.memberships@.len() && store.memberships@[i] == m;
    assert(store.memberships@[i] == m);
    let k = choose|k: int| role_id_at(store.roles@, m.role_id, m.group_id, k);
    assert(role_id_at(store.roles@, m.role_id, m.group_id, k));
    let g = choose|g: int| group_id_at(store.groups@, store.roles@[k].group_id, g);
    assert(group_id_at(store.groups@, m.group_id, g));
}

/// The memberships of one holder among `due` are those of `due` that carry
/// the holder.
pub proof fn lemma_bucket_keys(due: Seq<Membership>, user: u128, k: (i32, u128))
    ensures
        (exists|i: int| row_with_key(due.filter(held_by(user)), k, i)) <==> (k.1 == user && exists|
            i: int,
        | row_with_key(due, k, i)),
{
    let bucket = due.filter(held_by(user));
    if exists|i: int| row_with_key(bucket, k, i) {
        let i = choose|i: int| row_with_key(bucket, k, i);
        assert(bucket.contains(bucket[i]));
        lemma_filter_member(due, held_by(user), bucket[i]);
        let j = choose|j: int| 0 <= j < due.len() && due[j] == bucket[i];
        assert(row_with_key(due, k, j));
    }
    if k.1 == user && exists|i: int| row_with_key(due, k, i) {
        let j = choose|j: int| row_with_key(due, k, j);
        assert(due.contains(due[j]));
        lemma_filter_member(due, held_by(user), due[j]);
        let i = choose|i: int| 0 <= i < bucket.len() && bucket[i] == due[j];
        assert(row_with_key(bucket, k, i));
    }
}

/// A forced revocation from the groups of the memberships `rows` of one
/// user takes away exactly those memberships.
pub proof fn lemma_expiry_keys(store: Store, rows: Seq<Membership>, user: u128, k: (i32, u128))
    requires
        store.wf(),
        forall|i: int|
            0 <= i < rows.len() ==> (#[trigger] rows[i]).user_uuid == user && store.has_group_id(
                rows[i].group_id,
            ),
    ensures
        forced_keys(store, expiry_names(store, rows), user).contains(k) <==> exists|i: int|
            row_with_key(rows, k, i),
{
    let ids = rows.map_values(group_of());
    let kept = store.groups@.filter(with_id_in(ids));
    let names = expiry_names(store, rows);
    assert(names.len() == kept.len());
    if forced_keys(store, names, user).contains(k) {
        let j = choose|j: int|
            0 <= j < names.len() && store.has_group(#[trigger] names[j]) && store.group_id(names[j])
                == k.0;
        assert(names[j] == kept[j].name@);
        assert(kept.contains(kept[j]));
        lemma_filter_member(store.groups@, with_id_in(ids), kept[j]);
        let p = choose|p: int| 0 <= p < store.groups@.len() && store.groups@[p] == kept[j];
        assert(group_at(store.groups@, names[j], p));
        lemma_group_pos(store.groups@, store.next_group_id, names[j], p);
        assert(ids.contains(kept[j].id));
        let i = choose|i: int| 0 <= i < ids.len() && ids[i] == kept[j].id;
        assert(rows[i].group_id == k.0);
        assert(row_with_key(rows, k, i));
    }
    if exists|i: int| row_with_key(rows, k, i) {
        let i = choose|i: int| row_with_key(rows, k, i);
        assert(store.has_group_id(rows[i].group_id));
        let p = choose|p: int| group_id_at(store.groups@, k.0, p);
        assert(group_id_at(store.groups@, k.0, p));
        let g = store.groups@[p];
        assert(ids[i] == k.0);
        assert(ids.contains(g.id));
        assert(store.groups@.contains(g));
        lemma_filter_member(store.groups@, with_id_in(ids), g);
        let j = choose|j: int| 0 <= j < kept.len() && kept[j] == g;
        assert(names[j] == g.name@);
        assert(group_at(store.groups@, names[j], p));
        lemma_group_pos(store.groups@, store.next_group_id, names[j], p);
        assert(store.has_group(names[j]) && store.group_id(names[j]) == k.0);
    }
}

/// The memberships of all holders of `due` together are the memberships
/// that had lapsed.
pub proof fn lemma_swept_all(store: Store, now: Timestamp, k: (i32, u128))
    requires
        store.wf(),
    ensures
        ({
            let due = store.memberships@.filter(lapsed(now));
            swept_keys(due, holders(due).len() as int).contains(k) <==> expired_keys(
                store.members(),
                now,
            ).contains(k)
        }),
{
    let rows = store.memberships@;
    let due = rows.filter(lapsed(now));
    lemma_holders(due);
    if swept_keys(due, holders(due).len() as int).contains(k) {
        let i = choose|i: int| row_with_key(due, k, i);
        assert(due.contains(due[i]));
        lemma_filter_member(rows, lapsed(now), due[i]);
        let j = choose|j: int| 0 <= j < rows.len() && rows[j] == due[i];
        lemma_member_map_row(rows, j);
    }
    if expired_keys(store.members(), now).contains(k) {
        let j = choose|j: int| row_with_key(rows, k, j);
        assert(row_with_key(rows, k, j));
        lemma_member_map_row(rows, j);
        assert(rows.contains(rows[j]));
        lemma_filter_member(rows, lapsed(now), rows[j]);
        let i = choose|i: int| 0 <= i < due.len() && due[i] == rows[j];
        assert(row_with_key(due, k, i));
        assert(due[i].user_uuid == k.1);
        assert(holders(due).contains(k.1));
        let a = choose|a: int| 0 <= a < holders(due).len() && holders(due)[a] == k.1;
        assert(holders(due)[a] == k.1);
    }
}

/// The expiration sweep as of the time `now`: finds the memberships that
/// have lapsed, partitions them by holder, and revokes for every holder the
/// groups they lapsed out of. The holders are handled independently of each
/// other, and every one of them is handled.
pub fn expire_memberships_at(store: &mut Store, now: Timestamp) -> (r: Vec<Expiry>)
    requires
        old(store).wf(),
    ensures
        final(store).wf(),
        sweep_post(old(store), final(store), now, r@),
        old(store).role_invariant() ==> final(store).role_invariant(),
{
    let due = get_memberships_expired_before(store, now);
    let buckets = group_by_user(&due);
    let mut done: Vec<Expiry> = Vec::new();
    let mut n: usize = 0;
    proof {
        assert(store.members() =~= old(store).members().remove_keys(swept_keys(due@, 0)));
        assert(log_view(store.logs@) =~= log_view(old(store).logs@) + sweep_logged(
            *old(store),
            due@,
            0,
        ));
    }
    while n < buckets.len()
        invariant
            store.wf(),
            old(store).wf(),
            due@ == old(store).memberships@.filter(lapsed(now)),
            partitioned(due@, buckets@),
            n <= buckets.len(),
            store.keeps_all_but_members_and_log(old(store)),
            old(store).role_invariant() ==> store.role_invariant(),
            store.members() == old(store).members().remove_keys(swept_keys(due@, n as int)),
            done@.len() == n,
            forall|a: int|
                0 <= a < n ==> (#[trigger] done@[a]).user.user_uuid == holders(due@)[a]
                    && revocation_is(done@[a].revocation, sweep_step(*old(store), due@, a)),
            log_view(store.logs@) == log_view(old(store).logs@) + sweep_logged(
                *old(store),
                due@,
                n as nat,
            ),
        decreases buckets.len() - n,
    {
        let bucket = &buckets[n];
        let ghost here = *store;
        let ghost user = holders(due@)[n as int];
        let ghost rows = due@.filter(held_by(user));
        let ghost names = expiry_names(*old(store), rows);
        assert(bucket.user.user_uuid == user && bucket.memberships@ == rows);
        let revocation = expire_membership(store, &bucket.user, &bucket.memberships);
        proof {
            assert(expiry_names(here, rows) == names);
            lemma_revoke_directory(
                here,
                *old(store),
                here.members(),
                names,
                user,
                SYSTEM_UUID,
                true,
                true,
                expired_comment(),
            );
            lemma_forced_revoke(
                *old(store),
                here.members(),
                old(store).members(),
                names,
                user,
                SYSTEM_UUID,
                true,
                expired_comment(),
            );
            assert forall|i: int| 0 <= i < rows.len() implies (#[trigger] rows[i]).user_uuid == user
                && old(store).has_group_id(rows[i].group_id) by {
                assert(rows.contains(rows[i]));
                lemma_filter_member(due@, held_by(user), rows[i]);
                lemma_filter_member(old(store).memberships@, lapsed(now), rows[i]);
                lemma_member_group_exists(*old(store), rows[i]);
            }
            let gone = forced_keys(*old(store), names, user);
            assert forall|k: (i32, u128)| swept_keys(due@, n + 1).contains(k) <==> (swept_keys(
                due@,
                n as int,
            ).contains(k) || gone.contains(k)) by {
                lemma_expiry_keys(*old(store), rows, user, k);
                lemma_bucket_keys(due@, user, k);
                if swept_keys(due@, n + 1).contains(k) {
                    let a = choose|a: int| 0 <= a < n + 1 && #[trigger] holders(due@)[a] == k.1;
                    if a < n {
                        assert(holders(due@)[a] == k.1);
                    }
                }
                if swept_keys(due@, n as int).contains(k) {
                    let a = choose|a: int| 0 <= a < n && #[trigger] holders(due@)[a] == k.1;
                    assert(holders(due@)[a] == k.1);
                }
                if gone.contains(k) {
                    assert(holders(due@)[n as int] == k.1);
                }
            }
            assert(store.members() =~= old(store).members().remove_keys(swept_keys(due@, n + 1)));
            assert(sweep_logged(*old(store), due@, (n + 1) as nat) == sweep_logged(
                *old(store),
                due@,
                n as nat,
            ) + sweep_step(*old(store), due@, n as int).logged);
            assert(log_view(store.logs@) =~= log_view(old(store).logs@) + sweep_logged(
                *old(store),
                due@,
                (n + 1) as nat,
            ));
        }
        done.push(Expiry { user: bucket.user, revocation });
        n += 1;
    }
    proof {
        assert forall|k: (i32, u128)| swept_keys(due@, n as int).contains(k) <==> expired_keys(
            old(store).members(),
            now,
        ).contains(k) by {
            lemma_swept_all(*old(store), now, k);
        }
        assert(swept_keys(due@, n as int) =~= expired_keys(old(store).members(), now));
    }
    done
}

/// [`expire_memberships_at`] at the current time.
pub fn expire_memberships(store: &mut Store) -> (r: Vec<Expiry>)
    requires
        old(store).wf(),
    ensures
        final(store).wf(),
        exists|now: Timestamp| sweep_post(old(store), final(store), now, r@),
        old(store).role_invariant() ==> final(store).role_invariant(),
{
    let now = utc_now();
    expire_memberships_at(store, now)
}

} // verus!
