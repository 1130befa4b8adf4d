//! The lifecycle of a membership: how a user enters a group, is renewed in
//! it, is transferred, and leaves it.
//!
//! An operation changes the store and records the change in one step, and
//! yields the calls that bring the identity service up to date. Those calls
//! are made by the caller once the change stands; their failure is reported
//! as an error of its own kind and never undoes the change.

use vstd::prelude::*;
use crate::clock::Timestamp;
use crate::error::{failed_with, PacksError};
use crate::mail::{mails_view, send_email, Mail, MailView, Template, TemplateView};
use crate::member::{
    add_to_group_at, add_to_group_post, remove_by_id, renew_at, renew_post, role_type_for,
};
use crate::model::expired_by;
use crate::store::{lemma_member_map_push, lemma_member_map_remove, role_id_at};
use crate::model::{clone_text, log_view, text_of, LogContext, LogEntryView, Membership};
use crate::sequences::{lemma_map_push, lemma_take_all, lemma_take_step, texts};
use crate::store::{lemma_log_appended, log_appended, record, Store};
use crate::types::{LogOperationType, LogTargetType, User};

verus! {

/// One call to the identity service.
#[derive(Debug, PartialEq, Eq)]
pub enum SyncCall {
    /// Add the group to the groups of the user's profile.
    AddGroup { user_uuid: u128, group_name: String },
    /// Take the group from the groups of the user's profile.
    RemoveGroup { user_uuid: u128, group_name: String },
}

/// The mathematical content of a [`SyncCall`].
pub enum SyncCallView {
    AddGroup { user_uuid: u128, group_name: Seq<char> },
    RemoveGroup { user_uuid: u128, group_name: Seq<char> },
}

impl View for SyncCall {
    type V = SyncCallView;

    open spec fn view(&self) -> SyncCallView {
        match self {
            SyncCall::AddGroup { user_uuid, group_name } => SyncCallView::AddGroup {
                user_uuid: *user_uuid,
                group_name: group_name@,
            },
            SyncCall::RemoveGroup { user_uuid, group_name } => SyncCallView::RemoveGroup {
                user_uuid: *user_uuid,
                group_name: group_name@,
            },
        }
    }
}

/// The mathematical content of a list of calls.
pub open spec fn calls_view(calls: Seq<SyncCall>) -> Seq<SyncCallView> {
    calls.map_values(|c: SyncCall| c@)
}

/// The groups a user is to leave, and how.
#[derive(Debug, PartialEq, Eq)]
pub struct RemoveGroups {
    pub user: User,
    pub group_names: Vec<String>,
    /// Whether the removal skips the checks on the standing of the host.
    pub force: bool,
    /// Whether the user is told.
    pub notify: bool,
}

/// What a revocation did: its outcome for every group, in the order in
/// which the groups were named, and the calls and messages that follow from
/// the removals.
#[derive(Debug, PartialEq, Eq)]
pub struct Revocation {
    pub outcomes: Vec<Result<(), PacksError>>,
    pub calls: Vec<SyncCall>,
    pub mails: Vec<Mail>,
}

/// Why the removal of `user` from the group called `name` by `host` is
/// refused, if it is. A forced removal is refused for a group that does not
/// exist only. Otherwise the user must be a member, and the host must be the
/// user or hold a curator or admin role in the group.
pub open spec fn revoke_refusal(
    store: Store,
    members: Map<(i32, u128), Membership>,
    name: Seq<char>,
    user: u128,
    host: u128,
    force: bool,
) -> Option<PacksError> {
    let group_id = store.group_id(name);
    if !store.has_group(name) {
        Some(PacksError::GroupNotFound)
    } else if force {
        None
    } else if !members.contains_key((group_id, user)) {
        Some(PacksError::MembershipNotFound)
    } else if host == user || (members.contains_key((group_id, host)) && store.role_by_id(
        members[(group_id, host)].role_id,
    ).typ.is_elevated()) {
        None
    } else {
        Some(PacksError::NotAllowed)
    }
}

/// The state of a revocation after some of its groups.
pub struct RevokeModel {
    pub members: Map<(i32, u128), Membership>,
    pub outcomes: Seq<Result<(), PacksError>>,
    pub calls: Seq<SyncCallView>,
    pub mails: Seq<MailView>,
    pub logged: Seq<LogEntryView>,
}

/// The revocation of the membership of `user` in the groups `names`, one
/// after the other, starting from the memberships `members`. A group whose
/// removal is refused is passed over and the rest goes on. Every removal
/// takes the membership away, records it with `comment`, asks for the group
/// to be taken from the user's profile and, if `notify` is set and the user
/// has a cached profile, tells the user.
pub open spec fn revoke_model(
    store: Store,
    members: Map<(i32, u128), Membership>,
    names: Seq<Seq<char>>,
    user: u128,
    host: u128,
    force: bool,
    notify: bool,
    comment: Option<Seq<char>>,
) -> RevokeModel
    decreases names.len(),
{
    if names.len() == 0 {
        RevokeModel {
            members,
            outcomes: Seq::empty(),
            calls: Seq::empty(),
            mails: Seq::empty(),
            logged: Seq::empty(),
        }
    } else {
        let prior = revoke_model(store, members, names.drop_last(), user, host, force, notify, comment);
        let name = names.last();
        match revoke_refusal(store, prior.members, name, user, host, force) {
            Some(e) => RevokeModel { outcomes: prior.outcomes.push(Err(e)), ..prior },
            None => {
                let group_id = store.group_id(name);
                RevokeModel {
                    members: prior.members.remove((group_id, user)),
                    outcomes: prior.outcomes.push(Ok(())),
                    calls: prior.calls.push(
                        SyncCallView::RemoveGroup { user_uuid: user, group_name: name },
                    ),
                    mails: if notify && store.has_user(user) {
                        prior.mails.push(
                            MailView::Single {
                                to: store.user(user).email@,
                                template: TemplateView::DeleteMember(name),
                            },
                        )
                    } else {
                        prior.mails
                    },
                    logged: prior.logged.push(
                        record(
                            LogContext { group_id, host_uuid: host, user_uuid: Some(user) },
                            LogTargetType::Membership,
                            LogOperationType::Deleted,
                            comment,
                        ),
                    ),
                }
            },
        }
    }
}

/// What [`revoke_membership`] leaves behind and returns.
pub open spec fn revoke_post(
    before: &Store,
    after: &Store,
    names: Seq<Seq<char>>,
    user: User,
    host: User,
    force: bool,
    notify: bool,
    comment: Option<Seq<char>>,
    r: Revocation,
) -> bool {
    let model = revoke_model(
        *before,
        before.members(),
        names,
        user.user_uuid,
        host.user_uuid,
        force,
        notify,
        comment,
    );
    &&& after.members() == model.members
    &&& r.outcomes@ == model.outcomes
    &&& calls_view(r.calls@) == model.calls
    &&& mails_view(r.mails@) == model.mails
    &&& log_view(after.logs@) == log_view(before.logs@) + model.logged
    &&& after.keeps_all_but_members_and_log(before)
}

/// Decides whether `host` may take `user` out of the group called `name`,
/// and finds the id of the group.
pub fn check_revoke(store: &Store, name: &str, user: &User, host: &User, force: bool) -> (r: Result<
    i32,
    PacksError,
>)
    requires
        store.wf(),
    ensures
        match revoke_refusal(*store, store.members(), name@, user.user_uuid, host.user_uuid, force) {
            Some(e) => r == Err::<i32, PacksError>(e),
            None => r == Ok::<i32, PacksError>(store.group_id(name@)),
        },
{
    let gi = match store.find_group(name) {
        Some(gi) => gi,
        None => {
            return Err(PacksError::GroupNotFound);
        },
    };
    let group_id: i32 = store.groups[gi].id;
    if force {
        return Ok(group_id);
    }
    if store.find_membership(group_id, user.user_uuid).is_none() {
        return Err(PacksError::MembershipNotFound);
    }
    if host.user_uuid == user.user_uuid {
        return Ok(group_id);
    }
    let standing = match role_type_for(store, host.user_uuid, group_id) {
        Some(typ) => typ.elevated(),
        None => false,
    };
    if standing {
        Ok(group_id)
    } else {
        Err(PacksError::NotAllowed)
    }
}

/// What follows from one removal: the call to the identity service, and
/// the message to the user if the user is told.
#[derive(Debug, PartialEq, Eq)]
pub struct Removal {
    pub call: SyncCall,
    pub mail: Option<Mail>,
}

/// The address at which a user is told of a removal: that of the cached
/// profile, where the user is to be told and has one.
pub open spec fn notice_address(store: Store, user: u128, notify: bool) -> Option<Seq<char>> {
    if notify && store.has_user(user) {
        Some(store.user(user).email@)
    } else {
        None
    }
}

/// What [`revoke_one`] leaves behind and returns.
pub open spec fn revoke_one_post(
    before: &Store,
    after: &Store,
    name: Seq<char>,
    user: u128,
    host: u128,
    force: bool,
    address: Option<Seq<char>>,
    comment: Option<Seq<char>>,
    r: Result<Removal, PacksError>,
) -> bool {
    match revoke_refusal(*before, before.members(), name, user, host, force) {
        Some(e) => failed_with(r, e) && *after == *before,
        None => {
            let group_id = before.group_id(name);
            &&& r matches Ok(removal) && {
                &&& removal.call@ == (SyncCallView::RemoveGroup { user_uuid: user, group_name: name })
                &&& match address {
                    Some(to) => removal.mail matches Some(mail) && mail@ == (MailView::Single {
                        to,
                        template: TemplateView::DeleteMember(name),
                    }),
                    None => removal.mail is None,
                }
            }
            &&& after.members() == before.members().remove((group_id, user))
            &&& after.keeps_all_but_members_and_log(before)
            &&& log_appended(
                before.logs@,
                after.logs@,
                LogContext { group_id, host_uuid: host, user_uuid: Some(user) },
                LogTargetType::Membership,
                LogOperationType::Deleted,
                comment,
            )
        },
    }
}

/// Takes `user` out of the group called `name` on behalf of `host`, unless
/// the removal is refused, and records it with `comment`. The user is told
/// at `address`, if one is given.
pub fn revoke_one(
    store: &mut Store,
    name: &str,
    user: &User,
    host: &User,
    force: bool,
    address: &Option<String>,
    comment: &Option<String>,
) -> (r: Result<Removal, PacksError>)
    requires
        old(store).wf(),
    ensures
        final(store).wf(),
        revoke_one_post(
            old(store),
            final(store),
            name@,
            user.user_uuid,
            host.user_uuid,
            force,
            text_of(*address),
            text_of(*comment),
            r,
        ),
        old(store).role_invariant() ==> final(store).role_invariant(),
{
    let group_id = match check_revoke(store, name, user, host, force) {
        Ok(group_id) => group_id,
        Err(e) => {
            return Err(e);
        },
    };
    remove_by_id(host.user_uuid, store, user.user_uuid, group_id, clone_text(comment));
    let call = SyncCall::RemoveGroup { user_uuid: user.user_uuid, group_name: String::from_str(name) };
    let mail = match address {
        Some(to) => Some(send_email(to.clone(), Template::DeleteMember(String::from_str(name)))),
        None => None,
    };
    Ok(Removal { call, mail })
}

/// Takes the user of `remove_groups` out of each group it names, on behalf
/// of `host`. The groups are handled one by one and independently: one that
/// is refused is reported in its place and does not hold up the others.
pub fn revoke_membership(
    store: &mut Store,
    remove_groups: &RemoveGroups,
    host: &User,
    comment: Option<String>,
) -> (r: Revocation)
    requires
        old(store).wf(),
    ensures
        final(store).wf(),
        revoke_post(
            old(store),
            final(store),
            texts(remove_groups.group_names@),
            remove_groups.user,
            *host,
            remove_groups.force,
            remove_groups.notify,
            text_of(comment),
            r,
        ),
        old(store).role_invariant() ==> final(store).role_invariant(),
{
    let user = remove_groups.user;
    let address: Option<String> = if remove_groups.notify {
        match store.find_user(user.user_uuid) {
            Some(u) => Some(store.users[u].email.clone()),
            None => None,
        }
    } else {
        None
    };
    let ghost names = texts(remove_groups.group_names@);
    let ghost start = old(store).members();
    let mut outcomes: Vec<Result<(), PacksError>> = Vec::new();
    let mut calls: Vec<SyncCall> = Vec::new();
    let mut mails: Vec<Mail> = Vec::new();
    let mut i: usize = 0;
    assert(calls_view(calls@) =~= Seq::<SyncCallView>::empty());
    assert(mails_view(mails@) =~= Seq::<MailView>::empty());
    assert(log_view(store.logs@) =~= log_view(old(store).logs@) + Seq::<LogEntryView>::empty());
    while i < remove_groups.group_names.len()
        invariant
            store.wf(),
            old(store).wf(),
            i <= remove_groups.group_names.len(),
            user == remove_groups.user,
            names == texts(remove_groups.group_names@),
            start == old(store).members(),
            store.keeps_all_but_members_and_log(old(store)),
            old(store).role_invariant() ==> store.role_invariant(),
            text_of(address) == if remove_groups.notify && old(store).has_user(user.user_uuid) {
                Some(old(store).user(user.user_uuid).email@)
            } else {
                None
            },
            ({
                let model = revoke_model(
                    *old(store),
                    start,
                    names.take(i as int),
                    user.user_uuid,
                    host.user_uuid,
                    remove_groups.force,
                    remove_groups.notify,
                    text_of(comment),
                );
                &&& store.members() == model.members
                &&& outcomes@ == model.outcomes
                &&& calls_view(calls@) == model.calls
                &&& mails_view(mails@) == model.mails
                &&& log_view(store.logs@) == log_view(old(store).logs@) + model.logged
            }),
        decreases remove_groups.group_names.len() - i,
    {
        let name = &remove_groups.group_names[i];
        let ghost prior = revoke_model(
            *old(store),
            start,
            names.take(i as int),
            user.user_uuid,
            host.user_uuid,
            remove_groups.force,
            remove_groups.notify,
            text_of(comment),
        );
        proof {
            lemma_take_step(names, i as int);
            assert(names.take(i + 1).drop_last() =~= names.take(i as int));
            assert(names[i as int] == name@);
            assert(revoke_refusal(
                *store,
                store.members(),
                name@,
                user.user_uuid,
                host.user_uuid,
                remove_groups.force,
            ) == revoke_refusal(
                *old(store),
                prior.members,
                name@,
                user.user_uuid,
                host.user_uuid,
                remove_groups.force,
            ));
        }
        let ghost logs_before = store.logs@;
        match revoke_one(store, name.as_str(), &user, host, remove_groups.force, &address, &comment) {
            Ok(removal) => {
                proof {
                    let ctx = LogContext {
                        group_id: old(store).group_id(name@),
                        host_uuid: host.user_uuid,
                        user_uuid: Some(user.user_uuid),
                    };
                    lemma_log_appended(
                        logs_before,
                        store.logs@,
                        ctx,
                        LogTargetType::Membership,
                        LogOperationType::Deleted,
                        text_of(comment),
                    );
                    assert(log_view(store.logs@) =~= log_view(old(store).logs@) + prior.logged.push(
                        record(
                            ctx,
                            LogTargetType::Membership,
                            LogOperationType::Deleted,
                            text_of(comment),
                        ),
                    ));
                    lemma_map_push(calls@, removal.call, |c: SyncCall| c@);
                }
                calls.push(removal.call);
                match removal.mail {
                    Some(mail) => {
                        proof {
                            lemma_map_push(mails@, mail, |m: Mail| m@);
                        }
                        mails.push(mail);
                    },
                    None => {},
                }
                outcomes.push(Ok(()));
            },
            Err(e) => {
                outcomes.push(Err(e));
            },
        }
        i += 1;
    }
    proof {
        lemma_take_all(names);
    }
    Revocation { outcomes, calls, mails }
}

/// The memberships that a forced revocation of `user` from the groups
/// `names` takes away: those of the user in every named group that exists.
pub open spec fn forced_keys(store: Store, names: Seq<Seq<char>>, user: u128) -> Set<(i32, u128)> {
    Set::new(
        |k: (i32, u128)|
            k.1 == user && exists|j: int|
                0 <= j < names.len() && store.has_group(#[trigger] names[j]) && store.group_id(
                    names[j],
                ) == k.0,
    )
}

/// Whether two stores agree on their groups, roles and cached profiles.
pub open spec fn same_directory(a: Store, b: Store) -> bool {
    a.groups@ == b.groups@ && a.roles@ == b.roles@ && a.users@ == b.users@
}

/// A revocation depends on the store through its groups, roles and cached
/// profiles only.
pub proof fn lemma_revoke_directory(
    a: Store,
    b: Store,
    members: Map<(i32, u128), Membership>,
    names: Seq<Seq<char>>,
    user: u128,
    host: u128,
    force: bool,
    notify: bool,
    comment: Option<Seq<char>>,
)
    requires
        same_directory(a, b),
    ensures
        revoke_model(a, members, names, user, host, force, notify, comment) == revoke_model(
            b,
            members,
            names,
            user,
            host,
            force,
            notify,
            comment,
        ),
    decreases names.len(),
{
    if names.len() > 0 {
        lemma_revoke_directory(a, b, members, names.drop_last(), user, host, force, notify, comment);
        let prior = revoke_model(a, members, names.drop_last(), user, host, force, notify, comment);
        assert(revoke_refusal(a, prior.members, names.last(), user, host, force) == revoke_refusal(
            b,
            prior.members,
            names.last(),
            user,
            host,
            force,
        ));
    }
}

/// A forced revocation does not look at the memberships it starts from:
/// its outcomes, calls, messages and records are the same from any start,
/// and it takes away exactly the memberships of the user in the named groups
/// that exist.
pub proof fn lemma_forced_revoke(
    store: Store,
    m1: Map<(i32, u128), Membership>,
    m2: Map<(i32, u128), Membership>,
    names: Seq<Seq<char>>,
    user: u128,
    host: u128,
    notify: bool,
    comment: Option<Seq<char>>,
)
    ensures
        ({
            let a = revoke_model(store, m1, names, user, host, true, notify, comment);
            let b = revoke_model(store, m2, names, user, host, true, notify, comment);
            &&& a.outcomes == b.outcomes
            &&& a.calls == b.calls
            &&& a.mails == b.mails
            &&& a.logged == b.logged
            &&& a.members == m1.remove_keys(forced_keys(store, names, user))
        }),
    decreases names.len(),
{
    let a = revoke_model(store, m1, names, user, host, true, notify, comment);
    if names.len() == 0 {
        assert(a.members =~= m1.remove_keys(forced_keys(store, names, user)));
    } else {
        let rest = names.drop_last();
        lemma_forced_revoke(store, m1, m2, rest, user, host, notify, comment);
        let name = names.last();
        let gone = forced_keys(store, names, user);
        let before = forced_keys(store, rest, user);
        assert forall|k: (i32, u128)| gone.contains(k) <==> (before.contains(k) || (store.has_group(
            name,
        ) && k == (store.group_id(name), user))) by {
            if gone.contains(k) {
                let j = choose|j: int|
                    0 <= j < names.len() && store.has_group(#[trigger] names[j]) && store.group_id(
                        names[j],
                    ) == k.0;
                if j < rest.len() {
                    assert(rest[j] == names[j]);
                }
            }
            if before.contains(k) {
                let j = choose|j: int|
                    0 <= j < rest.len() && store.has_group(#[trigger] rest[j]) && store.group_id(
                        rest[j],
                    ) == k.0;
                assert(names[j] == rest[j]);
            }
            if store.has_group(name) && k == (store.group_id(name), user) {
                assert(names[names.len() - 1] == name);
            }
        }
        assert(a.members =~= m1.remove_keys(gone));
    }
}

/// Where a pair of user and group stands.
#[derive(Clone, Copy, Debug, PartialEq, Eq, Structural)]
pub enum MembershipState {
    /// The user holds no membership in the group.
    Absent,
    /// The user holds a membership that has not lapsed.
    Active,
    /// The user holds a membership that has lapsed and awaits the sweep.
    ExpiredPendingRemoval,
}

/// Where `user` stands in the group `group_id` at the time `now`.
pub open spec fn state_of(store: Store, group_id: i32, user: u128, now: Timestamp) -> MembershipState {
    if !store.is_member(group_id, user) {
        MembershipState::Absent
    } else if expired_by(store.members()[(group_id, user)], now) {
        MembershipState::ExpiredPendingRemoval
    } else {
        MembershipState::Active
    }
}

/// Where `user` stands in the group called `group_name` at the time `now`.
pub fn membership_state(store: &Store, group_name: &str, user: &User, now: Timestamp) -> (r: Result<
    MembershipState,
    PacksError,
>)
    requires
        store.wf(),
    ensures
        !store.has_group(group_name@) ==> r == Err::<MembershipState, PacksError>(
            PacksError::GroupNotFound,
        ),
        store.has_group(group_name@) ==> r == Ok::<MembershipState, PacksError>(
            state_of(*store, store.group_id(group_name@), user.user_uuid, now),
        ),
{
    let gi = match store.find_group(group_name) {
        Some(gi) => gi,
        None => {
            return Err(PacksError::GroupNotFound);
        },
    };
    match store.find_membership(store.groups[gi].id, user.user_uuid) {
        Some(i) => {
            if store.memberships[i].is_expired_by(now) {
                Ok(MembershipState::ExpiredPendingRemoval)
            } else {
                Ok(MembershipState::Active)
            }
        },
        None => Ok(MembershipState::Absent),
    }
}

/// What [`add_membership`] leaves behind and returns.
pub open spec fn add_membership_post(
    before: &Store,
    after: &Store,
    r: Result<SyncCall, PacksError>,
    group_name: Seq<char>,
    host: User,
    user: User,
    expiration: Option<i32>,
    now: Timestamp,
) -> bool {
    &&& add_to_group_post(
        before,
        after,
        match r {
            Ok(_) => Ok(()),
            Err(e) => Err(e),
        },
        group_name,
        host,
        user,
        expiration,
        now,
    )
    &&& r matches Ok(call) ==> call@ == (SyncCallView::AddGroup {
        user_uuid: user.user_uuid,
        group_name,
    })
}

/// Brings `user` into the group called `group_name` at the time `now`, or
/// confirms a membership that exists, and yields the call that adds the
/// group to the profile of the user.
pub fn add_membership(
    store: &mut Store,
    group_name: &str,
    host: &User,
    user: &User,
    expiration: Option<i32>,
    now: Timestamp,
) -> (r: Result<SyncCall, PacksError>)
    requires
        old(store).wf(),
    ensures
        final(store).wf(),
        add_membership_post(old(store), final(store), r, group_name@, *host, *user, expiration, now),
        old(store).role_invariant() ==> final(store).role_invariant(),
{
    match add_to_group_at(store, group_name, host, user, expiration, now) {
        Ok(()) => Ok(
            SyncCall::AddGroup { user_uuid: user.user_uuid, group_name: String::from_str(group_name) },
        ),
        Err(e) => Err(e),
    }
}

/// Takes `user` out of the group called `group_name` on behalf of `host`.
/// Unless `force` is set, the user must be a member and the host must be the
/// user or hold a curator or admin role in the group. The user is told if
/// `notify` is set and a profile of the user is cached.
pub fn remove_membership(
    store: &mut Store,
    group_name: &str,
    host: &User,
    user: &User,
    force: bool,
    notify: bool,
    comment: Option<String>,
) -> (r: Result<Removal, PacksError>)
    requires
        old(store).wf(),
    ensures
        final(store).wf(),
        revoke_one_post(
            old(store),
            final(store),
            group_name@,
            user.user_uuid,
            host.user_uuid,
            force,
            notice_address(*old(store), user.user_uuid, notify),
            text_of(comment),
            r,
        ),
        old(store).role_invariant() ==> final(store).role_invariant(),
{
    let address: Option<String> = if notify {
        match store.find_user(user.user_uuid) {
            Some(u) => Some(store.users[u].email.clone()),
            None => None,
        }
    } else {
        None
    };
    revoke_one(store, group_name, user, host, force, &address, &comment)
}

/// Takes `user` out of the group called `group_name` on the word of an
/// administrator: by force, and without telling the user.
pub fn remove_silent(store: &mut Store, group_name: &str, host: &User, user: &User) -> (r: Result<
    Removal,
    PacksError,
>)
    requires
        old(store).wf(),
    ensures
        final(store).wf(),
        revoke_one_post(
            old(store),
            final(store),
            group_name@,
            user.user_uuid,
            host.user_uuid,
            true,
            None,
            None,
            r,
        ),
        old(store).role_invariant() ==> final(store).role_invariant(),
{
    remove_membership(store, group_name, host, user, true, false, None)
}

/// What [`renew_membership`] leaves behind and returns.
pub open spec fn renew_membership_post(
    before: &Store,
    after: &Store,
    r: Result<(), PacksError>,
    group_name: Seq<char>,
    host: User,
    user: User,
    expiration: Option<i32>,
    now: Timestamp,
) -> bool {
    &&& !before.has_group(group_name) ==> r == Err::<(), PacksError>(PacksError::GroupNotFound)
    &&& before.has_group(group_name) && !before.is_member(
        before.group_id(group_name),
        user.user_uuid,
    ) ==> r == Err::<(), PacksError>(PacksError::MembershipNotFound)
    &&& before.has_group(group_name) && before.is_member(
        before.group_id(group_name),
        user.user_uuid,
    ) ==> r is Ok
    &&& r is Err ==> *after == *before
    &&& r is Ok ==> renew_post(before, after, r, host.user_uuid, group_name, user, expiration, now)
}

/// Gives the membership of `user` in the group called `group_name` a new
/// expiration, counted from `now`, or lifts the expiration. The user must be
/// a member.
pub fn renew_membership(
    store: &mut Store,
    group_name: &str,
    host: &User,
    user: &User,
    expiration: Option<i32>,
    now: Timestamp,
) -> (r: Result<(), PacksError>)
    requires
        old(store).wf(),
    ensures
        final(store).wf(),
        renew_membership_post(old(store), final(store), r, group_name@, *host, *user, expiration, now),
        old(store).role_invariant() ==> final(store).role_invariant(),
{
    let gi = match store.find_group(group_name) {
        Some(gi) => gi,
        None => {
            return Err(PacksError::GroupNotFound);
        },
    };
    if store.find_membership(store.groups[gi].id, user.user_uuid).is_none() {
        return Err(PacksError::MembershipNotFound);
    }
    renew_at(host.user_uuid, store, group_name, user, expiration, now)
}

/// The calls that follow from a transfer, in the order in which they are
/// made: the group leaves the profile of the old holder, and enters that of
/// the new one.
#[derive(Debug, PartialEq, Eq)]
pub struct TransferPlan {
    pub remove: SyncCall,
    pub add: SyncCall,
}

/// What [`transfer`] leaves behind and returns.
pub open spec fn transfer_post(
    before: &Store,
    after: &Store,
    r: Result<TransferPlan, PacksError>,
    group_name: Seq<char>,
    host: User,
    old_user: User,
    new_user: User,
) -> bool {
    let group_id = before.group_id(group_name);
    let from = (group_id, old_user.user_uuid);
    let to = (group_id, new_user.user_uuid);
    &&& !before.has_group(group_name) ==> failed_with(r, PacksError::GroupNotFound)
    &&& before.has_group(group_name) && !before.members().contains_key(from) ==> failed_with(
        r,
        PacksError::MembershipNotFound,
    )
    &&& before.has_group(group_name) && before.members().contains_key(from) && old_user == new_user
        ==> failed_with(r, PacksError::NotAllowed)
    &&& before.has_group(group_name) && before.members().contains_key(from) && old_user != new_user
        ==> r is Ok
    &&& r is Err ==> *after == *before
    &&& r matches Ok(plan) ==> {
        &&& after.members() == before.members().remove(from).insert(
            to,
            Membership { user_uuid: new_user.user_uuid, ..before.members()[from] },
        )
        &&& after.keeps_all_but_members_and_log(before)
        &&& log_appended(
            before.logs@,
            after.logs@,
            LogContext {
                group_id,
                host_uuid: host.user_uuid,
                user_uuid: Some(new_user.user_uuid),
            },
            LogTargetType::Membership,
            LogOperationType::Updated,
            Some("transferred"@),
        )
        &&& plan.remove@ == (SyncCallView::RemoveGroup {
            user_uuid: old_user.user_uuid,
            group_name,
        })
        &&& plan.add@ == (SyncCallView::AddGroup { user_uuid: new_user.user_uuid, group_name })
    }
}

/// Hands the membership of `old_user` in the group called `group_name` over
/// to `new_user`, in one step: afterwards the old holder has no membership
/// in the group, and the new holder has the one the old holder had, with its
/// role, its expiration and its provenance. A membership that the new holder
/// had before gives way to it.
pub fn transfer(
    store: &mut Store,
    group_name: &str,
    host: &User,
    old_user: &User,
    new_user: &User,
) -> (r: Result<TransferPlan, PacksError>)
    requires
        old(store).wf(),
    ensures
        final(store).wf(),
        transfer_post(old(store), final(store), r, group_name@, *host, *old_user, *new_user),
        old(store).role_invariant() ==> final(store).role_invariant(),
{
    let gi = match store.find_group(group_name) {
        Some(gi) => gi,
        None => {
            return Err(PacksError::GroupNotFound);
        },
    };
    let group_id: i32 = store.groups[gi].id;
    let held = match store.find_membership(group_id, old_user.user_uuid) {
        Some(i) => store.memberships[i],
        None => {
            return Err(PacksError::MembershipNotFound);
        },
    };
    if old_user.user_uuid == new_user.user_uuid {
        return Err(PacksError::NotAllowed);
    }
    let ghost start = store.members();
    proof {
        let i = choose|i: int| 0 <= i < store.memberships@.len() && store.memberships@[i] == held;
        let k = choose|k: int| role_id_at(store.roles@, held.role_id, held.group_id, k);
        assert(role_id_at(store.roles@, held.role_id, held.group_id, k));
    }
    match store.find_membership(group_id, new_user.user_uuid) {
        Some(j) => {
            proof {
                lemma_member_map_remove(store.memberships@, j as int);
                lemma_rows_keep_roles(store.memberships@, store.roles@, j as int);
            }
            store.memberships.remove(j);
        },
        None => {
            assert(store.members().remove((group_id, new_user.user_uuid)) =~= store.members());
        },
    }
    match store.find_membership(group_id, old_user.user_uuid) {
        Some(i) => {
            proof {
                lemma_member_map_remove(store.memberships@, i as int);
                lemma_rows_keep_roles(store.memberships@, store.roles@, i as int);
            }
            store.memberships.remove(i);
        },
        None => {},
    }
    let row = Membership {
        user_uuid: new_user.user_uuid,
        group_id: held.group_id,
        role_id: held.role_id,
        expiration: held.expiration,
        added_by: held.added_by,
        added_ts: held.added_ts,
    };
    proof {
        lemma_member_map_push(store.memberships@, row);
        let before = store.memberships@;
        let after = before.push(row);
        assert forall|a: int| 0 <= a < after.len() implies exists|k: int|
            role_id_at(store.roles@, (#[trigger] after[a]).role_id, after[a].group_id, k) by {
            if a < before.len() {
                assert(after[a] == before[a]);
                let k = choose|k: int|
                    role_id_at(store.roles@, before[a].role_id, before[a].group_id, k);
                assert(role_id_at(store.roles@, after[a].role_id, after[a].group_id, k));
            } else {
                let k = choose|k: int| role_id_at(store.roles@, held.role_id, held.group_id, k);
                assert(role_id_at(store.roles@, after[a].role_id, after[a].group_id, k));
            }
        }
        assert(start.remove((group_id, new_user.user_uuid)).remove(
            (group_id, old_user.user_uuid),
        ).insert((group_id, new_user.user_uuid), row) =~= start.remove(
            (group_id, old_user.user_uuid),
        ).insert((group_id, new_user.user_uuid), row));
    }
    store.memberships.push(row);
    let log_ctx = LogContext::with(group_id, host.user_uuid).with_user(new_user.user_uuid);
    store.db_log(
        &log_ctx,
        LogTargetType::Membership,
        LogOperationType::Updated,
        crate::model::log_comment_body("transferred"),
    );
    Ok(
        TransferPlan {
            remove: SyncCall::RemoveGroup {
                user_uuid: old_user.user_uuid,
                group_name: String::from_str(group_name),
            },
            add: SyncCall::AddGroup {
                user_uuid: new_user.user_uuid,
                group_name: String::from_str(group_name),
            },
        },
    )
}

/// Deleting a membership leaves every other membership with its role.
pub proof fn lemma_rows_keep_roles(rows: Seq<Membership>, roles: Seq<crate::model::Role>, i: int)
    requires
        0 <= i < rows.len(),
        forall|a: int|
            0 <= a < rows.len() ==> exists|k: int|
                role_id_at(roles, (#[trigger] rows[a]).role_id, rows[a].group_id, k),
    ensures
        ({
            let after = rows.remove(i);
            forall|a: int|
                0 <= a < after.len() ==> exists|k: int|
                    role_id_at(roles, (#[trigger] after[a]).role_id, after[a].group_id, k)
        }),
{
    let after = rows.remove(i);
    assert forall|a: int| 0 <= a < after.len() implies exists|k: int|
        role_id_at(roles, (#[trigger] after[a]).role_id, after[a].group_id, k) by {
        let b = if a < i { a } else { a + 1 };
        assert(after[a] == rows[b]);
        let k = choose|k: int| role_id_at(roles, rows[b].role_id, rows[b].group_id, k);
        assert(role_id_at(roles, after[a].role_id, after[a].group_id, k));
    }
}

/// How far the calls of a transfer have come.
#[derive(Clone, Copy, Debug, PartialEq, Eq, Structural)]
pub enum TransferProgress {
    /// The group is yet to leave the profile of the old holder.
    RemovePending,
    /// The group left the profile of the old holder and is yet to enter that
    /// of the new one.
    AddPending,
    /// Both profiles are up to date.
    Done,
    /// A call failed; no further call is made.
    Failed(PacksError),
}

impl TransferProgress {
    /// Where the calls stand after the pending call ended well (`ok`) or
    /// failed. A failure of the first call is an error of the identity
    /// service; a failure of the second leaves the subject without the group
    /// in either profile, and is reported as an incomplete transfer.
    pub open spec fn after(self, ok: bool) -> TransferProgress {
        match self {
            TransferProgress::RemovePending => if ok {
                TransferProgress::AddPending
            } else {
                TransferProgress::Failed(PacksError::SyncError)
            },
            TransferProgress::AddPending => if ok {
                TransferProgress::Done
            } else {
                TransferProgress::Failed(PacksError::TransferIncomplete)
            },
            other => other,
        }
    }

    /// The progress of a transfer whose calls are yet to be made.
    pub fn start() -> (r: TransferProgress)
        ensures
            r == TransferProgress::RemovePending,
    {
        TransferProgress::RemovePending
    }

    /// Takes in the result of the pending call.
    pub fn step(self, ok: bool) -> (r: TransferProgress)
        ensures
            r == self.after(ok),
    {
        match self {
            TransferProgress::RemovePending => if ok {
                TransferProgress::AddPending
            } else {
                TransferProgress::Failed(PacksError::SyncError)
            },
            TransferProgress::AddPending => if ok {
                TransferProgress::Done
            } else {
                TransferProgress::Failed(PacksError::TransferIncomplete)
            },
            other => other,
        }
    }

    /// The call to make next, if any is left.
    pub fn pending<'a>(&self, plan: &'a TransferPlan) -> (r: Option<&'a SyncCall>)
        ensures
            *self == TransferProgress::RemovePending ==> r == Some(&plan.remove),
            *self == TransferProgress::AddPending ==> r == Some(&plan.add),
            (*self == TransferProgress::Done || *self is Failed) ==> r is None,
    {
        match self {
            TransferProgress::RemovePending => Some(&plan.remove),
            TransferProgress::AddPending => Some(&plan.add),
            _ => None,
        }
    }

    /// What the caller of the transfer is told once no call is left.
    pub fn outcome(&self) -> (r: Option<Result<(), PacksError>>)
        ensures
            *self == TransferProgress::Done ==> r == Some(Ok::<(), PacksError>(())),
            *self matches TransferProgress::Failed(e) ==> r == Some(Err::<(), PacksError>(e)),
            (*self == TransferProgress::RemovePending || *self == TransferProgress::AddPending)
                ==> r is None,
    {
        match self {
            TransferProgress::Done => Some(Ok(())),
            TransferProgress::Failed(e) => Some(Err(*e)),
            _ => None,
        }
    }
}

/// What the caller of an operation is told once its one call to the
/// identity service ended well (`ok`) or failed. The change to the store
/// stands either way.
pub fn conclude_sync(ok: bool) -> (r: Result<(), PacksError>)
    ensures
        ok ==> r == Ok::<(), PacksError>(()),
        !ok ==> r == Err::<(), PacksError>(PacksError::SyncError),
{
    if ok {
        Ok(())
    } else {
        Err(PacksError::SyncError)
    }
}

} // verus!
