//! Taking over groups, their curators and their members from an earlier
//! directory of groups.
//!
//! The records name their users by login id. A login id is resolved against
//! the cached profiles first and against what the identity service answered
//! second; the answers of the identity service are handed in with the
//! records. A record that cannot be imported is reported in its place and
//! does not hold up the others.

use vstd::prelude::*;
use crate::clock::{expiration_instant, utc_now, whole_days, Timestamp};
use crate::error::{failed_with, PacksError};
use crate::group::{
    create_group, created_with_roles, group_replaced, set_created, set_terms,
    update_invitation_text,
};
use crate::lifecycle::{calls_view, SyncCall, SyncCallView};
use crate::member::{add_admin, add_to_group_at, set_joined, upserted_in};
use crate::model::{Group, Membership, UserProfile};
use crate::sequences::{lemma_map_push, lemma_take_all, lemma_take_step};
use crate::user::{first_user_id_at, user_id_at, user_profile_by_user_id};
use crate::model::{log_view, LogContext, LogEntryView, NewGroup};
use crate::store::{lemma_log_appended, record, Store};
use crate::types::{
    GroupType, LogOperationType, LogTargetType, RoleType, TrustType, User, SYSTEM_UUID,
};

verus! {

/// The least number of days that an imported membership is given.
pub const EXPIRATION_BUFFER: i32 = 60;

/// The days that are left of a membership of `member_expiration` days that
/// was last confirmed at `updated`, as seen at `now`.
pub open spec fn days_left(member_expiration: i32, updated: Timestamp, now: Timestamp) -> int {
    member_expiration - whole_days(now.micros - updated.micros)
}

/// The expiration in days that an imported membership gets: none where the
/// earlier directory set none, else the days that are left, but no fewer
/// than [`EXPIRATION_BUFFER`] and no more than an `i32` holds.
pub open spec fn imported_expiration(
    member_expiration: i32,
    updated: Timestamp,
    now: Timestamp,
) -> Option<i32> {
    if member_expiration > 0 {
        let left = days_left(member_expiration, updated, now);
        if left > EXPIRATION_BUFFER {
            if left > i32::MAX {
                Some(i32::MAX)
            } else {
                Some(left as i32)
            }
        } else {
            Some(EXPIRATION_BUFFER)
        }
    } else {
        None
    }
}

/// The expiration in days of a membership imported at `now`.
pub fn calc_expiration_at(member_expiration: i32, updated: Timestamp, now: Timestamp) -> (r: Option<
    i32,
>)
    ensures
        r == imported_expiration(member_expiration, updated, now),
{
    if member_expiration > 0 {
        let passed: i64 = now.days_since(updated);
        assert(-300_000_000 < passed < 300_000_000);
        let left: i64 = member_expiration as i64 - passed;
        if left > EXPIRATION_BUFFER as i64 {
            if left > i32::MAX as i64 {
                Some(i32::MAX)
            } else {
                Some(left as i32)
            }
        } else {
            Some(EXPIRATION_BUFFER)
        }
    } else {
        None
    }
}

/// The expiration in days of a membership imported now.
pub fn calc_expiration(member_expiration: i32, updated: Timestamp) -> (r: Option<i32>)
    ensures
        exists|now: Timestamp| r == imported_expiration(member_expiration, updated, now),
        member_expiration <= 0 <==> r is None,
        r matches Some(days) ==> days >= EXPIRATION_BUFFER,
{
    let now = utc_now();
    calc_expiration_at(member_expiration, updated, now)
}

/// A group as the earlier directory describes it.
#[derive(Debug, PartialEq, Eq)]
pub struct MozilliansGroup {
    pub name: String,
    pub typ: String,
    pub description: String,
    pub website: String,
    pub wiki: String,
    pub terms: String,
    pub invitation_email: String,
    pub expiration: i32,
}

/// A membership as the earlier directory describes it.
#[derive(Debug, PartialEq, Eq)]
pub struct MozilliansGroupMembership {
    pub auth0_user_id: String,
    pub expiration: i32,
    pub updated_on: Timestamp,
    pub date_joined: Timestamp,
    pub host: String,
}

/// A curator as the earlier directory describes them.
#[derive(Debug, PartialEq, Eq)]
pub struct MozilliansGroupCurator {
    pub auth0_user_id: String,
}

/// All that the earlier directory holds of one group.
#[derive(Debug, PartialEq, Eq)]
pub struct GroupImport {
    pub group: MozilliansGroup,
    pub memberships: Vec<MozilliansGroupMembership>,
    pub curators: Vec<MozilliansGroupCurator>,
}

/// A paragraph that links to `url` under the heading `label`.
pub open spec fn link_paragraph(label: Seq<char>, url: Seq<char>) -> Seq<char> {
    "\n\n**"@ + label + ":** ["@ + url + "]("@ + url + ")"@
}

/// The description of an imported group: the description on record,
/// followed by a link to the website and a link to the wiki where the record
/// has them. Where both are the same address, the link is given once, as the
/// website.
pub open spec fn imported_description(
    description: Seq<char>,
    website: Seq<char>,
    wiki: Seq<char>,
) -> Seq<char> {
    if website.len() == 0 && wiki.len() == 0 {
        description
    } else if wiki.len() == 0 {
        description + link_paragraph("Website"@, website)
    } else if website.len() == 0 {
        description + link_paragraph("Wiki"@, wiki)
    } else if website == wiki {
        description + link_paragraph("Website"@, website)
    } else {
        description + link_paragraph("Website"@, website) + link_paragraph("Wiki"@, wiki)
    }
}

/// Appends to `text` a paragraph that links to `url` under the heading
/// `label`.
fn append_link(text: &mut String, label: &str, url: &String)
    ensures
        final(text)@ == old(text)@ + link_paragraph(label@, url@),
{
    text.append("\n\n**");
    text.append(label);
    text.append(":** [");
    text.append(url.as_str());
    text.append("](");
    text.append(url.as_str());
    text.append(")");
    assert(text@ =~= old(text)@ + link_paragraph(label@, url@));
}

/// The description under which `group` is imported.
pub fn import_description(group: &MozilliansGroup) -> (r: String)
    ensures
        r@ == imported_description(group.description@, group.website@, group.wiki@),
{
    let mut text = group.description.clone();
    let no_website = group.website.as_str().is_empty();
    let no_wiki = group.wiki.as_str().is_empty();
    if no_website && no_wiki {
    } else if no_wiki {
        append_link(&mut text, "Website", &group.website);
    } else if no_website {
        append_link(&mut text, "Wiki", &group.wiki);
    } else if group.website == group.wiki {
        append_link(&mut text, "Website", &group.website);
    } else {
        append_link(&mut text, "Website", &group.website);
        append_link(&mut text, "Wiki", &group.wiki);
    }
    text
}

/// The type under which a group of the earlier type `typ` is imported:
/// reviewed where joining was by request, else closed.
pub open spec fn imported_type(typ: Seq<char>) -> GroupType {
    if typ == "by_request"@ {
        GroupType::Reviewed
    } else {
        GroupType::Closed
    }
}

/// The records that the import of a group writes, in their order. The
/// system is the actor of all of them.
pub open spec fn import_group_logged(
    group_id: i32,
    terms: Seq<char>,
    invitation_email: Seq<char>,
) -> Seq<LogEntryView> {
    let ctx = LogContext { group_id, host_uuid: SYSTEM_UUID, user_uuid: None };
    let base = seq![
        record(ctx, LogTargetType::Group, LogOperationType::Created, None),
        record(ctx, LogTargetType::Role, LogOperationType::Created, Some("admin"@)),
        record(ctx, LogTargetType::Role, LogOperationType::Created, Some("member"@)),
    ];
    let with_terms = if terms.len() > 0 {
        base.push(record(ctx, LogTargetType::Terms, LogOperationType::Created, None))
    } else {
        base
    };
    if invitation_email.len() > 0 {
        with_terms.push(record(ctx, LogTargetType::Invitation, LogOperationType::Updated, None))
    } else {
        with_terms
    }
}

/// What [`import_group`] leaves behind and returns.
pub open spec fn import_group_post(
    before: &Store,
    after: &Store,
    r: Result<(), PacksError>,
    moz_group: MozilliansGroup,
    now: Timestamp,
) -> bool {
    let taken = before.has_group(moz_group.name@);
    let full = before.next_group_id == i32::MAX || before.next_role_id >= i32::MAX - 1;
    &&& taken ==> r == Err::<(), PacksError>(PacksError::GroupNameTaken)
    &&& !taken && full ==> r == Err::<(), PacksError>(PacksError::StorageError)
    &&& !taken && !full ==> r is Ok
    &&& r is Err ==> *after == *before
    &&& r is Ok ==> {
        let group = after.groups@.last();
        &&& created_with_roles(before, after)
        &&& group.name@ == moz_group.name@
        &&& group.typ == imported_type(moz_group.typ@)
        &&& group.trust == TrustType::Ndaed
        &&& group.description@ == imported_description(
            moz_group.description@,
            moz_group.website@,
            moz_group.wiki@,
        )
        &&& group.group_expiration == Some(moz_group.expiration)
        &&& group.created == now
        &&& group.terms@ == moz_group.terms@
        &&& group.invitation_email@ == moz_group.invitation_email@
        &&& log_view(after.logs@) == log_view(before.logs@) + import_group_logged(
            group.id,
            moz_group.terms@,
            moz_group.invitation_email@,
        )
    }
}

/// Creates the group that `moz_group` describes, with its admin role and
/// its member role, its terms and its invitation text, with `now` as the
/// time of creation. The group is created whole or not at all.
pub fn import_group(store: &mut Store, moz_group: MozilliansGroup, now: Timestamp) -> (r: Result<
    (),
    PacksError,
>)
    requires
        old(store).wf(),
    ensures
        final(store).wf(),
        import_group_post(old(store), final(store), r, moz_group, now),
        old(store).role_invariant() ==> final(store).role_invariant(),
{
    let description = import_description(&moz_group);
    let by_request = String::from_str("by_request");
    let typ = if moz_group.typ == by_request {
        GroupType::Reviewed
    } else {
        GroupType::Closed
    };
    let group_name = moz_group.name.clone();
    let new_group = NewGroup {
        name: moz_group.name,
        typ,
        description,
        trust: TrustType::Ndaed,
        group_expiration: Some(moz_group.expiration),
    };
    let creator = User::default();
    let group_id: i32 = match create_group(creator.user_uuid, store, new_group, now) {
        Ok(group) => group.id,
        Err(e) => {
            return Err(e);
        },
    };
    let ghost s1 = *store;
    let ghost log_ctx = LogContext { group_id, host_uuid: SYSTEM_UUID, user_uuid: None };
    let ghost at = old(store).groups@.len() as int;
    proof {
        assert(s1.groups@[at] == s1.groups@.last());
        assert(crate::store::group_at(s1.groups@, group_name@, at));
        crate::store::lemma_group_pos(s1.groups@, s1.next_group_id, group_name@, at);
    }
    if !moz_group.terms.as_str().is_empty() {
        match set_terms(creator.user_uuid, store, group_name.as_str(), moz_group.terms) {
            Ok(()) => {},
            Err(e) => {
                return Err(e);
            },
        }
        proof {
            lemma_log_appended(
                s1.logs@,
                store.logs@,
                log_ctx,
                LogTargetType::Terms,
                LogOperationType::Created,
                None,
            );
        }
    }
    let ghost s2 = *store;
    proof {
        assert(s2.groups@[at].name@ == group_name@);
        assert(crate::store::group_at(s2.groups@, group_name@, at));
        crate::store::lemma_group_pos(s2.groups@, s2.next_group_id, group_name@, at);
    }
    if !moz_group.invitation_email.as_str().is_empty() {
        match update_invitation_text(store, group_name.as_str(), &creator, moz_group.invitation_email) {
            Ok(()) => {},
            Err(e) => {
                return Err(e);
            },
        }
        proof {
            lemma_log_appended(
                s2.logs@,
                store.logs@,
                log_ctx,
                LogTargetType::Invitation,
                LogOperationType::Updated,
                None,
            );
        }
    }
    proof {
        assert(store.groups@.drop_last() =~= old(store).groups@);
        assert(store.groups@.last() == store.groups@[at]);
        assert(store.groups@.last().terms@ =~= moz_group.terms@);
        assert(store.groups@.last().invitation_email@ =~= moz_group.invitation_email@);
        assert(log_view(store.logs@) =~= log_view(old(store).logs@) + import_group_logged(
            group_id,
            moz_group.terms@,
            moz_group.invitation_email@,
        ));
    }
    Ok(())
}

/// What the identity service answered when it was asked for the profile of
/// the login id `user_id`.
#[derive(Debug, PartialEq, Eq)]
pub struct RemoteAnswer {
    pub user_id: String,
    pub profile: Result<UserProfile, PacksError>,
}

/// Whether entry `i` of `answers` is an answer for the login id `user_id`.
pub open spec fn answer_at(answers: Seq<RemoteAnswer>, user_id: Seq<char>, i: int) -> bool {
    0 <= i < answers.len() && answers[i].user_id@ == user_id
}

/// Whether entry `i` of `answers` is the first answer for the login id
/// `user_id`.
pub open spec fn first_answer_at(answers: Seq<RemoteAnswer>, user_id: Seq<char>, i: int) -> bool {
    answer_at(answers, user_id, i) && forall|j: int| 0 <= j < i ==> !answer_at(answers, user_id, j)
}

/// The profile that the login id `user_id` resolves to: the first cached
/// profile with that id; else what the identity service answered first for
/// it; else none.
pub open spec fn resolved(store: Store, answers: Seq<RemoteAnswer>, user_id: Seq<char>) -> Result<
    UserProfile,
    PacksError,
> {
    if exists|i: int| user_id_at(store.users@, user_id, i) {
        Ok(store.users@[choose|i: int| first_user_id_at(store.users@, user_id, i)])
    } else if exists|i: int| answer_at(answers, user_id, i) {
        answers[choose|i: int| first_answer_at(answers, user_id, i)].profile
    } else {
        Err(PacksError::UserNotFound)
    }
}

/// Resolves the login id `user_id` to a profile.
pub fn get_user_profile(store: &Store, user_id: &str, answers: &Vec<RemoteAnswer>) -> (r: Result<
    UserProfile,
    PacksError,
>)
    ensures
        r == resolved(*store, answers@, user_id@),
{
    match user_profile_by_user_id(store, user_id) {
        Ok(profile) => {
            proof {
                let i = choose|i: int|
                    first_user_id_at(store.users@, user_id@, i) && profile == store.users@[i];
                let j = choose|j: int| first_user_id_at(store.users@, user_id@, j);
                assert(first_user_id_at(store.users@, user_id@, j));
                assert(i == j) by {
                    if i < j {
                        assert(!user_id_at(store.users@, user_id@, i));
                    } else if j < i {
                        assert(!user_id_at(store.users@, user_id@, j));
                    }
                }
            }
            return Ok(profile);
        },
        Err(_) => {},
    }
    let key = String::from_str(user_id);
    let mut i: usize = 0;
    while i < answers.len()
        invariant
            i <= answers.len(),
            key@ == user_id@,
            !exists|a: int| user_id_at(store.users@, user_id@, a),
            forall|j: int| 0 <= j < i ==> !answer_at(answers@, user_id@, j),
        decreases answers.len() - i,
    {
        if answers[i].user_id == key {
            proof {
                assert(first_answer_at(answers@, user_id@, i as int));
                let j = choose|j: int| first_answer_at(answers@, user_id@, j);
                assert(i == j) by {
                    if i < j {
                        assert(!answer_at(answers@, user_id@, i as int));
                    } else if j < i {
                        assert(!answer_at(answers@, user_id@, j));
                    }
                }
            }
            return match &answers[i].profile {
                Ok(profile) => Ok(profile.clone()),
                Err(e) => Err(*e),
            };
        }
        i += 1;
    }
    Err(PacksError::UserNotFound)
}

/// What the import of one record comes to: the memberships afterwards, the
/// result, and the records written.
pub struct ImportOutcome {
    pub members: Map<(i32, u128), Membership>,
    pub result: Result<Option<SyncCallView>, PacksError>,
    pub logged: Seq<LogEntryView>,
}

/// The outcome of an import that fails with `e`: nothing changes.
pub open spec fn import_refused(members: Map<(i32, u128), Membership>, e: PacksError) -> ImportOutcome {
    ImportOutcome { members, result: Err(e), logged: Seq::empty() }
}

/// The import of the membership `member` into the group called
/// `group_name`, on top of the memberships `members`. A user who is a member
/// already keeps the membership and gets the time of joining on record. Any
/// other user is added by the host on record, or by the system where the
/// record names none, with the expiration that is left of the one on record,
/// and the group is to enter the profile of the user.
pub open spec fn import_member_model(
    store: Store,
    members: Map<(i32, u128), Membership>,
    group_name: Seq<char>,
    member: MozilliansGroupMembership,
    answers: Seq<RemoteAnswer>,
    now: Timestamp,
) -> ImportOutcome {
    if !store.has_group(group_name) {
        import_refused(members, PacksError::GroupNotFound)
    } else {
        let group_id = store.group_id(group_name);
        match resolved(store, answers, member.auth0_user_id@) {
            Err(e) => import_refused(members, e),
            Ok(profile) => {
                let key = (group_id, profile.user_uuid);
                if members.contains_key(key) {
                    ImportOutcome {
                        members: members.insert(
                            key,
                            Membership { added_ts: member.date_joined, ..members[key] },
                        ),
                        result: Ok(None),
                        logged: Seq::empty(),
                    }
                } else {
                    let host = if member.host@.len() == 0 {
                        Ok(SYSTEM_UUID)
                    } else {
                        match resolved(store, answers, member.host@) {
                            Ok(h) => Ok(h.user_uuid),
                            Err(e) => Err(e),
                        }
                    };
                    match host {
                        Err(e) => import_refused(members, e),
                        Ok(host_uuid) => if !store.has_role(group_id, RoleType::Member) {
                            import_refused(members, PacksError::RoleNotFound)
                        } else {
                            ImportOutcome {
                                members: members.insert(
                                    key,
                                    Membership {
                                        user_uuid: profile.user_uuid,
                                        group_id,
                                        role_id: store.role(group_id, RoleType::Member).id,
                                        expiration: expiration_instant(
                                            imported_expiration(
                                                member.expiration,
                                                member.updated_on,
                                                now,
                                            ),
                                            now,
                                        ),
                                        added_by: host_uuid,
                                        added_ts: member.date_joined,
                                    },
                                ),
                                result: Ok(
                                    Some(
                                        SyncCallView::AddGroup {
                                            user_uuid: profile.user_uuid,
                                            group_name,
                                        },
                                    ),
                                ),
                                logged: seq![
                                    record(
                                        LogContext {
                                            group_id,
                                            host_uuid,
                                            user_uuid: Some(profile.user_uuid),
                                        },
                                        LogTargetType::Membership,
                                        LogOperationType::Created,
                                        Some("added"@),
                                    ),
                                ],
                            }
                        },
                    }
                }
            },
        }
    }
}

/// The mathematical content of the result of an import.
pub open spec fn import_result_view(r: Result<Option<SyncCall>, PacksError>) -> Result<
    Option<SyncCallView>,
    PacksError,
> {
    match r {
        Ok(Some(call)) => Ok(Some(call@)),
        Ok(None) => Ok(None),
        Err(e) => Err(e),
    }
}

/// Whether the store went from `before` to `after` as `outcome` says, with
/// the result `r`.
pub open spec fn import_step_post(
    before: &Store,
    after: &Store,
    r: Result<Option<SyncCall>, PacksError>,
    outcome: ImportOutcome,
) -> bool {
    &&& after.members() == outcome.members
    &&& import_result_view(r) == outcome.result
    &&& log_view(after.logs@) == log_view(before.logs@) + outcome.logged
    &&& after.keeps_all_but_members_and_log(before)
    &&& r is Err ==> *after == *before
}

/// Imports the membership `member` into the group called `group_name` at
/// the time `now`.
pub fn import_member(
    store: &mut Store,
    group_name: &str,
    member: &MozilliansGroupMembership,
    answers: &Vec<RemoteAnswer>,
    now: Timestamp,
) -> (r: Result<Option<SyncCall>, PacksError>)
    requires
        old(store).wf(),
    ensures
        final(store).wf(),
        import_step_post(
            old(store),
            final(store),
            r,
            import_member_model(
                *old(store),
                old(store).members(),
                group_name@,
                *member,
                answers@,
                now,
            ),
        ),
        old(store).role_invariant() ==> final(store).role_invariant(),
{
    let gi = match store.find_group(group_name) {
        Some(gi) => gi,
        None => {
            assert(log_view(store.logs@) + Seq::<LogEntryView>::empty() =~= log_view(store.logs@));
            return Err(PacksError::GroupNotFound);
        },
    };
    let group_id: i32 = store.groups[gi].id;
    let expiration = calc_expiration_at(member.expiration, member.updated_on, now);
    proof {
        assert(log_view(store.logs@) + Seq::<LogEntryView>::empty() =~= log_view(store.logs@));
    }
    let user = match get_user_profile(store, member.auth0_user_id.as_str(), answers) {
        Ok(profile) => profile.user(),
        Err(e) => {
            return Err(e);
        },
    };
    if store.find_membership(group_id, user.user_uuid).is_some() {
        set_joined(store, group_id, user.user_uuid, member.date_joined);
        assert(log_view(store.logs@) + Seq::<LogEntryView>::empty() =~= log_view(store.logs@));
        return Ok(None);
    }
    let host = if member.host.as_str().is_empty() {
        User::default()
    } else {
        match get_user_profile(store, member.host.as_str(), answers) {
            Ok(profile) => profile.user(),
            Err(e) => {
                return Err(e);
            },
        }
    };
    match add_to_group_at(store, group_name, &host, &user, expiration, now) {
        Ok(()) => {},
        Err(e) => {
            return Err(e);
        },
    }
    let ghost added = *store;
    proof {
        lemma_log_appended(
            old(store).logs@,
            added.logs@,
            LogContext { group_id, host_uuid: host.user_uuid, user_uuid: Some(user.user_uuid) },
            LogTargetType::Membership,
            LogOperationType::Created,
            Some("added"@),
        );
    }
    set_joined(store, group_id, user.user_uuid, member.date_joined);
    proof {
        let key = (group_id, user.user_uuid);
        let first = upserted_in(
            old(store).members(),
            group_id,
            old(store).role(group_id, RoleType::Member).id,
            host,
            user,
            expiration,
            now,
        );
        assert(old(store).members().insert(key, first).insert(
            key,
            Membership { added_ts: member.date_joined, ..first },
        ) =~= old(store).members().insert(key, Membership { added_ts: member.date_joined, ..first }));
        assert(log_view(store.logs@) =~= log_view(old(store).logs@) + seq![
            record(
                LogContext { group_id, host_uuid: host.user_uuid, user_uuid: Some(user.user_uuid) },
                LogTargetType::Membership,
                LogOperationType::Created,
                Some("added"@),
            ),
        ]);
    }
    Ok(Some(SyncCall::AddGroup { user_uuid: user.user_uuid, group_name: String::from_str(group_name) }))
}

/// The import of the curator `curator` into the group called `group_name`,
/// on top of the memberships `members`: the user becomes an admin of the
/// group, added by the system, and the group is to enter the profile of the
/// user.
pub open spec fn import_curator_model(
    store: Store,
    members: Map<(i32, u128), Membership>,
    group_name: Seq<char>,
    curator: MozilliansGroupCurator,
    answers: Seq<RemoteAnswer>,
    now: Timestamp,
) -> ImportOutcome {
    match resolved(store, answers, curator.auth0_user_id@) {
        Err(e) => import_refused(members, e),
        Ok(profile) => if !store.has_group(group_name) {
            import_refused(members, PacksError::GroupNotFound)
        } else if !store.has_role(store.group_id(group_name), RoleType::Admin) {
            import_refused(members, PacksError::RoleNotFound)
        } else {
            let group_id = store.group_id(group_name);
            ImportOutcome {
                members: members.insert(
                    (group_id, profile.user_uuid),
                    upserted_in(
                        members,
                        group_id,
                        store.role(group_id, RoleType::Admin).id,
                        User { user_uuid: SYSTEM_UUID },
                        User { user_uuid: profile.user_uuid },
                        None,
                        now,
                    ),
                ),
                result: Ok(
                    Some(SyncCallView::AddGroup { user_uuid: profile.user_uuid, group_name }),
                ),
                logged: seq![
                    record(
                        LogContext {
                            group_id,
                            host_uuid: SYSTEM_UUID,
                            user_uuid: Some(profile.user_uuid),
                        },
                        LogTargetType::Membership,
                        LogOperationType::Created,
                        Some("added"@),
                    ),
                ],
            }
        },
    }
}

/// Imports the curator `curator` into the group called `group_name` at the
/// time `now`.
pub fn import_curator(
    store: &mut Store,
    group_name: &str,
    curator: &MozilliansGroupCurator,
    answers: &Vec<RemoteAnswer>,
    now: Timestamp,
) -> (r: Result<Option<SyncCall>, PacksError>)
    requires
        old(store).wf(),
    ensures
        final(store).wf(),
        import_step_post(
            old(store),
            final(store),
            r,
            import_curator_model(
                *old(store),
                old(store).members(),
                group_name@,
                *curator,
                answers@,
                now,
            ),
        ),
        old(store).role_invariant() ==> final(store).role_invariant(),
{
    proof {
        assert(log_view(store.logs@) + Seq::<LogEntryView>::empty() =~= log_view(store.logs@));
    }
    let user = match get_user_profile(store, curator.auth0_user_id.as_str(), answers) {
        Ok(profile) => profile.user(),
        Err(e) => {
            return Err(e);
        },
    };
    let host = User::default();
    match add_admin(store, group_name, &host, &user, now) {
        Ok(()) => {},
        Err(e) => {
            return Err(e);
        },
    }
    proof {
        let group_id = old(store).group_id(group_name@);
        lemma_log_appended(
            old(store).logs@,
            store.logs@,
            LogContext { group_id, host_uuid: SYSTEM_UUID, user_uuid: Some(user.user_uuid) },
            LogTargetType::Membership,
            LogOperationType::Created,
            Some("added"@),
        );
        assert(log_view(store.logs@) =~= log_view(old(store).logs@) + seq![
            record(
                LogContext { group_id, host_uuid: SYSTEM_UUID, user_uuid: Some(user.user_uuid) },
                LogTargetType::Membership,
                LogOperationType::Created,
                Some("added"@),
            ),
        ]);
    }
    Ok(Some(SyncCall::AddGroup { user_uuid: user.user_uuid, group_name: String::from_str(group_name) }))
}

/// What an import of several records did: its outcome for every record, in
/// their order, and the calls that follow from the records that were added.
#[derive(Debug, PartialEq, Eq)]
pub struct Imported {
    pub outcomes: Vec<Result<(), PacksError>>,
    pub calls: Vec<SyncCall>,
}

/// The state of an import after some of its records.
pub struct ImportRun {
    pub members: Map<(i32, u128), Membership>,
    pub outcomes: Seq<Result<(), PacksError>>,
    pub calls: Seq<SyncCallView>,
    pub logged: Seq<LogEntryView>,
}

/// The state of an import before its first record.
pub open spec fn run_start(members: Map<(i32, u128), Membership>) -> ImportRun {
    ImportRun { members, outcomes: Seq::empty(), calls: Seq::empty(), logged: Seq::empty() }
}

/// The state of an import after one more record with the outcome
/// `outcome`. A record that fails is noted and changes nothing else.
pub open spec fn run_step(prior: ImportRun, outcome: ImportOutcome) -> ImportRun {
    ImportRun {
        members: outcome.members,
        outcomes: prior.outcomes.push(
            match outcome.result {
                Ok(_) => Ok(()),
                Err(e) => Err(e),
            },
        ),
        calls: match outcome.result {
            Ok(Some(call)) => prior.calls.push(call),
            _ => prior.calls,
        },
        logged: prior.logged + outcome.logged,
    }
}

/// The import of the curators `curators`, one after the other.
pub open spec fn curators_run(
    store: Store,
    members: Map<(i32, u128), Membership>,
    group_name: Seq<char>,
    curators: Seq<MozilliansGroupCurator>,
    answers: Seq<RemoteAnswer>,
    now: Timestamp,
) -> ImportRun
    decreases curators.len(),
{
    if curators.len() == 0 {
        run_start(members)
    } else {
        let prior = curators_run(store, members, group_name, curators.drop_last(), answers, now);
        run_step(
            prior,
            import_curator_model(store, prior.members, group_name, curators.last(), answers, now),
        )
    }
}

/// The import of the memberships `records`, one after the other.
pub open spec fn members_run(
    store: Store,
    members: Map<(i32, u128), Membership>,
    group_name: Seq<char>,
    records: Seq<MozilliansGroupMembership>,
    answers: Seq<RemoteAnswer>,
    now: Timestamp,
) -> ImportRun
    decreases records.len(),
{
    if records.len() == 0 {
        run_start(members)
    } else {
        let prior = members_run(store, members, group_name, records.drop_last(), answers, now);
        run_step(
            prior,
            import_member_model(store, prior.members, group_name, records.last(), answers, now),
        )
    }
}

/// Whether the store went from `before` to `after` as `run` says, with the
/// report `done`.
pub open spec fn import_run_post(
    before: &Store,
    after: &Store,
    done: Imported,
    run: ImportRun,
) -> bool {
    &&& after.members() == run.members
    &&& done.outcomes@ == run.outcomes
    &&& calls_view(done.calls@) == run.calls
    &&& log_view(after.logs@) == log_view(before.logs@) + run.logged
}

/// Takes the result of one record into the report of an import.
fn note_import(
    outcomes: &mut Vec<Result<(), PacksError>>,
    calls: &mut Vec<SyncCall>,
    r: Result<Option<SyncCall>, PacksError>,
)
    ensures
        final(outcomes)@ == old(outcomes)@.push(
            match import_result_view(r) {
                Ok(_) => Ok(()),
                Err(e) => Err(e),
            },
        ),
        calls_view(final(calls)@) == match import_result_view(r) {
            Ok(Some(call)) => calls_view(old(calls)@).push(call),
            _ => calls_view(old(calls)@),
        },
{
    match r {
        Ok(Some(call)) => {
            proof {
                lemma_map_push(calls@, call, |c: SyncCall| c@);
            }
            calls.push(call);
            outcomes.push(Ok(()));
        },
        Ok(None) => {
            outcomes.push(Ok(()));
        },
        Err(e) => {
            outcomes.push(Err(e));
        },
    }
}

/// Imports the curators `moz_curators` into the group called `group_name`
/// at the time `now`. A curator who cannot be imported is reported in place
/// and does not hold up the others.
pub fn import_curators(
    store: &mut Store,
    group_name: &str,
    moz_curators: &Vec<MozilliansGroupCurator>,
    answers: &Vec<RemoteAnswer>,
    now: Timestamp,
) -> (r: Imported)
    requires
        old(store).wf(),
    ensures
        final(store).wf(),
        import_run_post(
            old(store),
            final(store),
            r,
            curators_run(*old(store), old(store).members(), group_name@, moz_curators@, answers@, now),
        ),
        final(store).keeps_all_but_members_and_log(old(store)),
        old(store).role_invariant() ==> final(store).role_invariant(),
{
    let mut outcomes: Vec<Result<(), PacksError>> = Vec::new();
    let mut calls: Vec<SyncCall> = Vec::new();
    let mut i: usize = 0;
    proof {
        assert(calls_view(calls@) =~= Seq::<SyncCallView>::empty());
        assert(log_view(store.logs@) =~= log_view(old(store).logs@) + Seq::<LogEntryView>::empty());
    }
    while i < moz_curators.len()
        invariant
            store.wf(),
            i <= moz_curators.len(),
            store.keeps_all_but_members_and_log(old(store)),
            old(store).role_invariant() ==> store.role_invariant(),
            ({
                let run = curators_run(
                    *old(store),
                    old(store).members(),
                    group_name@,
                    moz_curators@.take(i as int),
                    answers@,
                    now,
                );
                &&& store.members() == run.members
                &&& outcomes@ == run.outcomes
                &&& calls_view(calls@) == run.calls
                &&& log_view(store.logs@) == log_view(old(store).logs@) + run.logged
            }),
        decreases moz_curators.len() - i,
    {
        let ghost prior = curators_run(
            *old(store),
            old(store).members(),
            group_name@,
            moz_curators@.take(i as int),
            answers@,
            now,
        );
        let ghost here = *store;
        proof {
            lemma_take_step(moz_curators@, i as int);
            assert(moz_curators@.take(i + 1).drop_last() =~= moz_curators@.take(i as int));
            assert(import_curator_model(
                here,
                here.members(),
                group_name@,
                moz_curators@[i as int],
                answers@,
                now,
            ) == import_curator_model(
                *old(store),
                prior.members,
                group_name@,
                moz_curators@[i as int],
                answers@,
                now,
            ));
        }
        let r = import_curator(store, group_name, &moz_curators[i], answers, now);
        proof {
            let outcome = import_curator_model(
                *old(store),
                prior.members,
                group_name@,
                moz_curators@[i as int],
                answers@,
                now,
            );
            assert(log_view(store.logs@) =~= log_view(old(store).logs@) + (prior.logged
                + outcome.logged));
        }
        note_import(&mut outcomes, &mut calls, r);
        i += 1;
    }
    proof {
        lemma_take_all(moz_curators@);
    }
    Imported { outcomes, calls }
}

/// The earliest of `created` and the times of joining of `records`.
pub open spec fn earliest(created: Timestamp, records: Seq<MozilliansGroupMembership>) -> Timestamp
    decreases records.len(),
{
    if records.len() == 0 {
        created
    } else {
        let prior = earliest(created, records.drop_last());
        if records.last().date_joined.micros < prior.micros {
            records.last().date_joined
        } else {
            prior
        }
    }
}

/// What [`import_members`] leaves behind and returns.
pub open spec fn import_members_post(
    before: &Store,
    after: &Store,
    r: Result<Imported, PacksError>,
    group_name: Seq<char>,
    records: Seq<MozilliansGroupMembership>,
    answers: Seq<RemoteAnswer>,
    now: Timestamp,
) -> bool {
    &&& !before.has_group(group_name) ==> failed_with(r, PacksError::GroupNotFound) && *after
        == *before
    &&& before.has_group(group_name) ==> r is Ok
    &&& r matches Ok(done) ==> {
        &&& import_run_post(
            before,
            after,
            done,
            members_run(*before, before.members(), group_name, records, answers, now),
        )
        &&& group_replaced(
            before,
            after,
            group_name,
            Group {
                created: earliest(before.group(group_name).created, records),
                ..before.group(group_name)
            },
        )
        &&& after.keeps_roles(before)
        &&& after.keeps_people(before)
    }
}

/// Imports the memberships `moz_members` into the group called
/// `group_name` at the time `now`, and moves the creation time of the group
/// back to the earliest time of joining on record. A membership that cannot
/// be imported is reported in place and does not hold up the others.
pub fn import_members(
    store: &mut Store,
    group_name: &str,
    moz_members: &Vec<MozilliansGroupMembership>,
    answers: &Vec<RemoteAnswer>,
    now: Timestamp,
) -> (r: Result<Imported, PacksError>)
    requires
        old(store).wf(),
    ensures
        final(store).wf(),
        import_members_post(old(store), final(store), r, group_name@, moz_members@, answers@, now),
        old(store).role_invariant() ==> final(store).role_invariant(),
{
    let gi = match store.find_group(group_name) {
        Some(gi) => gi,
        None => {
            return Err(PacksError::GroupNotFound);
        },
    };
    let mut created = store.groups[gi].created;
    let mut outcomes: Vec<Result<(), PacksError>> = Vec::new();
    let mut calls: Vec<SyncCall> = Vec::new();
    let mut i: usize = 0;
    proof {
        assert(calls_view(calls@) =~= Seq::<SyncCallView>::empty());
        assert(log_view(store.logs@) =~= log_view(old(store).logs@) + Seq::<LogEntryView>::empty());
        assert(moz_members@.take(0) =~= Seq::<MozilliansGroupMembership>::empty());
    }
    while i < moz_members.len()
        invariant
            store.wf(),
            i <= moz_members.len(),
            old(store).has_group(group_name@),
            store.keeps_all_but_members_and_log(old(store)),
            old(store).role_invariant() ==> store.role_invariant(),
            created == earliest(old(store).group(group_name@).created, moz_members@.take(i as int)),
            ({
                let run = members_run(
                    *old(store),
                    old(store).members(),
                    group_name@,
                    moz_members@.take(i as int),
                    answers@,
                    now,
                );
                &&& store.members() == run.members
                &&& outcomes@ == run.outcomes
                &&& calls_view(calls@) == run.calls
                &&& log_view(store.logs@) == log_view(old(store).logs@) + run.logged
            }),
        decreases moz_members.len() - i,
    {
        let ghost prior = members_run(
            *old(store),
            old(store).members(),
            group_name@,
            moz_members@.take(i as int),
            answers@,
            now,
        );
        let ghost here = *store;
        proof {
            lemma_take_step(moz_members@, i as int);
            assert(moz_members@.take(i + 1).drop_last() =~= moz_members@.take(i as int));
            assert(import_member_model(
                here,
                here.members(),
                group_name@,
                moz_members@[i as int],
                answers@,
                now,
            ) == import_member_model(
                *old(store),
                prior.members,
                group_name@,
                moz_members@[i as int],
                answers@,
                now,
            ));
        }
        let joined = moz_members[i].date_joined;
        if joined.before(created) {
            created = joined;
        }
        let r = import_member(store, group_name, &moz_members[i], answers, now);
        proof {
            let outcome = import_member_model(
                *old(store),
                prior.members,
                group_name@,
                moz_members@[i as int],
                answers@,
                now,
            );
            assert(log_view(store.logs@) =~= log_view(old(store).logs@) + (prior.logged
                + outcome.logged));
        }
        note_import(&mut outcomes, &mut calls, r);
        i += 1;
    }
    proof {
        lemma_take_all(moz_members@);
        assert(store.has_group(group_name@) && store.group_pos(group_name@) == old(store).group_pos(
            group_name@,
        ));
    }
    match set_created(store, group_name, created) {
        Ok(()) => {},
        Err(e) => {
            return Err(e);
        },
    }
    Ok(Imported { outcomes, calls })
}

/// What an import of a whole group did.
#[derive(Debug, PartialEq, Eq)]
pub struct ImportReport {
    pub curators: Imported,
    pub members: Imported,
}

/// Whether an import went from `before` by way of `created`, where the
/// group stands, and `curated`, where its curators stand, to `after`, where
/// its members stand.
pub open spec fn import_stages(
    before: &Store,
    created: Store,
    curated: Store,
    after: &Store,
    report: ImportReport,
    group_import: GroupImport,
    answers: Seq<RemoteAnswer>,
    now: Timestamp,
) -> bool {
    let name = group_import.group.name@;
    &&& import_group_post(before, &created, Ok(()), group_import.group, now)
    &&& created.wf()
    &&& import_run_post(
        &created,
        &curated,
        report.curators,
        curators_run(created, created.members(), name, group_import.curators@, answers, now),
    )
    &&& curated.keeps_all_but_members_and_log(&created)
    &&& curated.wf()
    &&& import_members_post(
        &curated,
        after,
        Ok(report.members),
        name,
        group_import.memberships@,
        answers,
        now,
    )
}

/// What [`import`] leaves behind and returns: the group is created, then
/// its curators are imported, then its members.
pub open spec fn import_post(
    before: &Store,
    after: &Store,
    r: Result<ImportReport, PacksError>,
    group_import: GroupImport,
    answers: Seq<RemoteAnswer>,
    now: Timestamp,
) -> bool {
    &&& r matches Err(e) ==> import_group_post(before, after, Err(e), group_import.group, now)
    &&& r matches Ok(report) ==> exists|created: Store, curated: Store|
        import_stages(before, created, curated, after, report, group_import, answers, now)
}

/// Imports a whole group at the time `now`: the group itself, then its
/// curators, then its members. Where the group cannot be created nothing is
/// imported; a curator or a member that cannot be imported is reported in
/// place and does not hold up the rest.
pub fn import(
    store: &mut Store,
    group_import: GroupImport,
    answers: &Vec<RemoteAnswer>,
    now: Timestamp,
) -> (r: Result<ImportReport, PacksError>)
    requires
        old(store).wf(),
    ensures
        final(store).wf(),
        import_post(old(store), final(store), r, group_import, answers@, now),
        old(store).role_invariant() ==> final(store).role_invariant(),
{
    let ghost input = group_import;
    let group_name = group_import.group.name.clone();
    match import_group(store, group_import.group, now) {
        Ok(()) => {},
        Err(e) => {
            return Err(e);
        },
    }
    let ghost created = *store;
    let curators = import_curators(store, group_name.as_str(), &group_import.curators, answers, now);
    let ghost curated = *store;
    let members = match import_members(
        store,
        group_name.as_str(),
        &group_import.memberships,
        answers,
        now,
    ) {
        Ok(members) => members,
        Err(e) => {
            proof {
                let at = old(store).groups@.len() as int;
                assert(created.groups@[at] == created.groups@.last());
                assert(crate::store::group_at(curated.groups@, group_name@, at));
            }
            return Err(e);
        },
    };
    let report = ImportReport { curators, members };
    let ghost shown = report;
    let r = Ok(report);
    proof {
        assert(r matches Ok(got) && got == shown);
        assert(import_stages(old(store), created, curated, store, shown, input, answers@, now));
    }
    r
}

} // verus!
