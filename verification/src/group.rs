//! Groups and their roles: lookup, creation, changes to what is on record of
//! a group, and the listing of the groups that are out of use.

use vstd::prelude::*;
use crate::clock::Timestamp;
use crate::error::{failed_with, PacksError};
use crate::model::{log_comment_body, log_view, Group, LogContext, NewGroup, Role};
use crate::store::{lemma_log_appended, record};
use crate::paging::{next_after, page_bounds, page_of};
use crate::sequences::{lemma_filter_step, lemma_take_all};
use crate::store::{group_at, group_id_at, log_appended, role_at, role_id_at, Store};
use crate::types::User;
use crate::types::{LogOperationType, LogTargetType, RoleType, TrustType};

verus! {

/// The display name of the role of type `typ`.
pub open spec fn role_name(typ: RoleType) -> Seq<char> {
    match typ {
        RoleType::Admin => "admin"@,
        RoleType::Curator => "curator"@,
        RoleType::Member => "member"@,
    }
}

/// The group called `group_name`.
pub fn get_group(store: &Store, group_name: &str) -> (r: Result<Group, PacksError>)
    requires
        store.wf(),
    ensures
        store.has_group(group_name@) ==> r == Ok::<Group, PacksError>(store.group(group_name@)),
        !store.has_group(group_name@) ==> r == Err::<Group, PacksError>(PacksError::GroupNotFound),
{
    match store.find_group(group_name) {
        Some(i) => Ok(store.groups[i].clone()),
        None => Err(PacksError::GroupNotFound),
    }
}

/// The group with the id `group_id`, if there is one.
pub fn get_group_by_id(store: &Store, group_id: i32) -> (r: Option<Group>)
    requires
        store.wf(),
    ensures
        store.has_group_id(group_id) ==> r == Some(store.group_by_id(group_id)),
        !store.has_group_id(group_id) ==> r is None,
{
    match store.find_group_by_id(group_id) {
        Some(i) => Some(store.groups[i].clone()),
        None => None,
    }
}

/// What [`add_group`] leaves behind and returns.
pub open spec fn add_group_post(
    before: &Store,
    after: &Store,
    r: Result<Group, PacksError>,
    creator_uuid: u128,
    new_group: NewGroup,
    now: Timestamp,
) -> bool {
    &&& before.has_group(new_group.name@) ==> r == Err::<Group, PacksError>(
        PacksError::GroupNameTaken,
    )
    &&& !before.has_group(new_group.name@) && before.next_group_id == i32::MAX ==> r == Err::<
        Group,
        PacksError,
    >(PacksError::StorageError)
    &&& !before.has_group(new_group.name@) && before.next_group_id < i32::MAX ==> r is Ok
    &&& r is Err ==> *after == *before
    &&& r matches Ok(group) ==> {
        &&& group.id == before.next_group_id
        &&& group.name == new_group.name
        &&& group.typ == new_group.typ
        &&& group.trust == new_group.trust
        &&& group.description == new_group.description
        &&& group.group_expiration == new_group.group_expiration
        &&& group.created == now
        &&& group.terms@.len() == 0
        &&& group.invitation_email@.len() == 0
        &&& group.active
        &&& after.groups@ == before.groups@.push(group)
        &&& after.next_group_id == before.next_group_id + 1
        &&& after.keeps_roles(before)
        &&& after.keeps_people(before)
        &&& after.memberships@ == before.memberships@
        &&& log_appended(
            before.logs@,
            after.logs@,
            LogContext { group_id: group.id, host_uuid: creator_uuid, user_uuid: None },
            LogTargetType::Group,
            LogOperationType::Created,
            None,
        )
    }
}

/// Creates the group that `new_group` describes, on behalf of
/// `creator_uuid`, with `now` as its creation time. The group starts without
/// roles: [`add_admin_role`] and [`crate::member::add_member_role`] complete
/// it.
pub fn add_group(creator_uuid: u128, store: &mut Store, new_group: NewGroup, now: Timestamp) -> (r:
    Result<Group, PacksError>)
    requires
        old(store).wf(),
    ensures
        final(store).wf(),
        add_group_post(old(store), final(store), r, creator_uuid, new_group, now),
        r matches Ok(group) ==> !final(store).has_role(group.id, RoleType::Admin),
        r matches Ok(group) ==> !final(store).has_role(group.id, RoleType::Member),
{
    if store.find_group(new_group.name.as_str()).is_some() {
        return Err(PacksError::GroupNameTaken);
    }
    if store.next_group_id == i32::MAX {
        return Err(PacksError::StorageError);
    }
    let id: i32 = store.next_group_id;
    let group = Group {
        id,
        name: new_group.name,
        typ: new_group.typ,
        trust: new_group.trust,
        description: new_group.description,
        group_expiration: new_group.group_expiration,
        created: now,
        terms: String::new(),
        invitation_email: String::new(),
        active: true,
    };
    let copy = group.clone();
    store.groups.push(group);
    store.next_group_id = id + 1;
    proof {
        let before = old(store).groups@;
        let after = store.groups@;
        assert forall|i: int, j: int| 0 <= i < j < after.len() implies (#[trigger] after[i]).id != (
        #[trigger] after[j]).id && after[i].name@ != after[j].name@ by {
            if j == before.len() {
                assert(after[i] == before[i]);
                assert(before[i].id < id);
                if before[i].name@ == new_group.name@ {
                    assert(crate::store::group_at(before, new_group.name@, i));
                }
            } else {
                assert(after[i] == before[i] && after[j] == before[j]);
            }
        }
        assert forall|i: int| 0 <= i < store.roles@.len() implies exists|g: int|
            group_id_at(after, (#[trigger] store.roles@[i]).group_id, g) by {
            let g = choose|g: int| group_id_at(before, store.roles@[i].group_id, g);
            assert(group_id_at(after, store.roles@[i].group_id, g));
        }
    }
    proof {
        lemma_fresh_group_has_no_role(*old(store), *store, id);
    }
    let ctx = LogContext::with(id, creator_uuid);
    store.db_log(&ctx, LogTargetType::Group, LogOperationType::Created, None);
    Ok(copy)
}

/// What the creation of a role of type `typ` leaves behind and returns.
pub open spec fn add_role_post(
    before: &Store,
    after: &Store,
    r: Result<Role, PacksError>,
    ctx: LogContext,
    typ: RoleType,
) -> bool {
    &&& !before.has_group_id(ctx.group_id) ==> r == Err::<Role, PacksError>(
        PacksError::GroupNotFound,
    )
    &&& before.has_group_id(ctx.group_id) && typ != RoleType::Curator && before.has_role(
        ctx.group_id,
        typ,
    ) ==> r == Err::<Role, PacksError>(PacksError::RoleInvariantViolation)
    &&& before.has_group_id(ctx.group_id) && !(typ != RoleType::Curator && before.has_role(
        ctx.group_id,
        typ,
    )) && before.next_role_id == i32::MAX ==> r == Err::<Role, PacksError>(
        PacksError::StorageError,
    )
    &&& before.has_group_id(ctx.group_id) && !(typ != RoleType::Curator && before.has_role(
        ctx.group_id,
        typ,
    )) && before.next_role_id < i32::MAX ==> r is Ok
    &&& r is Err ==> *after == *before
    &&& r matches Ok(role) ==> {
        &&& role.id == before.next_role_id
        &&& role.group_id == ctx.group_id
        &&& role.typ == typ
        &&& role.name@ == role_name(typ)
        &&& after.roles@ == before.roles@.push(role)
        &&& after.next_role_id == before.next_role_id + 1
        &&& after.keeps_groups(before)
        &&& after.keeps_people(before)
        &&& after.memberships@ == before.memberships@
        &&& log_appended(
            before.logs@,
            after.logs@,
            ctx,
            LogTargetType::Role,
            LogOperationType::Created,
            Some(role_name(typ)),
        )
    }
}

/// Creates a role of type `typ` for the group of `ctx` and records it. A
/// group takes one member role and one admin role only.
pub fn add_role(ctx: &LogContext, store: &mut Store, typ: RoleType) -> (r: Result<Role, PacksError>)
    requires
        old(store).wf(),
    ensures
        final(store).wf(),
        add_role_post(old(store), final(store), r, *ctx, typ),
        old(store).role_invariant() ==> final(store).role_invariant(),
{
    let group_id: i32 = ctx.group_id;
    if store.find_group_by_id(group_id).is_none() {
        return Err(PacksError::GroupNotFound);
    }
    let single = match typ {
        RoleType::Curator => false,
        _ => true,
    };
    if single && store.find_role(group_id, typ).is_some() {
        return Err(PacksError::RoleInvariantViolation);
    }
    if store.next_role_id == i32::MAX {
        return Err(PacksError::StorageError);
    }
    let id: i32 = store.next_role_id;
    let label = match typ {
        RoleType::Admin => "admin",
        RoleType::Curator => "curator",
        RoleType::Member => "member",
    };
    let role = Role { id, group_id, typ, name: String::from_str(label) };
    let copy = role.clone();
    store.roles.push(role);
    store.next_role_id = id + 1;
    proof {
        let before = old(store).roles@;
        let after = store.roles@;
        assert forall|i: int, j: int| 0 <= i < j < after.len() implies (#[trigger] after[i]).id != (
        #[trigger] after[j]).id by {
            if j == before.len() {
                assert(after[i] == before[i]);
                assert(before[i].id < id);
            } else {
                assert(after[i] == before[i] && after[j] == before[j]);
            }
        }
        assert forall|i: int, j: int|
            0 <= i < j < after.len() && (#[trigger] after[i]).group_id == (#[trigger] after[j]).group_id
                && after[i].typ == after[j].typ implies after[i].typ == RoleType::Curator by {
            if j == before.len() {
                assert(after[i] == before[i]);
                if typ != RoleType::Curator {
                    assert(role_at(before, group_id, typ, i));
                }
            } else {
                assert(after[i] == before[i] && after[j] == before[j]);
            }
        }
        assert forall|i: int| 0 <= i < after.len() implies exists|g: int|
            group_id_at(store.groups@, (#[trigger] after[i]).group_id, g) by {
            if i < before.len() {
                assert(after[i] == before[i]);
                let g = choose|g: int| group_id_at(old(store).groups@, before[i].group_id, g);
                assert(group_id_at(store.groups@, after[i].group_id, g));
            } else {
                assert(old(store).has_group_id(group_id));
                let g = choose|g: int| group_id_at(old(store).groups@, group_id, g);
                assert(group_id_at(store.groups@, after[i].group_id, g));
            }
        }
        assert forall|i: int| 0 <= i < store.memberships@.len() implies exists|k: int|
            crate::store::role_id_at(
                after,
                (#[trigger] store.memberships@[i]).role_id,
                store.memberships@[i].group_id,
                k,
            ) by {
            let m = store.memberships@[i];
            let k = choose|k: int| crate::store::role_id_at(before, m.role_id, m.group_id, k);
            assert(after[k] == before[k]);
            assert(crate::store::role_id_at(after, m.role_id, m.group_id, k));
        }
        if old(store).role_invariant() {
            assert forall|i: int| 0 <= i < store.groups@.len() implies store.has_role(
                (#[trigger] store.groups@[i]).id,
                RoleType::Member,
            ) && store.has_role(store.groups@[i].id, RoleType::Admin) by {
                let g = store.groups@[i].id;
                let km = choose|k: int| role_at(before, g, RoleType::Member, k);
                assert(after[km] == before[km]);
                assert(role_at(after, g, RoleType::Member, km));
                let ka = choose|k: int| role_at(before, g, RoleType::Admin, k);
                assert(after[ka] == before[ka]);
                assert(role_at(after, g, RoleType::Admin, ka));
            }
        }
    }
    store.db_log(ctx, LogTargetType::Role, LogOperationType::Created, log_comment_body(label));
    Ok(copy)
}

/// Creates the admin role of the group of `log_ctx`.
pub fn add_admin_role(log_ctx: &LogContext, store: &mut Store, group_id: i32) -> (r: Result<
    Role,
    PacksError,
>)
    requires
        old(store).wf(),
    ensures
        final(store).wf(),
        add_role_post(
            old(store),
            final(store),
            r,
            LogContext { group_id, ..*log_ctx },
            RoleType::Admin,
        ),
        old(store).role_invariant() ==> final(store).role_invariant(),
{
    let ctx = LogContext { group_id, host_uuid: log_ctx.host_uuid, user_uuid: log_ctx.user_uuid };
    add_role(&ctx, store, RoleType::Admin)
}

/// The groups whose id is among `ids`.
pub open spec fn with_id_in(ids: Seq<i32>) -> spec_fn(Group) -> bool {
    |g: Group| ids.contains(g.id)
}

/// Whether `id` occurs in `ids`.
pub fn contains_id(ids: &Vec<i32>, id: i32) -> (r: bool)
    ensures
        r == ids@.contains(id),
{
    let mut i: usize = 0;
    while i < ids.len()
        invariant
            i <= ids.len(),
            forall|j: int| 0 <= j < i ==> ids@[j] != id,
        decreases ids.len() - i,
    {
        if ids[i] == id {
            return true;
        }
        i += 1;
    }
    false
}

/// The groups whose id is among `ids`, each once, in the order of the group
/// table. An id that belongs to no group is passed over.
pub fn get_groups_by_ids(store: &Store, ids: &Vec<i32>) -> (r: Vec<Group>)
    ensures
        r@ == store.groups@.filter(with_id_in(ids@)),
{
    let ghost rows = store.groups@;
    let mut found: Vec<Group> = Vec::new();
    let mut i: usize = 0;
    assert(rows.take(0).filter(with_id_in(ids@)) =~= Seq::<Group>::empty());
    while i < store.groups.len()
        invariant
            i <= store.groups.len(),
            rows == store.groups@,
            found@ == rows.take(i as int).filter(with_id_in(ids@)),
        decreases store.groups.len() - i,
    {
        proof {
            lemma_filter_step(rows, i as int, with_id_in(ids@));
        }
        if contains_id(ids, store.groups[i].id) {
            found.push(store.groups[i].clone());
        }
        i += 1;
    }
    proof {
        lemma_take_all(rows);
    }
    found
}

/// Whether the group table of `after` is that of `before` with the group
/// called `group_name` replaced by `changed`, which has the same id and name.
pub open spec fn group_replaced(
    before: &Store,
    after: &Store,
    group_name: Seq<char>,
    changed: Group,
) -> bool {
    &&& after.groups@ == before.groups@.update(before.group_pos(group_name), changed)
    &&& changed.id == before.group(group_name).id
    &&& changed.name == before.group(group_name).name
    &&& after.next_group_id == before.next_group_id
}

/// What a change to the texts or the creation time of a group leaves
/// behind: the group called `group_name` is replaced by `changed`, which has
/// the same id and name, and the other tables stay as they are.
pub open spec fn group_changed(
    before: &Store,
    after: &Store,
    group_name: Seq<char>,
    changed: Group,
) -> bool {
    &&& group_replaced(before, after, group_name, changed)
    &&& after.keeps_roles(before)
    &&& after.keeps_people(before)
    &&& after.memberships@ == before.memberships@
}

/// Replacing a group by one of the same id and name keeps the rules of the
/// tables.
pub proof fn lemma_group_replaced(before: Store, after: Store, i: int, changed: Group)
    requires
        before.wf(),
        0 <= i < before.groups@.len(),
        changed.id == before.groups@[i].id,
        changed.name == before.groups@[i].name,
        after.groups@ == before.groups@.update(i, changed),
        after.next_group_id == before.next_group_id,
        after.keeps_roles(&before),
        after.users@ == before.users@,
        after.memberships@ == before.memberships@,
    ensures
        after.wf(),
        before.role_invariant() ==> after.role_invariant(),
        forall|name: Seq<char>| before.has_group(name) == after.has_group(name),
        forall|name: Seq<char>|
            before.has_group(name) ==> after.group_pos(name) == before.group_pos(name)
                && after.group_id(name) == before.group_id(name),
{
    let old_rows = before.groups@;
    let new_rows = after.groups@;
    assert forall|a: int| 0 <= a < new_rows.len() implies (#[trigger] new_rows[a]).id == old_rows[a].id
        && new_rows[a].name@ == old_rows[a].name@ by {}
    assert forall|a: int, b: int| 0 <= a < b < new_rows.len() implies (#[trigger] new_rows[a]).id != (
    #[trigger] new_rows[b]).id && new_rows[a].name@ != new_rows[b].name@ by {
        assert(old_rows[a].id != old_rows[b].id && old_rows[a].name@ != old_rows[b].name@);
    }
    assert forall|a: int| 0 <= a < new_rows.len() implies (#[trigger] new_rows[a]).id
        < after.next_group_id by {
        assert(old_rows[a].id < before.next_group_id);
    }
    assert forall|k: int| 0 <= k < after.roles@.len() implies exists|g: int|
        group_id_at(new_rows, (#[trigger] after.roles@[k]).group_id, g) by {
        let g = choose|g: int| group_id_at(old_rows, before.roles@[k].group_id, g);
        assert(new_rows[g].id == old_rows[g].id);
        assert(group_id_at(new_rows, after.roles@[k].group_id, g));
    }
    assert forall|name: Seq<char>| before.has_group(name) == after.has_group(name) by {
        if before.has_group(name) {
            let a = choose|a: int| group_at(old_rows, name, a);
            assert(new_rows[a].name@ == old_rows[a].name@);
            assert(group_at(new_rows, name, a));
        }
        if after.has_group(name) {
            let a = choose|a: int| group_at(new_rows, name, a);
            assert(new_rows[a].name@ == old_rows[a].name@);
            assert(group_at(old_rows, name, a));
        }
    }
    assert(after.wf());
    assert forall|name: Seq<char>| before.has_group(name) implies after.group_pos(name)
        == before.group_pos(name) && after.group_id(name) == before.group_id(name) by {
        let a = before.group_pos(name);
        assert(group_at(old_rows, name, a));
        assert(new_rows[a].name@ == old_rows[a].name@);
        assert(group_at(new_rows, name, a));
        crate::store::lemma_group_pos(new_rows, after.next_group_id, name, a);
        assert(new_rows[a].id == old_rows[a].id);
    }
    if before.role_invariant() {
        assert forall|a: int| 0 <= a < new_rows.len() implies after.has_role(
            (#[trigger] new_rows[a]).id,
            RoleType::Member,
        ) && after.has_role(new_rows[a].id, RoleType::Admin) by {
            assert(new_rows[a].id == old_rows[a].id);
            assert(before.has_role(old_rows[a].id, RoleType::Member));
            assert(before.has_role(old_rows[a].id, RoleType::Admin));
        }
    }
}

/// Sets the terms of the group called `group_name` and records the change.
pub fn set_terms(host_uuid: u128, store: &mut Store, group_name: &str, terms: String) -> (r: Result<
    (),
    PacksError,
>)
    requires
        old(store).wf(),
    ensures
        final(store).wf(),
        r is Ok <==> old(store).has_group(group_name@),
        r is Err ==> r == Err::<(), PacksError>(PacksError::GroupNotFound) && *final(store) == *old(
            store,
        ),
        r is Ok ==> group_changed(
            old(store),
            final(store),
            group_name@,
            Group { terms, ..old(store).group(group_name@) },
        ) && log_appended(
            old(store).logs@,
            final(store).logs@,
            LogContext { group_id: old(store).group_id(group_name@), host_uuid, user_uuid: None },
            LogTargetType::Terms,
            LogOperationType::Created,
            None,
        ),
        old(store).role_invariant() ==> final(store).role_invariant(),
{
    let i = match store.find_group(group_name) {
        Some(i) => i,
        None => {
            return Err(PacksError::GroupNotFound);
        },
    };
    let group_id: i32 = store.groups[i].id;
    let mut changed = store.groups[i].clone();
    changed.terms = terms;
    let ghost shown = changed;
    store.groups.set(i, changed);
    proof {
        lemma_group_replaced(*old(store), *store, i as int, shown);
    }
    let log_ctx = LogContext::with(group_id, host_uuid);
    store.db_log(&log_ctx, LogTargetType::Terms, LogOperationType::Created, None);
    Ok(())
}

/// Sets the text that invitations into the group called `group_name` carry
/// and records the change.
pub fn update_invitation_text(store: &mut Store, group_name: &str, host: &User, text: String) -> (r:
    Result<(), PacksError>)
    requires
        old(store).wf(),
    ensures
        final(store).wf(),
        r is Ok <==> old(store).has_group(group_name@),
        r is Err ==> r == Err::<(), PacksError>(PacksError::GroupNotFound) && *final(store) == *old(
            store,
        ),
        r is Ok ==> group_changed(
            old(store),
            final(store),
            group_name@,
            Group { invitation_email: text, ..old(store).group(group_name@) },
        ) && log_appended(
            old(store).logs@,
            final(store).logs@,
            LogContext {
                group_id: old(store).group_id(group_name@),
                host_uuid: host.user_uuid,
                user_uuid: None,
            },
            LogTargetType::Invitation,
            LogOperationType::Updated,
            None,
        ),
        old(store).role_invariant() ==> final(store).role_invariant(),
{
    let i = match store.find_group(group_name) {
        Some(i) => i,
        None => {
            return Err(PacksError::GroupNotFound);
        },
    };
    let group_id: i32 = store.groups[i].id;
    let mut changed = store.groups[i].clone();
    changed.invitation_email = text;
    let ghost shown = changed;
    store.groups.set(i, changed);
    proof {
        lemma_group_replaced(*old(store), *store, i as int, shown);
    }
    let log_ctx = LogContext::with(group_id, host.user_uuid);
    store.db_log(&log_ctx, LogTargetType::Invitation, LogOperationType::Updated, None);
    Ok(())
}

/// Moves the creation time of the group called `group_name` to `created`.
/// The change is a correction of what is on record and is not audited.
pub fn set_created(store: &mut Store, group_name: &str, created: Timestamp) -> (r: Result<
    (),
    PacksError,
>)
    requires
        old(store).wf(),
    ensures
        final(store).wf(),
        r is Ok <==> old(store).has_group(group_name@),
        r is Err ==> r == Err::<(), PacksError>(PacksError::GroupNotFound) && *final(store) == *old(
            store,
        ),
        r is Ok ==> group_changed(
            old(store),
            final(store),
            group_name@,
            Group { created, ..old(store).group(group_name@) },
        ) && final(store).logs@ == old(store).logs@,
        old(store).role_invariant() ==> final(store).role_invariant(),
{
    let i = match store.find_group(group_name) {
        Some(i) => i,
        None => {
            return Err(PacksError::GroupNotFound);
        },
    };
    let mut changed = store.groups[i].clone();
    changed.created = created;
    let ghost shown = changed;
    store.groups.set(i, changed);
    proof {
        lemma_group_replaced(*old(store), *store, i as int, shown);
    }
    Ok(())
}

/// Whether `after` is `before` with one more group, the last of the group
/// table, and with the admin role and the member role of that group as the
/// last two of the role table.
pub open spec fn created_with_roles(before: &Store, after: &Store) -> bool {
    let group = after.groups@.last();
    let admin = after.roles@[before.roles@.len() as int];
    let member = after.roles@[before.roles@.len() as int + 1];
    &&& after.groups@.len() == before.groups@.len() + 1
    &&& after.groups@.drop_last() == before.groups@
    &&& group.id == before.next_group_id
    &&& after.next_group_id == before.next_group_id + 1
    &&& after.roles@.len() == before.roles@.len() + 2
    &&& after.roles@.take(before.roles@.len() as int) == before.roles@
    &&& admin.id == before.next_role_id && admin.group_id == group.id && admin.typ
        == RoleType::Admin && admin.name@ == "admin"@
    &&& member.id == before.next_role_id + 1 && member.group_id == group.id && member.typ
        == RoleType::Member && member.name@ == "member"@
    &&& after.next_role_id == before.next_role_id + 2
    &&& after.keeps_people(before)
    &&& after.memberships@ == before.memberships@
}

/// What [`create_group`] leaves behind and returns.
pub open spec fn create_group_post(
    before: &Store,
    after: &Store,
    r: Result<Group, PacksError>,
    creator_uuid: u128,
    new_group: NewGroup,
    now: Timestamp,
) -> bool {
    let taken = before.has_group(new_group.name@);
    let full = before.next_group_id == i32::MAX || before.next_role_id >= i32::MAX - 1;
    &&& taken ==> failed_with(r, PacksError::GroupNameTaken)
    &&& !taken && full ==> failed_with(r, PacksError::StorageError)
    &&& !taken && !full ==> r is Ok
    &&& r is Err ==> *after == *before
    &&& r matches Ok(group) ==> {
        let ctx = LogContext { group_id: group.id, host_uuid: creator_uuid, user_uuid: None };
        &&& created_with_roles(before, after)
        &&& after.groups@.last() == group
        &&& group.name == new_group.name
        &&& group.typ == new_group.typ
        &&& group.trust == new_group.trust
        &&& group.description == new_group.description
        &&& group.group_expiration == new_group.group_expiration
        &&& group.created == now
        &&& group.terms@.len() == 0
        &&& group.invitation_email@.len() == 0
        &&& group.active
        &&& log_view(after.logs@) == log_view(before.logs@) + seq![
            record(ctx, LogTargetType::Group, LogOperationType::Created, None),
            record(ctx, LogTargetType::Role, LogOperationType::Created, Some("admin"@)),
            record(ctx, LogTargetType::Role, LogOperationType::Created, Some("member"@)),
        ]
    }
}

/// Creates the group that `new_group` describes together with its admin
/// role and its member role, on behalf of `creator_uuid`. The group is
/// created whole or not at all, so that every group owns both roles at all
/// times.
pub fn create_group(creator_uuid: u128, store: &mut Store, new_group: NewGroup, now: Timestamp) -> (r:
    Result<Group, PacksError>)
    requires
        old(store).wf(),
    ensures
        final(store).wf(),
        create_group_post(old(store), final(store), r, creator_uuid, new_group, now),
        old(store).role_invariant() ==> final(store).role_invariant(),
{
    if store.find_group(new_group.name.as_str()).is_some() {
        return Err(PacksError::GroupNameTaken);
    }
    if store.next_group_id == i32::MAX || store.next_role_id >= i32::MAX - 1 {
        return Err(PacksError::StorageError);
    }
    let ghost s0 = *store;
    let group = match add_group(creator_uuid, store, new_group, now) {
        Ok(group) => group,
        Err(e) => {
            return Err(e);
        },
    };
    let group_id: i32 = group.id;
    let ghost s1 = *store;
    let log_ctx = LogContext::with(group_id, creator_uuid);
    proof {
        assert(group_id_at(s1.groups@, group_id, s0.groups@.len() as int));
        lemma_log_appended(
            s0.logs@,
            s1.logs@,
            log_ctx,
            LogTargetType::Group,
            LogOperationType::Created,
            None,
        );
    }
    match add_role(&log_ctx, store, RoleType::Admin) {
        Ok(_) => {},
        Err(e) => {
            return Err(e);
        },
    }
    let ghost s2 = *store;
    proof {
        assert(group_id_at(s2.groups@, group_id, s0.groups@.len() as int));
        assert(!s2.has_role(group_id, RoleType::Member)) by {
            if s2.has_role(group_id, RoleType::Member) {
                let k = choose|k: int| role_at(s2.roles@, group_id, RoleType::Member, k);
                assert(role_at(s1.roles@, group_id, RoleType::Member, k));
            }
        }
        lemma_log_appended(
            s1.logs@,
            s2.logs@,
            log_ctx,
            LogTargetType::Role,
            LogOperationType::Created,
            Some("admin"@),
        );
    }
    match add_role(&log_ctx, store, RoleType::Member) {
        Ok(_) => {},
        Err(e) => {
            return Err(e);
        },
    }
    proof {
        lemma_log_appended(
            s2.logs@,
            store.logs@,
            log_ctx,
            LogTargetType::Role,
            LogOperationType::Created,
            Some("member"@),
        );
        assert(store.groups@.drop_last() =~= s0.groups@);
        assert(store.roles@.take(s0.roles@.len() as int) =~= s0.roles@);
        lemma_new_group_completes(s0, *store, group_id);
        assert(log_view(store.logs@) =~= log_view(s0.logs@) + seq![
            record(log_ctx, LogTargetType::Group, LogOperationType::Created, None),
            record(log_ctx, LogTargetType::Role, LogOperationType::Created, Some("admin"@)),
            record(log_ctx, LogTargetType::Role, LogOperationType::Created, Some("member"@)),
        ]);
    }
    Ok(group)
}

/// A group that was just created owns no role yet.
proof fn lemma_fresh_group_has_no_role(before: Store, after: Store, group_id: i32)
    requires
        before.wf(),
        group_id == before.next_group_id,
        after.roles@ == before.roles@,
    ensures
        !after.has_role(group_id, RoleType::Admin),
        !after.has_role(group_id, RoleType::Member),
{
    assert forall|k: int| 0 <= k < before.roles@.len() implies (#[trigger] before.roles@[k]).group_id
        != group_id by {
        let g = choose|g: int| group_id_at(before.groups@, before.roles@[k].group_id, g);
        assert(before.groups@[g].id < before.next_group_id);
    }
    if after.has_role(group_id, RoleType::Admin) {
        let k = choose|k: int| role_at(after.roles@, group_id, RoleType::Admin, k);
        assert(before.roles@[k].group_id != group_id);
    }
    if after.has_role(group_id, RoleType::Member) {
        let k = choose|k: int| role_at(after.roles@, group_id, RoleType::Member, k);
        assert(before.roles@[k].group_id != group_id);
    }
}

/// A store that gained one group with a member role and an admin role
/// keeps every group complete.
proof fn lemma_new_group_completes(before: Store, after: Store, group_id: i32)
    requires
        after.groups@.len() == before.groups@.len() + 1,
        after.groups@.drop_last() == before.groups@,
        after.groups@.last().id == group_id,
        after.roles@.len() == before.roles@.len() + 2,
        after.roles@.take(before.roles@.len() as int) == before.roles@,
        role_at(after.roles@, group_id, RoleType::Admin, before.roles@.len() as int),
        role_at(after.roles@, group_id, RoleType::Member, before.roles@.len() as int + 1),
    ensures
        before.role_invariant() ==> after.role_invariant(),
{
    if before.role_invariant() {
        assert forall|a: int| 0 <= a < after.groups@.len() implies after.has_role(
            (#[trigger] after.groups@[a]).id,
            RoleType::Member,
        ) && after.has_role(after.groups@[a].id, RoleType::Admin) by {
            if a < before.groups@.len() {
                assert(after.groups@[a] == after.groups@.drop_last()[a]);
                let g = before.groups@[a].id;
                let km = choose|k: int| role_at(before.roles@, g, RoleType::Member, k);
                assert(after.roles@[km] == after.roles@.take(before.roles@.len() as int)[km]);
                assert(role_at(after.roles@, g, RoleType::Member, km));
                let ka = choose|k: int| role_at(before.roles@, g, RoleType::Admin, k);
                assert(after.roles@[ka] == after.roles@.take(before.roles@.len() as int)[ka]);
                assert(role_at(after.roles@, g, RoleType::Admin, ka));
            }
        }
    }
}

/// Marks the group called `group_name` as in use or as out of use, and
/// records the change.
pub fn set_active(host_uuid: u128, store: &mut Store, group_name: &str, active: bool) -> (r: Result<
    (),
    PacksError,
>)
    requires
        old(store).wf(),
    ensures
        final(store).wf(),
        r is Ok <==> old(store).has_group(group_name@),
        r is Err ==> r == Err::<(), PacksError>(PacksError::GroupNotFound) && *final(store) == *old(
            store,
        ),
        r is Ok ==> group_changed(
            old(store),
            final(store),
            group_name@,
            Group { active, ..old(store).group(group_name@) },
        ) && log_appended(
            old(store).logs@,
            final(store).logs@,
            LogContext { group_id: old(store).group_id(group_name@), host_uuid, user_uuid: None },
            LogTargetType::Group,
            LogOperationType::Updated,
            Some(if active {
                "active"@
            } else {
                "inactive"@
            }),
        ),
        old(store).role_invariant() ==> final(store).role_invariant(),
{
    let i = match store.find_group(group_name) {
        Some(i) => i,
        None => {
            return Err(PacksError::GroupNotFound);
        },
    };
    let group_id: i32 = store.groups[i].id;
    let mut changed = store.groups[i].clone();
    changed.active = active;
    let ghost shown = changed;
    store.groups.set(i, changed);
    proof {
        lemma_group_replaced(*old(store), *store, i as int, shown);
    }
    let log_ctx = LogContext::with(group_id, host_uuid);
    let comment = if active {
        log_comment_body("active")
    } else {
        log_comment_body("inactive")
    };
    store.db_log(&log_ctx, LogTargetType::Group, LogOperationType::Updated, comment);
    Ok(())
}

/// Changes the trust tier of the group called `group_name` and records the
/// change.
pub fn update_group_trust(host_uuid: u128, store: &mut Store, group_name: &str, trust: TrustType) -> (r:
    Result<(), PacksError>)
    requires
        old(store).wf(),
    ensures
        final(store).wf(),
        r is Ok <==> old(store).has_group(group_name@),
        r is Err ==> r == Err::<(), PacksError>(PacksError::GroupNotFound) && *final(store) == *old(
            store,
        ),
        r is Ok ==> group_changed(
            old(store),
            final(store),
            group_name@,
            Group { trust, ..old(store).group(group_name@) },
        ) && log_appended(
            old(store).logs@,
            final(store).logs@,
            LogContext { group_id: old(store).group_id(group_name@), host_uuid, user_uuid: None },
            LogTargetType::Group,
            LogOperationType::Updated,
            Some("trust"@),
        ),
        old(store).role_invariant() ==> final(store).role_invariant(),
{
    let i = match store.find_group(group_name) {
        Some(i) => i,
        None => {
            return Err(PacksError::GroupNotFound);
        },
    };
    let group_id: i32 = store.groups[i].id;
    let mut changed = store.groups[i].clone();
    changed.trust = trust;
    let ghost shown = changed;
    store.groups.set(i, changed);
    proof {
        lemma_group_replaced(*old(store), *store, i as int, shown);
    }
    let log_ctx = LogContext::with(group_id, host_uuid);
    store.db_log(&log_ctx, LogTargetType::Group, LogOperationType::Updated, log_comment_body("trust"));
    Ok(())
}

/// The groups that are out of use.
pub open spec fn inactive() -> spec_fn(Group) -> bool {
    |g: Group| !g.active
}

/// One page of a listing of groups.
#[derive(Debug, PartialEq, Eq)]
pub struct PaginatedGroups {
    pub groups: Vec<Group>,
    /// The offset of the page that follows; none after an empty page.
    pub next: Option<i64>,
}

/// The page of at most `limit` groups at `offset` of the groups that are
/// out of use, in the order of the group table.
pub fn list_inactive_groups(store: &Store, limit: i64, offset: i64) -> (r: PaginatedGroups)
    ensures
        r.groups@ == page_of(store.groups@.filter(inactive()), offset, limit),
        r.next == next_after(offset, r.groups@.len() as int),
{
    let ghost rows = store.groups@;
    let mut idle: Vec<usize> = Vec::new();
    let mut i: usize = 0;
    let ghost pick = |at: usize| rows[at as int];
    assert(rows.take(0).filter(inactive()) =~= Seq::<Group>::empty());
    assert(idle@.map_values(pick) =~= Seq::<Group>::empty());
    while i < store.groups.len()
        invariant
            i <= store.groups.len(),
            rows == store.groups@,
            pick == |at: usize| rows[at as int],
            forall|a: int| 0 <= a < idle@.len() ==> (#[trigger] idle@[a]) < rows.len(),
            idle@.map_values(pick) == rows.take(i as int).filter(inactive()),
        decreases store.groups.len() - i,
    {
        proof {
            lemma_filter_step(rows, i as int, inactive());
            crate::sequences::lemma_map_push(idle@, i, pick);
        }
        if !store.groups[i].active {
            idle.push(i);
        }
        i += 1;
    }
    proof {
        lemma_take_all(rows);
    }
    let bounds = page_bounds(idle.len(), offset, limit);
    let ghost all = rows.filter(inactive());
    let mut groups: Vec<Group> = Vec::new();
    let mut j: usize = bounds.start;
    assert(all.subrange(bounds.start as int, bounds.start as int) =~= Seq::<Group>::empty());
    while j < bounds.end
        invariant
            bounds.start <= j <= bounds.end <= idle@.len(),
            rows == store.groups@,
            pick == |at: usize| rows[at as int],
            forall|a: int| 0 <= a < idle@.len() ==> (#[trigger] idle@[a]) < rows.len(),
            idle@.map_values(pick) == all,
            groups@ == all.subrange(bounds.start as int, j as int),
        decreases bounds.end - j,
    {
        let at: usize = idle[j];
        assert(all[j as int] == pick(at));
        groups.push(store.groups[at].clone());
        assert(groups@ =~= all.subrange(bounds.start as int, j + 1));
        j += 1;
    }
    PaginatedGroups { groups, next: bounds.next }
}

/// What [`reserve_group`] leaves behind and returns: the group exists with
/// its two roles, so that its name is taken, and is marked as out of use.
pub open spec fn reserve_group_post(
    before: &Store,
    after: &Store,
    r: Result<(), PacksError>,
    creator_uuid: u128,
    group_name: Seq<char>,
    now: Timestamp,
) -> bool {
    let taken = before.has_group(group_name);
    let full = before.next_group_id == i32::MAX || before.next_role_id >= i32::MAX - 1;
    &&& taken ==> failed_with(r, PacksError::GroupNameTaken)
    &&& !taken && full ==> failed_with(r, PacksError::StorageError)
    &&& !taken && !full ==> r is Ok
    &&& r is Err ==> *after == *before
    &&& r is Ok ==> exists|created: Store, group: Group|
        reserved_by_way_of(before, created, group, after, creator_uuid, group_name, now)
}

/// Whether a reservation went from `before` by way of `created`, where the
/// group `group` stands, to `after`, where it is marked as out of use.
pub open spec fn reserved_by_way_of(
    before: &Store,
    created: Store,
    group: Group,
    after: &Store,
    creator_uuid: u128,
    group_name: Seq<char>,
    now: Timestamp,
) -> bool {
    &&& created_with_roles(before, &created)
    &&& created.groups@.last() == group
    &&& group.name@ == group_name
    &&& group.typ == crate::types::GroupType::Closed
    &&& group.trust == TrustType::Staff
    &&& group.description@.len() == 0
    &&& group.group_expiration is None
    &&& group.created == now
    &&& group.terms@.len() == 0
    &&& group.invitation_email@.len() == 0
    &&& log_view(created.logs@) == log_view(before.logs@) + seq![
        record(
            LogContext { group_id: group.id, host_uuid: creator_uuid, user_uuid: None },
            LogTargetType::Group,
            LogOperationType::Created,
            None,
        ),
        record(
            LogContext { group_id: group.id, host_uuid: creator_uuid, user_uuid: None },
            LogTargetType::Role,
            LogOperationType::Created,
            Some("admin"@),
        ),
        record(
            LogContext { group_id: group.id, host_uuid: creator_uuid, user_uuid: None },
            LogTargetType::Role,
            LogOperationType::Created,
            Some("member"@),
        ),
    ]
    &&& group_changed(&created, after, group_name, Group { active: false, ..group })
    &&& log_appended(
        created.logs@,
        after.logs@,
        LogContext { group_id: group.id, host_uuid: creator_uuid, user_uuid: None },
        LogTargetType::Group,
        LogOperationType::Updated,
        Some("inactive"@),
    )
}

/// Reserves the name `group_name`: creates a group of that name with its
/// two roles and marks it as out of use.
pub fn reserve_group(creator_uuid: u128, store: &mut Store, group_name: &str, now: Timestamp) -> (r:
    Result<(), PacksError>)
    requires
        old(store).wf(),
    ensures
        final(store).wf(),
        reserve_group_post(old(store), final(store), r, creator_uuid, group_name@, now),
        old(store).role_invariant() ==> final(store).role_invariant(),
{
    let new_group = NewGroup {
        name: String::from_str(group_name),
        typ: crate::types::GroupType::Closed,
        description: String::new(),
        trust: TrustType::Staff,
        group_expiration: None,
    };
    let group = match create_group(creator_uuid, store, new_group, now) {
        Ok(group) => group,
        Err(e) => {
            return Err(e);
        },
    };
    let ghost created = *store;
    proof {
        let at = old(store).groups@.len() as int;
        assert(created.groups@[at] == created.groups@.last());
        assert(group_at(created.groups@, group_name@, at));
        crate::store::lemma_group_pos(created.groups@, created.next_group_id, group_name@, at);
    }
    match set_active(creator_uuid, store, group_name, false) {
        Ok(()) => {},
        Err(e) => {
            return Err(e);
        },
    }
    proof {
        assert(reserved_by_way_of(old(store), created, group, store, creator_uuid, group_name@, now));
    }
    Ok(())
}

} // verus!
