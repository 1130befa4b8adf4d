//! Consolidation: the comparison of what the store says of a user's groups
//! with what the identity service says, and the calls that mend the
//! difference.
//!
//! The store is the truth and is not changed. Every user with a membership
//! is compared on their own; a user for whom the identity service failed is
//! reported as such and the others are compared all the same.

use vstd::prelude::*;
use crate::error::PacksError;
use crate::lifecycle::{calls_view, SyncCall, SyncCallView};
use crate::model::Membership;
use crate::partition::{distinct_holders, held_by, holders};
use crate::sequences::{
    lemma_filter_map_step, lemma_filter_step, lemma_map_push, lemma_take_all, lemma_take_step,
    texts,
};
use crate::store::{group_id_at, role_id_at, Store};
use crate::types::User;

verus! {

/// What the identity service lists as the groups of a user, or why it
/// could not say.
#[derive(Debug, PartialEq, Eq)]
pub struct RemoteGroups {
    pub user_uuid: u128,
    pub groups: Result<Vec<String>, PacksError>,
}

/// The mathematical content of what the identity service said of a user.
pub open spec fn remote_view(groups: Result<Vec<String>, PacksError>) -> Result<
    Seq<Seq<char>>,
    PacksError,
> {
    match groups {
        Ok(names) => Ok(texts(names@)),
        Err(e) => Err(e),
    }
}

/// Whether entry `i` of `remote` speaks of `user_uuid`.
pub open spec fn remote_at(remote: Seq<RemoteGroups>, user_uuid: u128, i: int) -> bool {
    0 <= i < remote.len() && remote[i].user_uuid == user_uuid
}

/// Whether entry `i` of `remote` is the first that speaks of `user_uuid`.
pub open spec fn first_remote_at(remote: Seq<RemoteGroups>, user_uuid: u128, i: int) -> bool {
    remote_at(remote, user_uuid, i) && forall|j: int| 0 <= j < i ==> !remote_at(remote, user_uuid, j)
}

/// What the identity service said of `user_uuid`: its first answer, and a
/// failure where it gave none.
pub open spec fn remote_groups_of(remote: Seq<RemoteGroups>, user_uuid: u128) -> Result<
    Seq<Seq<char>>,
    PacksError,
> {
    if exists|i: int| remote_at(remote, user_uuid, i) {
        remote_view(remote[choose|i: int| first_remote_at(remote, user_uuid, i)].groups)
    } else {
        Err(PacksError::UpstreamError)
    }
}

/// The name of the group of a membership.
pub open spec fn group_name_of(store: Store) -> spec_fn(Membership) -> Seq<char> {
    |m: Membership| store.group_by_id(m.group_id).name@
}

/// The names of the groups in which `user_uuid` holds a membership, in the
/// order of the membership table.
pub open spec fn local_groups_of(store: Store, user_uuid: u128) -> Seq<Seq<char>> {
    store.memberships@.filter(held_by(user_uuid)).map_values(group_name_of(store))
}

/// The names that are not among `others`.
pub open spec fn not_among(others: Seq<Seq<char>>) -> spec_fn(Seq<char>) -> bool {
    |name: Seq<char>| !others.contains(name)
}

/// The call that adds a group to the profile of `user_uuid`.
pub open spec fn adding(user_uuid: u128) -> spec_fn(Seq<char>) -> SyncCallView {
    |name: Seq<char>| SyncCallView::AddGroup { user_uuid, group_name: name }
}

/// The call that takes a group from the profile of `user_uuid`.
pub open spec fn removing(user_uuid: u128) -> spec_fn(Seq<char>) -> SyncCallView {
    |name: Seq<char>| SyncCallView::RemoveGroup { user_uuid, group_name: name }
}

/// The outcome of the comparison for one user.
#[derive(Debug, PartialEq, Eq)]
pub struct Reconciled {
    pub user: User,
    /// Why the user could not be compared, if so.
    pub failure: Option<PacksError>,
    /// The groups that the store has and the identity service lacks.
    pub missing: Vec<String>,
    /// The groups that the identity service has and the store lacks.
    pub surplus: Vec<String>,
    /// The calls that mend the difference; none in a dry run.
    pub calls: Vec<SyncCall>,
}

/// The mathematical content of a [`Reconciled`].
pub struct ReconciledView {
    pub user: u128,
    pub failure: Option<PacksError>,
    pub missing: Seq<Seq<char>>,
    pub surplus: Seq<Seq<char>>,
    pub calls: Seq<SyncCallView>,
}

impl View for Reconciled {
    type V = ReconciledView;

    open spec fn view(&self) -> ReconciledView {
        ReconciledView {
            user: self.user.user_uuid,
            failure: self.failure,
            missing: texts(self.missing@),
            surplus: texts(self.surplus@),
            calls: calls_view(self.calls@),
        }
    }
}

/// The comparison for `user_uuid`: what is missing remotely is added, what
/// is surplus remotely is removed, unless the run is dry.
pub open spec fn reconcile_model(
    store: Store,
    remote: Seq<RemoteGroups>,
    user_uuid: u128,
    dry_run: bool,
) -> ReconciledView {
    match remote_groups_of(remote, user_uuid) {
        Err(e) => ReconciledView {
            user: user_uuid,
            failure: Some(e),
            missing: Seq::empty(),
            surplus: Seq::empty(),
            calls: Seq::empty(),
        },
        Ok(there) => {
            let here = local_groups_of(store, user_uuid);
            let missing = here.filter(not_among(there));
            let surplus = there.filter(not_among(here));
            ReconciledView {
                user: user_uuid,
                failure: None,
                missing,
                surplus,
                calls: if dry_run {
                    Seq::empty()
                } else {
                    missing.map_values(adding(user_uuid)) + surplus.map_values(removing(user_uuid))
                },
            }
        },
    }
}

/// Whether `name` is among `names`.
pub fn contains_text(names: &Vec<String>, name: &String) -> (r: bool)
    ensures
        r == texts(names@).contains(name@),
{
    let mut i: usize = 0;
    while i < names.len()
        invariant
            i <= names.len(),
            forall|j: int| 0 <= j < i ==> texts(names@)[j] != name@,
        decreases names.len() - i,
    {
        if names[i] == *name {
            assert(texts(names@)[i as int] == name@);
            return true;
        }
        i += 1;
    }
    false
}

/// The names among `names` that are not among `others`, in their order.
pub fn names_not_among(names: &Vec<String>, others: &Vec<String>) -> (r: Vec<String>)
    ensures
        texts(r@) == texts(names@).filter(not_among(texts(others@))),
{
    let ghost all = texts(names@);
    let ghost pred = not_among(texts(others@));
    let mut kept: Vec<String> = Vec::new();
    let mut i: usize = 0;
    assert(texts(kept@) =~= all.take(0).filter(pred));
    while i < names.len()
        invariant
            i <= names.len(),
            all == texts(names@),
            pred == not_among(texts(others@)),
            texts(kept@) == all.take(i as int).filter(pred),
        decreases names.len() - i,
    {
        proof {
            lemma_filter_step(all, i as int, pred);
            assert(all[i as int] == names@[i as int]@);
        }
        if !contains_text(others, &names[i]) {
            let name = names[i].clone();
            proof {
                lemma_map_push(kept@, name, |s: String| s@);
            }
            kept.push(name);
        }
        i += 1;
    }
    proof {
        lemma_take_all(all);
    }
    kept
}

/// The names of the groups in which `user_uuid` holds a membership.
pub fn local_groups(store: &Store, user_uuid: u128) -> (r: Vec<String>)
    requires
        store.wf(),
    ensures
        texts(r@) == local_groups_of(*store, user_uuid),
{
    let ghost rows = store.memberships@;
    let ghost f = group_name_of(*store);
    let mut names: Vec<String> = Vec::new();
    let mut i: usize = 0;
    assert(texts(names@) =~= rows.take(0).filter(held_by(user_uuid)).map_values(f));
    while i < store.memberships.len()
        invariant
            store.wf(),
            i <= store.memberships.len(),
            rows == store.memberships@,
            f == group_name_of(*store),
            texts(names@) == rows.take(i as int).filter(held_by(user_uuid)).map_values(f),
        decreases store.memberships.len() - i,
    {
        let m = store.memberships[i];
        proof {
            lemma_filter_map_step(rows, i as int, held_by(user_uuid), f);
            let k = choose|k: int| role_id_at(store.roles@, m.role_id, m.group_id, k);
            assert(role_id_at(store.roles@, m.role_id, m.group_id, k));
            let g = choose|g: int| group_id_at(store.groups@, store.roles@[k].group_id, g);
            assert(group_id_at(store.groups@, m.group_id, g));
        }
        if m.user_uuid == user_uuid {
            match store.find_group_by_id(m.group_id) {
                Some(g) => {
                    let name = store.groups[g].name.clone();
                    proof {
                        lemma_map_push(names@, name, |s: String| s@);
                    }
                    names.push(name);
                },
                None => {},
            }
        }
        i += 1;
    }
    proof {
        lemma_take_all(rows);
    }
    names
}

/// The calls that add the groups `names` to the profile of `user_uuid`, or
/// take them from it.
fn calls_for(names: &Vec<String>, user_uuid: u128, add: bool, calls: &mut Vec<SyncCall>)
    ensures
        calls_view(final(calls)@) == calls_view(old(calls)@) + texts(names@).map_values(
            if add {
                adding(user_uuid)
            } else {
                removing(user_uuid)
            },
        ),
{
    let ghost all = texts(names@);
    let ghost f = if add {
        adding(user_uuid)
    } else {
        removing(user_uuid)
    };
    let ghost start = calls_view(calls@);
    let mut i: usize = 0;
    assert(calls_view(calls@) =~= start + all.take(0).map_values(f));
    while i < names.len()
        invariant
            i <= names.len(),
            all == texts(names@),
            f == if add {
                adding(user_uuid)
            } else {
                removing(user_uuid)
            },
            calls_view(calls@) == start + all.take(i as int).map_values(f),
        decreases names.len() - i,
    {
        let call = if add {
            SyncCall::AddGroup { user_uuid, group_name: names[i].clone() }
        } else {
            SyncCall::RemoveGroup { user_uuid, group_name: names[i].clone() }
        };
        proof {
            lemma_take_step(all, i as int);
            lemma_map_push(all.take(i as int), all[i as int], f);
            lemma_map_push(calls@, call, |c: SyncCall| c@);
            assert(all[i as int] == names@[i as int]@);
            assert(calls_view(calls@.push(call)) =~= start + all.take(i + 1).map_values(f));
        }
        calls.push(call);
        i += 1;
    }
    proof {
        lemma_take_all(all);
    }
}

/// Compares what the store and the identity service say of `user_uuid`.
pub fn reconcile(store: &Store, remote: &Vec<RemoteGroups>, user_uuid: u128, dry_run: bool) -> (r:
    Reconciled)
    requires
        store.wf(),
    ensures
        r@ == reconcile_model(*store, remote@, user_uuid, dry_run),
{
    let user = User { user_uuid };
    let mut i: usize = 0;
    while i < remote.len()
        invariant
            store.wf(),
            i <= remote.len(),
            user.user_uuid == user_uuid,
            forall|j: int| 0 <= j < i ==> !remote_at(remote@, user_uuid, j),
        decreases remote.len() - i,
    {
        if remote[i].user_uuid == user_uuid {
            proof {
                assert(first_remote_at(remote@, user_uuid, i as int));
                let j = choose|j: int| first_remote_at(remote@, user_uuid, j);
                assert(i == j) by {
                    if i < j {
                        assert(!remote_at(remote@, user_uuid, i as int));
                    } else if j < i {
                        assert(!remote_at(remote@, user_uuid, j));
                    }
                }
                assert(remote_at(remote@, user_uuid, i as int));
                assert(remote_groups_of(remote@, user_uuid) == remote_view(remote@[i as int].groups));
            }
            match &remote[i].groups {
                Ok(there) => {
                    let here = local_groups(store, user_uuid);
                    let missing = names_not_among(&here, there);
                    let surplus = names_not_among(there, &here);
                    let mut calls: Vec<SyncCall> = Vec::new();
                    assert(calls_view(calls@) =~= Seq::<SyncCallView>::empty());
                    if !dry_run {
                        calls_for(&missing, user_uuid, true, &mut calls);
                        calls_for(&surplus, user_uuid, false, &mut calls);
                        assert(calls_view(calls@) =~= texts(missing@).map_values(adding(user_uuid))
                            + texts(surplus@).map_values(removing(user_uuid)));
                    }
                    let r = Reconciled { user, failure: None, missing, surplus, calls };
                    proof {
                        let model = reconcile_model(*store, remote@, user_uuid, dry_run);
                        assert(r@.missing == model.missing);
                        assert(r@.surplus == model.surplus);
                        assert(r@.calls =~= model.calls);
                    }
                    return r;
                },
                Err(e) => {
                    let r = Reconciled {
                        user,
                        failure: Some(*e),
                        missing: Vec::new(),
                        surplus: Vec::new(),
                        calls: Vec::new(),
                    };
                    assert(r@.missing =~= Seq::<Seq<char>>::empty());
                    assert(r@.surplus =~= Seq::<Seq<char>>::empty());
                    assert(r@.calls =~= Seq::<SyncCallView>::empty());
                    return r;
                },
            }
        }
        i += 1;
    }
    let r = Reconciled {
        user,
        failure: Some(PacksError::UpstreamError),
        missing: Vec::new(),
        surplus: Vec::new(),
        calls: Vec::new(),
    };
    assert(r@.missing =~= Seq::<Seq<char>>::empty());
    assert(r@.surplus =~= Seq::<Seq<char>>::empty());
    assert(r@.calls =~= Seq::<SyncCallView>::empty());
    r
}

/// What [`consolidate_users_with_cis`] returns: the comparison for every
/// user who holds a membership, in the order in which the users first occur
/// in the membership table.
pub open spec fn consolidate_post(
    store: Store,
    dry_run: bool,
    remote: Seq<RemoteGroups>,
    r: Seq<Reconciled>,
) -> bool {
    let users = holders(store.memberships@);
    &&& r.len() == users.len()
    &&& forall|k: int|
        0 <= k < r.len() ==> (#[trigger] r[k])@ == reconcile_model(store, remote, users[k], dry_run)
}

/// Compares the store with what the identity service said in `remote`,
/// user by user. In a dry run the differences are reported; else the calls
/// that carry the store's view to the identity service are given as well.
pub fn consolidate_users_with_cis(store: &Store, dry_run: bool, remote: &Vec<RemoteGroups>) -> (r:
    Vec<Reconciled>)
    requires
        store.wf(),
    ensures
        consolidate_post(*store, dry_run, remote@, r@),
{
    let users = distinct_holders(&store.memberships);
    let mut done: Vec<Reconciled> = Vec::new();
    let mut k: usize = 0;
    while k < users.len()
        invariant
            store.wf(),
            k <= users.len(),
            users@ == holders(store.memberships@),
            done@.len() == k,
            forall|a: int|
                0 <= a < k ==> (#[trigger] done@[a])@ == reconcile_model(
                    *store,
                    remote@,
                    users@[a],
                    dry_run,
                ),
        decreases users.len() - k,
    {
        let one = reconcile(store, remote, users[k], dry_run);
        done.push(one);
        k += 1;
    }
    done
}

} // verus!
