//! Partitioning memberships by their holder, ahead of a sweep that handles
//! every user on their own.

use vstd::prelude::*;
use crate::model::Membership;
use crate::sequences::{lemma_filter_step, lemma_take_all, lemma_take_step};
use crate::types::User;

verus! {

/// The memberships of one user.
#[derive(Debug, PartialEq, Eq)]
pub struct UserMemberships {
    pub user: User,
    pub memberships: Vec<Membership>,
}

/// The memberships that `user_uuid` holds.
pub open spec fn held_by(user_uuid: u128) -> spec_fn(Membership) -> bool {
    |m: Membership| m.user_uuid == user_uuid
}

/// The holders of the memberships `rows`, each once, in the order in which
/// they first occur.
pub open spec fn holders(rows: Seq<Membership>) -> Seq<u128>
    decreases rows.len(),
{
    if rows.len() == 0 {
        Seq::empty()
    } else {
        let prior = holders(rows.drop_last());
        if prior.contains(rows.last().user_uuid) {
            prior
        } else {
            prior.push(rows.last().user_uuid)
        }
    }
}

/// Whether `buckets` is the partition of `rows` by holder: one bucket for
/// every holder, in the order of first occurrence, with the memberships of
/// that holder in the order of `rows`.
pub open spec fn partitioned(rows: Seq<Membership>, buckets: Seq<UserMemberships>) -> bool {
    &&& buckets.len() == holders(rows).len()
    &&& forall|k: int|
        0 <= k < buckets.len() ==> (#[trigger] buckets[k]).user.user_uuid == holders(rows)[k]
            && buckets[k].memberships@ == rows.filter(held_by(holders(rows)[k]))
}

/// A user is among the holders exactly when one of the memberships is
/// theirs, and no holder is listed twice.
pub proof fn lemma_holders(rows: Seq<Membership>)
    ensures
        holders(rows).no_duplicates(),
        forall|u: u128|
            holders(rows).contains(u) <==> exists|i: int|
                0 <= i < rows.len() && (#[trigger] rows[i]).user_uuid == u,
    decreases rows.len(),
{
    if rows.len() > 0 {
        let rest = rows.drop_last();
        let prior = holders(rest);
        lemma_holders(rest);
        let last = rows.last().user_uuid;
        assert forall|u: u128| holders(rows).contains(u) <==> exists|i: int|
            0 <= i < rows.len() && (#[trigger] rows[i]).user_uuid == u by {
            if holders(rows).contains(u) {
                if prior.contains(u) {
                    let i = choose|i: int| 0 <= i < rest.len() && (#[trigger] rest[i]).user_uuid == u;
                    assert(rows[i].user_uuid == u);
                } else {
                    let j = choose|j: int| 0 <= j < holders(rows).len() && holders(rows)[j] == u;
                    assert(u == last);
                    assert(rows[rows.len() - 1].user_uuid == u);
                }
            }
            if exists|i: int| 0 <= i < rows.len() && (#[trigger] rows[i]).user_uuid == u {
                let i = choose|i: int| 0 <= i < rows.len() && (#[trigger] rows[i]).user_uuid == u;
                if i < rest.len() {
                    assert(rest[i].user_uuid == u);
                    assert(prior.contains(u));
                    let j = choose|j: int| 0 <= j < prior.len() && prior[j] == u;
                    assert(holders(rows)[j] == u);
                } else {
                    if prior.contains(last) {
                    } else {
                        assert(holders(rows)[prior.len() as int] == last);
                    }
                }
            }
        }
    }
}

/// The holders of `rows`, each once, in the order of first occurrence.
pub fn distinct_holders(rows: &Vec<Membership>) -> (r: Vec<u128>)
    ensures
        r@ == holders(rows@),
{
    let mut users: Vec<u128> = Vec::new();
    let mut i: usize = 0;
    assert(rows@.take(0) =~= Seq::<Membership>::empty());
    while i < rows.len()
        invariant
            i <= rows.len(),
            users@ == holders(rows@.take(i as int)),
        decreases rows.len() - i,
    {
        let u: u128 = rows[i].user_uuid;
        proof {
            lemma_take_step(rows@, i as int);
            assert(rows@.take(i + 1).drop_last() =~= rows@.take(i as int));
        }
        let mut known = false;
        let mut j: usize = 0;
        while j < users.len()
            invariant
                j <= users.len(),
                known <==> exists|a: int| 0 <= a < j && users@[a] == u,
            decreases users.len() - j,
        {
            if users[j] == u {
                known = true;
            }
            j += 1;
        }
        if !known {
            users.push(u);
        }
        i += 1;
    }
    proof {
        lemma_take_all(rows@);
    }
    users
}

/// The memberships among `rows` that `user_uuid` holds, in their order.
pub fn memberships_of(rows: &Vec<Membership>, user_uuid: u128) -> (r: Vec<Membership>)
    ensures
        r@ == rows@.filter(held_by(user_uuid)),
{
    let mut found: Vec<Membership> = Vec::new();
    let mut i: usize = 0;
    assert(rows@.take(0).filter(held_by(user_uuid)) =~= Seq::<Membership>::empty());
    while i < rows.len()
        invariant
            i <= rows.len(),
            found@ == rows@.take(i as int).filter(held_by(user_uuid)),
        decreases rows.len() - i,
    {
        proof {
            lemma_filter_step(rows@, i as int, held_by(user_uuid));
        }
        if rows[i].user_uuid == user_uuid {
            found.push(rows[i]);
        }
        i += 1;
    }
    proof {
        lemma_take_all(rows@);
    }
    found
}

/// Partitions `rows` by holder.
pub fn group_by_user(rows: &Vec<Membership>) -> (r: Vec<UserMemberships>)
    ensures
        partitioned(rows@, r@),
{
    let users = distinct_holders(rows);
    let mut buckets: Vec<UserMemberships> = Vec::new();
    let mut k: usize = 0;
    while k < users.len()
        invariant
            k <= users.len(),
            users@ == holders(rows@),
            buckets@.len() == k,
            forall|a: int|
                0 <= a < k ==> (#[trigger] buckets@[a]).user.user_uuid == holders(rows@)[a]
                    && buckets@[a].memberships@ == rows@.filter(held_by(holders(rows@)[a])),
        decreases users.len() - k,
    {
        let u: u128 = users[k];
        let bucket = UserMemberships {
            user: User { user_uuid: u },
            memberships: memberships_of(rows, u),
        };
        buckets.push(bucket);
        k += 1;
    }
    buckets
}

} // verus!
