//! A check of the rules of the store at run time, for a store that did not
//! come out of the operations of the engine, such as one read from a dump.

use vstd::prelude::*;
use crate::store::{
    group_id_at, groups_wf, key_of, memberships_wf, role_id_at, roles_wf, unique_keys, users_wf,
    Store,
};
use crate::types::RoleType;

verus! {

impl Store {
    /// Whether names and ids identify the groups, and every id was handed
    /// out already.
    pub fn groups_well_formed(&self) -> (r: bool)
        ensures
            r == groups_wf(self.groups@, self.next_group_id),
    {
        let ghost rows = self.groups@;
        let mut j: usize = 0;
        while j < self.groups.len()
            invariant
                j <= self.groups.len(),
                rows == self.groups@,
                forall|a: int, b: int|
                    #![trigger rows[a], rows[b]]
                    0 <= a < b < j ==> rows[a].id != rows[b].id && rows[a].name@ != rows[b].name@,
                forall|a: int| 0 <= a < j ==> (#[trigger] rows[a]).id < self.next_group_id,
            decreases self.groups.len() - j,
        {
            if self.groups[j].id >= self.next_group_id {
                assert(!(rows[j as int].id < self.next_group_id));
                return false;
            }
            let mut i: usize = 0;
            while i < j
                invariant
                    i <= j < self.groups.len(),
                    rows == self.groups@,
                    forall|a: int|
                        0 <= a < i ==> (#[trigger] rows[a]).id != rows[j as int].id && rows[a].name@
                            != rows[j as int].name@,
                decreases j - i,
            {
                if self.groups[i].id == self.groups[j].id || self.groups[i].name
                    == self.groups[j].name {
                    assert(!(rows[i as int].id != rows[j as int].id && rows[i as int].name@
                        != rows[j as int].name@));
                    return false;
                }
                i += 1;
            }
            j += 1;
        }
        true
    }

    /// Whether a group has the id `id`.
    pub fn knows_group_id(&self, id: i32) -> (r: bool)
        ensures
            r == self.has_group_id(id),
    {
        let mut g: usize = 0;
        while g < self.groups.len()
            invariant
                g <= self.groups.len(),
                forall|a: int| 0 <= a < g ==> !group_id_at(self.groups@, id, a),
            decreases self.groups.len() - g,
        {
            if self.groups[g].id == id {
                assert(group_id_at(self.groups@, id, g as int));
                return true;
            }
            g += 1;
        }
        false
    }

    /// Whether ids identify the roles, every role belongs to a group that
    /// exists, and no group owns two member roles or two admin roles.
    pub fn roles_well_formed(&self) -> (r: bool)
        ensures
            r == roles_wf(self.roles@, self.groups@, self.next_role_id),
    {
        let ghost rows = self.roles@;
        let mut j: usize = 0;
        while j < self.roles.len()
            invariant
                j <= self.roles.len(),
                rows == self.roles@,
                forall|a: int, b: int|
                    #![trigger rows[a], rows[b]]
                    0 <= a < b < j ==> rows[a].id != rows[b].id,
                forall|a: int| 0 <= a < j ==> (#[trigger] rows[a]).id < self.next_role_id,
                forall|a: int|
                    0 <= a < j ==> exists|g: int|
                        group_id_at(self.groups@, (#[trigger] rows[a]).group_id, g),
                forall|a: int, b: int|
                    #![trigger rows[a], rows[b]]
                    0 <= a < b < j && rows[a].group_id == rows[b].group_id && rows[a].typ
                        == rows[b].typ ==> rows[a].typ == RoleType::Curator,
            decreases self.roles.len() - j,
        {
            if self.roles[j].id >= self.next_role_id {
                assert(!(rows[j as int].id < self.next_role_id));
                return false;
            }
            if !self.knows_group_id(self.roles[j].group_id) {
                assert(!exists|g: int| group_id_at(self.groups@, rows[j as int].group_id, g));
                return false;
            }
            let single = match self.roles[j].typ {
                RoleType::Curator => false,
                _ => true,
            };
            let mut i: usize = 0;
            while i < j
                invariant
                    i <= j < self.roles.len(),
                    rows == self.roles@,
                    single == (rows[j as int].typ != RoleType::Curator),
                    forall|a: int| 0 <= a < i ==> (#[trigger] rows[a]).id != rows[j as int].id,
                    forall|a: int|
                        0 <= a < i && (#[trigger] rows[a]).group_id == rows[j as int].group_id
                            && rows[a].typ == rows[j as int].typ ==> rows[a].typ
                            == RoleType::Curator,
                decreases j - i,
            {
                if self.roles[i].id == self.roles[j].id {
                    assert(!(rows[i as int].id != rows[j as int].id));
                    return false;
                }
                if single && self.roles[i].group_id == self.roles[j].group_id && self.roles[i].typ
                    == self.roles[j].typ {
                    assert(rows[i as int].group_id == rows[j as int].group_id && rows[i as int].typ
                        == rows[j as int].typ && rows[i as int].typ != RoleType::Curator);
                    return false;
                }
                i += 1;
            }
            j += 1;
        }
        true
    }

    /// Whether the group `group_id` owns the role `role_id`.
    pub fn knows_role_of(&self, role_id: i32, group_id: i32) -> (r: bool)
        ensures
            r == exists|k: int| role_id_at(self.roles@, role_id, group_id, k),
    {
        let mut k: usize = 0;
        while k < self.roles.len()
            invariant
                k <= self.roles.len(),
                forall|a: int| 0 <= a < k ==> !role_id_at(self.roles@, role_id, group_id, a),
            decreases self.roles.len() - k,
        {
            if self.roles[k].id == role_id && self.roles[k].group_id == group_id {
                assert(role_id_at(self.roles@, role_id, group_id, k as int));
                return true;
            }
            k += 1;
        }
        false
    }

    /// Whether a pair of group and user identifies a membership, and every
    /// membership carries a role of its own group.
    pub fn memberships_well_formed(&self) -> (r: bool)
        ensures
            r == memberships_wf(self.memberships@, self.roles@),
    {
        let ghost rows = self.memberships@;
        let mut j: usize = 0;
        while j < self.memberships.len()
            invariant
                j <= self.memberships.len(),
                rows == self.memberships@,
                forall|a: int, b: int|
                    #![trigger rows[a], rows[b]]
                    0 <= a < b < j ==> key_of(rows[a]) != key_of(rows[b]),
                forall|a: int|
                    0 <= a < j ==> exists|k: int|
                        role_id_at(self.roles@, (#[trigger] rows[a]).role_id, rows[a].group_id, k),
            decreases self.memberships.len() - j,
        {
            let m = self.memberships[j];
            if !self.knows_role_of(m.role_id, m.group_id) {
                assert(!exists|k: int|
                    role_id_at(self.roles@, rows[j as int].role_id, rows[j as int].group_id, k));
                return false;
            }
            let mut i: usize = 0;
            while i < j
                invariant
                    i <= j < self.memberships.len(),
                    rows == self.memberships@,
                    m == rows[j as int],
                    forall|a: int| 0 <= a < i ==> key_of(#[trigger] rows[a]) != key_of(m),
                decreases j - i,
            {
                if self.memberships[i].group_id == m.group_id && self.memberships[i].user_uuid
                    == m.user_uuid {
                    assert(key_of(rows[i as int]) == key_of(rows[j as int]));
                    assert(!unique_keys(rows));
                    return false;
                }
                i += 1;
            }
            j += 1;
        }
        true
    }

    /// Whether the UUID identifies the cached profiles.
    pub fn users_well_formed(&self) -> (r: bool)
        ensures
            r == users_wf(self.users@),
    {
        let ghost rows = self.users@;
        let mut j: usize = 0;
        while j < self.users.len()
            invariant
                j <= self.users.len(),
                rows == self.users@,
                forall|a: int, b: int|
                    #![trigger rows[a], rows[b]]
                    0 <= a < b < j ==> rows[a].user_uuid != rows[b].user_uuid,
            decreases self.users.len() - j,
        {
            let mut i: usize = 0;
            while i < j
                invariant
                    i <= j < self.users.len(),
                    rows == self.users@,
                    forall|a: int|
                        0 <= a < i ==> (#[trigger] rows[a]).user_uuid != rows[j as int].user_uuid,
                decreases j - i,
            {
                if self.users[i].user_uuid == self.users[j].user_uuid {
                    assert(!(rows[i as int].user_uuid != rows[j as int].user_uuid));
                    return false;
                }
                i += 1;
            }
            j += 1;
        }
        true
    }

    /// Whether the store obeys the rules of its tables: the condition under
    /// which the operations of the engine may be applied to it.
    pub fn is_well_formed(&self) -> (r: bool)
        ensures
            r == self.wf(),
    {
        self.groups_well_formed() && self.roles_well_formed() && self.memberships_well_formed()
            && self.users_well_formed()
    }

    /// Whether every group owns a member role and an admin role.
    pub fn has_all_roles(&self) -> (r: bool)
        requires
            self.wf(),
        ensures
            r == self.role_invariant(),
    {
        let mut i: usize = 0;
        while i < self.groups.len()
            invariant
                self.wf(),
                i <= self.groups.len(),
                forall|a: int|
                    0 <= a < i ==> self.has_role((#[trigger] self.groups@[a]).id, RoleType::Member)
                        && self.has_role(self.groups@[a].id, RoleType::Admin),
            decreases self.groups.len() - i,
        {
            let id: i32 = self.groups[i].id;
            if self.find_role(id, RoleType::Member).is_none() || self.find_role(
                id,
                RoleType::Admin,
            ).is_none() {
                assert(!(self.has_role(self.groups@[i as int].id, RoleType::Member) && self.has_role(
                    self.groups@[i as int].id,
                    RoleType::Admin,
                )));
                return false;
            }
            i += 1;
        }
        true
    }
}

} // verus!
