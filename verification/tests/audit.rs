use dino_park_packs::clock::Timestamp;
use dino_park_packs::group::{add_group, create_group};
use dino_park_packs::member::{add_admin, add_to_group_at};
use dino_park_packs::model::{Membership, NewGroup, UserProfile};
use dino_park_packs::store::Store;
use dino_park_packs::types::{GroupType, RoleType, TrustType, User};
use dino_park_packs::user::update_user_cache;

const NOW: Timestamp = Timestamp { micros: 1_600_000_000_000_000 };

fn new_group(name: &str) -> NewGroup {
    NewGroup {
        name: name.to_owned(),
        typ: GroupType::Closed,
        description: String::new(),
        trust: TrustType::Ndaed,
        group_expiration: None,
    }
}

fn profile(uuid: u128) -> UserProfile {
    UserProfile {
        user_uuid: uuid,
        user_id: format!("ad|{}", uuid),
        picture: String::new(),
        first_name: String::new(),
        last_name: String::new(),
        username: format!("user{}", uuid),
        email: format!("user{}@example.com", uuid),
        trust: TrustType::Ndaed,
    }
}

fn busy_store() -> Store {
    let mut store = Store::new();
    for name in ["ships", "boats"] {
        create_group(0, &mut store, new_group(name), NOW).unwrap();
    }
    for user in [1, 2, 3] {
        update_user_cache(&mut store, profile(user));
        add_to_group_at(&mut store, "ships", &User::default(), &User { user_uuid: user }, None, NOW)
            .unwrap();
    }
    add_admin(&mut store, "boats", &User::default(), &User { user_uuid: 1 }, NOW).unwrap();
    store
}

#[test]
fn stores_made_by_the_engine_are_well_formed() {
    assert!(Store::new().is_well_formed());
    assert!(Store::new().has_all_roles());
    let store = busy_store();
    assert!(store.groups_well_formed());
    assert!(store.roles_well_formed());
    assert!(store.memberships_well_formed());
    assert!(store.users_well_formed());
    assert!(store.is_well_formed());
    assert!(store.has_all_roles());
    assert!(store.knows_group_id(2));
    assert!(!store.knows_group_id(3));
    assert!(store.knows_role_of(2, 1));
    assert!(!store.knows_role_of(2, 2));
    assert!(!store.knows_role_of(9, 1));
}

#[test]
fn a_bare_group_lacks_its_roles() {
    let mut store = busy_store();
    add_group(0, &mut store, new_group("bare"), NOW).unwrap();
    assert!(store.is_well_formed());
    assert!(!store.has_all_roles());
}

#[test]
fn two_groups_of_one_name_or_id_are_found() {
    let mut store = busy_store();
    store.groups[1].name = "ships".to_owned();
    assert!(!store.groups_well_formed());
    assert!(!store.is_well_formed());
    let mut store = busy_store();
    store.groups[1].id = 1;
    assert!(!store.groups_well_formed());
    let mut store = busy_store();
    store.next_group_id = 2;
    assert!(!store.groups_well_formed());
}

#[test]
fn broken_roles_are_found() {
    let mut store = busy_store();
    store.roles[3].id = 1;
    assert!(!store.roles_well_formed());
    let mut store = busy_store();
    store.roles[0].typ = RoleType::Member;
    assert!(!store.roles_well_formed());
    let mut store = busy_store();
    store.roles[0].typ = RoleType::Curator;
    store.roles[1].typ = RoleType::Curator;
    assert!(store.roles_well_formed());
    assert!(!store.has_all_roles());
    let mut store = busy_store();
    store.roles[0].group_id = 9;
    assert!(!store.roles_well_formed());
    let mut store = busy_store();
    store.next_role_id = 4;
    assert!(!store.roles_well_formed());
    assert!(!store.is_well_formed());
}

#[test]
fn broken_memberships_are_found() {
    let mut store = busy_store();
    let twin: Membership = store.memberships[0];
    store.memberships.push(twin);
    assert!(!store.memberships_well_formed());
    assert!(!store.is_well_formed());
    let mut store = busy_store();
    store.memberships[0].role_id = 4;
    assert!(!store.memberships_well_formed());
    let mut store = busy_store();
    store.memberships[0].role_id = 77;
    assert!(!store.memberships_well_formed());
    let mut store = busy_store();
    store.memberships[0].group_id = 2;
    assert!(!store.memberships_well_formed());
}

#[test]
fn two_profiles_of_one_user_are_found() {
    let mut store = busy_store();
    store.users.push(profile(2));
    assert!(!store.users_well_formed());
    assert!(!store.is_well_formed());
    assert!(store.groups_well_formed());
}
