use dino_park_packs::clock::Timestamp;
use dino_park_packs::error::{ErrorKind, PacksError};
use dino_park_packs::group::{
    add_admin_role, add_group, add_role, contains_id, create_group, get_group, get_group_by_id,
    get_groups_by_ids, list_inactive_groups, set_active, set_created, set_terms,
    update_group_trust, update_invitation_text,
};
use dino_park_packs::member::{add_member_role, member_role};
use dino_park_packs::model::{LogContext, NewGroup};
use dino_park_packs::paging::page_bounds;
use dino_park_packs::store::Store;
use dino_park_packs::types::{
    GroupType, LogOperationType, LogTargetType, RoleType, TrustType, User,
};

const NOW: Timestamp = Timestamp { micros: 1_600_000_000_000_000 };

fn new_group(name: &str) -> NewGroup {
    NewGroup {
        name: name.to_owned(),
        typ: GroupType::Closed,
        description: format!("about {}", name),
        trust: TrustType::Authenticated,
        group_expiration: None,
    }
}

fn role_count(store: &Store, group_id: i32, typ: RoleType) -> usize {
    store.roles.iter().filter(|r| r.group_id == group_id && r.typ == typ).count()
}

#[test]
fn an_empty_store() {
    let store = Store::new();
    assert!(store.groups.is_empty());
    assert!(store.roles.is_empty());
    assert!(store.memberships.is_empty());
    assert!(store.logs.is_empty());
    assert_eq!(store.find_group("ships"), None);
    assert_eq!(get_group(&store, "ships"), Err(PacksError::GroupNotFound));
    assert_eq!(get_group_by_id(&store, 1), None);
}

#[test]
fn create_group_makes_the_group_and_both_roles() {
    let mut store = Store::new();
    let group = create_group(7, &mut store, new_group("ships"), NOW).unwrap();
    assert_eq!(group.id, 1);
    assert_eq!(group.name, "ships");
    assert_eq!(group.typ, GroupType::Closed);
    assert_eq!(group.trust, TrustType::Authenticated);
    assert_eq!(group.description, "about ships");
    assert_eq!(group.created, NOW);
    assert_eq!(group.terms, "");
    assert_eq!(group.invitation_email, "");
    assert!(group.active);
    assert_eq!(store.groups, vec![group.clone()]);
    assert_eq!(store.roles.len(), 2);
    assert_eq!(store.roles[0].id, 1);
    assert_eq!(store.roles[0].typ, RoleType::Admin);
    assert_eq!(store.roles[0].name, "admin");
    assert_eq!(store.roles[0].group_id, 1);
    assert_eq!(store.roles[1].id, 2);
    assert_eq!(store.roles[1].typ, RoleType::Member);
    assert_eq!(store.roles[1].name, "member");
    assert_eq!(store.roles[1].group_id, 1);
    assert_eq!(store.logs.len(), 3);
    assert_eq!(store.logs[0].target, LogTargetType::Group);
    assert_eq!(store.logs[0].operation, LogOperationType::Created);
    assert_eq!(store.logs[0].host_uuid, 7);
    assert_eq!(store.logs[0].body, None);
    assert_eq!(store.logs[1].target, LogTargetType::Role);
    assert_eq!(store.logs[1].body, Some("admin".to_owned()));
    assert_eq!(store.logs[2].target, LogTargetType::Role);
    assert_eq!(store.logs[2].body, Some("member".to_owned()));
    assert_eq!(get_group(&store, "ships"), Ok(group.clone()));
    assert_eq!(get_group_by_id(&store, 1), Some(group));
    assert_eq!(member_role(&store, "ships").unwrap().id, 2);
}

#[test]
fn every_group_has_one_member_role_and_one_admin_role() {
    let mut store = Store::new();
    for name in ["ships", "boats", "rafts"] {
        create_group(0, &mut store, new_group(name), NOW).unwrap();
    }
    let ctx = LogContext::with(2, 0);
    add_role(&ctx, &mut store, RoleType::Curator).unwrap();
    add_role(&ctx, &mut store, RoleType::Curator).unwrap();
    assert_eq!(add_member_role(0, &mut store, 2), Err(PacksError::RoleInvariantViolation));
    assert_eq!(add_admin_role(&ctx, &mut store, 2), Err(PacksError::RoleInvariantViolation));
    for group in store.groups.iter() {
        assert_eq!(role_count(&store, group.id, RoleType::Member), 1);
        assert_eq!(role_count(&store, group.id, RoleType::Admin), 1);
    }
    assert_eq!(role_count(&store, 2, RoleType::Curator), 2);
    assert_eq!(role_count(&store, 1, RoleType::Curator), 0);
}

#[test]
fn a_group_name_is_taken_once() {
    let mut store = Store::new();
    create_group(0, &mut store, new_group("ships"), NOW).unwrap();
    let before = format!("{:?}", store);
    assert_eq!(
        create_group(0, &mut store, new_group("ships"), NOW),
        Err(PacksError::GroupNameTaken)
    );
    assert_eq!(add_group(0, &mut store, new_group("ships"), NOW), Err(PacksError::GroupNameTaken));
    assert_eq!(format!("{:?}", store), before);
    assert_eq!(PacksError::GroupNameTaken.kind(), ErrorKind::Conflict);
}

#[test]
fn ids_run_out() {
    let mut store = Store::new();
    store.next_group_id = i32::MAX;
    assert_eq!(add_group(0, &mut store, new_group("ships"), NOW), Err(PacksError::StorageError));
    assert_eq!(create_group(0, &mut store, new_group("ships"), NOW), Err(PacksError::StorageError));
    assert!(store.groups.is_empty());

    let mut store = Store::new();
    store.next_role_id = i32::MAX - 1;
    assert_eq!(create_group(0, &mut store, new_group("ships"), NOW), Err(PacksError::StorageError));
    assert!(store.groups.is_empty());
    assert!(store.roles.is_empty());
    assert!(store.logs.is_empty());
    store.next_role_id = i32::MAX - 2;
    assert!(create_group(0, &mut store, new_group("ships"), NOW).is_ok());
    assert_eq!(store.next_role_id, i32::MAX);
    assert_eq!(
        add_role(&LogContext::with(1, 0), &mut store, RoleType::Curator),
        Err(PacksError::StorageError)
    );
    assert_eq!(PacksError::StorageError.kind(), ErrorKind::Storage);
}

#[test]
fn roles_are_added_one_by_one_to_a_bare_group() {
    let mut store = Store::new();
    let group = add_group(3, &mut store, new_group("ships"), NOW).unwrap();
    assert!(store.roles.is_empty());
    assert_eq!(member_role(&store, "ships"), Err(PacksError::RoleNotFound));
    let member = add_member_role(3, &mut store, group.id).unwrap();
    assert_eq!(member.typ, RoleType::Member);
    assert_eq!(member.name, "member");
    assert_eq!(member.group_id, group.id);
    assert_eq!(member_role(&store, "ships"), Ok(member));
    assert_eq!(add_member_role(3, &mut store, group.id), Err(PacksError::RoleInvariantViolation));
    let admin = add_admin_role(&LogContext::with(99, 3), &mut store, group.id).unwrap();
    assert_eq!(admin.typ, RoleType::Admin);
    assert_eq!(admin.group_id, group.id);
    assert_eq!(store.logs.last().unwrap().group_id, group.id);
    assert_eq!(add_member_role(3, &mut store, 42), Err(PacksError::GroupNotFound));
    assert_eq!(store.roles.len(), 2);
}

#[test]
fn lookups_by_ids() {
    let mut store = Store::new();
    for name in ["a", "b", "c", "d"] {
        create_group(0, &mut store, new_group(name), NOW).unwrap();
    }
    let found = get_groups_by_ids(&store, &vec![3, 1, 3, 9]);
    let names: Vec<&str> = found.iter().map(|g| g.name.as_str()).collect();
    assert_eq!(names, vec!["a", "c"]);
    assert!(get_groups_by_ids(&store, &vec![]).is_empty());
    assert!(contains_id(&vec![1, 2], 2));
    assert!(!contains_id(&vec![1, 2], 3));
}

#[test]
fn texts_and_trust_of_a_group() {
    let mut store = Store::new();
    create_group(0, &mut store, new_group("ships"), NOW).unwrap();
    let logs = store.logs.len();
    set_terms(5, &mut store, "ships", "be kind".to_owned()).unwrap();
    assert_eq!(store.groups[0].terms, "be kind");
    assert_eq!(store.logs.len(), logs + 1);
    assert_eq!(store.logs.last().unwrap().target, LogTargetType::Terms);
    update_invitation_text(&mut store, "ships", &User { user_uuid: 5 }, "welcome".to_owned())
        .unwrap();
    assert_eq!(store.groups[0].invitation_email, "welcome");
    assert_eq!(store.logs.last().unwrap().target, LogTargetType::Invitation);
    assert_eq!(store.logs.last().unwrap().operation, LogOperationType::Updated);
    update_group_trust(5, &mut store, "ships", TrustType::Staff).unwrap();
    assert_eq!(store.groups[0].trust, TrustType::Staff);
    assert_eq!(store.logs.last().unwrap().body, Some("trust".to_owned()));
    set_created(&mut store, "ships", Timestamp { micros: 12 }).unwrap();
    assert_eq!(store.groups[0].created, Timestamp { micros: 12 });
    assert_eq!(store.logs.len(), logs + 3);
    assert_eq!(store.groups[0].name, "ships");
    assert_eq!(store.groups[0].id, 1);
    assert_eq!(
        set_terms(5, &mut store, "boats", "x".to_owned()),
        Err(PacksError::GroupNotFound)
    );
    assert_eq!(
        update_group_trust(5, &mut store, "boats", TrustType::Staff),
        Err(PacksError::GroupNotFound)
    );
    assert_eq!(set_created(&mut store, "boats", NOW), Err(PacksError::GroupNotFound));
    assert_eq!(store.logs.len(), logs + 3);
}

#[test]
fn inactive_groups_in_pages() {
    let mut store = Store::new();
    for name in ["a", "b", "c", "d", "e", "f"] {
        create_group(0, &mut store, new_group(name), NOW).unwrap();
    }
    for name in ["b", "c", "e", "f"] {
        set_active(0, &mut store, name, false).unwrap();
    }
    set_active(0, &mut store, "c", true).unwrap();
    assert_eq!(store.logs.last().unwrap().body, Some("active".to_owned()));
    let page = list_inactive_groups(&store, 2, 0);
    let names: Vec<&str> = page.groups.iter().map(|g| g.name.as_str()).collect();
    assert_eq!(names, vec!["b", "e"]);
    assert_eq!(page.next, Some(2));
    let page = list_inactive_groups(&store, 2, 2);
    let names: Vec<&str> = page.groups.iter().map(|g| g.name.as_str()).collect();
    assert_eq!(names, vec!["f"]);
    assert_eq!(page.next, Some(3));
    let page = list_inactive_groups(&store, 2, 3);
    assert!(page.groups.is_empty());
    assert_eq!(page.next, None);
    let page = list_inactive_groups(&store, 20, -4);
    assert_eq!(page.groups.len(), 3);
    assert_eq!(page.next, Some(-1));
    let page = list_inactive_groups(&store, 0, 0);
    assert!(page.groups.is_empty());
    assert_eq!(page.next, None);
    assert_eq!(set_active(0, &mut store, "zz", false), Err(PacksError::GroupNotFound));
}

#[test]
fn page_bounds_of_a_list() {
    let bounds = page_bounds(10, 3, 4);
    assert_eq!((bounds.start, bounds.end, bounds.next), (3, 7, Some(7)));
    let bounds = page_bounds(10, 8, 4);
    assert_eq!((bounds.start, bounds.end, bounds.next), (8, 10, Some(10)));
    let bounds = page_bounds(10, 10, 4);
    assert_eq!((bounds.start, bounds.end, bounds.next), (10, 10, None));
    let bounds = page_bounds(10, 99, 4);
    assert_eq!((bounds.start, bounds.end, bounds.next), (10, 10, None));
    let bounds = page_bounds(10, -1, 4);
    assert_eq!((bounds.start, bounds.end, bounds.next), (0, 4, Some(3)));
    let bounds = page_bounds(10, 0, -1);
    assert_eq!((bounds.start, bounds.end, bounds.next), (0, 0, None));
    let bounds = page_bounds(10, 0, i64::MAX);
    assert_eq!((bounds.start, bounds.end, bounds.next), (0, 10, Some(10)));
    let bounds = page_bounds(0, 0, 5);
    assert_eq!((bounds.start, bounds.end, bounds.next), (0, 0, None));
    let bounds = page_bounds(10, i64::MAX, i64::MAX);
    assert_eq!((bounds.start, bounds.end, bounds.next), (10, 10, None));
}

use dino_park_packs::group::reserve_group;
use dino_park_packs::lifecycle::SyncCall;
use dino_park_packs::member::{add_to_group_at, set_role};
use dino_park_packs::pending::{add_invitation, add_request};
use dino_park_packs::retire::delete_inactive_group;

#[test]
fn a_reserved_name_is_taken() {
    let mut store = Store::new();
    assert_eq!(reserve_group(4, &mut store, "ships", NOW), Ok(()));
    assert_eq!(store.groups.len(), 1);
    let group = &store.groups[0];
    assert_eq!(group.name, "ships");
    assert!(!group.active);
    assert_eq!(group.trust, TrustType::Staff);
    assert_eq!(group.typ, GroupType::Closed);
    assert_eq!(group.created, NOW);
    assert_eq!(role_count(&store, 1, RoleType::Member), 1);
    assert_eq!(role_count(&store, 1, RoleType::Admin), 1);
    assert_eq!(store.logs.len(), 4);
    assert_eq!(store.logs[3].body, Some("inactive".to_owned()));
    assert_eq!(store.logs[3].host_uuid, 4);
    let before = format!("{:?}", store);
    assert_eq!(reserve_group(4, &mut store, "ships", NOW), Err(PacksError::GroupNameTaken));
    assert_eq!(
        create_group(0, &mut store, new_group("ships"), NOW),
        Err(PacksError::GroupNameTaken)
    );
    assert_eq!(format!("{:?}", store), before);
    assert_eq!(list_inactive_groups(&store, 5, 0).groups.len(), 1);
}

#[test]
fn a_group_in_use_is_not_deleted() {
    let mut store = Store::new();
    create_group(0, &mut store, new_group("ships"), NOW).unwrap();
    let before = format!("{:?}", store);
    assert_eq!(delete_inactive_group(0, &mut store, "ships"), Err(PacksError::NotAllowed));
    assert_eq!(delete_inactive_group(0, &mut store, "boats"), Err(PacksError::GroupNotFound));
    assert_eq!(format!("{:?}", store), before);
}

#[test]
fn deleting_a_group_takes_all_that_hangs_on_it() {
    let mut store = Store::new();
    for name in ["ships", "boats", "rafts"] {
        create_group(0, &mut store, new_group(name), NOW).unwrap();
    }
    let host = User { user_uuid: 100 };
    for (name, user) in [("ships", 1), ("boats", 1), ("boats", 2), ("rafts", 2), ("boats", 3)] {
        let user = User { user_uuid: user };
        add_to_group_at(&mut store, name, &host, &user, None, NOW).unwrap();
        add_invitation(&mut store, name, &host, &user, None, None).unwrap();
        add_request(&mut store, name, &user, None).unwrap();
    }
    add_role(&LogContext::with(2, 0), &mut store, RoleType::Curator).unwrap();
    set_active(9, &mut store, "boats", false).unwrap();
    let logs = store.logs.len();
    let calls = delete_inactive_group(9, &mut store, "boats").unwrap();
    assert_eq!(
        calls,
        vec![
            SyncCall::RemoveGroup { user_uuid: 1, group_name: "boats".to_owned() },
            SyncCall::RemoveGroup { user_uuid: 2, group_name: "boats".to_owned() },
            SyncCall::RemoveGroup { user_uuid: 3, group_name: "boats".to_owned() },
        ]
    );
    assert_eq!(
        store.groups.iter().map(|g| (g.id, g.name.as_str())).collect::<Vec<_>>(),
        vec![(1, "ships"), (3, "rafts")]
    );
    assert_eq!(
        store.roles.iter().map(|r| (r.id, r.group_id)).collect::<Vec<_>>(),
        vec![(1, 1), (2, 1), (5, 3), (6, 3)]
    );
    assert_eq!(
        store.memberships.iter().map(|m| (m.group_id, m.user_uuid)).collect::<Vec<_>>(),
        vec![(1, 1), (3, 2)]
    );
    assert_eq!(
        store.invitations.iter().map(|i| (i.group_id, i.user_uuid)).collect::<Vec<_>>(),
        vec![(1, 1), (3, 2)]
    );
    assert_eq!(
        store.requests.iter().map(|r| (r.group_id, r.user_uuid)).collect::<Vec<_>>(),
        vec![(1, 1), (3, 2)]
    );
    assert_eq!(store.logs.len(), logs + 1);
    let entry = store.logs.last().unwrap();
    assert_eq!(
        (entry.group_id, entry.host_uuid, entry.user_uuid, entry.target, entry.operation),
        (2, 9, None, LogTargetType::Group, LogOperationType::Deleted)
    );
    assert!(store.is_well_formed());
    assert!(store.has_all_roles());
    assert_eq!(get_group(&store, "boats"), Err(PacksError::GroupNotFound));
    let group = create_group(0, &mut store, new_group("boats"), NOW).unwrap();
    assert_eq!(group.id, 4);
}

#[test]
fn a_role_of_another_group_cannot_be_assigned() {
    let mut store = Store::new();
    create_group(0, &mut store, new_group("ships"), NOW).unwrap();
    create_group(0, &mut store, new_group("boats"), NOW).unwrap();
    let curator = add_role(&LogContext::with(1, 0), &mut store, RoleType::Curator).unwrap();
    let user = User { user_uuid: 1 };
    add_to_group_at(&mut store, "ships", &User::default(), &user, Some(3), NOW).unwrap();
    let held = store.memberships[0];
    let before = format!("{:?}", store);
    assert_eq!(set_role(7, &mut store, "ships", &user, 4), Err(PacksError::RoleInvariantViolation));
    assert_eq!(set_role(7, &mut store, "ships", &user, 99), Err(PacksError::RoleNotFound));
    assert_eq!(set_role(7, &mut store, "rafts", &user, 1), Err(PacksError::GroupNotFound));
    assert_eq!(
        set_role(7, &mut store, "boats", &user, 4),
        Err(PacksError::MembershipNotFound)
    );
    assert_eq!(format!("{:?}", store), before);
    assert_eq!(PacksError::RoleInvariantViolation.kind(), ErrorKind::Conflict);
    assert_eq!(set_role(7, &mut store, "ships", &user, curator.id), Ok(()));
    assert_eq!(
        store.memberships,
        vec![dino_park_packs::model::Membership { role_id: curator.id, ..held }]
    );
    let entry = store.logs.last().unwrap();
    assert_eq!(entry.operation, LogOperationType::Updated);
    assert_eq!(entry.target, LogTargetType::Membership);
    assert_eq!(entry.body, Some("role".to_owned()));
    assert_eq!(entry.host_uuid, 7);
    assert_eq!(set_role(7, &mut store, "ships", &user, 1), Ok(()));
    assert_eq!(store.memberships[0].role_id, 1);
}
