use dino_park_packs::clock::{DayWindow, Timestamp, MICROS_PER_DAY};
use dino_park_packs::error::PacksError;
use dino_park_packs::group::{add_group, add_role, create_group};
use dino_park_packs::member::{
    add_admin, add_to_group, add_to_group_at, get_curator_emails, get_members_not_current,
    get_memberships_expire_between, get_memberships_expired_before, member_role, remove_by_id,
    remove_from_group, renew, renew_at, role_for, role_type_for, set_joined, upsert_membership,
};
use dino_park_packs::model::{log_comment_body, LogContext, Membership, NewGroup, UserProfile};
use dino_park_packs::store::Store;
use dino_park_packs::types::{
    GroupType, LogOperationType, LogTargetType, RoleType, TrustType, User, SYSTEM_UUID,
};
use dino_park_packs::user::update_user_cache;

const DAY: i64 = MICROS_PER_DAY;
const NOW: Timestamp = Timestamp { micros: 1_600_000_000_000_000 };
const HOST: User = User { user_uuid: 100 };
const U1: User = User { user_uuid: 1 };
const U2: User = User { user_uuid: 2 };
const U3: User = User { user_uuid: 3 };

fn new_group(name: &str) -> NewGroup {
    NewGroup {
        name: name.to_owned(),
        typ: GroupType::Closed,
        description: String::new(),
        trust: TrustType::Ndaed,
        group_expiration: None,
    }
}

fn store_with(names: &[&str]) -> Store {
    let mut store = Store::new();
    for name in names {
        create_group(0, &mut store, new_group(name), NOW).unwrap();
    }
    store
}

fn profile(user: User, name: &str) -> UserProfile {
    UserProfile {
        user_uuid: user.user_uuid,
        user_id: format!("ad|{}", name),
        picture: String::new(),
        first_name: String::new(),
        last_name: String::new(),
        username: name.to_owned(),
        email: format!("{}@example.com", name),
        trust: TrustType::Ndaed,
    }
}

fn rows_of(store: &Store, group_id: i32, user: User) -> Vec<Membership> {
    store
        .memberships
        .iter()
        .filter(|m| m.group_id == group_id && m.user_uuid == user.user_uuid)
        .cloned()
        .collect()
}

#[test]
fn add_to_group_inserts_a_membership_and_one_log_entry() {
    let mut store = store_with(&["ships"]);
    let logs = store.logs.len();
    assert_eq!(add_to_group_at(&mut store, "ships", &HOST, &U1, Some(10), NOW), Ok(()));
    assert_eq!(
        store.memberships,
        vec![Membership {
            user_uuid: 1,
            group_id: 1,
            role_id: 2,
            expiration: Some(Timestamp { micros: NOW.micros + 10 * DAY }),
            added_by: 100,
            added_ts: NOW,
        }]
    );
    assert_eq!(store.logs.len(), logs + 1);
    let entry = store.logs.last().unwrap();
    assert_eq!(entry.group_id, 1);
    assert_eq!(entry.host_uuid, 100);
    assert_eq!(entry.user_uuid, Some(1));
    assert_eq!(entry.target, LogTargetType::Membership);
    assert_eq!(entry.operation, LogOperationType::Created);
    assert_eq!(entry.body, Some("added".to_owned()));
}

#[test]
fn add_to_group_twice_leaves_one_row_and_the_second_call_wins() {
    let mut store = store_with(&["ships"]);
    add_to_group_at(&mut store, "ships", &HOST, &U1, Some(10), NOW).unwrap();
    let later = Timestamp { micros: NOW.micros + DAY };
    add_to_group_at(&mut store, "ships", &U2, &U1, None, later).unwrap();
    assert_eq!(
        rows_of(&store, 1, U1),
        vec![Membership {
            user_uuid: 1,
            group_id: 1,
            role_id: 2,
            expiration: None,
            added_by: 2,
            added_ts: NOW,
        }]
    );
    assert_eq!(store.memberships.len(), 1);
    let created = store
        .logs
        .iter()
        .filter(|e| e.target == LogTargetType::Membership)
        .count();
    assert_eq!(created, 2);
}

#[test]
fn add_to_group_with_the_same_arguments_changes_no_membership() {
    let mut store = store_with(&["ships"]);
    add_to_group_at(&mut store, "ships", &HOST, &U1, Some(10), NOW).unwrap();
    add_to_group_at(&mut store, "ships", &HOST, &U2, Some(10), NOW).unwrap();
    let before = store.memberships.clone();
    add_to_group_at(&mut store, "ships", &HOST, &U1, Some(10), NOW).unwrap();
    assert_eq!(store.memberships, before);
}

#[test]
fn a_readded_admin_becomes_a_member() {
    let mut store = store_with(&["ships"]);
    add_admin(&mut store, "ships", &HOST, &U1, NOW).unwrap();
    assert_eq!(role_for(&store, 1, "ships").unwrap().typ, RoleType::Admin);
    assert_eq!(store.memberships[0].expiration, None);
    add_to_group_at(&mut store, "ships", &HOST, &U1, Some(1), NOW).unwrap();
    assert_eq!(role_for(&store, 1, "ships").unwrap().typ, RoleType::Member);
    assert_eq!(store.memberships.len(), 1);
}

#[test]
fn at_most_one_membership_for_a_group_and_a_user() {
    let mut store = store_with(&["ships", "boats"]);
    let users = [U1, U2, U3];
    for round in 0..3 {
        for (i, user) in users.iter().enumerate() {
            let name = if (i + round) % 2 == 0 { "ships" } else { "boats" };
            add_to_group_at(&mut store, name, &HOST, user, Some(round as i32), NOW).unwrap();
            add_admin(&mut store, "ships", &HOST, user, NOW).unwrap();
            renew_at(100, &mut store, name, user, None, NOW).unwrap();
        }
    }
    for a in 0..store.memberships.len() {
        for b in (a + 1)..store.memberships.len() {
            let (x, y) = (store.memberships[a], store.memberships[b]);
            assert!(x.group_id != y.group_id || x.user_uuid != y.user_uuid);
        }
    }
    assert_eq!(store.memberships.len(), 6);
}

#[test]
fn add_to_group_fails_without_group_or_member_role() {
    let mut store = store_with(&["ships"]);
    let before = format!("{:?}", store);
    assert_eq!(
        add_to_group_at(&mut store, "boats", &HOST, &U1, None, NOW),
        Err(PacksError::GroupNotFound)
    );
    assert_eq!(format!("{:?}", store), before);
    add_group(0, &mut store, new_group("bare"), NOW).unwrap();
    let before = format!("{:?}", store);
    assert_eq!(
        add_to_group_at(&mut store, "bare", &HOST, &U1, None, NOW),
        Err(PacksError::RoleNotFound)
    );
    assert_eq!(add_admin(&mut store, "bare", &HOST, &U1, NOW), Err(PacksError::RoleNotFound));
    assert_eq!(format!("{:?}", store), before);
    assert_eq!(member_role(&store, "bare"), Err(PacksError::RoleNotFound));
    assert_eq!(member_role(&store, "nope"), Err(PacksError::GroupNotFound));
}

#[test]
fn add_to_group_now_counts_the_expiration_from_now() {
    let mut store = store_with(&["ships"]);
    let before = chrono::Utc::now().timestamp_micros();
    add_to_group(&mut store, "ships", &HOST, &U1, Some(3)).unwrap();
    let after = chrono::Utc::now().timestamp_micros();
    let row = store.memberships[0];
    assert!(before <= row.added_ts.micros && row.added_ts.micros <= after);
    assert_eq!(row.expiration, Some(Timestamp { micros: row.added_ts.micros + 3 * DAY }));
    assert!(row.added_ts.micros > 1_600_000_000_000_000);
}

#[test]
fn remove_from_group_deletes_the_row_and_logs_the_comment() {
    let mut store = store_with(&["ships", "boats"]);
    add_to_group_at(&mut store, "ships", &HOST, &U1, None, NOW).unwrap();
    add_to_group_at(&mut store, "boats", &HOST, &U1, None, NOW).unwrap();
    add_to_group_at(&mut store, "ships", &HOST, &U2, None, NOW).unwrap();
    let logs = store.logs.len();
    assert_eq!(remove_from_group(100, &mut store, 1, "ships", log_comment_body("left")), Ok(()));
    assert!(rows_of(&store, 1, U1).is_empty());
    assert_eq!(rows_of(&store, 2, U1).len(), 1);
    assert_eq!(rows_of(&store, 1, U2).len(), 1);
    assert_eq!(store.logs.len(), logs + 1);
    let entry = store.logs.last().unwrap();
    assert_eq!(entry.operation, LogOperationType::Deleted);
    assert_eq!(entry.target, LogTargetType::Membership);
    assert_eq!(entry.user_uuid, Some(1));
    assert_eq!(entry.host_uuid, 100);
    assert_eq!(entry.body, Some("left".to_owned()));
}

#[test]
fn removing_an_absent_membership_changes_no_membership() {
    let mut store = store_with(&["ships"]);
    add_to_group_at(&mut store, "ships", &HOST, &U1, None, NOW).unwrap();
    let rows = store.memberships.clone();
    let logs = store.logs.len();
    assert_eq!(remove_from_group(100, &mut store, 2, "ships", None), Ok(()));
    assert_eq!(store.memberships, rows);
    assert_eq!(store.logs.len(), logs + 1);
    assert_eq!(store.logs.last().unwrap().body, None);
    let before = format!("{:?}", store);
    assert_eq!(
        remove_from_group(100, &mut store, 1, "boats", None),
        Err(PacksError::GroupNotFound)
    );
    assert_eq!(format!("{:?}", store), before);
    remove_by_id(100, &mut store, 1, 1, None);
    assert!(store.memberships.is_empty());
}

#[test]
fn renew_changes_the_expiration_only() {
    let mut store = store_with(&["ships"]);
    add_to_group_at(&mut store, "ships", &HOST, &U1, Some(10), NOW).unwrap();
    let before = store.memberships[0];
    let later = Timestamp { micros: NOW.micros + 5 * DAY };
    let logs = store.logs.len();
    assert_eq!(renew_at(7, &mut store, "ships", &U1, Some(30), later), Ok(()));
    assert_eq!(
        store.memberships,
        vec![Membership {
            expiration: Some(Timestamp { micros: NOW.micros + 35 * DAY }),
            ..before
        }]
    );
    assert_eq!(store.logs.len(), logs + 1);
    let entry = store.logs.last().unwrap();
    assert_eq!(entry.operation, LogOperationType::Updated);
    assert_eq!(entry.target, LogTargetType::Membership);
    assert_eq!(entry.host_uuid, 7);
    assert_eq!(entry.user_uuid, Some(1));
    assert_eq!(entry.body, Some("renewed".to_owned()));
    renew_at(7, &mut store, "ships", &U1, None, later).unwrap();
    assert_eq!(store.memberships, vec![Membership { expiration: None, ..before }]);
}

#[test]
fn renew_of_an_absent_membership_or_group() {
    let mut store = store_with(&["ships"]);
    add_to_group_at(&mut store, "ships", &HOST, &U1, Some(10), NOW).unwrap();
    let rows = store.memberships.clone();
    let logs = store.logs.len();
    assert_eq!(renew_at(7, &mut store, "ships", &U2, Some(30), NOW), Ok(()));
    assert_eq!(store.memberships, rows);
    assert_eq!(store.logs.len(), logs + 1);
    let before = format!("{:?}", store);
    assert_eq!(
        renew_at(7, &mut store, "boats", &U1, Some(30), NOW),
        Err(PacksError::GroupNotFound)
    );
    assert_eq!(renew(7, &mut store, "boats", &U1, Some(30)), Err(PacksError::GroupNotFound));
    assert_eq!(format!("{:?}", store), before);
    let before = chrono::Utc::now().timestamp_micros();
    renew(7, &mut store, "ships", &U1, Some(1)).unwrap();
    let until = store.memberships[0].expiration.unwrap().micros;
    assert!(until >= before + DAY);
}

#[test]
fn role_for_tells_the_standing() {
    let mut store = store_with(&["ships", "boats"]);
    add_to_group_at(&mut store, "ships", &HOST, &U1, None, NOW).unwrap();
    add_admin(&mut store, "ships", &HOST, &U2, NOW).unwrap();
    let role = role_for(&store, 1, "ships").unwrap();
    assert_eq!((role.typ, role.group_id, role.id), (RoleType::Member, 1, 2));
    let role = role_for(&store, 2, "ships").unwrap();
    assert_eq!((role.typ, role.group_id, role.id), (RoleType::Admin, 1, 1));
    assert_eq!(role_for(&store, 3, "ships"), None);
    assert_eq!(role_for(&store, 1, "boats"), None);
    assert_eq!(role_for(&store, 1, "rafts"), None);
    assert_eq!(role_type_for(&store, 2, 1), Some(RoleType::Admin));
    assert_eq!(role_type_for(&store, 2, 2), None);
    assert!(RoleType::Admin.elevated());
    assert!(RoleType::Curator.elevated());
    assert!(!RoleType::Member.elevated());
}

#[test]
fn everyone_else_in_the_group() {
    let mut store = store_with(&["ships", "boats"]);
    add_to_group_at(&mut store, "ships", &HOST, &U1, None, NOW).unwrap();
    add_to_group_at(&mut store, "boats", &HOST, &U3, None, NOW).unwrap();
    add_to_group_at(&mut store, "ships", &HOST, &U2, None, NOW).unwrap();
    add_to_group_at(&mut store, "ships", &HOST, &U3, None, NOW).unwrap();
    assert_eq!(get_members_not_current(&store, "ships", &U2), Ok(vec![U1, U3]));
    assert_eq!(get_members_not_current(&store, "ships", &HOST), Ok(vec![U1, U2, U3]));
    assert_eq!(get_members_not_current(&store, "boats", &U3), Ok(vec![]));
    assert_eq!(
        get_members_not_current(&store, "rafts", &U3),
        Err(PacksError::GroupNotFound)
    );
}

#[test]
fn memberships_expired_before_includes_the_instant() {
    let mut store = store_with(&["ships"]);
    add_to_group_at(&mut store, "ships", &HOST, &U1, Some(1), NOW).unwrap();
    add_to_group_at(&mut store, "ships", &HOST, &U2, Some(2), NOW).unwrap();
    add_to_group_at(&mut store, "ships", &HOST, &U3, None, NOW).unwrap();
    let t1 = Timestamp { micros: NOW.micros + DAY };
    assert!(get_memberships_expired_before(&store, Timestamp { micros: t1.micros - 1 }).is_empty());
    let found = get_memberships_expired_before(&store, t1);
    assert_eq!(found.len(), 1);
    assert_eq!(found[0].user_uuid, 1);
    let found = get_memberships_expired_before(&store, Timestamp { micros: i64::MAX });
    assert_eq!(found.iter().map(|m| m.user_uuid).collect::<Vec<_>>(), vec![1, 2]);
    assert!(store.memberships[0].is_expired_by(t1));
    assert!(!store.memberships[2].is_expired_by(Timestamp { micros: i64::MAX }));
}

#[test]
fn memberships_expiring_in_a_window() {
    let mut store = store_with(&["ships"]);
    add_to_group_at(&mut store, "ships", &HOST, &U1, Some(14), NOW).unwrap();
    add_to_group_at(&mut store, "ships", &HOST, &U2, Some(7), NOW).unwrap();
    add_to_group_at(&mut store, "ships", &HOST, &U3, None, NOW).unwrap();
    let window = DayWindow::after_days(NOW, 14);
    let found = get_memberships_expire_between(&store, &window);
    assert_eq!(found.iter().map(|m| m.user_uuid).collect::<Vec<_>>(), vec![1]);
    let window = DayWindow::after_days(NOW, 7);
    let found = get_memberships_expire_between(&store, &window);
    assert_eq!(found.iter().map(|m| m.user_uuid).collect::<Vec<_>>(), vec![2]);
    let window = DayWindow::after_days(NOW, 8);
    assert!(get_memberships_expire_between(&store, &window).is_empty());
}

#[test]
fn curator_emails_are_those_of_curators_and_admins_with_a_profile() {
    let mut store = store_with(&["ships", "boats"]);
    update_user_cache(&mut store, profile(U1, "one"));
    update_user_cache(&mut store, profile(U2, "two"));
    update_user_cache(&mut store, profile(HOST, "host"));
    add_to_group_at(&mut store, "ships", &HOST, &U1, None, NOW).unwrap();
    add_admin(&mut store, "ships", &HOST, &U2, NOW).unwrap();
    add_admin(&mut store, "ships", &HOST, &U3, NOW).unwrap();
    add_admin(&mut store, "boats", &HOST, &U1, NOW).unwrap();
    add_role(&LogContext::with(1, 0), &mut store, RoleType::Curator).unwrap();
    upsert_membership(&mut store, "ships", RoleType::Admin, &U2, &HOST, None, NOW, "added")
        .unwrap();
    assert_eq!(
        get_curator_emails(&store, 1),
        vec!["two@example.com".to_owned(), "host@example.com".to_owned()]
    );
    assert_eq!(get_curator_emails(&store, 2), vec!["one@example.com".to_owned()]);
    assert!(get_curator_emails(&store, 3).is_empty());
}

#[test]
fn set_joined_corrects_the_time_of_joining() {
    let mut store = store_with(&["ships"]);
    add_to_group_at(&mut store, "ships", &HOST, &U1, Some(10), NOW).unwrap();
    let before = store.memberships[0];
    let logs = store.logs.len();
    set_joined(&mut store, 1, 1, Timestamp { micros: 5 });
    assert_eq!(
        store.memberships,
        vec![Membership { added_ts: Timestamp { micros: 5 }, ..before }]
    );
    set_joined(&mut store, 1, 2, Timestamp { micros: 6 });
    assert_eq!(store.memberships.len(), 1);
    assert_eq!(store.logs.len(), logs);
}

#[test]
fn the_system_is_the_nil_user() {
    assert_eq!(User::system().user_uuid, 0);
    assert_eq!(User::default(), User { user_uuid: SYSTEM_UUID });
    assert_eq!(User::system().user_uuid, uuid::Uuid::nil().as_u128());
    assert!(User::default().is_system());
    assert!(!U1.is_system());
    assert_eq!(uuid::Uuid::from_u128(User::system().user_uuid), uuid::Uuid::default());
}

#[test]
fn trust_tiers_are_ordered() {
    assert_eq!(TrustType::Public.level(), 0);
    assert_eq!(TrustType::Authenticated.level(), 1);
    assert_eq!(TrustType::Vouched.level(), 2);
    assert_eq!(TrustType::Ndaed.level(), 3);
    assert_eq!(TrustType::Staff.level(), 4);
    assert!(TrustType::Staff.covers(&TrustType::Ndaed));
    assert!(TrustType::Ndaed.covers(&TrustType::Ndaed));
    assert!(!TrustType::Vouched.covers(&TrustType::Ndaed));
}
