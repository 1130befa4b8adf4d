use chrono::{Duration, Utc};
use dino_park_packs::clock::Timestamp;
use dino_park_packs::import::{calc_expiration, calc_expiration_at, EXPIRATION_BUFFER};

fn stamp(at: chrono::DateTime<Utc>) -> Timestamp {
    Timestamp { micros: at.timestamp_micros() }
}

#[test]
fn test_calc_expiration() {
    let updated = Utc::now() - Duration::days(20);
    let expiration = calc_expiration(365, stamp(updated));
    assert_eq!(expiration, Some(345));

    let updated = Utc::now() - Duration::days(400);
    let expiration = calc_expiration(365, stamp(updated));
    assert_eq!(expiration, Some(EXPIRATION_BUFFER));

    let updated = Utc::now() - Duration::days(400);
    let expiration = calc_expiration(0, stamp(updated));
    assert_eq!(expiration, None);
}

#[test]
fn calc_expiration_at_counts_whole_days() {
    let day: i64 = 86_400_000_000;
    let now = Timestamp { micros: 1_000 * day };
    let updated = Timestamp { micros: 980 * day + 1 };
    assert_eq!(calc_expiration_at(365, updated, now), Some(346));
    let updated = Timestamp { micros: 980 * day };
    assert_eq!(calc_expiration_at(365, updated, now), Some(345));
    assert_eq!(calc_expiration_at(61, Timestamp { micros: now.micros }, now), Some(61));
    assert_eq!(calc_expiration_at(60, Timestamp { micros: now.micros }, now), Some(60));
    assert_eq!(calc_expiration_at(-1, updated, now), None);
    assert_eq!(
        calc_expiration_at(i32::MAX, Timestamp { micros: i64::MAX }, Timestamp { micros: i64::MIN }),
        Some(i32::MAX)
    );
}

use dino_park_packs::error::PacksError;
use dino_park_packs::group::create_group;
use dino_park_packs::import::{
    get_user_profile, import, import_curator, import_curators, import_description, import_group,
    import_member, import_members, GroupImport, ImportReport, Imported, MozilliansGroup,
    MozilliansGroupCurator, MozilliansGroupMembership, RemoteAnswer,
};
use dino_park_packs::lifecycle::SyncCall;
use dino_park_packs::member::{add_to_group_at, role_for};
use dino_park_packs::model::{Membership, NewGroup, UserProfile};
use dino_park_packs::store::Store;
use dino_park_packs::types::{
    GroupType, LogOperationType, LogTargetType, RoleType, TrustType, User, SYSTEM_UUID,
};
use dino_park_packs::user::update_user_cache;

const DAY: i64 = 86_400_000_000;
const NOW: Timestamp = Timestamp { micros: 1_600_000_000_000_000 };

fn moz_group(name: &str) -> MozilliansGroup {
    MozilliansGroup {
        name: name.to_owned(),
        typ: "closed".to_owned(),
        description: "About.".to_owned(),
        website: String::new(),
        wiki: String::new(),
        terms: String::new(),
        invitation_email: String::new(),
        expiration: 0,
    }
}

fn profile(uuid: u128, name: &str) -> UserProfile {
    UserProfile {
        user_uuid: uuid,
        user_id: format!("ad|{}", name),
        picture: String::new(),
        first_name: String::new(),
        last_name: String::new(),
        username: name.to_owned(),
        email: format!("{}@example.com", name),
        trust: TrustType::Ndaed,
    }
}

fn record(name: &str, expiration: i32, host: &str, joined: i64) -> MozilliansGroupMembership {
    MozilliansGroupMembership {
        auth0_user_id: format!("ad|{}", name),
        expiration,
        updated_on: Timestamp { micros: NOW.micros - 20 * DAY },
        date_joined: Timestamp { micros: joined },
        host: host.to_owned(),
    }
}

fn curator(name: &str) -> MozilliansGroupCurator {
    MozilliansGroupCurator { auth0_user_id: format!("ad|{}", name) }
}

fn answer(name: &str, uuid: u128) -> RemoteAnswer {
    RemoteAnswer { user_id: format!("ad|{}", name), profile: Ok(profile(uuid, name)) }
}

fn ships() -> Store {
    let mut store = Store::new();
    let group = NewGroup {
        name: "ships".to_owned(),
        typ: GroupType::Closed,
        description: String::new(),
        trust: TrustType::Ndaed,
        group_expiration: None,
    };
    create_group(0, &mut store, group, NOW).unwrap();
    update_user_cache(&mut store, profile(1, "one"));
    update_user_cache(&mut store, profile(2, "two"));
    store
}

#[test]
fn description_without_links() {
    assert_eq!(import_description(&moz_group("g")), "About.");
}

#[test]
fn description_with_a_website() {
    let mut group = moz_group("g");
    group.website = "https://example.com".to_owned();
    assert_eq!(
        import_description(&group),
        "About.\n\n**Website:** [https://example.com](https://example.com)"
    );
}

#[test]
fn description_with_a_wiki() {
    let mut group = moz_group("g");
    group.wiki = "https://wiki.example.com".to_owned();
    assert_eq!(
        import_description(&group),
        "About.\n\n**Wiki:** [https://wiki.example.com](https://wiki.example.com)"
    );
}

#[test]
fn description_with_the_same_address_twice() {
    let mut group = moz_group("g");
    group.website = "https://example.com".to_owned();
    group.wiki = "https://example.com".to_owned();
    assert_eq!(
        import_description(&group),
        "About.\n\n**Website:** [https://example.com](https://example.com)"
    );
}

#[test]
fn description_with_both_links() {
    let mut group = moz_group("g");
    group.website = "https://example.com".to_owned();
    group.wiki = "https://wiki.example.com".to_owned();
    assert_eq!(
        import_description(&group),
        "About.\n\n**Website:** [https://example.com](https://example.com)\n\n**Wiki:** [https://wiki.example.com](https://wiki.example.com)"
    );
}

#[test]
fn import_group_creates_the_group_whole() {
    let mut store = Store::new();
    let mut group = moz_group("ships");
    group.typ = "by_request".to_owned();
    group.website = "https://example.com".to_owned();
    group.terms = "be kind".to_owned();
    group.invitation_email = "welcome".to_owned();
    group.expiration = 365;
    assert_eq!(import_group(&mut store, group, NOW), Ok(()));
    assert_eq!(store.groups.len(), 1);
    let created = &store.groups[0];
    assert_eq!(created.id, 1);
    assert_eq!(created.name, "ships");
    assert_eq!(created.typ, GroupType::Reviewed);
    assert_eq!(created.trust, TrustType::Ndaed);
    assert_eq!(
        created.description,
        "About.\n\n**Website:** [https://example.com](https://example.com)"
    );
    assert_eq!(created.group_expiration, Some(365));
    assert_eq!(created.created, NOW);
    assert_eq!(created.terms, "be kind");
    assert_eq!(created.invitation_email, "welcome");
    assert_eq!(
        store.roles.iter().map(|r| (r.group_id, r.typ)).collect::<Vec<_>>(),
        vec![(1, RoleType::Admin), (1, RoleType::Member)]
    );
    assert_eq!(
        store.logs.iter().map(|e| (e.target, e.operation, e.host_uuid)).collect::<Vec<_>>(),
        vec![
            (LogTargetType::Group, LogOperationType::Created, SYSTEM_UUID),
            (LogTargetType::Role, LogOperationType::Created, SYSTEM_UUID),
            (LogTargetType::Role, LogOperationType::Created, SYSTEM_UUID),
            (LogTargetType::Terms, LogOperationType::Created, SYSTEM_UUID),
            (LogTargetType::Invitation, LogOperationType::Updated, SYSTEM_UUID),
        ]
    );
}

#[test]
fn import_group_without_terms_and_invitation_text() {
    let mut store = Store::new();
    assert_eq!(import_group(&mut store, moz_group("ships"), NOW), Ok(()));
    assert_eq!(store.groups[0].typ, GroupType::Closed);
    assert_eq!(store.groups[0].terms, "");
    assert_eq!(store.groups[0].invitation_email, "");
    assert_eq!(store.groups[0].group_expiration, Some(0));
    assert_eq!(store.logs.len(), 3);
    let before = format!("{:?}", store);
    assert_eq!(
        import_group(&mut store, moz_group("ships"), NOW),
        Err(PacksError::GroupNameTaken)
    );
    assert_eq!(format!("{:?}", store), before);
    store.next_role_id = i32::MAX - 1;
    assert_eq!(
        import_group(&mut store, moz_group("boats"), NOW),
        Err(PacksError::StorageError)
    );
    assert_eq!(store.groups.len(), 1);
}

#[test]
fn login_ids_resolve_locally_first() {
    let store = ships();
    let answers = vec![
        RemoteAnswer { user_id: "ad|one".to_owned(), profile: Ok(profile(99, "other")) },
        answer("three", 3),
        RemoteAnswer { user_id: "ad|three".to_owned(), profile: Err(PacksError::UpstreamError) },
        RemoteAnswer { user_id: "ad|four".to_owned(), profile: Err(PacksError::UpstreamError) },
    ];
    assert_eq!(get_user_profile(&store, "ad|one", &answers), Ok(profile(1, "one")));
    assert_eq!(get_user_profile(&store, "ad|three", &answers), Ok(profile(3, "three")));
    assert_eq!(get_user_profile(&store, "ad|four", &answers), Err(PacksError::UpstreamError));
    assert_eq!(get_user_profile(&store, "ad|five", &answers), Err(PacksError::UserNotFound));
    assert_eq!(get_user_profile(&store, "ad|five", &vec![]), Err(PacksError::UserNotFound));
}

#[test]
fn import_member_adds_with_what_is_left_of_the_expiration() {
    let mut store = ships();
    let joined = NOW.micros - 500 * DAY;
    let r = import_member(&mut store, "ships", &record("one", 365, "ad|two", joined), &vec![], NOW);
    assert_eq!(
        r,
        Ok(Some(SyncCall::AddGroup { user_uuid: 1, group_name: "ships".to_owned() }))
    );
    assert_eq!(
        store.memberships,
        vec![Membership {
            user_uuid: 1,
            group_id: 1,
            role_id: 2,
            expiration: Some(Timestamp { micros: NOW.micros + 345 * DAY }),
            added_by: 2,
            added_ts: Timestamp { micros: joined },
        }]
    );
    let entry = store.logs.last().unwrap();
    assert_eq!(entry.operation, LogOperationType::Created);
    assert_eq!(entry.host_uuid, 2);
    assert_eq!(entry.user_uuid, Some(1));
}

#[test]
fn import_member_without_host_and_without_expiration() {
    let mut store = ships();
    let r = import_member(&mut store, "ships", &record("two", 0, "", 7), &vec![], NOW);
    assert!(matches!(r, Ok(Some(_))));
    assert_eq!(
        store.memberships,
        vec![Membership {
            user_uuid: 2,
            group_id: 1,
            role_id: 2,
            expiration: None,
            added_by: SYSTEM_UUID,
            added_ts: Timestamp { micros: 7 },
        }]
    );
    let r = import_member(&mut store, "ships", &record("two", 30, "", 9), &vec![], NOW);
    assert_eq!(r, Ok(None));
}

#[test]
fn import_member_of_a_member_sets_the_time_of_joining_only() {
    let mut store = ships();
    add_to_group_at(&mut store, "ships", &User { user_uuid: 2 }, &User { user_uuid: 1 }, Some(5), NOW)
        .unwrap();
    let before = store.memberships[0];
    let logs = store.logs.len();
    let r = import_member(&mut store, "ships", &record("one", 365, "ad|nobody", 11), &vec![], NOW);
    assert_eq!(r, Ok(None));
    assert_eq!(
        store.memberships,
        vec![Membership { added_ts: Timestamp { micros: 11 }, ..before }]
    );
    assert_eq!(store.logs.len(), logs);
}

#[test]
fn import_member_fails_and_changes_nothing() {
    let mut store = ships();
    let before = format!("{:?}", store);
    let unreachable =
        vec![RemoteAnswer { user_id: "ad|far".to_owned(), profile: Err(PacksError::UpstreamError) }];
    assert_eq!(
        import_member(&mut store, "boats", &record("one", 0, "", 0), &vec![], NOW),
        Err(PacksError::GroupNotFound)
    );
    assert_eq!(
        import_member(&mut store, "ships", &record("nobody", 0, "", 0), &vec![], NOW),
        Err(PacksError::UserNotFound)
    );
    assert_eq!(
        import_member(&mut store, "ships", &record("far", 0, "", 0), &unreachable, NOW),
        Err(PacksError::UpstreamError)
    );
    assert_eq!(
        import_member(&mut store, "ships", &record("one", 0, "ad|nobody", 0), &vec![], NOW),
        Err(PacksError::UserNotFound)
    );
    assert_eq!(
        import_member(&mut store, "ships", &record("one", 0, "ad|far", 0), &unreachable, NOW),
        Err(PacksError::UpstreamError)
    );
    assert_eq!(format!("{:?}", store), before);
}

#[test]
fn import_members_goes_on_after_a_failure_and_backdates_the_group() {
    let mut store = ships();
    let early = NOW.micros - 900 * DAY;
    let records = vec![
        record("one", 0, "", NOW.micros - 10 * DAY),
        record("nobody", 0, "", early),
        record("three", 400, "ad|one", NOW.micros + DAY),
    ];
    let done = import_members(&mut store, "ships", &records, &vec![answer("three", 3)], NOW);
    assert_eq!(
        done,
        Ok(Imported {
            outcomes: vec![Ok(()), Err(PacksError::UserNotFound), Ok(())],
            calls: vec![
                SyncCall::AddGroup { user_uuid: 1, group_name: "ships".to_owned() },
                SyncCall::AddGroup { user_uuid: 3, group_name: "ships".to_owned() },
            ],
        })
    );
    assert_eq!(store.groups[0].created, Timestamp { micros: early });
    assert_eq!(
        store.memberships.iter().map(|m| (m.user_uuid, m.added_by)).collect::<Vec<_>>(),
        vec![(1, 0), (3, 1)]
    );
    assert_eq!(
        store.memberships[1].expiration,
        Some(Timestamp { micros: NOW.micros + 380 * DAY })
    );
    assert_eq!(
        import_members(&mut store, "boats", &records, &vec![], NOW),
        Err(PacksError::GroupNotFound)
    );
    let done = import_members(&mut store, "ships", &vec![], &vec![], NOW).unwrap();
    assert!(done.outcomes.is_empty());
    assert_eq!(store.groups[0].created, Timestamp { micros: early });
}

#[test]
fn import_curators_makes_admins() {
    let mut store = ships();
    let curators = vec![curator("one"), curator("nobody"), curator("three")];
    let done = import_curators(&mut store, "ships", &curators, &vec![answer("three", 3)], NOW);
    assert_eq!(done.outcomes, vec![Ok(()), Err(PacksError::UserNotFound), Ok(())]);
    assert_eq!(done.calls.len(), 2);
    assert_eq!(role_for(&store, 1, "ships").unwrap().typ, RoleType::Admin);
    assert_eq!(role_for(&store, 3, "ships").unwrap().typ, RoleType::Admin);
    assert_eq!(store.memberships[0].added_by, SYSTEM_UUID);
    assert_eq!(store.memberships[0].expiration, None);
    assert_eq!(
        import_curator(&mut store, "boats", &curator("one"), &vec![], NOW),
        Err(PacksError::GroupNotFound)
    );
    assert_eq!(
        import_curator(&mut store, "ships", &curator("two"), &vec![], NOW),
        Ok(Some(SyncCall::AddGroup { user_uuid: 2, group_name: "ships".to_owned() }))
    );
}

#[test]
fn import_of_a_whole_group() {
    let mut store = Store::new();
    update_user_cache(&mut store, profile(1, "one"));
    update_user_cache(&mut store, profile(2, "two"));
    let early = NOW.micros - 30 * DAY;
    let group_import = GroupImport {
        group: moz_group("ships"),
        memberships: vec![record("one", 100, "", early), record("two", 0, "ad|one", NOW.micros)],
        curators: vec![curator("one"), curator("gone")],
    };
    let report = import(&mut store, group_import, &vec![], NOW).unwrap();
    assert_eq!(
        report,
        ImportReport {
            curators: Imported {
                outcomes: vec![Ok(()), Err(PacksError::UserNotFound)],
                calls: vec![SyncCall::AddGroup { user_uuid: 1, group_name: "ships".to_owned() }],
            },
            members: Imported {
                outcomes: vec![Ok(()), Ok(())],
                calls: vec![SyncCall::AddGroup { user_uuid: 2, group_name: "ships".to_owned() }],
            },
        }
    );
    assert_eq!(role_for(&store, 1, "ships").unwrap().typ, RoleType::Admin);
    assert_eq!(role_for(&store, 2, "ships").unwrap().typ, RoleType::Member);
    assert_eq!(store.memberships[0].added_ts, Timestamp { micros: early });
    assert_eq!(store.groups[0].created, Timestamp { micros: early });

    let again = GroupImport { group: moz_group("ships"), memberships: vec![], curators: vec![] };
    let before = format!("{:?}", store);
    assert_eq!(import(&mut store, again, &vec![], NOW), Err(PacksError::GroupNameTaken));
    assert_eq!(format!("{:?}", store), before);
}
