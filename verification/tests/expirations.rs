use dino_park_packs::batch::{overall, sync_outcomes, tally, BatchReport};
use dino_park_packs::clock::{Timestamp, MICROS_PER_DAY};
use dino_park_packs::error::PacksError;
use dino_park_packs::expirations::{
    expiration_notification, expiration_notification_at, expire_membership, expire_memberships,
    expire_memberships_at, notify, FIRST_WARNING_DAYS, SECOND_WARNING_DAYS,
};
use dino_park_packs::group::create_group;
use dino_park_packs::lifecycle::SyncCall;
use dino_park_packs::mail::{send_email, send_emails, Mail, Template};
use dino_park_packs::member::{add_admin, add_to_group_at};
use dino_park_packs::model::{Membership, NewGroup, UserProfile};
use dino_park_packs::partition::{distinct_holders, group_by_user, memberships_of, UserMemberships};
use dino_park_packs::store::Store;
use dino_park_packs::types::{
    GroupType, LogOperationType, LogTargetType, TrustType, User, SYSTEM_UUID,
};
use dino_park_packs::user::update_user_cache;

const DAY: i64 = MICROS_PER_DAY;
/// 2020-09-13 12:26:40 UTC.
const NOW: Timestamp = Timestamp { micros: 1_600_000_000_000_000 };
const HOST: User = User { user_uuid: 100 };
const CURATOR: User = User { user_uuid: 200 };
const ADMIN: User = User { user_uuid: 201 };
const U1: User = User { user_uuid: 1 };
const U2: User = User { user_uuid: 2 };
const U3: User = User { user_uuid: 3 };

fn new_group(name: &str) -> NewGroup {
    NewGroup {
        name: name.to_owned(),
        typ: GroupType::Closed,
        description: String::new(),
        trust: TrustType::Ndaed,
        group_expiration: None,
    }
}

fn store_with(names: &[&str]) -> Store {
    let mut store = Store::new();
    for name in names {
        create_group(0, &mut store, new_group(name), NOW).unwrap();
    }
    store
}

fn profile(user: User, name: &str) -> UserProfile {
    UserProfile {
        user_uuid: user.user_uuid,
        user_id: format!("ad|{}", name),
        picture: String::new(),
        first_name: String::new(),
        last_name: String::new(),
        username: name.to_owned(),
        email: format!("{}@example.com", name),
        trust: TrustType::Ndaed,
    }
}

fn later(days: i64) -> Timestamp {
    Timestamp { micros: NOW.micros + days * DAY }
}

fn keys(store: &Store) -> Vec<(i32, u128)> {
    store.memberships.iter().map(|m| (m.group_id, m.user_uuid)).collect()
}

fn row(group_id: i32, user: u128) -> Membership {
    Membership {
        user_uuid: user,
        group_id,
        role_id: 2,
        expiration: None,
        added_by: 0,
        added_ts: NOW,
    }
}

#[test]
fn the_sweep_removes_exactly_what_has_lapsed() {
    let mut store = store_with(&["ships", "boats"]);
    add_to_group_at(&mut store, "ships", &HOST, &U1, Some(1), NOW).unwrap();
    add_to_group_at(&mut store, "ships", &HOST, &U2, Some(3), NOW).unwrap();
    add_to_group_at(&mut store, "boats", &HOST, &U1, Some(2), NOW).unwrap();
    add_to_group_at(&mut store, "boats", &HOST, &U2, None, NOW).unwrap();
    add_to_group_at(&mut store, "boats", &HOST, &U3, Some(2), NOW).unwrap();
    let untouched: Vec<Membership> = store
        .memberships
        .iter()
        .filter(|m| m.expiration.map_or(true, |e| e.micros > later(2).micros))
        .cloned()
        .collect();
    let logs = store.logs.len();
    let done = expire_memberships_at(&mut store, later(2));
    assert_eq!(store.memberships, untouched);
    assert_eq!(keys(&store), vec![(1, 2), (2, 2)]);
    assert_eq!(done.len(), 2);
    assert_eq!(done[0].user, U1);
    assert_eq!(done[0].revocation.outcomes, vec![Ok(()), Ok(())]);
    assert_eq!(
        done[0].revocation.calls,
        vec![
            SyncCall::RemoveGroup { user_uuid: 1, group_name: "ships".to_owned() },
            SyncCall::RemoveGroup { user_uuid: 1, group_name: "boats".to_owned() },
        ]
    );
    assert_eq!(done[1].user, U3);
    assert_eq!(
        done[1].revocation.calls,
        vec![SyncCall::RemoveGroup { user_uuid: 3, group_name: "boats".to_owned() }]
    );
    assert_eq!(store.logs.len(), logs + 3);
    for entry in &store.logs[logs..] {
        assert_eq!(entry.target, LogTargetType::Membership);
        assert_eq!(entry.operation, LogOperationType::Deleted);
        assert_eq!(entry.host_uuid, SYSTEM_UUID);
        assert_eq!(entry.body, Some("expired".to_owned()));
    }
    assert_eq!(
        store.logs[logs..].iter().map(|e| (e.group_id, e.user_uuid)).collect::<Vec<_>>(),
        vec![(1, Some(1)), (2, Some(1)), (2, Some(3))]
    );
}

#[test]
fn the_sweep_between_two_expirations() {
    let mut store = store_with(&["ships"]);
    add_to_group_at(&mut store, "ships", &HOST, &U1, Some(1), NOW).unwrap();
    add_to_group_at(&mut store, "ships", &HOST, &U2, Some(2), NOW).unwrap();
    let second = store.memberships[1];
    let before = format!("{:?}", store);
    assert!(expire_memberships_at(&mut store, Timestamp { micros: later(1).micros - 1 }).is_empty());
    assert_eq!(format!("{:?}", store), before);
    let done = expire_memberships_at(&mut store, later(1));
    assert_eq!(done.len(), 1);
    assert_eq!(store.memberships, vec![second]);
    let done = expire_memberships_at(&mut store, Timestamp { micros: later(2).micros - 1 });
    assert!(done.is_empty());
    assert_eq!(store.memberships, vec![second]);
}

#[test]
fn the_sweep_tells_the_user_who_has_a_profile() {
    let mut store = store_with(&["ships"]);
    update_user_cache(&mut store, profile(U1, "one"));
    add_to_group_at(&mut store, "ships", &HOST, &U1, Some(1), NOW).unwrap();
    add_to_group_at(&mut store, "ships", &HOST, &U2, Some(1), NOW).unwrap();
    let done = expire_memberships_at(&mut store, later(5));
    assert_eq!(
        done[0].revocation.mails,
        vec![Mail::Single {
            to: "one@example.com".to_owned(),
            template: Template::DeleteMember("ships".to_owned()),
        }]
    );
    assert!(done[1].revocation.mails.is_empty());
    assert!(store.memberships.is_empty());
}

#[test]
fn the_sweep_of_an_empty_store_and_of_now() {
    let mut store = Store::new();
    assert!(expire_memberships_at(&mut store, NOW).is_empty());
    assert!(expire_memberships(&mut store).is_empty());
    let mut store = store_with(&["ships"]);
    add_to_group_at(&mut store, "ships", &HOST, &U1, Some(-1), NOW).unwrap();
    add_to_group_at(&mut store, "ships", &HOST, &U2, Some(36_500), NOW).unwrap();
    let done = expire_memberships(&mut store);
    assert_eq!(done.len(), 1);
    assert_eq!(done[0].user, U1);
    assert_eq!(keys(&store), vec![(1, 2)]);
}

#[test]
fn one_failing_call_leaves_the_others_alone() {
    let mut store = store_with(&["ships", "boats"]);
    for user in [U1, U2, U3] {
        add_to_group_at(&mut store, "ships", &HOST, &user, Some(1), NOW).unwrap();
        add_to_group_at(&mut store, "boats", &HOST, &user, Some(50), NOW).unwrap();
    }
    let done = expire_memberships_at(&mut store, later(1));
    assert_eq!(done.len(), 3);
    assert_eq!(keys(&store), vec![(2, 1), (2, 2), (2, 3)]);
    for (expiry, user) in done.iter().zip([U1, U2, U3]) {
        assert_eq!(expiry.user, user);
        assert_eq!(
            expiry.revocation.calls,
            vec![SyncCall::RemoveGroup {
                user_uuid: user.user_uuid,
                group_name: "ships".to_owned()
            }]
        );
    }
    let taken = vec![true, false, true];
    let outcomes = sync_outcomes(&taken);
    assert_eq!(outcomes, vec![Ok(()), Err(PacksError::SyncError), Ok(())]);
    assert_eq!(tally(&outcomes), BatchReport { succeeded: 2, failed: 1 });
    assert_eq!(overall(&outcomes), Err(PacksError::SyncError));
    assert_eq!(keys(&store), vec![(2, 1), (2, 2), (2, 3)]);
}

#[test]
fn tallies() {
    assert_eq!(tally(&vec![]), BatchReport { succeeded: 0, failed: 0 });
    assert_eq!(overall(&vec![]), Ok(()));
    let outcomes = vec![
        Ok(()),
        Err(PacksError::UserNotFound),
        Err(PacksError::GroupNotFound),
        Ok(()),
        Ok(()),
    ];
    assert_eq!(tally(&outcomes), BatchReport { succeeded: 3, failed: 2 });
    assert_eq!(overall(&outcomes), Err(PacksError::UserNotFound));
    assert_eq!(overall(&vec![Ok(()), Ok(())]), Ok(()));
    assert!(sync_outcomes(&vec![]).is_empty());
}

#[test]
fn partition_by_holder_keeps_the_order() {
    let rows = vec![row(1, 5), row(1, 3), row(2, 5), row(3, 9), row(2, 3), row(4, 5)];
    assert_eq!(distinct_holders(&rows), vec![5, 3, 9]);
    assert_eq!(memberships_of(&rows, 3), vec![row(1, 3), row(2, 3)]);
    assert!(memberships_of(&rows, 4).is_empty());
    let buckets = group_by_user(&rows);
    assert_eq!(
        buckets,
        vec![
            UserMemberships {
                user: User { user_uuid: 5 },
                memberships: vec![row(1, 5), row(2, 5), row(4, 5)],
            },
            UserMemberships {
                user: User { user_uuid: 3 },
                memberships: vec![row(1, 3), row(2, 3)],
            },
            UserMemberships { user: User { user_uuid: 9 }, memberships: vec![row(3, 9)] },
        ]
    );
    assert!(group_by_user(&vec![]).is_empty());
}

#[test]
fn expire_membership_revokes_as_the_system() {
    let mut store = store_with(&["ships", "boats", "rafts"]);
    for name in ["rafts", "ships", "boats"] {
        add_to_group_at(&mut store, name, &HOST, &U1, Some(1), NOW).unwrap();
    }
    let lapsed = vec![store.memberships[0], store.memberships[2]];
    let done = expire_membership(&mut store, &U1, &lapsed);
    assert_eq!(done.outcomes, vec![Ok(()), Ok(())]);
    assert_eq!(
        done.calls,
        vec![
            SyncCall::RemoveGroup { user_uuid: 1, group_name: "boats".to_owned() },
            SyncCall::RemoveGroup { user_uuid: 1, group_name: "rafts".to_owned() },
        ]
    );
    assert_eq!(keys(&store), vec![(1, 1)]);
    assert_eq!(store.logs.last().unwrap().host_uuid, SYSTEM_UUID);
    assert_eq!(store.logs.last().unwrap().body, Some("expired".to_owned()));
}

#[test]
fn the_warning_stages_look_fourteen_and_seven_days_ahead() {
    assert_eq!(FIRST_WARNING_DAYS, 14);
    assert_eq!(SECOND_WARNING_DAYS, 7);
}

#[test]
fn first_warning_goes_to_the_host_who_is_curator_or_admin() {
    let mut store = store_with(&["ships"]);
    for (user, name) in [(U1, "one"), (ADMIN, "admin"), (CURATOR, "curator")] {
        update_user_cache(&mut store, profile(user, name));
    }
    add_admin(&mut store, "ships", &HOST, &ADMIN, NOW).unwrap();
    add_admin(&mut store, "ships", &HOST, &CURATOR, NOW).unwrap();
    add_to_group_at(&mut store, "ships", &ADMIN, &U1, Some(14), NOW).unwrap();
    let before = format!("{:?}", store);
    let done = expiration_notification_at(&store, true, NOW);
    assert_eq!(done.count, 1);
    assert_eq!(done.failed, 0);
    assert_eq!(
        done.mails,
        vec![Mail::Single {
            to: "admin@example.com".to_owned(),
            template: Template::FirstHostExpiration("ships".to_owned(), "one".to_owned()),
        }]
    );
    let done = expiration_notification_at(&store, false, NOW);
    assert_eq!((done.count, done.failed), (0, 0));
    assert!(done.mails.is_empty());
    assert_eq!(format!("{:?}", store), before);
}

#[test]
fn first_warning_goes_to_the_curators_where_the_host_is_a_member_or_gone() {
    let mut store = store_with(&["ships"]);
    for (user, name) in
        [(U1, "one"), (U2, "two"), (HOST, "host"), (ADMIN, "admin"), (CURATOR, "curator")]
    {
        update_user_cache(&mut store, profile(user, name));
    }
    add_admin(&mut store, "ships", &HOST, &ADMIN, NOW).unwrap();
    add_admin(&mut store, "ships", &HOST, &CURATOR, NOW).unwrap();
    add_to_group_at(&mut store, "ships", &ADMIN, &U2, None, NOW).unwrap();
    add_to_group_at(&mut store, "ships", &U2, &U1, Some(14), NOW).unwrap();
    add_to_group_at(&mut store, "ships", &HOST, &U3, Some(14), NOW).unwrap();
    let done = expiration_notification_at(&store, true, NOW);
    assert_eq!(
        done.mails,
        vec![Mail::Blind {
            bcc: vec!["admin@example.com".to_owned(), "curator@example.com".to_owned()],
            template: Template::FirstHostExpiration("ships".to_owned(), "one".to_owned()),
        }]
    );
    assert_eq!(done.count, 1);
    assert_eq!(done.failed, 1);
}

#[test]
fn second_warning_goes_to_the_accountable_and_to_the_member() {
    let mut store = store_with(&["ships"]);
    for (user, name) in [(U1, "one"), (U2, "two"), (ADMIN, "admin")] {
        update_user_cache(&mut store, profile(user, name));
    }
    add_admin(&mut store, "ships", &HOST, &ADMIN, NOW).unwrap();
    add_to_group_at(&mut store, "ships", &ADMIN, &U1, Some(7), NOW).unwrap();
    add_to_group_at(&mut store, "ships", &User::default(), &U2, Some(7), NOW).unwrap();
    let done = expiration_notification_at(&store, false, NOW);
    assert_eq!(done.count, 2);
    assert_eq!(done.failed, 0);
    assert_eq!(
        done.mails,
        vec![
            Mail::Single {
                to: "admin@example.com".to_owned(),
                template: Template::SecondHostExpiration("ships".to_owned(), "one".to_owned()),
            },
            Mail::Single {
                to: "one@example.com".to_owned(),
                template: Template::MemberExpiration("ships".to_owned()),
            },
            Mail::Blind {
                bcc: vec!["admin@example.com".to_owned()],
                template: Template::SecondHostExpiration("ships".to_owned(), "two".to_owned()),
            },
            Mail::Single {
                to: "two@example.com".to_owned(),
                template: Template::MemberExpiration("ships".to_owned()),
            },
        ]
    );
    assert!(expiration_notification_at(&store, true, NOW).mails.is_empty());
    assert_eq!(store.memberships.len(), 3);
}

#[test]
fn the_warning_window_is_a_calendar_day() {
    let mut store = store_with(&["ships"]);
    update_user_cache(&mut store, profile(U1, "one"));
    add_to_group_at(&mut store, "ships", &HOST, &U1, Some(14), NOW).unwrap();
    // The membership lapses on 2020-09-27 at 12:26:40.
    let midnight = NOW.micros - NOW.micros % DAY;
    let start_of_day = Timestamp { micros: midnight };
    let end_of_day = Timestamp { micros: midnight + DAY - 1 };
    assert_eq!(expiration_notification_at(&store, true, start_of_day).count, 1);
    assert_eq!(expiration_notification_at(&store, true, end_of_day).count, 1);
    let day_before = Timestamp { micros: midnight - 1 };
    assert_eq!(expiration_notification_at(&store, true, day_before).count, 0);
    let day_after = Timestamp { micros: midnight + DAY };
    assert_eq!(expiration_notification_at(&store, true, day_after).count, 0);
    assert_eq!(expiration_notification_at(&store, false, later(7)).count, 1);
    assert_eq!(expiration_notification_at(&store, false, later(6)).count, 0);
    assert_eq!(expiration_notification_at(&store, false, later(8)).count, 0);
}

#[test]
fn ships_scenario() {
    let mut store = store_with(&["ships"]);
    for (user, name) in [(U1, "one"), (HOST, "host"), (CURATOR, "curator")] {
        update_user_cache(&mut store, profile(user, name));
    }
    add_admin(&mut store, "ships", &User::default(), &CURATOR, NOW).unwrap();
    add_to_group_at(&mut store, "ships", &HOST, &U1, Some(10), NOW).unwrap();
    let rows = store.memberships.clone();

    let first = expiration_notification_at(&store, true, NOW);
    assert_eq!((first.count, first.failed), (0, 0));
    assert!(first.mails.is_empty());
    let first = expiration_notification_at(&store, true, later(-4));
    assert_eq!(first.count, 1);
    assert_eq!(first.mails.len(), 1);

    let second = expiration_notification_at(&store, false, later(3));
    assert_eq!(second.count, 1);
    assert_eq!(
        second.mails,
        vec![
            Mail::Blind {
                bcc: vec!["curator@example.com".to_owned()],
                template: Template::SecondHostExpiration("ships".to_owned(), "one".to_owned()),
            },
            Mail::Single {
                to: "one@example.com".to_owned(),
                template: Template::MemberExpiration("ships".to_owned()),
            },
        ]
    );
    assert_eq!(store.memberships, rows);

    add_admin(&mut store, "ships", &User::default(), &HOST, NOW).unwrap();
    let second = expiration_notification_at(&store, false, later(3));
    assert_eq!(
        second.mails[0],
        Mail::Single {
            to: "host@example.com".to_owned(),
            template: Template::SecondHostExpiration("ships".to_owned(), "one".to_owned()),
        }
    );
    assert_eq!(store.memberships.len(), 3);

    let gone = expire_memberships_at(&mut store, later(10));
    assert_eq!(gone.len(), 1);
    assert_eq!(store.memberships.len(), 2);
}

#[test]
fn notify_for_one_membership() {
    let mut store = store_with(&["ships"]);
    update_user_cache(&mut store, profile(U1, "one"));
    add_to_group_at(&mut store, "ships", &HOST, &U1, Some(7), NOW).unwrap();
    add_to_group_at(&mut store, "ships", &HOST, &U2, Some(7), NOW).unwrap();
    let mails = notify(&store, &store.memberships[0], true).unwrap();
    assert_eq!(
        mails,
        vec![Mail::Blind {
            bcc: vec![],
            template: Template::FirstHostExpiration("ships".to_owned(), "one".to_owned()),
        }]
    );
    assert_eq!(notify(&store, &store.memberships[0], false).unwrap().len(), 2);
    assert_eq!(notify(&store, &store.memberships[1], false), None);
}

#[test]
fn notification_now_reads_the_clock() {
    let mut store = store_with(&["ships"]);
    update_user_cache(&mut store, profile(U1, "one"));
    let now = Timestamp { micros: chrono::Utc::now().timestamp_micros() };
    add_to_group_at(&mut store, "ships", &HOST, &U1, Some(14), now).unwrap();
    add_to_group_at(&mut store, "ships", &HOST, &U2, Some(7), now).unwrap();
    let first = expiration_notification(&store, true);
    assert_eq!((first.count, first.failed), (1, 0));
    let second = expiration_notification(&store, false);
    assert_eq!((second.count, second.failed), (0, 1));
}

#[test]
fn mails_are_built_as_asked() {
    assert_eq!(
        send_email("a@example.com".to_owned(), Template::MemberExpiration("g".to_owned())),
        Mail::Single {
            to: "a@example.com".to_owned(),
            template: Template::MemberExpiration("g".to_owned()),
        }
    );
    assert_eq!(
        send_emails(vec!["a@example.com".to_owned()], Template::DeleteMember("g".to_owned())),
        Mail::Blind {
            bcc: vec!["a@example.com".to_owned()],
            template: Template::DeleteMember("g".to_owned()),
        }
    );
}
