use dino_park_packs::clock::Timestamp;
use dino_park_packs::consolidate::{
    consolidate_users_with_cis, contains_text, local_groups, names_not_among, reconcile,
    Reconciled, RemoteGroups,
};
use dino_park_packs::error::PacksError;
use dino_park_packs::group::create_group;
use dino_park_packs::lifecycle::SyncCall;
use dino_park_packs::member::add_to_group_at;
use dino_park_packs::model::NewGroup;
use dino_park_packs::store::Store;
use dino_park_packs::types::{GroupType, TrustType, User};

const NOW: Timestamp = Timestamp { micros: 1_600_000_000_000_000 };
const HOST: User = User { user_uuid: 100 };

fn names(list: &[&str]) -> Vec<String> {
    list.iter().map(|s| s.to_string()).collect()
}

fn store() -> Store {
    let mut store = Store::new();
    for name in ["ships", "boats", "rafts"] {
        let group = NewGroup {
            name: name.to_string(),
            typ: GroupType::Closed,
            description: String::new(),
            trust: TrustType::Ndaed,
            group_expiration: None,
        };
        create_group(0, &mut store, group, NOW).unwrap();
    }
    for (name, user) in [("rafts", 1), ("ships", 2), ("ships", 1), ("boats", 3), ("boats", 2)] {
        add_to_group_at(&mut store, name, &HOST, &User { user_uuid: user }, None, NOW).unwrap();
    }
    store
}

fn add(user: u128, name: &str) -> SyncCall {
    SyncCall::AddGroup { user_uuid: user, group_name: name.to_owned() }
}

fn remove(user: u128, name: &str) -> SyncCall {
    SyncCall::RemoveGroup { user_uuid: user, group_name: name.to_owned() }
}

#[test]
fn names_among_names() {
    let list = names(&["a", "b", "c"]);
    assert!(contains_text(&list, &"b".to_owned()));
    assert!(!contains_text(&list, &"d".to_owned()));
    assert!(!contains_text(&vec![], &"a".to_owned()));
    assert_eq!(names_not_among(&list, &names(&["c", "a", "x"])), names(&["b"]));
    assert_eq!(names_not_among(&list, &vec![]), list);
    assert!(names_not_among(&vec![], &list).is_empty());
    assert_eq!(names_not_among(&names(&["a", "a"]), &names(&["b"])), names(&["a", "a"]));
}

#[test]
fn local_groups_in_the_order_of_the_memberships() {
    let store = store();
    assert_eq!(local_groups(&store, 1), names(&["rafts", "ships"]));
    assert_eq!(local_groups(&store, 2), names(&["ships", "boats"]));
    assert!(local_groups(&store, 9).is_empty());
}

#[test]
fn reconcile_one_user() {
    let store = store();
    let remote = vec![
        RemoteGroups { user_uuid: 1, groups: Ok(names(&["ships", "planes", "gliders"])) },
        RemoteGroups { user_uuid: 1, groups: Ok(vec![]) },
    ];
    let live = reconcile(&store, &remote, 1, false);
    assert_eq!(
        live,
        Reconciled {
            user: User { user_uuid: 1 },
            failure: None,
            missing: names(&["rafts"]),
            surplus: names(&["planes", "gliders"]),
            calls: vec![add(1, "rafts"), remove(1, "planes"), remove(1, "gliders")],
        }
    );
    let dry = reconcile(&store, &remote, 1, true);
    assert_eq!(dry.missing, live.missing);
    assert_eq!(dry.surplus, live.surplus);
    assert!(dry.calls.is_empty());
}

#[test]
fn a_user_in_step_needs_no_call() {
    let store = store();
    let remote = vec![RemoteGroups { user_uuid: 2, groups: Ok(names(&["boats", "ships"])) }];
    let done = reconcile(&store, &remote, 2, false);
    assert_eq!(done.failure, None);
    assert!(done.missing.is_empty());
    assert!(done.surplus.is_empty());
    assert!(done.calls.is_empty());
}

#[test]
fn one_user_failing_does_not_stop_the_others() {
    let store = store();
    let remote = vec![
        RemoteGroups { user_uuid: 2, groups: Err(PacksError::UserNotFound) },
        RemoteGroups { user_uuid: 1, groups: Ok(names(&["rafts", "ships"])) },
    ];
    let done = consolidate_users_with_cis(&store, false, &remote);
    assert_eq!(done.iter().map(|r| r.user.user_uuid).collect::<Vec<_>>(), vec![1, 2, 3]);
    assert_eq!(done[0].failure, None);
    assert!(done[0].calls.is_empty());
    assert_eq!(done[1].failure, Some(PacksError::UserNotFound));
    assert!(done[1].calls.is_empty());
    assert!(done[1].missing.is_empty());
    assert_eq!(done[2].failure, Some(PacksError::UpstreamError));
    assert!(consolidate_users_with_cis(&Store::new(), false, &remote).is_empty());
    let before = format!("{:?}", store);
    consolidate_users_with_cis(&store, true, &remote);
    assert_eq!(format!("{:?}", store), before);
}
