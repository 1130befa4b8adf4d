use dino_park_packs::clock::Timestamp;
use dino_park_packs::error::PacksError;
use dino_park_packs::group::{add_role, create_group};
use dino_park_packs::listing::{
    folded, profile_matches, rank_of, role_among, row_precedes, scoped_members_and_host,
    starts_with, text_before, DisplayMemberAndHost,
};
use dino_park_packs::member::{add_admin, add_to_group_at, set_role};
use dino_park_packs::model::{LogContext, NewGroup, UserProfile};
use dino_park_packs::store::Store;
use dino_park_packs::types::{GroupType, RoleType, TrustType, User};
use dino_park_packs::user::update_user_cache;

const NOW: Timestamp = Timestamp { micros: 1_600_000_000_000_000 };
const HOST: User = User { user_uuid: 100 };

fn profile(uuid: u128, first: &str, last: &str, username: &str) -> UserProfile {
    UserProfile {
        user_uuid: uuid,
        user_id: format!("ad|{}", username),
        picture: format!("/avatar/{}", uuid),
        first_name: first.to_owned(),
        last_name: last.to_owned(),
        username: username.to_owned(),
        email: format!("{}@example.com", username),
        trust: if uuid == 100 { TrustType::Staff } else { TrustType::Ndaed },
    }
}

fn store() -> Store {
    let mut store = Store::new();
    for (name, trust) in [("ships", TrustType::Ndaed), ("boats", TrustType::Public)] {
        let group = NewGroup {
            name: name.to_owned(),
            typ: GroupType::Closed,
            description: String::new(),
            trust,
            group_expiration: None,
        };
        create_group(0, &mut store, group, NOW).unwrap();
    }
    update_user_cache(&mut store, profile(100, "Hilda", "Host", "host"));
    update_user_cache(&mut store, profile(1, "Zoe", "Able", "zoe"));
    update_user_cache(&mut store, profile(2, "adam", "Baker", "Adam"));
    update_user_cache(&mut store, profile(3, "Carl", "Zeta", "carl"));
    update_user_cache(&mut store, profile(4, "Carla", "Young", "carla"));
    let curator = add_role(&LogContext::with(1, 0), &mut store, RoleType::Curator).unwrap();
    for user in [1, 2, 3, 4, 5] {
        add_to_group_at(&mut store, "ships", &HOST, &User { user_uuid: user }, Some(9), NOW)
            .unwrap();
    }
    add_to_group_at(&mut store, "ships", &User::default(), &HOST, None, NOW).unwrap();
    add_admin(&mut store, "ships", &HOST, &User { user_uuid: 3 }, NOW).unwrap();
    set_role(100, &mut store, "ships", &User { user_uuid: 1 }, curator.id).unwrap();
    add_to_group_at(&mut store, "boats", &HOST, &User { user_uuid: 1 }, None, NOW).unwrap();
    store
}

fn all_roles() -> Vec<RoleType> {
    vec![RoleType::Member, RoleType::Curator, RoleType::Admin]
}

fn names(rows: &[DisplayMemberAndHost]) -> Vec<&str> {
    rows.iter().map(|r| r.member.username.as_str()).collect()
}

#[test]
fn texts_in_order() {
    assert!(text_before("", "a"));
    assert!(!text_before("", ""));
    assert!(!text_before("a", ""));
    assert!(text_before("a", "b"));
    assert!(!text_before("b", "a"));
    assert!(text_before("ab", "abc"));
    assert!(!text_before("abc", "ab"));
    assert!(!text_before("abc", "abc"));
    assert!(text_before("Zoe", "adam"));
    assert!(text_before("abc", "abd"));
    assert!(text_before("z", "\u{e9}"));
    for (a, b) in [("carl", "carla"), ("", "x"), ("Adam", "zoe"), ("a", "a")] {
        assert_eq!(text_before(a, b), a < b);
        assert_eq!(text_before(b, a), b < a);
    }
}

#[test]
fn prefixes_without_regard_to_case() {
    assert_eq!(folded('A'), 'a' as u32);
    assert_eq!(folded('Z'), 'z' as u32);
    assert_eq!(folded('a'), 'a' as u32);
    assert_eq!(folded('@'), '@' as u32);
    assert_eq!(folded('['), '[' as u32);
    assert_eq!(folded('\u{c9}'), 0xc9);
    assert!(starts_with("Carla", ""));
    assert!(starts_with("", ""));
    assert!(!starts_with("", "c"));
    assert!(starts_with("Carla", "car"));
    assert!(starts_with("carla", "CAR"));
    assert!(starts_with("Carla", "Carla"));
    assert!(!starts_with("Carla", "Carlas"));
    assert!(!starts_with("Carla", "arl"));
    assert!(!starts_with("\u{c9}mile", "\u{e9}"));
}

#[test]
fn a_profile_matches_by_any_name() {
    let p = profile(4, "Carla", "Young", "cy");
    assert!(profile_matches(&p, ""));
    assert!(profile_matches(&p, "carla y"));
    assert!(profile_matches(&p, "Carla Young"));
    assert!(profile_matches(&p, "you"));
    assert!(profile_matches(&p, "CY@EXAMPLE"));
    assert!(profile_matches(&p, "c"));
    assert!(!profile_matches(&p, "carla  y"));
    assert!(!profile_matches(&p, "arla"));
    assert!(!profile_matches(&p, "Carla Young "));
}

#[test]
fn roles_rank_admins_first() {
    assert_eq!(rank_of(RoleType::Admin), 0);
    assert_eq!(rank_of(RoleType::Curator), 1);
    assert_eq!(rank_of(RoleType::Member), 2);
    assert!(role_among(&all_roles(), RoleType::Curator));
    assert!(!role_among(&vec![RoleType::Member], RoleType::Curator));
    assert!(!role_among(&vec![], RoleType::Member));
}

#[test]
fn rows_in_order_of_role_name_and_uuid() {
    let row = |uuid: u128, username: &str, role: RoleType| DisplayMemberAndHost {
        member: profile(uuid, "", "", username),
        role,
        since: NOW,
        expiration: None,
        host: profile(100, "", "", "host"),
    };
    let admin = row(9, "zed", RoleType::Admin);
    let curator = row(1, "amy", RoleType::Curator);
    let amy = row(2, "amy", RoleType::Member);
    let amy_too = row(3, "amy", RoleType::Member);
    let bob = row(1, "bob", RoleType::Member);
    assert!(row_precedes(&admin, &curator));
    assert!(!row_precedes(&curator, &admin));
    assert!(row_precedes(&curator, &amy));
    assert!(row_precedes(&amy, &bob));
    assert!(!row_precedes(&bob, &amy));
    assert!(row_precedes(&amy, &amy_too));
    assert!(!row_precedes(&amy_too, &amy));
    assert!(!row_precedes(&amy, &amy));
    assert!(admin.member.trust != TrustType::Staff && !admin.is_staff());
    assert!(row(100, "host", RoleType::Admin).is_staff());
}

#[test]
fn the_members_of_a_group_in_order() {
    let store = store();
    let page =
        scoped_members_and_host(&store, TrustType::Staff, "ships", None, &all_roles(), 20, None)
            .unwrap();
    assert_eq!(names(&page.members), vec!["carl", "zoe", "Adam", "carla"]);
    assert_eq!(page.next, Some(4));
    let first = &page.members[0];
    assert_eq!(first.role, RoleType::Admin);
    assert_eq!(first.member, profile(3, "Carl", "Zeta", "carl"));
    assert_eq!(first.host, profile(100, "Hilda", "Host", "host"));
    assert_eq!(first.since, NOW);
    assert_eq!(first.expiration, None);
    assert_eq!(page.members[1].role, RoleType::Curator);
    assert_eq!(page.members[2].role, RoleType::Member);
    assert_eq!(
        page.members[2].expiration,
        Some(Timestamp { micros: NOW.micros + 9 * 86_400_000_000 })
    );
}

#[test]
fn the_members_of_a_group_by_role_and_name() {
    let store = store();
    let members_only = vec![RoleType::Member];
    let page = scoped_members_and_host(
        &store,
        TrustType::Ndaed,
        "ships",
        Some("CAR".to_owned()),
        &all_roles(),
        20,
        Some(0),
    )
    .unwrap();
    assert_eq!(names(&page.members), vec!["carl", "carla"]);
    let page = scoped_members_and_host(
        &store,
        TrustType::Ndaed,
        "ships",
        Some("car".to_owned()),
        &members_only,
        20,
        None,
    )
    .unwrap();
    assert_eq!(names(&page.members), vec!["carla"]);
    let page = scoped_members_and_host(
        &store,
        TrustType::Ndaed,
        "ships",
        Some("baker".to_owned()),
        &all_roles(),
        20,
        None,
    )
    .unwrap();
    assert_eq!(names(&page.members), vec!["Adam"]);
    let page = scoped_members_and_host(
        &store,
        TrustType::Ndaed,
        "ships",
        Some("nobody".to_owned()),
        &all_roles(),
        20,
        None,
    )
    .unwrap();
    assert!(page.members.is_empty());
    assert_eq!(page.next, None);
    let page =
        scoped_members_and_host(&store, TrustType::Ndaed, "ships", None, &vec![], 20, None)
            .unwrap();
    assert!(page.members.is_empty());
}

#[test]
fn the_members_of_a_group_in_pages() {
    let store = store();
    let roles = all_roles();
    let page =
        scoped_members_and_host(&store, TrustType::Staff, "ships", None, &roles, 3, None).unwrap();
    assert_eq!(names(&page.members), vec!["carl", "zoe", "Adam"]);
    assert_eq!(page.next, Some(3));
    let page = scoped_members_and_host(&store, TrustType::Staff, "ships", None, &roles, 3, Some(3))
        .unwrap();
    assert_eq!(names(&page.members), vec!["carla"]);
    assert_eq!(page.next, Some(4));
    let page = scoped_members_and_host(&store, TrustType::Staff, "ships", None, &roles, 3, Some(4))
        .unwrap();
    assert!(page.members.is_empty());
    assert_eq!(page.next, None);
}

#[test]
fn who_may_see_the_members() {
    let store = store();
    let roles = all_roles();
    assert_eq!(
        scoped_members_and_host(&store, TrustType::Vouched, "ships", None, &roles, 20, None),
        Err(PacksError::NotAllowed)
    );
    assert_eq!(
        scoped_members_and_host(&store, TrustType::Staff, "rafts", None, &roles, 20, None),
        Err(PacksError::GroupNotFound)
    );
    let page = scoped_members_and_host(&store, TrustType::Public, "boats", None, &roles, 20, None)
        .unwrap();
    assert_eq!(names(&page.members), vec!["zoe"]);
}
