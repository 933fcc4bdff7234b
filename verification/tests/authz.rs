use authstore::grants::Principal;
use authstore::group_id::GroupId;
use authstore::groups::GroupRow;
use authstore::members::GroupMembershipRow;
use authstore::roles::{AccessRoleRow, GroupRoleRow, UserRoleRow};
use authstore::store::Store;
use authstore::user_id::UserId;
use authstore::users::UserRow;
use authstore::AuthError;

fn store_with_user(id: u128, handle: &str, email: &str) -> (Store, UserId) {
    let mut store = Store::new();
    let uid = UserId(id);
    let row = UserRow::new(uid, Some(String::from(handle)), String::from(email), None);
    UserRow::insert(&mut store, &row).expect("fresh user");
    (store, uid)
}

#[test]
fn allow_twice_keeps_one_row() {
    let (mut store, uid) = store_with_user(1, "alice", "alice@example.com");
    let p = Principal::User(uid);
    store.allow(p, "project", "prj1", "editor").expect("first grant");
    store.allow(p, "project", "prj1", "editor").expect("second grant");
    assert!(store.has_role(p, "project", "prj1", "editor"));
    let listed = UserRoleRow::roles(&store, uid);
    assert_eq!(listed.len(), 1);
    assert_eq!(listed[0].scope, "project");
    assert_eq!(listed[0].scope_id, "prj1");
    assert_eq!(listed[0].role_name, "editor");
}

#[test]
fn revoke_absent_is_noop() {
    let (mut store, uid) = store_with_user(2, "bob", "bob@example.com");
    let p = Principal::User(uid);
    store.revoke(p, "project", "prj1", "editor");
    assert!(!store.has_role(p, "project", "prj1", "editor"));
    assert_eq!(UserRoleRow::roles(&store, uid).len(), 0);
}

#[test]
fn global_wrapper_matches_reserved_pair() {
    let (mut store, uid) = store_with_user(3, "cara", "cara@example.com");
    let p = Principal::User(uid);
    store.allow_global(p, "admin").expect("global grant");
    // the explicit reserved pair sees the same row
    assert!(store.has_role(p, "global", "global", "admin"));
    let through_global = AccessRoleRow::roles(&store, uid);
    let through_scope = UserRoleRow::roles_in_scope(&store, uid, "global", "global");
    assert_eq!(through_global.len(), 1);
    assert_eq!(through_scope.len(), 1);
    assert_eq!(through_global[0].role_name, through_scope[0].role_name);
    // the explicit path grants into the same table the wrapper reads
    store.allow(p, "global", "global", "auditor").expect("explicit grant");
    assert!(store.has_global_role(p, "auditor"));
    let names: Vec<String> = AccessRoleRow::roles(&store, uid)
        .into_iter()
        .map(|r| r.role_name)
        .collect();
    assert_eq!(names, vec![String::from("admin"), String::from("auditor")]);
}

#[test]
fn roles_listing_is_sorted_and_stable() {
    let (mut store, uid) = store_with_user(4, "dana", "dana@example.com");
    let p = Principal::User(uid);
    store.allow(p, "zone", "z2", "writer").expect("grant");
    store.allow(p, "project", "prj9", "editor").expect("grant");
    store.allow(p, "project", "prj1", "viewer").expect("grant");
    store.allow(p, "project", "prj1", "editor").expect("grant");
    let first = UserRoleRow::roles(&store, uid);
    let keys: Vec<(String, String, String)> = first
        .iter()
        .map(|r| (r.scope.clone(), r.scope_id.clone(), r.role_name.clone()))
        .collect();
    assert_eq!(
        keys,
        vec![
            (String::from("project"), String::from("prj1"), String::from("editor")),
            (String::from("project"), String::from("prj1"), String::from("viewer")),
            (String::from("project"), String::from("prj9"), String::from("editor")),
            (String::from("zone"), String::from("z2"), String::from("writer")),
        ]
    );
    let second = UserRoleRow::roles(&store, uid);
    let keys_again: Vec<(String, String, String)> = second
        .iter()
        .map(|r| (r.scope.clone(), r.scope_id.clone(), r.role_name.clone()))
        .collect();
    assert_eq!(keys, keys_again);
}

#[test]
fn roles_in_scope_sorted_by_role() {
    let (mut store, uid) = store_with_user(5, "egon", "egon@example.com");
    let p = Principal::User(uid);
    store.allow(p, "project", "prj1", "viewer").expect("grant");
    store.allow(p, "project", "prj1", "admin").expect("grant");
    store.allow(p, "project", "prj2", "owner").expect("grant");
    let narrowed = UserRoleRow::roles_in_scope(&store, uid, "project", "prj1");
    let names: Vec<String> = narrowed.into_iter().map(|r| r.role_name).collect();
    assert_eq!(names, vec![String::from("admin"), String::from("viewer")]);
}

#[test]
fn allow_unknown_principal_is_refused() {
    let mut store = Store::new();
    let outcome = store.allow(Principal::User(UserId(9)), "project", "prj1", "editor");
    assert_eq!(outcome, Err(AuthError::NotFound));
}

#[test]
fn group_grants_live_beside_user_grants() {
    let mut store = Store::new();
    let (s2, uid) = store_with_user(6, "fay", "fay@example.com");
    store = s2;
    let gid = GroupId(60);
    let group = GroupRow::new(gid, None, "ops");
    GroupRow::insert(&mut store, &group).expect("fresh group");
    let grant = GroupRoleRow::new(gid, "zone", "z1", "deployer");
    GroupRoleRow::allow(&mut store, &grant).expect("group grant");
    assert!(GroupRoleRow::has_role(&store, gid, "zone", "z1", "deployer"));
    assert!(!UserRoleRow::has_role(&store, uid, "zone", "z1", "deployer"));
    let listed = GroupRoleRow::roles(&store, gid);
    assert_eq!(listed.len(), 1);
    assert_eq!(listed[0].role_name, "deployer");
    GroupRoleRow::revoke(&mut store, &grant);
    assert!(!GroupRoleRow::has_role(&store, gid, "zone", "z1", "deployer"));
}

#[test]
fn identifier_round_trip() {
    let id = UserId(0x550e8400e29b41d4a716446655440000u128);
    let text = id.to_text();
    assert_eq!(text, "550e8400-e29b-41d4-a716-446655440000");
    let back = UserId::from_text(&text).expect("canonical form parses");
    assert_eq!(back, id);
}

#[test]
fn identifier_parse_rejects_malformed() {
    assert_eq!(UserId::from_text("not-an-identifier"), Err(AuthError::MalformedIdentifier));
    assert_eq!(GroupId::from_text(""), Err(AuthError::MalformedIdentifier));
}

#[test]
fn identifier_kinds_parse_same_text() {
    let text = "00000000-0000-0000-0000-000000000001";
    let u = UserId::from_text(text).expect("parses");
    let g = GroupId::from_text(text).expect("parses");
    assert_eq!(u.0, 1);
    assert_eq!(g.0, 1);
    assert_eq!(u.to_text(), g.to_text());
}

#[test]
fn membership_and_scoped_grants_are_independent() {
    // create group "engineering", create user "alice", add the membership,
    // grant a scoped role, then remove the membership: the grant survives.
    let mut store = Store::new();
    let g1 = GroupId(100);
    let u1 = UserId(101);
    GroupRow::insert(&mut store, &GroupRow::new(g1, None, "engineering")).expect("group");
    UserRow::insert(
        &mut store,
        &UserRow::new(u1, Some(String::from("alice")), String::from("a@example.com"), None),
    )
    .expect("user");
    GroupMembershipRow::add_member(&mut store, &GroupMembershipRow::new(g1, u1, "member"))
        .expect("membership");
    assert!(GroupMembershipRow::is_member(&store, g1, u1));
    let groups = GroupMembershipRow::groups_for_user(&store, u1);
    assert_eq!(groups.len(), 1);
    assert_eq!(groups[0].id, g1);
    assert_eq!(groups[0].display_name, "engineering");

    store.allow(Principal::User(u1), "project", "prj7", "editor").expect("grant");
    assert!(store.has_role(Principal::User(u1), "project", "prj7", "editor"));
    let narrowed = UserRoleRow::roles_in_scope(&store, u1, "project", "prj7");
    let names: Vec<String> = narrowed.into_iter().map(|r| r.role_name).collect();
    assert_eq!(names, vec![String::from("editor")]);

    GroupMembershipRow::remove_member(&mut store, g1, u1);
    assert!(!GroupMembershipRow::is_member(&store, g1, u1));
    assert!(store.has_role(Principal::User(u1), "project", "prj7", "editor"));
}
