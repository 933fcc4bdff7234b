use authstore::api::{self_deactivate, self_groups, self_leave_group, self_permissions,
    self_profile, LeaveGroupContent};
use authstore::grants::Principal;
use authstore::group_id::GroupId;
use authstore::groups::GroupRow;
use authstore::log::LogRow;
use authstore::members::GroupMembershipRow;
use authstore::store::Store;
use authstore::user_id::UserId;
use authstore::users::UserRow;
use authstore::AuthError;

fn seeded() -> Store {
    let mut store = Store::new();
    UserRow::insert(
        &mut store,
        &UserRow::new(
            UserId(1),
            Some(String::from("alice")),
            String::from("alice@example.com"),
            None,
        ),
    )
    .expect("user");
    GroupRow::insert(&mut store, &GroupRow::new(GroupId(10), None, "engineering"))
        .expect("group");
    store
}

#[test]
fn duplicate_email_is_conflict() {
    let mut store = seeded();
    let again = UserRow::new(
        UserId(2),
        Some(String::from("allison")),
        String::from("alice@example.com"),
        None,
    );
    assert_eq!(UserRow::insert(&mut store, &again), Err(AuthError::Conflict));
}

#[test]
fn duplicate_handle_is_conflict() {
    let mut store = seeded();
    let again = UserRow::new(
        UserId(2),
        Some(String::from("alice")),
        String::from("other@example.com"),
        None,
    );
    assert_eq!(UserRow::insert(&mut store, &again), Err(AuthError::Conflict));
}

#[test]
fn duplicate_display_name_is_conflict() {
    let mut store = seeded();
    let again = GroupRow::new(GroupId(11), None, "engineering");
    assert_eq!(GroupRow::insert(&mut store, &again), Err(AuthError::Conflict));
}

#[test]
fn lookups_find_what_was_created() {
    let store = seeded();
    let by_id = UserRow::get(&store, UserId(1)).expect("present");
    assert_eq!(by_id.email, "alice@example.com");
    assert!(by_id.active);
    let by_handle = UserRow::get_by_username(&store, "alice").expect("present");
    assert_eq!(by_handle.id, UserId(1));
    let by_mail = UserRow::get_by_email(&store, "alice@example.com").expect("present");
    assert_eq!(by_mail.id, UserId(1));
    assert!(UserRow::get(&store, UserId(99)).is_none());
    assert!(UserRow::get_by_username(&store, "nobody").is_none());
    assert!(UserRow::get_by_email(&store, "nobody@example.com").is_none());
    let grp = GroupRow::get(&store, GroupId(10)).expect("present");
    assert_eq!(grp.display_name, "engineering");
}

#[test]
fn set_details_replaces_whole_payload() {
    let mut store = seeded();
    UserRow::set_details(&mut store, UserId(1), Some(String::from("{\"theme\":\"dark\"}")));
    let row = UserRow::get(&store, UserId(1)).expect("present");
    assert_eq!(row.details, Some(String::from("{\"theme\":\"dark\"}")));
    UserRow::set_details(&mut store, UserId(1), None);
    let row = UserRow::get(&store, UserId(1)).expect("present");
    assert_eq!(row.details, None);
    // absent target: a successful no-op
    UserRow::set_details(&mut store, UserId(99), Some(String::from("x")));
    GroupRow::set_details(&mut store, GroupId(10), Some(String::from("{\"floor\":3}")));
    let grp = GroupRow::get(&store, GroupId(10)).expect("present");
    assert_eq!(grp.details, Some(String::from("{\"floor\":3}")));
}

#[test]
fn deactivate_is_idempotent_soft_delete() {
    let mut store = seeded();
    UserRow::deactivate(&mut store, UserId(1));
    UserRow::deactivate(&mut store, UserId(1));
    let row = UserRow::get(&store, UserId(1)).expect("still present");
    assert!(!row.active);
    assert_eq!(row.email, "alice@example.com");
    // absent target: a successful no-op
    UserRow::deactivate(&mut store, UserId(99));
}

#[test]
fn delete_user_cascades_everywhere() {
    let mut store = seeded();
    let u = UserId(1);
    let g = GroupId(10);
    GroupMembershipRow::add_member(&mut store, &GroupMembershipRow::new(g, u, "member"))
        .expect("membership");
    store.allow(Principal::User(u), "project", "prj1", "editor").expect("grant");
    LogRow::insert(&mut store, &LogRow::new(u, String::from("login")));
    UserRow::delete(&mut store, u);
    assert!(UserRow::get(&store, u).is_none());
    assert!(!GroupMembershipRow::is_member(&store, g, u));
    assert!(!store.has_role(Principal::User(u), "project", "prj1", "editor"));
    assert_eq!(GroupMembershipRow::members(&store, g, None).len(), 0);
    // the audit entry is orphaned, not removed
    assert_eq!(store.log.len(), 1);
    assert_eq!(store.log[0].user_id, None);
    assert_eq!(LogRow::events_for_user(&store, u, None).len(), 0);
    // deleting again is a no-op
    UserRow::delete(&mut store, u);
}

#[test]
fn delete_group_cascades_memberships_and_grants() {
    let mut store = seeded();
    let u = UserId(1);
    let g = GroupId(10);
    GroupMembershipRow::add_member(&mut store, &GroupMembershipRow::new(g, u, "member"))
        .expect("membership");
    store.allow(Principal::Group(g), "zone", "z1", "deployer").expect("grant");
    store.allow(Principal::User(u), "zone", "z1", "viewer").expect("grant");
    GroupRow::delete(&mut store, g);
    assert!(GroupRow::get(&store, g).is_none());
    assert!(!GroupMembershipRow::is_member(&store, g, u));
    assert!(!store.has_role(Principal::Group(g), "zone", "z1", "deployer"));
    // the user's own grant is untouched
    assert!(store.has_role(Principal::User(u), "zone", "z1", "viewer"));
}

#[test]
fn add_member_errors() {
    let mut store = seeded();
    let link = GroupMembershipRow::new(GroupId(10), UserId(1), "member");
    GroupMembershipRow::add_member(&mut store, &link).expect("first link");
    assert_eq!(
        GroupMembershipRow::add_member(&mut store, &link),
        Err(AuthError::Conflict)
    );
    let dangling = GroupMembershipRow::new(GroupId(10), UserId(99), "member");
    assert_eq!(
        GroupMembershipRow::add_member(&mut store, &dangling),
        Err(AuthError::NotFound)
    );
    let no_group = GroupMembershipRow::new(GroupId(99), UserId(1), "member");
    assert_eq!(
        GroupMembershipRow::add_member(&mut store, &no_group),
        Err(AuthError::NotFound)
    );
}

#[test]
fn membership_role_check() {
    let mut store = seeded();
    GroupMembershipRow::add_member(
        &mut store,
        &GroupMembershipRow::new(GroupId(10), UserId(1), "maintainer"),
    )
    .expect("link");
    assert!(GroupMembershipRow::has_role(&store, GroupId(10), UserId(1), "maintainer"));
    assert!(!GroupMembershipRow::has_role(&store, GroupId(10), UserId(1), "member"));
}

#[test]
fn members_keep_insertion_order_and_page() {
    let mut store = Store::new();
    let g = GroupId(50);
    GroupRow::insert(&mut store, &GroupRow::new(g, None, "staff")).expect("group");
    for k in 0..5u128 {
        let uid = UserId(200 + k);
        UserRow::insert(
            &mut store,
            &UserRow::new(uid, None, format!("u{}@example.com", k), None),
        )
        .expect("user");
        GroupMembershipRow::add_member(&mut store, &GroupMembershipRow::new(g, uid, "member"))
            .expect("link");
    }
    let all = GroupMembershipRow::members(&store, g, None);
    let ids: Vec<u128> = all.iter().map(|m| m.user_id.0).collect();
    assert_eq!(ids, vec![200, 201, 202, 203, 204]);
    let page = GroupMembershipRow::members(&store, g, Some((2, 1)));
    let ids: Vec<u128> = page.iter().map(|m| m.user_id.0).collect();
    assert_eq!(ids, vec![201, 202]);
    let past_end = GroupMembershipRow::members(&store, g, Some((10, 4)));
    assert_eq!(past_end.len(), 1);
    let beyond = GroupMembershipRow::members(&store, g, Some((3, 9)));
    assert_eq!(beyond.len(), 0);
}

#[test]
fn deactivated_group_leaves_listing_but_keeps_membership() {
    let mut store = seeded();
    GroupMembershipRow::add_member(
        &mut store,
        &GroupMembershipRow::new(GroupId(10), UserId(1), "member"),
    )
    .expect("link");
    assert_eq!(GroupMembershipRow::groups_for_user(&store, UserId(1)).len(), 1);
    GroupRow::deactivate(&mut store, GroupId(10));
    assert_eq!(GroupMembershipRow::groups_for_user(&store, UserId(1)).len(), 0);
    assert!(GroupMembershipRow::is_member(&store, GroupId(10), UserId(1)));
}

#[test]
fn audit_entries_come_back_newest_first() {
    let mut store = seeded();
    let u = UserId(1);
    let mk = |ts: i64, what: &str| LogRow {
        id: ts as u128,
        user_id: Some(u),
        action: String::from(what),
        timestamp: ts,
    };
    LogRow::insert(&mut store, &mk(5, "first"));
    LogRow::insert(&mut store, &mk(9, "third"));
    LogRow::insert(&mut store, &mk(7, "second"));
    let events = LogRow::events_for_user(&store, u, None);
    let stamps: Vec<i64> = events.iter().map(|e| e.timestamp).collect();
    assert_eq!(stamps, vec![9, 7, 5]);
    let page = LogRow::events_for_user(&store, u, Some((1, 1)));
    assert_eq!(page.len(), 1);
    assert_eq!(page[0].timestamp, 7);
}

#[test]
fn log_row_builder_attributes_the_user() {
    let row = LogRow::new(UserId(77), String::from("login"));
    assert_eq!(row.user_id, Some(UserId(77)));
    assert_eq!(row.action, "login");
}

#[test]
fn boundary_profile_and_groups() {
    let mut store = seeded();
    GroupMembershipRow::add_member(
        &mut store,
        &GroupMembershipRow::new(GroupId(10), UserId(1), "member"),
    )
    .expect("link");
    let me = self_profile(&store, UserId(1)).expect("known principal");
    assert_eq!(me.id, UserId(1));
    assert_eq!(me.email, "alice@example.com");
    assert!(self_profile(&store, UserId(99)).is_none());
    let groups = self_groups(&store, UserId(1));
    assert_eq!(groups.len(), 1);
    assert_eq!(groups[0].id, GroupId(10));
    assert_eq!(groups[0].name, "engineering");
}

#[test]
fn boundary_permissions_and_deactivate() {
    let mut store = seeded();
    store.allow_global(Principal::User(UserId(1)), "admin").expect("grant");
    store.allow(Principal::User(UserId(1)), "project", "prj1", "editor").expect("grant");
    let perms = self_permissions(&store, UserId(1));
    let names: Vec<String> = perms.into_iter().map(|r| r.name).collect();
    assert_eq!(names, vec![String::from("admin")]);
    self_deactivate(&mut store, UserId(1));
    assert!(!UserRow::get(&store, UserId(1)).expect("present").active);
}

#[test]
fn boundary_leave_group() {
    let mut store = seeded();
    GroupMembershipRow::add_member(
        &mut store,
        &GroupMembershipRow::new(GroupId(10), UserId(1), "member"),
    )
    .expect("link");
    let text = GroupId(10).to_text();
    let ok = self_leave_group(&mut store, UserId(1), &LeaveGroupContent { group_id: text });
    assert_eq!(ok, Ok(()));
    assert!(!GroupMembershipRow::is_member(&store, GroupId(10), UserId(1)));
    let bad = self_leave_group(
        &mut store,
        UserId(1),
        &LeaveGroupContent { group_id: String::from("not an id") },
    );
    assert_eq!(bad, Err(AuthError::MalformedIdentifier));
}

#[test]
fn table_names_and_columns() {
    assert_eq!(UserRow::table_name(), "auth.users");
    assert_eq!(UserRow::columns(), "id, username, email, details");
    assert_eq!(GroupRow::table_name(), "auth.groups");
    assert_eq!(GroupMembershipRow::table_name(), "auth.group_memberships");
    assert_eq!(LogRow::table_name(), "auth.log");
    assert_eq!(
        authstore::roles::AccessRoleRow::table_name(),
        authstore::roles::UserRoleRow::table_name()
    );
}
