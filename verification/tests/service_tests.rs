use rustbasic_permission::{
    ModelHasPermission, ModelHasRole, Permission, PermissionError, PermissionService, RbacTables,
    Role, RoleHasPermission, IssuedIds,
};

fn role(id: i32, name: &str) -> Role {
    Role { id, name: name.to_string(), guard_name: "web".to_string(), created_at: None, updated_at: None }
}

fn permission(id: i32, name: &str) -> Permission {
    Permission { id, name: name.to_string(), guard_name: "web".to_string(), created_at: None, updated_at: None }
}

fn seeded() -> RbacTables {
    let mut db = RbacTables::new();
    PermissionService::create_role(&mut db, "admin", None, "2024-01-01 00:00:00".to_string()).unwrap();
    PermissionService::create_role(&mut db, "editor", None, "2024-01-01 00:00:00".to_string()).unwrap();
    PermissionService::create_permission(&mut db, "edit articles", None, "2024-01-01 00:00:00".to_string()).unwrap();
    PermissionService::create_permission(&mut db, "manage users", None, "2024-01-01 00:00:00".to_string()).unwrap();
    PermissionService::create_permission(&mut db, "publish", None, "2024-01-01 00:00:00".to_string()).unwrap();
    db
}

#[test]
fn create_role_uses_web_guard_and_timestamp() {
    let mut db = RbacTables::new();
    let r = PermissionService::create_role(&mut db, "admin", None, "2024-05-06 07:08:09".to_string()).unwrap();
    assert_eq!(r.id, 1);
    assert_eq!(r.name, "admin");
    assert_eq!(r.guard_name, "web");
    assert_eq!(r.created_at.as_deref(), Some("2024-05-06 07:08:09"));
    assert_eq!(r.updated_at.as_deref(), Some("2024-05-06 07:08:09"));
    assert_eq!(db.roles().len(), 1);
}

#[test]
fn create_role_with_custom_guard() {
    let mut db = RbacTables::new();
    let r = PermissionService::create_role(&mut db, "api-admin", Some("api"), "t".to_string()).unwrap();
    assert_eq!(r.guard_name, "api");
}

#[test]
fn create_role_finds_existing_role() {
    let mut db = RbacTables::new();
    let first = PermissionService::create_role(&mut db, "admin", None, "t1".to_string()).unwrap();
    let second = PermissionService::create_role(&mut db, "admin", Some("api"), "t2".to_string()).unwrap();
    assert_eq!(first.id, second.id);
    assert_eq!(second.guard_name, "web");
    assert_eq!(second.created_at.as_deref(), Some("t1"));
    assert_eq!(db.roles().len(), 1);
    let other = PermissionService::create_role(&mut db, "editor", None, "t3".to_string()).unwrap();
    assert_eq!(other.id, 2);
}

#[test]
fn create_role_keeps_the_first_timestamp() {
    let mut db = RbacTables::new();
    let r = PermissionService::create_role(&mut db, "admin", None, "2024-01-02 03:04:05".to_string()).unwrap();
    assert_eq!(r.created_at, r.updated_at);
    let again = PermissionService::create_role(&mut db, "admin", None, "2030-01-01 00:00:00".to_string()).unwrap();
    assert_eq!(again.created_at.as_deref(), Some("2024-01-02 03:04:05"));
    assert_eq!(db.roles()[0].updated_at.as_deref(), Some("2024-01-02 03:04:05"));
}

#[test]
fn create_permission_finds_or_creates() {
    let mut db = RbacTables::new();
    let p = PermissionService::create_permission(&mut db, "edit articles", None, "t".to_string()).unwrap();
    assert_eq!((p.id, p.name.as_str(), p.guard_name.as_str()), (1, "edit articles", "web"));
    let q = PermissionService::create_permission(&mut db, "edit articles", Some("api"), "u".to_string()).unwrap();
    assert_eq!(q.id, 1);
    assert_eq!(q.guard_name, "web");
    let now = PermissionService::create_permission(&mut db, "publish", Some("api"), "v".to_string()).unwrap();
    assert_eq!(now.id, 2);
    assert_eq!(now.guard_name, "api");
    assert_eq!(now.created_at.as_deref(), Some("v"));
    assert_eq!(db.permissions().len(), 2);
}

#[test]
fn assign_role_unknown_role_is_row_not_found() {
    let mut db = seeded();
    assert_eq!(PermissionService::assign_role(&mut db, "users", 1, "ghost"), Err(PermissionError::RowNotFound));
    assert!(db.model_has_roles().is_empty());
}

#[test]
fn assign_role_then_has_role() {
    let mut db = seeded();
    assert_eq!(PermissionService::has_role(&db, "users", 1, "editor"), Ok(false));
    assert_eq!(PermissionService::assign_role(&mut db, "users", 1, "editor"), Ok(()));
    assert_eq!(PermissionService::has_role(&db, "users", 1, "editor"), Ok(true));
    assert_eq!(PermissionService::has_role(&db, "users", 2, "editor"), Ok(false));
    assert_eq!(PermissionService::has_role(&db, "teams", 1, "editor"), Ok(false));
    assert_eq!(PermissionService::has_role(&db, "users", 1, "admin"), Ok(false));
    assert_eq!(PermissionService::has_role(&db, "users", 1, "ghost"), Ok(false));
}

#[test]
fn assign_role_twice_records_one_link() {
    let mut db = seeded();
    PermissionService::assign_role(&mut db, "users", 1, "editor").unwrap();
    PermissionService::assign_role(&mut db, "users", 1, "editor").unwrap();
    assert_eq!(db.model_has_roles().len(), 1);
    let link = &db.model_has_roles()[0];
    assert_eq!((link.id, link.role_id, link.model_type.as_str(), link.model_id), (1, 2, "users", 1));
}

#[test]
fn remove_role_undoes_assign_role() {
    let mut db = seeded();
    PermissionService::assign_role(&mut db, "users", 1, "admin").unwrap();
    PermissionService::assign_role(&mut db, "users", 1, "editor").unwrap();
    PermissionService::assign_role(&mut db, "users", 2, "editor").unwrap();
    assert_eq!(PermissionService::remove_role(&mut db, "users", 1, "editor"), Ok(()));
    assert_eq!(PermissionService::has_role(&db, "users", 1, "editor"), Ok(false));
    assert_eq!(PermissionService::has_role(&db, "users", 1, "admin"), Ok(true));
    assert_eq!(PermissionService::has_role(&db, "users", 2, "editor"), Ok(true));
    assert_eq!(db.model_has_roles().len(), 2);
}

#[test]
fn remove_unknown_role_succeeds() {
    let mut db = seeded();
    PermissionService::assign_role(&mut db, "users", 1, "editor").unwrap();
    assert_eq!(PermissionService::remove_role(&mut db, "users", 1, "ghost"), Ok(()));
    assert_eq!(db.model_has_roles().len(), 1);
}

#[test]
fn give_permission_unknown_is_row_not_found() {
    let mut db = seeded();
    assert_eq!(PermissionService::give_permission_to(&mut db, "users", 1, "fly"), Err(PermissionError::RowNotFound));
}

#[test]
fn give_and_revoke_direct_permission() {
    let mut db = seeded();
    assert_eq!(PermissionService::give_permission_to(&mut db, "users", 7, "publish"), Ok(()));
    assert_eq!(PermissionService::give_permission_to(&mut db, "users", 7, "publish"), Ok(()));
    assert_eq!(db.model_has_permissions().len(), 1);
    assert_eq!(PermissionService::has_permission_to(&db, "users", 7, "publish"), Ok(true));
    assert_eq!(PermissionService::has_permission_to(&db, "users", 8, "publish"), Ok(false));
    assert_eq!(PermissionService::revoke_permission_to(&mut db, "users", 7, "publish"), Ok(()));
    assert_eq!(PermissionService::has_permission_to(&db, "users", 7, "publish"), Ok(false));
    assert!(db.model_has_permissions().is_empty());
    assert_eq!(PermissionService::revoke_permission_to(&mut db, "users", 7, "fly"), Ok(()));
}

#[test]
fn permissions_are_inherited_through_roles() {
    let mut db = seeded();
    PermissionService::assign_role(&mut db, "users", 3, "editor").unwrap();
    assert_eq!(PermissionService::has_permission_to(&db, "users", 3, "edit articles"), Ok(false));
    assert_eq!(PermissionService::give_permission_to_role(&mut db, "editor", "edit articles"), Ok(()));
    assert_eq!(PermissionService::give_permission_to_role(&mut db, "editor", "edit articles"), Ok(()));
    assert_eq!(db.role_has_permissions().len(), 1);
    assert_eq!(PermissionService::has_permission_to(&db, "users", 3, "edit articles"), Ok(true));
    assert_eq!(PermissionService::has_permission_to(&db, "users", 4, "edit articles"), Ok(false));
    // A direct grant revoked still leaves the inherited one.
    PermissionService::give_permission_to(&mut db, "users", 3, "edit articles").unwrap();
    PermissionService::revoke_permission_to(&mut db, "users", 3, "edit articles").unwrap();
    assert_eq!(PermissionService::has_permission_to(&db, "users", 3, "edit articles"), Ok(true));
    assert_eq!(PermissionService::revoke_permission_from_role(&mut db, "editor", "edit articles"), Ok(()));
    assert_eq!(PermissionService::has_permission_to(&db, "users", 3, "edit articles"), Ok(false));
    assert!(db.role_has_permissions().is_empty());
}

#[test]
fn give_permission_to_role_missing_names() {
    let mut db = seeded();
    assert_eq!(PermissionService::give_permission_to_role(&mut db, "ghost", "publish"), Err(PermissionError::RowNotFound));
    assert_eq!(PermissionService::give_permission_to_role(&mut db, "editor", "fly"), Err(PermissionError::RowNotFound));
    assert_eq!(PermissionService::revoke_permission_from_role(&mut db, "ghost", "publish"), Ok(()));
    assert_eq!(PermissionService::revoke_permission_from_role(&mut db, "editor", "fly"), Ok(()));
    assert!(db.role_has_permissions().is_empty());
}

#[test]
fn get_all_roles_for_lists_held_roles_in_table_order() {
    let mut db = seeded();
    PermissionService::assign_role(&mut db, "users", 1, "editor").unwrap();
    PermissionService::assign_role(&mut db, "users", 1, "admin").unwrap();
    PermissionService::assign_role(&mut db, "users", 2, "editor").unwrap();
    assert_eq!(PermissionService::get_all_roles_for(&db, "users", 1), Ok(vec!["admin".to_string(), "editor".to_string()]));
    assert_eq!(PermissionService::get_all_roles_for(&db, "users", 2), Ok(vec!["editor".to_string()]));
    assert_eq!(PermissionService::get_all_roles_for(&db, "users", 9), Ok(vec![]));
}

#[test]
fn get_all_permissions_for_admin_is_every_permission() {
    let mut db = seeded();
    PermissionService::assign_role(&mut db, "users", 1, "admin").unwrap();
    assert_eq!(
        PermissionService::get_all_permissions_for(&db, "users", 1),
        Ok(vec!["edit articles".to_string(), "manage users".to_string(), "publish".to_string()])
    );
    // `has_permission_to` has no such shortcut for `admin`.
    assert_eq!(PermissionService::has_permission_to(&db, "users", 1, "publish"), Ok(false));
}

#[test]
fn get_all_permissions_for_unions_direct_and_role_grants() {
    let mut db = seeded();
    PermissionService::assign_role(&mut db, "users", 5, "editor").unwrap();
    PermissionService::give_permission_to_role(&mut db, "editor", "publish").unwrap();
    PermissionService::give_permission_to(&mut db, "users", 5, "edit articles").unwrap();
    PermissionService::give_permission_to(&mut db, "users", 5, "publish").unwrap();
    assert_eq!(
        PermissionService::get_all_permissions_for(&db, "users", 5),
        Ok(vec!["edit articles".to_string(), "publish".to_string()])
    );
    assert_eq!(PermissionService::get_all_permissions_for(&db, "users", 6), Ok(vec![]));
}

#[test]
fn from_rows_takes_counters_past_the_largest_id() {
    let db = RbacTables::from_rows(
        vec![role(4, "admin"), role(9, "editor")],
        vec![permission(2, "publish")],
        vec![ModelHasRole { id: 3, role_id: 9, model_type: "users".to_string(), model_id: 1 }],
        vec![ModelHasPermission { id: 5, permission_id: 2, model_type: "users".to_string(), model_id: 1 }],
        vec![RoleHasPermission { id: 1, permission_id: 2, role_id: 4 }],
        IssuedIds::none(),
    );
    let mut db = db.unwrap();
    assert_eq!(PermissionService::has_role(&db, "users", 1, "editor"), Ok(true));
    assert_eq!(PermissionService::has_permission_to(&db, "users", 1, "publish"), Ok(true));
    let r = PermissionService::create_role(&mut db, "viewer", None, "t".to_string()).unwrap();
    assert_eq!(r.id, 10);
    PermissionService::assign_role(&mut db, "users", 2, "admin").unwrap();
    assert_eq!(db.model_has_roles()[1].id, 4);
}

#[test]
fn from_rows_refuses_repeated_names_and_ids() {
    assert!(RbacTables::from_rows(vec![role(1, "admin"), role(2, "admin")], vec![], vec![], vec![], vec![], IssuedIds::none()).is_none());
    assert!(RbacTables::from_rows(vec![role(1, "admin"), role(1, "editor")], vec![], vec![], vec![], vec![], IssuedIds::none()).is_none());
    assert!(RbacTables::from_rows(vec![], vec![permission(3, "a"), permission(4, "a")], vec![], vec![], vec![], IssuedIds::none()).is_none());
    assert!(RbacTables::from_rows(vec![], vec![permission(3, "a"), permission(3, "b")], vec![], vec![], vec![], IssuedIds::none()).is_none());
    assert!(RbacTables::from_rows(vec![role(1, "admin")], vec![], vec![], vec![], vec![], IssuedIds::none()).is_some());
}

#[test]
fn from_rows_keeps_repeated_links() {
    let link = |id: i32| ModelHasRole { id, role_id: 1, model_type: "users".to_string(), model_id: 1 };
    let mut db = RbacTables::from_rows(
        vec![role(1, "admin"), role(2, "editor")],
        vec![permission(1, "publish")],
        vec![link(1), link(2)],
        vec![],
        vec![RoleHasPermission { id: 1, permission_id: 1, role_id: 1 }, RoleHasPermission { id: 2, permission_id: 1, role_id: 1 }],
        IssuedIds::none(),
    ).unwrap();
    assert_eq!(db.model_has_roles().len(), 2);
    assert_eq!(PermissionService::has_role(&db, "users", 1, "admin"), Ok(true));
    // The join lists a role once per link.
    assert_eq!(PermissionService::get_all_roles_for(&db, "users", 1), Ok(vec!["admin".to_string(), "admin".to_string()]));
    // The union lists a permission once.
    assert_eq!(PermissionService::get_all_permissions_for(&db, "users", 1), Ok(vec!["publish".to_string()]));
    // Assigning again adds nothing; removing deletes every repeat.
    PermissionService::assign_role(&mut db, "users", 1, "admin").unwrap();
    assert_eq!(db.model_has_roles().len(), 2);
    PermissionService::remove_role(&mut db, "users", 1, "admin").unwrap();
    assert!(db.model_has_roles().is_empty());
    PermissionService::revoke_permission_from_role(&mut db, "admin", "publish").unwrap();
    assert!(db.role_has_permissions().is_empty());
}

#[test]
fn from_rows_reads_tables_holding_the_largest_id() {
    let mut db = RbacTables::from_rows(
        vec![role(i32::MAX, "admin")],
        vec![permission(i32::MAX, "publish")],
        vec![ModelHasRole { id: i32::MAX, role_id: i32::MAX, model_type: "users".to_string(), model_id: 1 }],
        vec![],
        vec![],
        IssuedIds::none(),
    ).unwrap();
    assert_eq!(PermissionService::has_role(&db, "users", 1, "admin"), Ok(true));
    assert_eq!(PermissionService::get_all_permissions_for(&db, "users", 1), Ok(vec!["publish".to_string()]));
    assert_eq!(PermissionService::create_role(&mut db, "admin", None, "t".to_string()).map(|r| r.id), Ok(i32::MAX));
    assert_eq!(
        PermissionService::create_role(&mut db, "editor", None, "t".to_string()).map(|r| r.id),
        Err(PermissionError::IdSpaceExhausted)
    );
    assert_eq!(PermissionService::assign_role(&mut db, "users", 1, "admin"), Ok(()));
    assert_eq!(PermissionService::assign_role(&mut db, "users", 2, "admin"), Err(PermissionError::IdSpaceExhausted));
}

#[test]
fn identifiers_run_out_after_i32_max() {
    let mut db = RbacTables::from_rows(vec![role(i32::MAX - 1, "admin")], vec![], vec![], vec![], vec![], IssuedIds::none()).unwrap();
    assert_eq!(PermissionService::create_role(&mut db, "editor", None, "t".to_string()).map(|r| r.id), Ok(i32::MAX));
    assert_eq!(
        PermissionService::create_role(&mut db, "viewer", None, "t".to_string()).map(|r| r.id),
        Err(PermissionError::IdSpaceExhausted)
    );
    // Finding an existing role needs no new identifier.
    assert_eq!(PermissionService::create_role(&mut db, "admin", None, "t".to_string()).map(|r| r.id), Ok(i32::MAX - 1));
}

#[test]
fn from_rows_resumes_past_issued_ids() {
    let issued = IssuedIds { roles: 7, permissions: 0, model_has_roles: 20, model_has_permissions: 0, role_has_permissions: 0 };
    let mut db = RbacTables::from_rows(vec![role(2, "admin")], vec![permission(3, "publish")], vec![], vec![], vec![], issued).unwrap();
    // Identifiers 3 to 7 were handed out once: the next role gets 8.
    assert_eq!(PermissionService::create_role(&mut db, "editor", None, "t".to_string()).map(|r| r.id), Ok(8));
    // No sequence recorded for permissions: one past the largest stored id.
    assert_eq!(PermissionService::create_permission(&mut db, "edit", None, "t".to_string()).map(|p| p.id), Ok(4));
    PermissionService::assign_role(&mut db, "users", 1, "admin").unwrap();
    assert_eq!(db.model_has_roles()[0].id, 21);
    let full = IssuedIds { roles: i64::MAX, ..IssuedIds::none() };
    let mut db = RbacTables::from_rows(vec![], vec![], vec![], vec![], vec![], full).unwrap();
    assert_eq!(
        PermissionService::create_role(&mut db, "admin", None, "t".to_string()).map(|r| r.id),
        Err(PermissionError::IdSpaceExhausted)
    );
}
