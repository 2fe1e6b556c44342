use rustbasic_permission::{PermissionService, RbacTables};

fn seeded() -> RbacTables {
    let mut db = RbacTables::new();
    for name in ["admin", "editor"] {
        PermissionService::create_role(&mut db, name, None, "t".to_string()).unwrap();
    }
    for name in ["edit articles", "publish"] {
        PermissionService::create_permission(&mut db, name, None, "t".to_string()).unwrap();
    }
    db
}

fn model_role_links(db: &RbacTables) -> Vec<(i32, i32, String, i32)> {
    db.model_has_roles().iter().map(|l| (l.id, l.role_id, l.model_type.clone(), l.model_id)).collect()
}

fn model_permission_links(db: &RbacTables) -> Vec<(i32, i32, String, i32)> {
    db.model_has_permissions().iter().map(|l| (l.id, l.permission_id, l.model_type.clone(), l.model_id)).collect()
}

#[test]
fn remove_role_after_assign_role_restores_links() {
    let mut db = seeded();
    PermissionService::assign_role(&mut db, "users", 1, "admin").unwrap();
    PermissionService::assign_role(&mut db, "users", 2, "editor").unwrap();
    let before = model_role_links(&db);
    PermissionService::assign_role(&mut db, "users", 1, "editor").unwrap();
    assert_eq!(db.model_has_roles().len(), 3);
    PermissionService::remove_role(&mut db, "users", 1, "editor").unwrap();
    assert_eq!(model_role_links(&db), before);
}

#[test]
fn revoke_permission_after_give_permission_restores_links() {
    let mut db = seeded();
    PermissionService::give_permission_to(&mut db, "users", 1, "publish").unwrap();
    let before = model_permission_links(&db);
    PermissionService::give_permission_to(&mut db, "users", 1, "edit articles").unwrap();
    PermissionService::revoke_permission_to(&mut db, "users", 1, "edit articles").unwrap();
    assert_eq!(model_permission_links(&db), before);
}

#[test]
fn revoke_from_role_after_give_to_role_restores_grants() {
    let mut db = seeded();
    PermissionService::give_permission_to_role(&mut db, "admin", "publish").unwrap();
    let before: Vec<_> = db.role_has_permissions().clone();
    PermissionService::give_permission_to_role(&mut db, "editor", "publish").unwrap();
    PermissionService::revoke_permission_from_role(&mut db, "editor", "publish").unwrap();
    assert_eq!(db.role_has_permissions(), &before);
}

#[test]
fn create_permission_twice_changes_nothing() {
    let mut db = seeded();
    let first = PermissionService::create_permission(&mut db, "publish", None, "later".to_string()).unwrap();
    assert_eq!(first.id, 2);
    assert_eq!(first.created_at.as_deref(), Some("t"));
    assert_eq!(db.permissions().len(), 2);
}

#[test]
fn permission_changes_touch_one_model() {
    let mut db = seeded();
    PermissionService::give_permission_to(&mut db, "users", 2, "publish").unwrap();
    PermissionService::give_permission_to(&mut db, "users", 1, "publish").unwrap();
    assert_eq!(PermissionService::has_permission_to(&db, "users", 2, "publish"), Ok(true));
    PermissionService::revoke_permission_to(&mut db, "users", 1, "publish").unwrap();
    assert_eq!(PermissionService::has_permission_to(&db, "users", 2, "publish"), Ok(true));
    assert_eq!(PermissionService::has_permission_to(&db, "users", 1, "publish"), Ok(false));
}

#[test]
fn role_changes_touch_one_model() {
    let mut db = seeded();
    PermissionService::give_permission_to_role(&mut db, "editor", "publish").unwrap();
    PermissionService::assign_role(&mut db, "teams", 1, "editor").unwrap();
    PermissionService::assign_role(&mut db, "users", 1, "editor").unwrap();
    assert_eq!(PermissionService::has_permission_to(&db, "teams", 1, "publish"), Ok(true));
    PermissionService::remove_role(&mut db, "users", 1, "editor").unwrap();
    assert_eq!(PermissionService::has_role(&db, "teams", 1, "editor"), Ok(true));
    assert_eq!(PermissionService::has_permission_to(&db, "teams", 1, "publish"), Ok(true));
    assert_eq!(PermissionService::has_permission_to(&db, "users", 1, "publish"), Ok(false));
}

#[test]
fn roles_for_and_permissions_for_agree_with_the_checks() {
    let mut db = seeded();
    PermissionService::assign_role(&mut db, "users", 1, "editor").unwrap();
    PermissionService::give_permission_to_role(&mut db, "editor", "edit articles").unwrap();
    let roles = PermissionService::get_all_roles_for(&db, "users", 1).unwrap();
    let perms = PermissionService::get_all_permissions_for(&db, "users", 1).unwrap();
    for name in ["admin", "editor", "ghost"] {
        assert_eq!(roles.contains(&name.to_string()), PermissionService::has_role(&db, "users", 1, name).unwrap());
    }
    for name in ["edit articles", "publish", "fly"] {
        assert_eq!(perms.contains(&name.to_string()), PermissionService::has_permission_to(&db, "users", 1, name).unwrap());
    }
}

#[test]
fn granting_operations_keep_permissions() {
    let mut db = seeded();
    PermissionService::give_permission_to(&mut db, "users", 1, "publish").unwrap();
    PermissionService::assign_role(&mut db, "users", 1, "editor").unwrap();
    PermissionService::give_permission_to_role(&mut db, "editor", "edit articles").unwrap();
    let held = |db: &RbacTables| {
        (
            PermissionService::has_permission_to(db, "users", 1, "publish").unwrap(),
            PermissionService::has_permission_to(db, "users", 1, "edit articles").unwrap(),
        )
    };
    assert_eq!(held(&db), (true, true));
    PermissionService::create_role(&mut db, "viewer", None, "t".to_string()).unwrap();
    PermissionService::create_permission(&mut db, "archive", None, "t".to_string()).unwrap();
    PermissionService::assign_role(&mut db, "users", 1, "viewer").unwrap();
    PermissionService::give_permission_to(&mut db, "users", 1, "archive").unwrap();
    PermissionService::give_permission_to_role(&mut db, "viewer", "publish").unwrap();
    assert_eq!(held(&db), (true, true));
}
