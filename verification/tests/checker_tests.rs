use rustbasic_permission::{PermissionChecker, PermissionService, RbacTables};

fn tables() -> RbacTables {
    let mut db = RbacTables::new();
    for name in ["admin", "editor"] {
        PermissionService::create_role(&mut db, name, None, "t".to_string()).unwrap();
    }
    for name in ["edit articles", "manage users"] {
        PermissionService::create_permission(&mut db, name, None, "t".to_string()).unwrap();
    }
    PermissionService::assign_role(&mut db, "users", 1, "editor").unwrap();
    PermissionService::give_permission_to_role(&mut db, "editor", "edit articles").unwrap();
    PermissionService::assign_role(&mut db, "users", 2, "admin").unwrap();
    PermissionService::assign_role(&mut db, "members", 1, "admin").unwrap();
    db
}

#[test]
fn checker_defaults_to_users() {
    let db = tables();
    let c = PermissionChecker::new(&db, Some(1));
    assert_eq!(c.model_type, "users");
    assert_eq!(c.user_id(), Some(1));
    let m = PermissionChecker::with_model_type(&db, Some(1), "members");
    assert_eq!(m.model_type, "members");
    assert_eq!(m.has_role("admin"), Ok(true));
    assert_eq!(c.has_role("admin"), Ok(false));
}

#[test]
fn checker_without_session_user_denies_everything() {
    let db = tables();
    let c = PermissionChecker::new(&db, None);
    assert_eq!(c.user_id(), None);
    assert_eq!(c.has_role("editor"), Ok(false));
    assert_eq!(c.has_permission("edit articles"), Ok(false));
    assert!(c.user_roles().is_empty());
    assert!(c.user_permissions().is_empty());
    assert!(c.require_role("editor", "/login").is_err());
}

#[test]
fn checker_reads_roles_and_permissions() {
    let db = tables();
    let c = PermissionChecker::new(&db, Some(1));
    assert_eq!(c.has_role("editor"), Ok(true));
    assert_eq!(c.has_permission("edit articles"), Ok(true));
    assert_eq!(c.has_permission("manage users"), Ok(false));
    assert_eq!(c.user_roles(), vec!["editor".to_string()]);
    assert_eq!(c.user_permissions(), vec!["edit articles".to_string()]);
    let admin = PermissionChecker::new(&db, Some(2));
    assert_eq!(admin.user_permissions(), vec!["edit articles".to_string(), "manage users".to_string()]);
}

#[test]
fn require_role_and_permission() {
    let db = tables();
    let c = PermissionChecker::new(&db, Some(1));
    assert!(c.require_role("editor", "/dashboard").is_ok());
    assert!(c.require_permission("edit articles", "/dashboard").is_ok());
    let denied = c.require_role("admin", "/dashboard").err().unwrap();
    assert_eq!(denied.redirect_to, "/dashboard");
    assert_eq!(denied.message, "Akses ditolak: Diperlukan role 'admin'");
    let denied = c.require_permission("manage users", "/home").err().unwrap();
    assert_eq!(denied.redirect_to, "/home");
    assert_eq!(denied.message, "Akses ditolak: Diperlukan izin 'manage users'");
}
