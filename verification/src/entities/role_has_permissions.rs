use vstd::prelude::*;

verus! {

/// A row of the `role_has_permissions` pivot table: the role `role_id`
/// grants the permission `permission_id`.
#[derive(Clone, Copy, Debug, PartialEq, Eq, Structural)]
pub struct RoleHasPermission {
    pub id: i32,
    pub permission_id: i32,
    pub role_id: i32,
}

} // verus!
