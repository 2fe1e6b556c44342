//! Rows of the five RBAC tables.

pub mod roles;
pub mod permissions;
pub mod model_has_roles;
pub mod model_has_permissions;
pub mod role_has_permissions;

pub use roles::{Role, RoleView};
pub use permissions::{Permission, PermissionView};
pub use model_has_roles::{ModelHasRole, ModelHasRoleView};
pub use model_has_permissions::{ModelHasPermission, ModelHasPermissionView};
pub use role_has_permissions::RoleHasPermission;
