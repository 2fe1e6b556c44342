//! Role-based access control: roles, permissions, the pivot tables that
//! link them to models, and the checks that read them.

pub mod entities;
pub mod error;
pub mod model;
pub mod tables;
pub mod service;
pub mod checker;
pub mod laws;

pub use entities::{Role, Permission, ModelHasRole, ModelHasPermission, RoleHasPermission};
pub use error::PermissionError;
pub use tables::{RbacTables, IssuedIds};
pub use service::PermissionService;
pub use checker::{PermissionChecker, AccessDenied};
