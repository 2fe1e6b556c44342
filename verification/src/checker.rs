//! Access checks for the model signed in to the current session.

use vstd::prelude::*;
use crate::error::PermissionError;
use crate::model::{has_role_spec, has_permission_spec, roles_for_spec, permissions_for_spec};
use crate::service::PermissionService;
use crate::tables::RbacTables;

verus! {

/// Checks the rights of the model whose identifier the session holds under
/// `user_id` (`session_user_id`), of the type `model_type`.
pub struct PermissionChecker<'a> {
    pub db: &'a RbacTables,
    pub session_user_id: Option<i32>,
    pub model_type: &'a str,
}

/// A refused request: where to send the user back, and the flash error to show.
pub struct AccessDenied {
    pub redirect_to: String,
    pub message: String,
}

/// The flash error of a refused role check.
pub open spec fn role_denied_message(role_name: Seq<char>) -> Seq<char> {
    "Akses ditolak: Diperlukan role '"@ + role_name + "'"@
}

/// The flash error of a refused permission check.
pub open spec fn permission_denied_message(permission_name: Seq<char>) -> Seq<char> {
    "Akses ditolak: Diperlukan izin '"@ + permission_name + "'"@
}

impl<'a> PermissionChecker<'a> {
    /// A checker for models of type `"users"`.
    pub fn new(db: &'a RbacTables, session_user_id: Option<i32>) -> (r: Self)
        ensures
            r.db == db,
            r.session_user_id == session_user_id,
            r.model_type@ == "users"@,
    {
        PermissionChecker { db, session_user_id, model_type: "users" }
    }

    /// A checker for models of type `model_type`.
    pub fn with_model_type(db: &'a RbacTables, session_user_id: Option<i32>, model_type: &'a str) -> (r: Self)
        ensures
            r.db == db,
            r.session_user_id == session_user_id,
            r.model_type == model_type,
    {
        PermissionChecker { db, session_user_id, model_type }
    }

    /// The identifier of the signed-in model, if any.
    pub fn user_id(&self) -> (r: Option<i32>)
        ensures
            r == self.session_user_id,
    {
        self.session_user_id
    }

    /// Whether the signed-in model holds the role; `false` when nobody is signed in.
    pub fn has_role(&self, role_name: &str) -> (res: Result<bool, PermissionError>)
        requires
            self.db.wf(),
        ensures
            res == Ok::<bool, PermissionError>(match self.session_user_id {
                None => false,
                Some(uid) => has_role_spec(self.db@, self.model_type@, uid, role_name@),
            }),
    {
        let uid = match self.user_id() {
            Some(id) => id,
            None => return Ok(false),
        };
        PermissionService::has_role(self.db, self.model_type, uid, role_name)
    }

    /// Whether the signed-in model holds the permission, directly or through a
    /// role; `false` when nobody is signed in.
    pub fn has_permission(&self, permission_name: &str) -> (res: Result<bool, PermissionError>)
        requires
            self.db.wf(),
        ensures
            res == Ok::<bool, PermissionError>(match self.session_user_id {
                None => false,
                Some(uid) => has_permission_spec(self.db@, self.model_type@, uid, permission_name@),
            }),
    {
        let uid = match self.user_id() {
            Some(id) => id,
            None => return Ok(false),
        };
        PermissionService::has_permission_to(self.db, self.model_type, uid, permission_name)
    }

    /// Lets the request through when the signed-in model holds the role; else
    /// refuses it with a redirect to `redirect_to` and a flash error naming the role.
    pub fn require_role(&self, role_name: &str, redirect_to: &str) -> (res: Result<(), AccessDenied>)
        requires
            self.db.wf(),
        ensures
            res is Ok <==> (match self.session_user_id {
                None => false,
                Some(uid) => has_role_spec(self.db@, self.model_type@, uid, role_name@),
            }),
            res matches Err(d) ==> d.redirect_to@ == redirect_to@ && d.message@ == role_denied_message(role_name@),
    {
        match self.has_role(role_name) {
            Ok(true) => Ok(()),
            _ => {
                let mut message = "Akses ditolak: Diperlukan role '".to_owned();
                message.append(role_name);
                message.append("'");
                Err(AccessDenied { redirect_to: redirect_to.to_owned(), message })
            },
        }
    }

    /// Lets the request through when the signed-in model holds the permission;
    /// else refuses it with a redirect to `redirect_to` and a flash error naming
    /// the permission.
    pub fn require_permission(&self, permission_name: &str, redirect_to: &str) -> (res: Result<(), AccessDenied>)
        requires
            self.db.wf(),
        ensures
            res is Ok <==> (match self.session_user_id {
                None => false,
                Some(uid) => has_permission_spec(self.db@, self.model_type@, uid, permission_name@),
            }),
            res matches Err(d) ==> d.redirect_to@ == redirect_to@ && d.message@ == permission_denied_message(permission_name@),
    {
        match self.has_permission(permission_name) {
            Ok(true) => Ok(()),
            _ => {
                let mut message = "Akses ditolak: Diperlukan izin '".to_owned();
                message.append(permission_name);
                message.append("'");
                Err(AccessDenied { redirect_to: redirect_to.to_owned(), message })
            },
        }
    }

    /// The names of the permissions of the signed-in model; empty when nobody is signed in.
    pub fn user_permissions(&self) -> (r: Vec<String>)
        requires
            self.db.wf(),
        ensures
            r.deep_view() == (match self.session_user_id {
                None => Seq::<Seq<char>>::empty(),
                Some(uid) => permissions_for_spec(self.db@, self.model_type@, uid),
            }),
    {
        let uid = match self.user_id() {
            Some(id) => id,
            None => {
                let v: Vec<String> = Vec::new();
                assert(v.deep_view() =~= Seq::<Seq<char>>::empty());
                return v;
            },
        };
        match PermissionService::get_all_permissions_for(self.db, self.model_type, uid) {
            Ok(v) => v,
            Err(_) => Vec::new(),
        }
    }

    /// The names of the roles of the signed-in model; empty when nobody is signed in.
    pub fn user_roles(&self) -> (r: Vec<String>)
        requires
            self.db.wf(),
        ensures
            r.deep_view() == (match self.session_user_id {
                None => Seq::<Seq<char>>::empty(),
                Some(uid) => roles_for_spec(self.db@, self.model_type@, uid),
            }),
    {
        let uid = match self.user_id() {
            Some(id) => id,
            None => {
                let v: Vec<String> = Vec::new();
                assert(v.deep_view() =~= Seq::<Seq<char>>::empty());
                return v;
            },
        };
        match PermissionService::get_all_roles_for(self.db, self.model_type, uid) {
            Ok(v) => v,
            Err(_) => Vec::new(),
        }
    }
}

} // verus!
