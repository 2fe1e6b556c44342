//! The in-memory RBAC tables: the five tables of the schema and the next
//! identifier of each.

use vstd::prelude::*;
use crate::entities::{
    Role, Permission, ModelHasRole, ModelHasPermission, RoleHasPermission, RoleView, PermissionView,
    ModelHasRoleView, ModelHasPermissionView,
};
use crate::model::{
    TablesView, find_role, find_permission, role_exists, permission_exists, model_role_matches,
    model_role_linked, model_permission_matches, model_permission_linked, role_permission_matches,
    role_permission_linked, permission_via_role, without_model_role, without_model_permission,
    without_role_permission, next_id_after, lemma_next_id_after_bounds, loaded_view, loadable,
    unique_roles, unique_permissions, resume_counter,
};

verus! {

/// The largest identifier each table ever handed out (what an autoincrement
/// sequence records, such as SQLite's `sqlite_sequence`); 0 where none is known.
/// Counters resume past these, so an identifier freed by a deleted row is not
/// handed out again.
#[derive(Clone, Copy, Debug, PartialEq, Eq, Structural)]
pub struct IssuedIds {
    pub roles: i64,
    pub permissions: i64,
    pub model_has_roles: i64,
    pub model_has_permissions: i64,
    pub role_has_permissions: i64,
}

impl IssuedIds {
    /// No identifier known to have been handed out.
    pub fn none() -> (r: Self)
        ensures
            r == (IssuedIds { roles: 0, permissions: 0, model_has_roles: 0, model_has_permissions: 0, role_has_permissions: 0 }),
    {
        IssuedIds { roles: 0, permissions: 0, model_has_roles: 0, model_has_permissions: 0, role_has_permissions: 0 }
    }
}

/// The counter to resume from: past the stored rows (`after_rows`) and past `issued`.
fn resume_counter_exec(after_rows: i64, issued: i64) -> (r: i64)
    requires
        1 <= after_rows <= i32::MAX + 1,
    ensures
        r == resume_counter(after_rows as int, issued),
        1 <= r <= i32::MAX + 1,
{
    let past_issued: i64 = if issued >= i32::MAX as i64 { i32::MAX as i64 + 1 } else { issued + 1 };
    if past_issued > after_rows {
        past_issued
    } else {
        after_rows
    }
}

/// The RBAC database: rows of `roles`, `permissions`, `model_has_roles`,
/// `model_has_permissions` and `role_has_permissions`.
pub struct RbacTables {
    roles: Vec<Role>,
    permissions: Vec<Permission>,
    model_has_roles: Vec<ModelHasRole>,
    model_has_permissions: Vec<ModelHasPermission>,
    role_has_permissions: Vec<RoleHasPermission>,
    next_role_id: i64,
    next_permission_id: i64,
    next_model_role_id: i64,
    next_model_permission_id: i64,
    next_role_permission_id: i64,
}

impl View for RbacTables {
    type V = TablesView;

    closed spec fn view(&self) -> TablesView {
        TablesView {
            roles: self.roles@.map_values(|r: Role| r@),
            permissions: self.permissions@.map_values(|p: Permission| p@),
            model_roles: self.model_has_roles@.map_values(|l: ModelHasRole| l@),
            model_permissions: self.model_has_permissions@.map_values(|l: ModelHasPermission| l@),
            role_permissions: self.role_has_permissions@,
            next_role_id: self.next_role_id,
            next_permission_id: self.next_permission_id,
            next_model_role_id: self.next_model_role_id,
            next_model_permission_id: self.next_model_permission_id,
            next_role_permission_id: self.next_role_permission_id,
        }
    }
}

/// With unique names, the row found at `i` is the one `find_role` names.
pub proof fn lemma_find_role_at(roles: Seq<crate::entities::RoleView>, i: int)
    requires
        0 <= i < roles.len(),
        forall|a: int, b: int|
            #![trigger roles[a], roles[b]]
            0 <= a < roles.len() && 0 <= b < roles.len() && a != b ==> roles[a].name != roles[b].name,
    ensures
        find_role(roles, roles[i].name) == Some(roles[i]),
{
    assert(role_exists(roles, roles[i].name));
    let j = choose|j: int| #![trigger roles[j]] 0 <= j < roles.len() && roles[j].name == roles[i].name;
    assert(roles[j] == roles[i]) by {
        if j != i {
            assert(roles[j].name != roles[i].name);
        }
    }
}

/// With unique names, the row found at `i` is the one `find_permission` names.
pub proof fn lemma_find_permission_at(perms: Seq<crate::entities::PermissionView>, i: int)
    requires
        0 <= i < perms.len(),
        forall|a: int, b: int|
            #![trigger perms[a], perms[b]]
            0 <= a < perms.len() && 0 <= b < perms.len() && a != b ==> perms[a].name != perms[b].name,
    ensures
        find_permission(perms, perms[i].name) == Some(perms[i]),
{
    assert(permission_exists(perms, perms[i].name));
    let j = choose|j: int| #![trigger perms[j]] 0 <= j < perms.len() && perms[j].name == perms[i].name;
    assert(perms[j] == perms[i]) by {
        if j != i {
            assert(perms[j].name != perms[i].name);
        }
    }
}

/// The next `roles` identifier after `rows`: one past the largest identifier, 1 for no rows.
fn next_id_of_roles(rows: &Vec<Role>) -> (r: i64)
    ensures
        r == next_id_after(rows@.map_values(|x: Role| x@), |x: RoleView| x.id),
{
    let ghost s = rows@.map_values(|x: Role| x@);
    let n = rows.len();
    let mut m: i64 = 1;
    let mut i: usize = 0;
    while i < n
        invariant
            n == rows@.len(),
            s == rows@.map_values(|x: Role| x@),
            i <= n,
            m == next_id_after(s.take(i as int), |x: RoleView| x.id),
        decreases n - i,
    {
        let id = rows[i].id;
        proof {
            assert(s.take(i + 1).drop_last() =~= s.take(i as int));
            assert(s[i as int].id == id);
        }
        if id as i64 + 1 > m {
            m = id as i64 + 1;
        }
        i = i + 1;
    }
    assert(s.take(n as int) =~= s);
    m
}

/// The next `permissions` identifier after `rows`: one past the largest identifier, 1 for no rows.
fn next_id_of_permissions(rows: &Vec<Permission>) -> (r: i64)
    ensures
        r == next_id_after(rows@.map_values(|x: Permission| x@), |x: PermissionView| x.id),
{
    let ghost s = rows@.map_values(|x: Permission| x@);
    let n = rows.len();
    let mut m: i64 = 1;
    let mut i: usize = 0;
    while i < n
        invariant
            n == rows@.len(),
            s == rows@.map_values(|x: Permission| x@),
            i <= n,
            m == next_id_after(s.take(i as int), |x: PermissionView| x.id),
        decreases n - i,
    {
        let id = rows[i].id;
        proof {
            assert(s.take(i + 1).drop_last() =~= s.take(i as int));
            assert(s[i as int].id == id);
        }
        if id as i64 + 1 > m {
            m = id as i64 + 1;
        }
        i = i + 1;
    }
    assert(s.take(n as int) =~= s);
    m
}

/// The next `model_has_roles` identifier after `rows`: one past the largest identifier, 1 for no rows.
fn next_id_of_model_roles(rows: &Vec<ModelHasRole>) -> (r: i64)
    ensures
        r == next_id_after(rows@.map_values(|x: ModelHasRole| x@), |x: ModelHasRoleView| x.id),
{
    let ghost s = rows@.map_values(|x: ModelHasRole| x@);
    let n = rows.len();
    let mut m: i64 = 1;
    let mut i: usize = 0;
    while i < n
        invariant
            n == rows@.len(),
            s == rows@.map_values(|x: ModelHasRole| x@),
            i <= n,
            m == next_id_after(s.take(i as int), |x: ModelHasRoleView| x.id),
        decreases n - i,
    {
        let id = rows[i].id;
        proof {
            assert(s.take(i + 1).drop_last() =~= s.take(i as int));
            assert(s[i as int].id == id);
        }
        if id as i64 + 1 > m {
            m = id as i64 + 1;
        }
        i = i + 1;
    }
    assert(s.take(n as int) =~= s);
    m
}

/// The next `model_has_permissions` identifier after `rows`: one past the largest identifier, 1 for no rows.
fn next_id_of_model_permissions(rows: &Vec<ModelHasPermission>) -> (r: i64)
    ensures
        r == next_id_after(rows@.map_values(|x: ModelHasPermission| x@), |x: ModelHasPermissionView| x.id),
{
    let ghost s = rows@.map_values(|x: ModelHasPermission| x@);
    let n = rows.len();
    let mut m: i64 = 1;
    let mut i: usize = 0;
    while i < n
        invariant
            n == rows@.len(),
            s == rows@.map_values(|x: ModelHasPermission| x@),
            i <= n,
            m == next_id_after(s.take(i as int), |x: ModelHasPermissionView| x.id),
        decreases n - i,
    {
        let id = rows[i].id;
        proof {
            assert(s.take(i + 1).drop_last() =~= s.take(i as int));
            assert(s[i as int].id == id);
        }
        if id as i64 + 1 > m {
            m = id as i64 + 1;
        }
        i = i + 1;
    }
    assert(s.take(n as int) =~= s);
    m
}

/// The next `role_has_permissions` identifier after `rows`: one past the largest identifier, 1 for no rows.
fn next_id_of_role_permissions(rows: &Vec<RoleHasPermission>) -> (r: i64)
    ensures
        r == next_id_after(rows@, |x: RoleHasPermission| x.id),
{
    let ghost s = rows@;
    let n = rows.len();
    let mut m: i64 = 1;
    let mut i: usize = 0;
    while i < n
        invariant
            n == rows@.len(),
            s == rows@,
            i <= n,
            m == next_id_after(s.take(i as int), |x: RoleHasPermission| x.id),
        decreases n - i,
    {
        let id = rows[i].id;
        proof {
            assert(s.take(i + 1).drop_last() =~= s.take(i as int));
            assert(s[i as int].id == id);
        }
        if id as i64 + 1 > m {
            m = id as i64 + 1;
        }
        i = i + 1;
    }
    assert(s.take(n as int) =~= s);
    m
}

/// Whether no two `roles` rows share a name or an identifier.
fn roles_distinct(rows: &Vec<Role>) -> (r: bool)
    ensures
        r == unique_roles(rows@.map_values(|x: Role| x@)),
{
    let ghost s = rows@.map_values(|x: Role| x@);
    let n = rows.len();
    let mut i: usize = 0;
    while i < n
        invariant
            n == rows@.len(),
            s == rows@.map_values(|x: Role| x@),
            i <= n,
            forall|a: int, b: int|
                #![trigger s[a], s[b]]
                0 <= a < i && 0 <= b < i && a != b ==> s[a].name != s[b].name && s[a].id != s[b].id,
        decreases n - i,
    {
        let mut j: usize = 0;
        while j < i
            invariant
                n == rows@.len(),
                s == rows@.map_values(|x: Role| x@),
                j <= i < n,
                forall|a: int, b: int|
                    #![trigger s[a], s[b]]
                    0 <= a < i && 0 <= b < i && a != b ==> s[a].name != s[b].name && s[a].id != s[b].id,
                forall|b: int| 0 <= b < j ==> #[trigger] s[b].name != s[i as int].name && s[b].id != s[i as int].id,
            decreases i - j,
        {
            if rows[j].name == rows[i].name || rows[j].id == rows[i].id {
                assert(s[j as int] == rows@[j as int]@ && s[i as int] == rows@[i as int]@);
                return false;
            }
            j = j + 1;
        }
        assert forall|a: int, b: int|
            #![trigger s[a], s[b]]
            0 <= a < i + 1 && 0 <= b < i + 1 && a != b implies s[a].name != s[b].name && s[a].id != s[b].id by {
            if a == i as int {
                assert(s[b].name != s[i as int].name);
            } else if b == i as int {
                assert(s[a].name != s[i as int].name);
            }
        }
        i = i + 1;
    }
    true
}

/// Whether no two `permissions` rows share a name or an identifier.
fn permissions_distinct(rows: &Vec<Permission>) -> (r: bool)
    ensures
        r == unique_permissions(rows@.map_values(|x: Permission| x@)),
{
    let ghost s = rows@.map_values(|x: Permission| x@);
    let n = rows.len();
    let mut i: usize = 0;
    while i < n
        invariant
            n == rows@.len(),
            s == rows@.map_values(|x: Permission| x@),
            i <= n,
            forall|a: int, b: int|
                #![trigger s[a], s[b]]
                0 <= a < i && 0 <= b < i && a != b ==> s[a].name != s[b].name && s[a].id != s[b].id,
        decreases n - i,
    {
        let mut j: usize = 0;
        while j < i
            invariant
                n == rows@.len(),
                s == rows@.map_values(|x: Permission| x@),
                j <= i < n,
                forall|a: int, b: int|
                    #![trigger s[a], s[b]]
                    0 <= a < i && 0 <= b < i && a != b ==> s[a].name != s[b].name && s[a].id != s[b].id,
                forall|b: int| 0 <= b < j ==> #[trigger] s[b].name != s[i as int].name && s[b].id != s[i as int].id,
            decreases i - j,
        {
            if rows[j].name == rows[i].name || rows[j].id == rows[i].id {
                assert(s[j as int] == rows@[j as int]@ && s[i as int] == rows@[i as int]@);
                return false;
            }
            j = j + 1;
        }
        assert forall|a: int, b: int|
            #![trigger s[a], s[b]]
            0 <= a < i + 1 && 0 <= b < i + 1 && a != b implies s[a].name != s[b].name && s[a].id != s[b].id by {
            if a == i as int {
                assert(s[b].name != s[i as int].name);
            } else if b == i as int {
                assert(s[a].name != s[i as int].name);
            }
        }
        i = i + 1;
    }
    true
}

impl RbacTables {
    /// Well-formedness of the tables.
    pub open spec fn wf(&self) -> bool {
        self@.wf()
    }

    /// Empty tables; every identifier counter starts at 1.
    pub fn new() -> (t: Self)
        ensures
            t.wf(),
            t@.roles.len() == 0,
            t@.permissions.len() == 0,
            t@.model_roles.len() == 0,
            t@.model_permissions.len() == 0,
            t@.role_permissions.len() == 0,
            t@.next_role_id == 1,
            t@.next_permission_id == 1,
            t@.next_model_role_id == 1,
            t@.next_model_permission_id == 1,
            t@.next_role_permission_id == 1,
    {
        let t = RbacTables {
            roles: Vec::new(),
            permissions: Vec::new(),
            model_has_roles: Vec::new(),
            model_has_permissions: Vec::new(),
            role_has_permissions: Vec::new(),
            next_role_id: 1,
            next_permission_id: 1,
            next_model_role_id: 1,
            next_model_permission_id: 1,
            next_role_permission_id: 1,
        };
        assert(t@.roles =~= Seq::empty());
        assert(t@.permissions =~= Seq::empty());
        assert(t@.model_roles =~= Seq::empty());
        assert(t@.model_permissions =~= Seq::empty());
        t
    }

    /// Tables made of rows read back from storage, each identifier counter past
    /// its table's largest stored identifier and past the largest identifier the
    /// table ever handed out (`issued`). Repeated links are kept as they are.
    /// `None` when two roles or two permissions share a name or an identifier:
    /// rows the `unique()` name columns and the primary keys of the schema never hold.
    pub fn from_rows(
        roles: Vec<Role>,
        permissions: Vec<Permission>,
        model_has_roles: Vec<ModelHasRole>,
        model_has_permissions: Vec<ModelHasPermission>,
        role_has_permissions: Vec<RoleHasPermission>,
        issued: IssuedIds,
    ) -> (r: Option<RbacTables>)
        ensures
            r is Some <==> loadable(roles@.map_values(|x: Role| x@), permissions@.map_values(|x: Permission| x@)),
            r matches Some(t) ==> t.wf() && t@ == loaded_view(
                roles@.map_values(|x: Role| x@),
                permissions@.map_values(|x: Permission| x@),
                model_has_roles@.map_values(|x: ModelHasRole| x@),
                model_has_permissions@.map_values(|x: ModelHasPermission| x@),
                role_has_permissions@,
                issued,
            ),
    {
        let ghost rs = roles@.map_values(|x: Role| x@);
        let ghost ps = permissions@.map_values(|x: Permission| x@);
        let ghost mrs = model_has_roles@.map_values(|x: ModelHasRole| x@);
        let ghost mps = model_has_permissions@.map_values(|x: ModelHasPermission| x@);
        let ghost rps = role_has_permissions@;
        if !roles_distinct(&roles) || !permissions_distinct(&permissions) {
            return None;
        }
        let after_roles = next_id_of_roles(&roles);
        let after_permissions = next_id_of_permissions(&permissions);
        let after_model_roles = next_id_of_model_roles(&model_has_roles);
        let after_model_permissions = next_id_of_model_permissions(&model_has_permissions);
        let after_role_permissions = next_id_of_role_permissions(&role_has_permissions);
        proof {
            lemma_next_id_after_bounds(rs, |x: RoleView| x.id);
            lemma_next_id_after_bounds(ps, |x: PermissionView| x.id);
            lemma_next_id_after_bounds(mrs, |x: ModelHasRoleView| x.id);
            lemma_next_id_after_bounds(mps, |x: ModelHasPermissionView| x.id);
            lemma_next_id_after_bounds(rps, |x: RoleHasPermission| x.id);
        }
        let next_role_id = resume_counter_exec(after_roles, issued.roles);
        let next_permission_id = resume_counter_exec(after_permissions, issued.permissions);
        let next_model_role_id = resume_counter_exec(after_model_roles, issued.model_has_roles);
        let next_model_permission_id = resume_counter_exec(after_model_permissions, issued.model_has_permissions);
        let next_role_permission_id = resume_counter_exec(after_role_permissions, issued.role_has_permissions);
        let t = RbacTables {
            roles,
            permissions,
            model_has_roles,
            model_has_permissions,
            role_has_permissions,
            next_role_id,
            next_permission_id,
            next_model_role_id,
            next_model_permission_id,
            next_role_permission_id,
        };
        assert(t@ == loaded_view(rs, ps, mrs, mps, rps, issued));
        Some(t)
    }

    /// The rows of `roles`.
    pub fn roles(&self) -> (r: &Vec<Role>)
        ensures
            r@.map_values(|x: Role| x@) == self@.roles,
    {
        &self.roles
    }

    /// The rows of `permissions`.
    pub fn permissions(&self) -> (r: &Vec<Permission>)
        ensures
            r@.map_values(|x: Permission| x@) == self@.permissions,
    {
        &self.permissions
    }

    /// The rows of `model_has_roles`.
    pub fn model_has_roles(&self) -> (r: &Vec<ModelHasRole>)
        ensures
            r@.map_values(|x: ModelHasRole| x@) == self@.model_roles,
    {
        &self.model_has_roles
    }

    /// The rows of `model_has_permissions`.
    pub fn model_has_permissions(&self) -> (r: &Vec<ModelHasPermission>)
        ensures
            r@.map_values(|x: ModelHasPermission| x@) == self@.model_permissions,
    {
        &self.model_has_permissions
    }

    /// The rows of `role_has_permissions`.
    pub fn role_has_permissions(&self) -> (r: &Vec<RoleHasPermission>)
        ensures
            r@ == self@.role_permissions,
    {
        &self.role_has_permissions
    }

    /// The index of the role named `key`.
    pub(crate) fn find_role_index(&self, key: &String) -> (r: Option<usize>)
        requires
            self.wf(),
        ensures
            match r {
                Some(i) => i < self@.roles.len() && find_role(self@.roles, key@) == Some(self@.roles[i as int]),
                None => find_role(self@.roles, key@) is None,
            },
    {
        let n = self.roles.len();
        let mut i: usize = 0;
        while i < n
            invariant
                n == self.roles@.len(),
                i <= n,
                self.wf(),
                forall|j: int| 0 <= j < i ==> #[trigger] self@.roles[j].name != key@,
            decreases n - i,
        {
            if self.roles[i].name == *key {
                proof {
                    lemma_find_role_at(self@.roles, i as int);
                }
                return Some(i);
            }
            i = i + 1;
        }
        None
    }

    /// The index of the permission named `key`.
    pub(crate) fn find_permission_index(&self, key: &String) -> (r: Option<usize>)
        requires
            self.wf(),
        ensures
            match r {
                Some(i) => i < self@.permissions.len() && find_permission(self@.permissions, key@) == Some(self@.permissions[i as int]),
                None => find_permission(self@.permissions, key@) is None,
            },
    {
        let n = self.permissions.len();
        let mut i: usize = 0;
        while i < n
            invariant
                n == self.permissions@.len(),
                i <= n,
                self.wf(),
                forall|j: int| 0 <= j < i ==> #[trigger] self@.permissions[j].name != key@,
            decreases n - i,
        {
            if self.permissions[i].name == *key {
                proof {
                    lemma_find_permission_at(self@.permissions, i as int);
                }
                return Some(i);
            }
            i = i + 1;
        }
        None
    }

    /// Whether some row of `model_has_roles` links the role to the model.
    pub(crate) fn model_role_link_exists(&self, role_id: i32, model_type: &String, model_id: i32) -> (r: bool)
        ensures
            r == model_role_linked(self@.model_roles, role_id, model_type@, model_id),
    {
        let n = self.model_has_roles.len();
        let mut i: usize = 0;
        while i < n
            invariant
                n == self.model_has_roles@.len(),
                i <= n,
                forall|j: int| 0 <= j < i ==> !model_role_matches(#[trigger] self@.model_roles[j], role_id, model_type@, model_id),
            decreases n - i,
        {
            let l = &self.model_has_roles[i];
            if l.role_id == role_id && l.model_id == model_id && l.model_type == *model_type {
                assert(model_role_matches(self@.model_roles[i as int], role_id, model_type@, model_id));
                return true;
            }
            i = i + 1;
        }
        false
    }

    /// Whether some row of `model_has_permissions` gives the permission to the model.
    pub(crate) fn model_permission_link_exists(&self, permission_id: i32, model_type: &String, model_id: i32) -> (r: bool)
        ensures
            r == model_permission_linked(self@.model_permissions, permission_id, model_type@, model_id),
    {
        let n = self.model_has_permissions.len();
        let mut i: usize = 0;
        while i < n
            invariant
                n == self.model_has_permissions@.len(),
                i <= n,
                forall|j: int| 0 <= j < i ==> !model_permission_matches(#[trigger] self@.model_permissions[j], permission_id, model_type@, model_id),
            decreases n - i,
        {
            let l = &self.model_has_permissions[i];
            if l.permission_id == permission_id && l.model_id == model_id && l.model_type == *model_type {
                assert(model_permission_matches(self@.model_permissions[i as int], permission_id, model_type@, model_id));
                return true;
            }
            i = i + 1;
        }
        false
    }

    /// Whether some row of `role_has_permissions` grants the permission to the role.
    pub(crate) fn role_permission_link_exists(&self, role_id: i32, permission_id: i32) -> (r: bool)
        ensures
            r == role_permission_linked(self@.role_permissions, role_id, permission_id),
    {
        let n = self.role_has_permissions.len();
        let mut i: usize = 0;
        while i < n
            invariant
                n == self.role_has_permissions@.len(),
                i <= n,
                forall|j: int| 0 <= j < i ==> !role_permission_matches(#[trigger] self@.role_permissions[j], role_id, permission_id),
            decreases n - i,
        {
            let l = self.role_has_permissions[i];
            if l.role_id == role_id && l.permission_id == permission_id {
                assert(role_permission_matches(self@.role_permissions[i as int], role_id, permission_id));
                return true;
            }
            i = i + 1;
        }
        false
    }

    /// Whether the model holds a role that grants the permission.
    pub(crate) fn permission_via_role_exists(&self, permission_id: i32, model_type: &String, model_id: i32) -> (r: bool)
        ensures
            r == permission_via_role(self@, permission_id, model_type@, model_id),
    {
        let n = self.role_has_permissions.len();
        let mut i: usize = 0;
        while i < n
            invariant
                n == self.role_has_permissions@.len(),
                i <= n,
                forall|j: int, k: int|
                    #![trigger self@.role_permissions[j], self@.model_roles[k]]
                    0 <= j < i && 0 <= k < self@.model_roles.len()
                        ==> !(self@.role_permissions[j].permission_id == permission_id
                            && model_role_matches(self@.model_roles[k], self@.role_permissions[j].role_id, model_type@, model_id)),
            decreases n - i,
        {
            let g = self.role_has_permissions[i];
            if g.permission_id == permission_id {
                if self.model_role_link_exists(g.role_id, model_type, model_id) {
                    let ghost k = choose|k: int| #![trigger self@.model_roles[k]] 0 <= k < self@.model_roles.len()
                        && model_role_matches(self@.model_roles[k], g.role_id, model_type@, model_id);
                    assert(self@.role_permissions[i as int] == g);
                    assert(self@.model_roles[k] == self@.model_roles[k]);
                    return true;
                }
            }
            i = i + 1;
        }
        false
    }

    /// The role at index `i`.
    pub(crate) fn role_at(&self, i: usize) -> (r: &Role)
        requires
            i < self@.roles.len(),
        ensures
            r@ == self@.roles[i as int],
    {
        &self.roles[i]
    }

    /// The permission at index `i`.
    pub(crate) fn permission_at(&self, i: usize) -> (r: &Permission)
        requires
            i < self@.permissions.len(),
        ensures
            r@ == self@.permissions[i as int],
    {
        &self.permissions[i]
    }

    /// Appends a role with the next identifier.
    pub(crate) fn insert_role(&mut self, name: String, guard_name: String, now: String) -> (r: Role)
        requires
            old(self).wf(),
            find_role(old(self)@.roles, name@) is None,
            old(self)@.next_role_id <= i32::MAX,
        ensures
            final(self).wf(),
            r@ == (crate::entities::RoleView {
                id: old(self)@.next_role_id as i32,
                name: name@,
                guard_name: guard_name@,
                created_at: Some(now@),
                updated_at: Some(now@),
            }),
            final(self)@ == (TablesView {
                roles: old(self)@.roles.push(r@),
                next_role_id: (old(self)@.next_role_id + 1) as i64,
                ..old(self)@
            }),
    {
        let ghost old_roles = self.roles@;
        let row = Role {
            id: self.next_role_id as i32,
            name,
            guard_name,
            created_at: Some(now.clone()),
            updated_at: Some(now),
        };
        let out = row.clone();
        self.roles.push(row);
        self.next_role_id = self.next_role_id + 1;
        assert(self.roles@.map_values(|x: Role| x@) =~= old_roles.map_values(|x: Role| x@).push(out@));
        proof {
            let rs = self@.roles;
            assert forall|i: int| 0 <= i < rs.len() - 1 implies #[trigger] rs[i].name != out@.name by {
                if rs[i].name == out@.name {
                    assert(role_exists(old(self)@.roles, out@.name));
                }
            }
        }
        out
    }

    /// Appends a permission with the next identifier.
    pub(crate) fn insert_permission(&mut self, name: String, guard_name: String, now: String) -> (r: Permission)
        requires
            old(self).wf(),
            find_permission(old(self)@.permissions, name@) is None,
            old(self)@.next_permission_id <= i32::MAX,
        ensures
            final(self).wf(),
            r@ == (crate::entities::PermissionView {
                id: old(self)@.next_permission_id as i32,
                name: name@,
                guard_name: guard_name@,
                created_at: Some(now@),
                updated_at: Some(now@),
            }),
            final(self)@ == (TablesView {
                permissions: old(self)@.permissions.push(r@),
                next_permission_id: (old(self)@.next_permission_id + 1) as i64,
                ..old(self)@
            }),
    {
        let ghost old_perms = self.permissions@;
        let row = Permission {
            id: self.next_permission_id as i32,
            name,
            guard_name,
            created_at: Some(now.clone()),
            updated_at: Some(now),
        };
        let out = row.clone();
        self.permissions.push(row);
        self.next_permission_id = self.next_permission_id + 1;
        assert(self.permissions@.map_values(|x: Permission| x@) =~= old_perms.map_values(|x: Permission| x@).push(out@));
        proof {
            let ps = self@.permissions;
            assert forall|i: int| 0 <= i < ps.len() - 1 implies #[trigger] ps[i].name != out@.name by {
                if ps[i].name == out@.name {
                    assert(permission_exists(old(self)@.permissions, out@.name));
                }
            }
        }
        out
    }

    /// Appends a `model_has_roles` row with the next identifier.
    pub(crate) fn insert_model_role(&mut self, role_id: i32, model_type: String, model_id: i32)
        requires
            old(self).wf(),
            !model_role_linked(old(self)@.model_roles, role_id, model_type@, model_id),
            old(self)@.next_model_role_id <= i32::MAX,
        ensures
            final(self).wf(),
            final(self)@ == (TablesView {
                model_roles: old(self)@.model_roles.push(crate::entities::ModelHasRoleView {
                    id: old(self)@.next_model_role_id as i32,
                    role_id,
                    model_type: model_type@,
                    model_id,
                }),
                next_model_role_id: (old(self)@.next_model_role_id + 1) as i64,
                ..old(self)@
            }),
    {
        let ghost old_links = self.model_has_roles@;
        let row = ModelHasRole { id: self.next_model_role_id as i32, role_id, model_type, model_id };
        let ghost rv = row@;
        self.model_has_roles.push(row);
        self.next_model_role_id = self.next_model_role_id + 1;
        assert(self.model_has_roles@.map_values(|x: ModelHasRole| x@) =~= old_links.map_values(|x: ModelHasRole| x@).push(rv));
    }

    /// Appends a `model_has_permissions` row with the next identifier.
    pub(crate) fn insert_model_permission(&mut self, permission_id: i32, model_type: String, model_id: i32)
        requires
            old(self).wf(),
            !model_permission_linked(old(self)@.model_permissions, permission_id, model_type@, model_id),
            old(self)@.next_model_permission_id <= i32::MAX,
        ensures
            final(self).wf(),
            final(self)@ == (TablesView {
                model_permissions: old(self)@.model_permissions.push(crate::entities::ModelHasPermissionView {
                    id: old(self)@.next_model_permission_id as i32,
                    permission_id,
                    model_type: model_type@,
                    model_id,
                }),
                next_model_permission_id: (old(self)@.next_model_permission_id + 1) as i64,
                ..old(self)@
            }),
    {
        let ghost old_links = self.model_has_permissions@;
        let row = ModelHasPermission { id: self.next_model_permission_id as i32, permission_id, model_type, model_id };
        let ghost rv = row@;
        self.model_has_permissions.push(row);
        self.next_model_permission_id = self.next_model_permission_id + 1;
        assert(self.model_has_permissions@.map_values(|x: ModelHasPermission| x@) =~= old_links.map_values(|x: ModelHasPermission| x@).push(rv));
    }

    /// Appends a `role_has_permissions` row with the next identifier.
    pub(crate) fn insert_role_permission(&mut self, role_id: i32, permission_id: i32)
        requires
            old(self).wf(),
            !role_permission_linked(old(self)@.role_permissions, role_id, permission_id),
            old(self)@.next_role_permission_id <= i32::MAX,
        ensures
            final(self).wf(),
            final(self)@ == (TablesView {
                role_permissions: old(self)@.role_permissions.push(RoleHasPermission {
                    id: old(self)@.next_role_permission_id as i32,
                    permission_id,
                    role_id,
                }),
                next_role_permission_id: (old(self)@.next_role_permission_id + 1) as i64,
                ..old(self)@
            }),
    {
        let row = RoleHasPermission { id: self.next_role_permission_id as i32, permission_id, role_id };
        self.role_has_permissions.push(row);
        self.next_role_permission_id = self.next_role_permission_id + 1;
    }

    /// Deletes every `model_has_roles` row that links the role to the model.
    pub(crate) fn delete_model_roles(&mut self, role_id: i32, model_type: &String, model_id: i32)
        requires
            old(self).wf(),
        ensures
            final(self).wf(),
            final(self)@ == (TablesView {
                model_roles: without_model_role(old(self)@.model_roles, role_id, model_type@, model_id),
                ..old(self)@
            }),
    {
        let ghost keep = |l: ModelHasRoleView| !model_role_matches(l, role_id, model_type@, model_id);
        let ghost old_view = self@.model_roles;
        let n = self.model_has_roles.len();
        let mut kept: Vec<ModelHasRole> = Vec::new();
        let mut i: usize = 0;
        while i < n
            invariant
                n == self.model_has_roles@.len(),
                old_view == self@.model_roles,
                i <= n,
                keep == (|l: ModelHasRoleView| !model_role_matches(l, role_id, model_type@, model_id)),
                kept@.map_values(|x: ModelHasRole| x@) == old_view.take(i as int).filter(keep),
            decreases n - i,
        {
            let l = &self.model_has_roles[i];
            proof {
                assert(old_view.take(i + 1) =~= old_view.take(i as int).push(old_view[i as int]));
                old_view.take(i as int).lemma_filter_push(old_view[i as int], keep);
            }
            if !(l.role_id == role_id && l.model_id == model_id && l.model_type == *model_type) {
                let c = l.clone();
                let ghost before = kept@;
                kept.push(c);
                assert(kept@.map_values(|x: ModelHasRole| x@) =~= before.map_values(|x: ModelHasRole| x@).push(c@));
            }
            i = i + 1;
        }
        assert(old_view.take(n as int) =~= old_view);
        self.model_has_roles = kept;
    }

    /// Deletes every `model_has_permissions` row that gives the permission to the model.
    pub(crate) fn delete_model_permissions(&mut self, permission_id: i32, model_type: &String, model_id: i32)
        requires
            old(self).wf(),
        ensures
            final(self).wf(),
            final(self)@ == (TablesView {
                model_permissions: without_model_permission(old(self)@.model_permissions, permission_id, model_type@, model_id),
                ..old(self)@
            }),
    {
        let ghost keep = |l: ModelHasPermissionView| !model_permission_matches(l, permission_id, model_type@, model_id);
        let ghost old_view = self@.model_permissions;
        let n = self.model_has_permissions.len();
        let mut kept: Vec<ModelHasPermission> = Vec::new();
        let mut i: usize = 0;
        while i < n
            invariant
                n == self.model_has_permissions@.len(),
                old_view == self@.model_permissions,
                i <= n,
                keep == (|l: ModelHasPermissionView| !model_permission_matches(l, permission_id, model_type@, model_id)),
                kept@.map_values(|x: ModelHasPermission| x@) == old_view.take(i as int).filter(keep),
            decreases n - i,
        {
            let l = &self.model_has_permissions[i];
            proof {
                assert(old_view.take(i + 1) =~= old_view.take(i as int).push(old_view[i as int]));
                old_view.take(i as int).lemma_filter_push(old_view[i as int], keep);
            }
            if !(l.permission_id == permission_id && l.model_id == model_id && l.model_type == *model_type) {
                let c = l.clone();
                let ghost before = kept@;
                kept.push(c);
                assert(kept@.map_values(|x: ModelHasPermission| x@) =~= before.map_values(|x: ModelHasPermission| x@).push(c@));
            }
            i = i + 1;
        }
        assert(old_view.take(n as int) =~= old_view);
        self.model_has_permissions = kept;
    }

    /// Deletes every `role_has_permissions` row that grants the permission to the role.
    pub(crate) fn delete_role_permissions(&mut self, role_id: i32, permission_id: i32)
        requires
            old(self).wf(),
        ensures
            final(self).wf(),
            final(self)@ == (TablesView {
                role_permissions: without_role_permission(old(self)@.role_permissions, role_id, permission_id),
                ..old(self)@
            }),
    {
        let ghost keep = |l: RoleHasPermission| !role_permission_matches(l, role_id, permission_id);
        let ghost old_view = self@.role_permissions;
        let n = self.role_has_permissions.len();
        let mut kept: Vec<RoleHasPermission> = Vec::new();
        let mut i: usize = 0;
        while i < n
            invariant
                n == self.role_has_permissions@.len(),
                old_view == self@.role_permissions,
                i <= n,
                keep == (|l: RoleHasPermission| !role_permission_matches(l, role_id, permission_id)),
                kept@ == old_view.take(i as int).filter(keep),
            decreases n - i,
        {
            let l = self.role_has_permissions[i];
            proof {
                assert(old_view.take(i + 1) =~= old_view.take(i as int).push(old_view[i as int]));
                old_view.take(i as int).lemma_filter_push(old_view[i as int], keep);
            }
            if !(l.role_id == role_id && l.permission_id == permission_id) {
                kept.push(l);
            }
            i = i + 1;
        }
        assert(old_view.take(n as int) =~= old_view);
        self.role_has_permissions = kept;
    }

    /// The identifier the next `roles` row will get.
    pub(crate) fn next_role_id(&self) -> (r: i64)
        ensures
            r == self@.next_role_id,
    {
        self.next_role_id
    }

    /// The identifier the next `permissions` row will get.
    pub(crate) fn next_permission_id(&self) -> (r: i64)
        ensures
            r == self@.next_permission_id,
    {
        self.next_permission_id
    }

    /// The identifier the next `model_has_roles` row will get.
    pub(crate) fn next_model_role_id(&self) -> (r: i64)
        ensures
            r == self@.next_model_role_id,
    {
        self.next_model_role_id
    }

    /// The identifier the next `model_has_permissions` row will get.
    pub(crate) fn next_model_permission_id(&self) -> (r: i64)
        ensures
            r == self@.next_model_permission_id,
    {
        self.next_model_permission_id
    }

    /// The identifier the next `role_has_permissions` row will get.
    pub(crate) fn next_role_permission_id(&self) -> (r: i64)
        ensures
            r == self@.next_role_permission_id,
    {
        self.next_role_permission_id
    }
}

} // verus!