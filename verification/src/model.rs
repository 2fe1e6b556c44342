//! The mathematical meaning of the RBAC tables: lookups by name, links,
//! and the outcome of every operation of the service.

use vstd::prelude::*;
use crate::entities::{RoleView, PermissionView, ModelHasRoleView, ModelHasPermissionView, RoleHasPermission};
use crate::error::PermissionError;
use crate::tables::IssuedIds;

verus! {

/// The five tables, as sequences of row values, with the next identifier of each.
pub struct TablesView {
    pub roles: Seq<RoleView>,
    pub permissions: Seq<PermissionView>,
    pub model_roles: Seq<ModelHasRoleView>,
    pub model_permissions: Seq<ModelHasPermissionView>,
    pub role_permissions: Seq<RoleHasPermission>,
    pub next_role_id: i64,
    pub next_permission_id: i64,
    pub next_model_role_id: i64,
    pub next_model_permission_id: i64,
    pub next_role_permission_id: i64,
}

/// The guard used when none is given.
pub open spec fn guard_or_web(guard_name: Option<&str>) -> Seq<char> {
    match guard_name {
        Some(g) => g@,
        None => "web"@,
    }
}

// ---------------------------------------------------------------------------
// Lookups by name
// ---------------------------------------------------------------------------

pub open spec fn role_exists(roles: Seq<RoleView>, name: Seq<char>) -> bool {
    exists|i: int| #![trigger roles[i]] 0 <= i < roles.len() && roles[i].name == name
}

/// The role with the given name, as `SELECT * FROM roles WHERE name = ?` finds it.
pub open spec fn find_role(roles: Seq<RoleView>, name: Seq<char>) -> Option<RoleView> {
    if role_exists(roles, name) {
        Some(roles[choose|i: int| #![trigger roles[i]] 0 <= i < roles.len() && roles[i].name == name])
    } else {
        None
    }
}

pub open spec fn permission_exists(perms: Seq<PermissionView>, name: Seq<char>) -> bool {
    exists|i: int| #![trigger perms[i]] 0 <= i < perms.len() && perms[i].name == name
}

/// The permission with the given name, as `SELECT * FROM permissions WHERE name = ?` finds it.
pub open spec fn find_permission(perms: Seq<PermissionView>, name: Seq<char>) -> Option<PermissionView> {
    if permission_exists(perms, name) {
        Some(perms[choose|i: int| #![trigger perms[i]] 0 <= i < perms.len() && perms[i].name == name])
    } else {
        None
    }
}

// ---------------------------------------------------------------------------
// Links
// ---------------------------------------------------------------------------

pub open spec fn model_role_matches(l: ModelHasRoleView, role_id: i32, model_type: Seq<char>, model_id: i32) -> bool {
    l.role_id == role_id && l.model_type == model_type && l.model_id == model_id
}

/// Some row of `model_has_roles` links the role to the model.
pub open spec fn model_role_linked(links: Seq<ModelHasRoleView>, role_id: i32, model_type: Seq<char>, model_id: i32) -> bool {
    exists|j: int| #![trigger links[j]] 0 <= j < links.len() && model_role_matches(links[j], role_id, model_type, model_id)
}

pub open spec fn model_permission_matches(l: ModelHasPermissionView, permission_id: i32, model_type: Seq<char>, model_id: i32) -> bool {
    l.permission_id == permission_id && l.model_type == model_type && l.model_id == model_id
}

/// Some row of `model_has_permissions` gives the permission to the model directly.
pub open spec fn model_permission_linked(links: Seq<ModelHasPermissionView>, permission_id: i32, model_type: Seq<char>, model_id: i32) -> bool {
    exists|j: int| #![trigger links[j]] 0 <= j < links.len() && model_permission_matches(links[j], permission_id, model_type, model_id)
}

pub open spec fn role_permission_matches(l: RoleHasPermission, role_id: i32, permission_id: i32) -> bool {
    l.role_id == role_id && l.permission_id == permission_id
}

/// Some row of `role_has_permissions` grants the permission to the role.
pub open spec fn role_permission_linked(links: Seq<RoleHasPermission>, role_id: i32, permission_id: i32) -> bool {
    exists|j: int| #![trigger links[j]] 0 <= j < links.len() && role_permission_matches(links[j], role_id, permission_id)
}

/// The model holds some role (by identifier) that grants the permission: the join of
/// `role_has_permissions` with `model_has_roles`.
pub open spec fn permission_via_role(t: TablesView, permission_id: i32, model_type: Seq<char>, model_id: i32) -> bool {
    exists|j: int, k: int|
        #![trigger t.role_permissions[j], t.model_roles[k]]
        0 <= j < t.role_permissions.len() && 0 <= k < t.model_roles.len()
            && t.role_permissions[j].permission_id == permission_id
            && model_role_matches(t.model_roles[k], t.role_permissions[j].role_id, model_type, model_id)
}

/// The model holds the permission directly or through one of its roles.
pub open spec fn permission_granted(t: TablesView, permission_id: i32, model_type: Seq<char>, model_id: i32) -> bool {
    model_permission_linked(t.model_permissions, permission_id, model_type, model_id)
        || permission_via_role(t, permission_id, model_type, model_id)
}

// ---------------------------------------------------------------------------
// Queries
// ---------------------------------------------------------------------------

/// What `has_role` answers.
pub open spec fn has_role_spec(t: TablesView, model_type: Seq<char>, model_id: i32, role_name: Seq<char>) -> bool {
    match find_role(t.roles, role_name) {
        None => false,
        Some(r) => model_role_linked(t.model_roles, r.id, model_type, model_id),
    }
}

/// What `has_permission_to` answers.
pub open spec fn has_permission_spec(t: TablesView, model_type: Seq<char>, model_id: i32, permission_name: Seq<char>) -> bool {
    match find_permission(t.permissions, permission_name) {
        None => false,
        Some(p) => permission_granted(t, p.id, model_type, model_id),
    }
}

/// How many rows of `model_has_roles` link the role to the model.
pub open spec fn model_role_link_count(links: Seq<ModelHasRoleView>, role_id: i32, model_type: Seq<char>, model_id: i32) -> nat {
    links.filter(|l: ModelHasRoleView| model_role_matches(l, role_id, model_type, model_id)).len()
}

/// `count` copies of the name `name`.
pub open spec fn repeat_name(name: Seq<char>, count: nat) -> Seq<Seq<char>> {
    Seq::new(count, |_j: int| name)
}

/// The names of the roles the model holds, in `roles` table order, each as often
/// as a `model_has_roles` row links it to the model (the join of `roles` with
/// `model_has_roles`).
pub open spec fn role_names_for(roles: Seq<RoleView>, links: Seq<ModelHasRoleView>, model_type: Seq<char>, model_id: i32) -> Seq<Seq<char>>
    decreases roles.len(),
{
    if roles.len() == 0 {
        Seq::empty()
    } else {
        role_names_for(roles.drop_last(), links, model_type, model_id)
            + repeat_name(roles.last().name, model_role_link_count(links, roles.last().id, model_type, model_id))
    }
}

/// What `get_all_roles_for` returns.
pub open spec fn roles_for_spec(t: TablesView, model_type: Seq<char>, model_id: i32) -> Seq<Seq<char>> {
    role_names_for(t.roles, t.model_roles, model_type, model_id)
}

/// The names of all permissions, in table order.
pub open spec fn permission_names(perms: Seq<PermissionView>) -> Seq<Seq<char>>
    decreases perms.len(),
{
    if perms.len() == 0 {
        Seq::empty()
    } else {
        permission_names(perms.drop_last()).push(perms.last().name)
    }
}

/// The names of the permissions among `perms`, in table order, that the model holds
/// directly or through a role.
pub open spec fn granted_permission_names(perms: Seq<PermissionView>, t: TablesView, model_type: Seq<char>, model_id: i32) -> Seq<Seq<char>>
    decreases perms.len(),
{
    if perms.len() == 0 {
        Seq::empty()
    } else {
        let rest = granted_permission_names(perms.drop_last(), t, model_type, model_id);
        if permission_granted(t, perms.last().id, model_type, model_id) {
            rest.push(perms.last().name)
        } else {
            rest
        }
    }
}

/// What `get_all_permissions_for` returns: every permission for a holder of the
/// role `admin`, else those held directly or through a role.
pub open spec fn permissions_for_spec(t: TablesView, model_type: Seq<char>, model_id: i32) -> Seq<Seq<char>> {
    if roles_for_spec(t, model_type, model_id).contains("admin"@) {
        permission_names(t.permissions)
    } else {
        granted_permission_names(t.permissions, t, model_type, model_id)
    }
}

// ---------------------------------------------------------------------------
// Table invariants
// ---------------------------------------------------------------------------

/// No two roles share a name or an identifier.
pub open spec fn unique_roles(rs: Seq<RoleView>) -> bool {
    forall|i: int, j: int|
        #![trigger rs[i], rs[j]]
        0 <= i < rs.len() && 0 <= j < rs.len() && i != j ==> rs[i].name != rs[j].name && rs[i].id != rs[j].id
}

/// No two permissions share a name or an identifier.
pub open spec fn unique_permissions(ps: Seq<PermissionView>) -> bool {
    forall|i: int, j: int|
        #![trigger ps[i], ps[j]]
        0 <= i < ps.len() && 0 <= j < ps.len() && i != j ==> ps[i].name != ps[j].name && ps[i].id != ps[j].id
}

impl TablesView {
    /// Role and permission names are unique (the `unique()` columns), their
    /// identifiers are unique (the primary keys) and below the next identifier,
    /// and every counter lies in `1..=i32::MAX + 1`. Links may repeat: the schema
    /// does not forbid it.
    pub open spec fn wf(self) -> bool {
        &&& unique_roles(self.roles)
        &&& forall|i: int| #![trigger self.roles[i]] 0 <= i < self.roles.len() ==> self.roles[i].id < self.next_role_id
        &&& unique_permissions(self.permissions)
        &&& forall|i: int| #![trigger self.permissions[i]] 0 <= i < self.permissions.len() ==> self.permissions[i].id < self.next_permission_id
        &&& 1 <= self.next_role_id <= i32::MAX + 1
        &&& 1 <= self.next_permission_id <= i32::MAX + 1
        &&& 1 <= self.next_model_role_id <= i32::MAX + 1
        &&& 1 <= self.next_model_permission_id <= i32::MAX + 1
        &&& 1 <= self.next_role_permission_id <= i32::MAX + 1
    }
}

// ---------------------------------------------------------------------------
// Rows read back from storage
// ---------------------------------------------------------------------------

/// The identifier an autoincrement column hands out next after the rows `s`:
/// one past the largest identifier, and 1 for no rows (or only identifiers below 1).
pub open spec fn next_id_after<A>(s: Seq<A>, id: spec_fn(A) -> i32) -> int
    decreases s.len(),
{
    if s.len() == 0 {
        1
    } else {
        let m = next_id_after(s.drop_last(), id);
        if id(s.last()) + 1 > m {
            id(s.last()) + 1
        } else {
            m
        }
    }
}

/// Every identifier of `s` is below `next_id_after(s, id)`.
pub proof fn lemma_next_id_after_bounds<A>(s: Seq<A>, id: spec_fn(A) -> i32)
    ensures
        1 <= next_id_after(s, id) <= i32::MAX + 1,
        forall|k: int| 0 <= k < s.len() ==> id(#[trigger] s[k]) < next_id_after(s, id),
    decreases s.len(),
{
    if s.len() > 0 {
        let d = s.drop_last();
        lemma_next_id_after_bounds(d, id);
        assert forall|k: int| 0 <= k < s.len() implies id(#[trigger] s[k]) < next_id_after(s, id) by {
            if k < s.len() - 1 {
                assert(s[k] == d[k]);
            }
        }
    }
}

/// The counter an autoincrement column resumes from: past both the stored rows
/// (`after_rows`) and the largest identifier it ever handed out (`issued`), and
/// at most `i32::MAX + 1`.
pub open spec fn resume_counter(after_rows: int, issued: i64) -> int {
    let past_issued: int = if issued >= i32::MAX { i32::MAX + 1 } else { issued + 1 };
    if past_issued > after_rows {
        past_issued
    } else {
        after_rows
    }
}

/// The tables made of rows read back from storage, each counter past its table's
/// largest stored identifier and past the largest identifier it ever handed out.
pub open spec fn loaded_view(
    roles: Seq<RoleView>,
    permissions: Seq<PermissionView>,
    model_roles: Seq<ModelHasRoleView>,
    model_permissions: Seq<ModelHasPermissionView>,
    role_permissions: Seq<RoleHasPermission>,
    issued: IssuedIds,
) -> TablesView {
    TablesView {
        roles,
        permissions,
        model_roles,
        model_permissions,
        role_permissions,
        next_role_id: resume_counter(next_id_after(roles, |r: RoleView| r.id), issued.roles) as i64,
        next_permission_id: resume_counter(next_id_after(permissions, |p: PermissionView| p.id), issued.permissions) as i64,
        next_model_role_id: resume_counter(next_id_after(model_roles, |l: ModelHasRoleView| l.id), issued.model_has_roles) as i64,
        next_model_permission_id: resume_counter(next_id_after(model_permissions, |l: ModelHasPermissionView| l.id), issued.model_has_permissions) as i64,
        next_role_permission_id: resume_counter(next_id_after(role_permissions, |l: RoleHasPermission| l.id), issued.role_has_permissions) as i64,
    }
}

/// Rows read back from storage make well-formed tables: no two roles and no two
/// permissions share a name or an identifier.
pub open spec fn loadable(roles: Seq<RoleView>, permissions: Seq<PermissionView>) -> bool {
    unique_roles(roles) && unique_permissions(permissions)
}

// ---------------------------------------------------------------------------
// Outcomes of the operations: the tables afterwards and the result
// ---------------------------------------------------------------------------

/// `create_role`: find the role by name, or insert it with the next identifier.
pub open spec fn create_role_outcome(t: TablesView, name: Seq<char>, guard: Seq<char>, now: Seq<char>) -> (TablesView, Result<RoleView, PermissionError>) {
    match find_role(t.roles, name) {
        Some(r) => (t, Ok(r)),
        None => if t.next_role_id > i32::MAX {
            (t, Err(PermissionError::IdSpaceExhausted))
        } else {
            let row = RoleView { id: t.next_role_id as i32, name, guard_name: guard, created_at: Some(now), updated_at: Some(now) };
            (TablesView { roles: t.roles.push(row), next_role_id: (t.next_role_id + 1) as i64, ..t }, Ok(row))
        },
    }
}

/// `create_permission`: find the permission by name, or insert it with the next identifier.
pub open spec fn create_permission_outcome(t: TablesView, name: Seq<char>, guard: Seq<char>, now: Seq<char>) -> (TablesView, Result<PermissionView, PermissionError>) {
    match find_permission(t.permissions, name) {
        Some(p) => (t, Ok(p)),
        None => if t.next_permission_id > i32::MAX {
            (t, Err(PermissionError::IdSpaceExhausted))
        } else {
            let row = PermissionView { id: t.next_permission_id as i32, name, guard_name: guard, created_at: Some(now), updated_at: Some(now) };
            (TablesView { permissions: t.permissions.push(row), next_permission_id: (t.next_permission_id + 1) as i64, ..t }, Ok(row))
        },
    }
}

/// `assign_role`: link the named role to the model unless it is linked already.
pub open spec fn assign_role_outcome(t: TablesView, model_type: Seq<char>, model_id: i32, role_name: Seq<char>) -> (TablesView, Result<(), PermissionError>) {
    match find_role(t.roles, role_name) {
        None => (t, Err(PermissionError::RowNotFound)),
        Some(r) => if model_role_linked(t.model_roles, r.id, model_type, model_id) {
            (t, Ok(()))
        } else if t.next_model_role_id > i32::MAX {
            (t, Err(PermissionError::IdSpaceExhausted))
        } else {
            let row = ModelHasRoleView { id: t.next_model_role_id as i32, role_id: r.id, model_type, model_id };
            (TablesView { model_roles: t.model_roles.push(row), next_model_role_id: (t.next_model_role_id + 1) as i64, ..t }, Ok(()))
        },
    }
}

/// The links of `links` that do not link the role to the model, in order.
pub open spec fn without_model_role(links: Seq<ModelHasRoleView>, role_id: i32, model_type: Seq<char>, model_id: i32) -> Seq<ModelHasRoleView> {
    links.filter(|l: ModelHasRoleView| !model_role_matches(l, role_id, model_type, model_id))
}

/// `remove_role`: delete every link of the named role to the model; nothing if no such role.
pub open spec fn remove_role_outcome(t: TablesView, model_type: Seq<char>, model_id: i32, role_name: Seq<char>) -> TablesView {
    match find_role(t.roles, role_name) {
        None => t,
        Some(r) => TablesView { model_roles: without_model_role(t.model_roles, r.id, model_type, model_id), ..t },
    }
}

/// `give_permission_to`: give the named permission to the model directly unless it has it already.
pub open spec fn give_permission_to_outcome(t: TablesView, model_type: Seq<char>, model_id: i32, permission_name: Seq<char>) -> (TablesView, Result<(), PermissionError>) {
    match find_permission(t.permissions, permission_name) {
        None => (t, Err(PermissionError::RowNotFound)),
        Some(p) => if model_permission_linked(t.model_permissions, p.id, model_type, model_id) {
            (t, Ok(()))
        } else if t.next_model_permission_id > i32::MAX {
            (t, Err(PermissionError::IdSpaceExhausted))
        } else {
            let row = ModelHasPermissionView { id: t.next_model_permission_id as i32, permission_id: p.id, model_type, model_id };
            (TablesView { model_permissions: t.model_permissions.push(row), next_model_permission_id: (t.next_model_permission_id + 1) as i64, ..t }, Ok(()))
        },
    }
}

/// The links of `links` that do not give the permission to the model, in order.
pub open spec fn without_model_permission(links: Seq<ModelHasPermissionView>, permission_id: i32, model_type: Seq<char>, model_id: i32) -> Seq<ModelHasPermissionView> {
    links.filter(|l: ModelHasPermissionView| !model_permission_matches(l, permission_id, model_type, model_id))
}

/// `revoke_permission_to`: delete every direct link of the named permission to the model.
pub open spec fn revoke_permission_to_outcome(t: TablesView, model_type: Seq<char>, model_id: i32, permission_name: Seq<char>) -> TablesView {
    match find_permission(t.permissions, permission_name) {
        None => t,
        Some(p) => TablesView { model_permissions: without_model_permission(t.model_permissions, p.id, model_type, model_id), ..t },
    }
}

/// `give_permission_to_role`: grant the named permission to the named role unless granted already.
pub open spec fn give_permission_to_role_outcome(t: TablesView, role_name: Seq<char>, permission_name: Seq<char>) -> (TablesView, Result<(), PermissionError>) {
    match find_role(t.roles, role_name) {
        None => (t, Err(PermissionError::RowNotFound)),
        Some(r) => match find_permission(t.permissions, permission_name) {
            None => (t, Err(PermissionError::RowNotFound)),
            Some(p) => if role_permission_linked(t.role_permissions, r.id, p.id) {
                (t, Ok(()))
            } else if t.next_role_permission_id > i32::MAX {
                (t, Err(PermissionError::IdSpaceExhausted))
            } else {
                let row = RoleHasPermission { id: t.next_role_permission_id as i32, permission_id: p.id, role_id: r.id };
                (TablesView { role_permissions: t.role_permissions.push(row), next_role_permission_id: (t.next_role_permission_id + 1) as i64, ..t }, Ok(()))
            },
        },
    }
}

/// The links of `links` that do not grant the permission to the role, in order.
pub open spec fn without_role_permission(links: Seq<RoleHasPermission>, role_id: i32, permission_id: i32) -> Seq<RoleHasPermission> {
    links.filter(|l: RoleHasPermission| !role_permission_matches(l, role_id, permission_id))
}

/// `revoke_permission_from_role`: delete every grant of the named permission to the named role.
pub open spec fn revoke_permission_from_role_outcome(t: TablesView, role_name: Seq<char>, permission_name: Seq<char>) -> TablesView {
    match find_role(t.roles, role_name) {
        None => t,
        Some(r) => match find_permission(t.permissions, permission_name) {
            None => t,
            Some(p) => TablesView { role_permissions: without_role_permission(t.role_permissions, r.id, p.id), ..t },
        },
    }
}

} // verus!
