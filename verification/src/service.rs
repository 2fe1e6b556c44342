//! The RBAC service: find-or-create roles and permissions, link them to
//! models and to each other, and answer who holds what.

use vstd::prelude::*;
use crate::entities::{Role, Permission, RoleView, PermissionView, ModelHasRole, ModelHasRoleView};
use crate::error::PermissionError;
use crate::model::{
    guard_or_web, create_role_outcome, create_permission_outcome, assign_role_outcome,
    remove_role_outcome, give_permission_to_outcome, revoke_permission_to_outcome,
    give_permission_to_role_outcome, revoke_permission_from_role_outcome, has_role_spec,
    has_permission_spec, roles_for_spec, role_names_for, permissions_for_spec, permission_names,
    granted_permission_names, model_role_matches, repeat_name,
};
use crate::tables::RbacTables;

verus! {

/// The operations of the RBAC service over the tables.
pub struct PermissionService;

/// The value of a role result.
pub open spec fn role_result_view(r: Result<Role, PermissionError>) -> Result<RoleView, PermissionError> {
    match r {
        Ok(x) => Ok(x@),
        Err(e) => Err(e),
    }
}

/// The value of a permission result.
pub open spec fn permission_result_view(r: Result<Permission, PermissionError>) -> Result<PermissionView, PermissionError> {
    match r {
        Ok(x) => Ok(x@),
        Err(e) => Err(e),
    }
}

/// The guard name, `"web"` when none is given.
fn guard_text(guard_name: Option<&str>) -> (r: &str)
    ensures
        r@ == guard_or_web(guard_name),
{
    match guard_name {
        Some(g) => g,
        None => "web",
    }
}

impl PermissionService {
    /// Finds the role named `name`, or creates it with the guard `guard_name`
    /// (default `"web"`), stamped with `now` (the caller reads the clock; the
    /// stored `created_at` and `updated_at` are `now` exactly).
    pub fn create_role(db: &mut RbacTables, name: &str, guard_name: Option<&str>, now: String) -> (res: Result<Role, PermissionError>)
        requires
            old(db).wf(),
        ensures
            final(db).wf(),
            (final(db)@, role_result_view(res)) == create_role_outcome(old(db)@, name@, guard_or_web(guard_name), now@),
    {
        let guard = guard_text(guard_name);
        let key = name.to_owned();
        match db.find_role_index(&key) {
            Some(i) => Ok(db.role_at(i).clone()),
            None => {
                if db.next_role_id() > i32::MAX as i64 {
                    Err(PermissionError::IdSpaceExhausted)
                } else {
                    Ok(db.insert_role(key, guard.to_owned(), now))
                }
            },
        }
    }

    /// Finds the permission named `name`, or creates it with the guard
    /// `guard_name` (default `"web"`), stamped with `now` (the caller reads the
    /// clock; the stored `created_at` and `updated_at` are `now` exactly).
    pub fn create_permission(db: &mut RbacTables, name: &str, guard_name: Option<&str>, now: String) -> (res: Result<Permission, PermissionError>)
        requires
            old(db).wf(),
        ensures
            final(db).wf(),
            (final(db)@, permission_result_view(res)) == create_permission_outcome(old(db)@, name@, guard_or_web(guard_name), now@),
    {
        let guard = guard_text(guard_name);
        let key = name.to_owned();
        match db.find_permission_index(&key) {
            Some(i) => Ok(db.permission_at(i).clone()),
            None => {
                if db.next_permission_id() > i32::MAX as i64 {
                    Err(PermissionError::IdSpaceExhausted)
                } else {
                    Ok(db.insert_permission(key, guard.to_owned(), now))
                }
            },
        }
    }

    /// Gives the role named `role_name` to the model `(model_type, model_id)`;
    /// `RowNotFound` when there is no such role, nothing when it holds it already.
    pub fn assign_role(db: &mut RbacTables, model_type: &str, model_id: i32, role_name: &str) -> (res: Result<(), PermissionError>)
        requires
            old(db).wf(),
        ensures
            final(db).wf(),
            (final(db)@, res) == assign_role_outcome(old(db)@, model_type@, model_id, role_name@),
    {
        let key = role_name.to_owned();
        let mt = model_type.to_owned();
        match db.find_role_index(&key) {
            None => Err(PermissionError::RowNotFound),
            Some(i) => {
                let role_id = db.role_at(i).id;
                if db.model_role_link_exists(role_id, &mt, model_id) {
                    Ok(())
                } else if db.next_model_role_id() > i32::MAX as i64 {
                    Err(PermissionError::IdSpaceExhausted)
                } else {
                    db.insert_model_role(role_id, mt, model_id);
                    Ok(())
                }
            },
        }
    }

    /// Takes the role named `role_name` from the model; nothing when there is no such role.
    pub fn remove_role(db: &mut RbacTables, model_type: &str, model_id: i32, role_name: &str) -> (res: Result<(), PermissionError>)
        requires
            old(db).wf(),
        ensures
            final(db).wf(),
            res == Ok::<(), PermissionError>(()),
            final(db)@ == remove_role_outcome(old(db)@, model_type@, model_id, role_name@),
    {
        let key = role_name.to_owned();
        let mt = model_type.to_owned();
        match db.find_role_index(&key) {
            None => Ok(()),
            Some(i) => {
                let role_id = db.role_at(i).id;
                db.delete_model_roles(role_id, &mt, model_id);
                Ok(())
            },
        }
    }

    /// Whether the model holds the role named `role_name`.
    pub fn has_role(db: &RbacTables, model_type: &str, model_id: i32, role_name: &str) -> (res: Result<bool, PermissionError>)
        requires
            db.wf(),
        ensures
            res == Ok::<bool, PermissionError>(has_role_spec(db@, model_type@, model_id, role_name@)),
    {
        let key = role_name.to_owned();
        let mt = model_type.to_owned();
        match db.find_role_index(&key) {
            None => Ok(false),
            Some(i) => Ok(db.model_role_link_exists(db.role_at(i).id, &mt, model_id)),
        }
    }

    /// Gives the permission named `permission_name` to the model directly;
    /// `RowNotFound` when there is no such permission, nothing when it holds it already.
    pub fn give_permission_to(db: &mut RbacTables, model_type: &str, model_id: i32, permission_name: &str) -> (res: Result<(), PermissionError>)
        requires
            old(db).wf(),
        ensures
            final(db).wf(),
            (final(db)@, res) == give_permission_to_outcome(old(db)@, model_type@, model_id, permission_name@),
    {
        let key = permission_name.to_owned();
        let mt = model_type.to_owned();
        match db.find_permission_index(&key) {
            None => Err(PermissionError::RowNotFound),
            Some(i) => {
                let pid = db.permission_at(i).id;
                if db.model_permission_link_exists(pid, &mt, model_id) {
                    Ok(())
                } else if db.next_model_permission_id() > i32::MAX as i64 {
                    Err(PermissionError::IdSpaceExhausted)
                } else {
                    db.insert_model_permission(pid, mt, model_id);
                    Ok(())
                }
            },
        }
    }

    /// Takes the direct grant of the permission named `permission_name` from the
    /// model; nothing when there is no such permission.
    pub fn revoke_permission_to(db: &mut RbacTables, model_type: &str, model_id: i32, permission_name: &str) -> (res: Result<(), PermissionError>)
        requires
            old(db).wf(),
        ensures
            final(db).wf(),
            res == Ok::<(), PermissionError>(()),
            final(db)@ == revoke_permission_to_outcome(old(db)@, model_type@, model_id, permission_name@),
    {
        let key = permission_name.to_owned();
        let mt = model_type.to_owned();
        match db.find_permission_index(&key) {
            None => Ok(()),
            Some(i) => {
                let pid = db.permission_at(i).id;
                db.delete_model_permissions(pid, &mt, model_id);
                Ok(())
            },
        }
    }

    /// Grants the permission named `permission_name` to the role named
    /// `role_name`; `RowNotFound` when either is missing, nothing when granted already.
    pub fn give_permission_to_role(db: &mut RbacTables, role_name: &str, permission_name: &str) -> (res: Result<(), PermissionError>)
        requires
            old(db).wf(),
        ensures
            final(db).wf(),
            (final(db)@, res) == give_permission_to_role_outcome(old(db)@, role_name@, permission_name@),
    {
        let rkey = role_name.to_owned();
        let pkey = permission_name.to_owned();
        match db.find_role_index(&rkey) {
            None => Err(PermissionError::RowNotFound),
            Some(i) => {
                let role_id = db.role_at(i).id;
                match db.find_permission_index(&pkey) {
                    None => Err(PermissionError::RowNotFound),
                    Some(j) => {
                        let pid = db.permission_at(j).id;
                        if db.role_permission_link_exists(role_id, pid) {
                            Ok(())
                        } else if db.next_role_permission_id() > i32::MAX as i64 {
                            Err(PermissionError::IdSpaceExhausted)
                        } else {
                            db.insert_role_permission(role_id, pid);
                            Ok(())
                        }
                    },
                }
            },
        }
    }

    /// Takes the permission named `permission_name` from the role named
    /// `role_name`; nothing when either is missing.
    pub fn revoke_permission_from_role(db: &mut RbacTables, role_name: &str, permission_name: &str) -> (res: Result<(), PermissionError>)
        requires
            old(db).wf(),
        ensures
            final(db).wf(),
            res == Ok::<(), PermissionError>(()),
            final(db)@ == revoke_permission_from_role_outcome(old(db)@, role_name@, permission_name@),
    {
        let rkey = role_name.to_owned();
        let pkey = permission_name.to_owned();
        match db.find_role_index(&rkey) {
            None => Ok(()),
            Some(i) => {
                let role_id = db.role_at(i).id;
                match db.find_permission_index(&pkey) {
                    None => Ok(()),
                    Some(j) => {
                        let pid = db.permission_at(j).id;
                        db.delete_role_permissions(role_id, pid);
                        Ok(())
                    },
                }
            },
        }
    }

    /// Whether the model holds the permission named `permission_name`, directly
    /// or through one of its roles.
    pub fn has_permission_to(db: &RbacTables, model_type: &str, model_id: i32, permission_name: &str) -> (res: Result<bool, PermissionError>)
        requires
            db.wf(),
        ensures
            res == Ok::<bool, PermissionError>(has_permission_spec(db@, model_type@, model_id, permission_name@)),
    {
        let key = permission_name.to_owned();
        let mt = model_type.to_owned();
        match db.find_permission_index(&key) {
            None => Ok(false),
            Some(i) => {
                let pid = db.permission_at(i).id;
                if db.model_permission_link_exists(pid, &mt, model_id) {
                    return Ok(true);
                }
                Ok(db.permission_via_role_exists(pid, &mt, model_id))
            },
        }
    }

    /// The names of the roles the model holds, in `roles` table order, each as
    /// often as a `model_has_roles` row links it to the model.
    pub fn get_all_roles_for(db: &RbacTables, model_type: &str, model_id: i32) -> (res: Result<Vec<String>, PermissionError>)
        requires
            db.wf(),
        ensures
            res is Ok,
            res matches Ok(v) ==> v.deep_view() == roles_for_spec(db@, model_type@, model_id),
    {
        let mt = model_type.to_owned();
        let roles = db.roles();
        let links = db.model_has_roles();
        let ghost rs = db@.roles;
        let ghost ls = db@.model_roles;
        let n = roles.len();
        let m = links.len();
        let mut out: Vec<String> = Vec::new();
        let mut i: usize = 0;
        while i < n
            invariant
                n == roles@.len(),
                m == links@.len(),
                rs == db@.roles,
                ls == db@.model_roles,
                roles@.map_values(|x: Role| x@) == rs,
                links@.map_values(|x: ModelHasRole| x@) == ls,
                mt@ == model_type@,
                i <= n,
                out.deep_view() == role_names_for(rs.take(i as int), ls, model_type@, model_id),
            decreases n - i,
        {
            let r = &roles[i];
            let ghost rid = r.id;
            let ghost pred = |l: ModelHasRoleView| model_role_matches(l, rid, model_type@, model_id);
            let ghost prefix = out.deep_view();
            proof {
                assert(rs.take(i + 1).drop_last() =~= rs.take(i as int));
                assert(rs[i as int] == r@);
                assert(repeat_name(r.name@, 0) =~= Seq::<Seq<char>>::empty());
                assert(ls.take(0).filter(pred) =~= Seq::<ModelHasRoleView>::empty()) by {
                    reveal(Seq::filter);
                }
                assert(prefix + repeat_name(r.name@, 0) =~= prefix);
            }
            let mut k: usize = 0;
            while k < m
                invariant
                    m == links@.len(),
                    links@.map_values(|x: ModelHasRole| x@) == ls,
                    mt@ == model_type@,
                    rid == r.id,
                    pred == (|l: ModelHasRoleView| model_role_matches(l, rid, model_type@, model_id)),
                    k <= m,
                    out.deep_view() == prefix + repeat_name(r.name@, ls.take(k as int).filter(pred).len()),
                decreases m - k,
            {
                let l = &links[k];
                proof {
                    assert(ls.take(k + 1) =~= ls.take(k as int).push(ls[k as int]));
                    ls.take(k as int).lemma_filter_push(ls[k as int], pred);
                    assert(ls[k as int] == l@);
                }
                if l.role_id == r.id && l.model_id == model_id && l.model_type == mt {
                    let ghost before = out.deep_view();
                    let ghost c = ls.take(k as int).filter(pred).len();
                    out.push(r.name.clone());
                    assert(out.deep_view() =~= before.push(r.name@));
                    assert(prefix + repeat_name(r.name@, c + 1) =~= (prefix + repeat_name(r.name@, c)).push(r.name@));
                }
                k = k + 1;
            }
            assert(ls.take(m as int) =~= ls);
            i = i + 1;
        }
        assert(rs.take(n as int) =~= rs);
        Ok(out)
    }

    /// The names of the permissions the model holds, in `permissions` table
    /// order: all of them when the model holds the role `admin`, else those it
    /// holds directly or through a role.
    pub fn get_all_permissions_for(db: &RbacTables, model_type: &str, model_id: i32) -> (res: Result<Vec<String>, PermissionError>)
        requires
            db.wf(),
        ensures
            res is Ok,
            res matches Ok(v) ==> v.deep_view() == permissions_for_spec(db@, model_type@, model_id),
            res matches Ok(v) ==> forall|a: int, b: int|
                #![trigger v.deep_view()[a], v.deep_view()[b]]
                0 <= a < v.len() && 0 <= b < v.len() && a != b ==> v.deep_view()[a] != v.deep_view()[b],
    {
        let roles = match Self::get_all_roles_for(db, model_type, model_id) {
            Ok(r) => r,
            Err(e) => return Err(e),
        };
        let admin = "admin".to_owned();
        let ghost rv = roles.deep_view();
        let mut is_admin = false;
        let mut i: usize = 0;
        while i < roles.len() && !is_admin
            invariant
                i <= roles@.len(),
                rv == roles.deep_view(),
                admin@ == "admin"@,
                is_admin ==> rv.contains("admin"@),
                !is_admin ==> forall|j: int| 0 <= j < i ==> rv[j] != "admin"@,
            decreases roles@.len() - i,
        {
            if roles[i] == admin {
                is_admin = true;
                assert(rv[i as int] == "admin"@);
            }
            i = i + 1;
        }
        let mt = model_type.to_owned();
        let perms = db.permissions();
        let ghost ps = db@.permissions;
        let n = perms.len();
        let mut out: Vec<String> = Vec::new();
        let mut k: usize = 0;
        if is_admin {
            while k < n
                invariant
                    n == perms@.len(),
                    ps == db@.permissions,
                    perms@.map_values(|x: Permission| x@) == ps,
                    k <= n,
                    out.deep_view() == permission_names(ps.take(k as int)),
                decreases n - k,
            {
                let p = &perms[k];
                proof {
                    assert(ps.take(k + 1).drop_last() =~= ps.take(k as int));
                    assert(ps[k as int] == p@);
                }
                let ghost before = out.deep_view();
                out.push(p.name.clone());
                assert(out.deep_view() =~= before.push(p.name@));
                k = k + 1;
            }
        } else {
            assert(!rv.contains("admin"@));
            while k < n
                invariant
                    n == perms@.len(),
                    ps == db@.permissions,
                    perms@.map_values(|x: Permission| x@) == ps,
                    mt@ == model_type@,
                    k <= n,
                    out.deep_view() == granted_permission_names(ps.take(k as int), db@, model_type@, model_id),
                decreases n - k,
            {
                let p = &perms[k];
                proof {
                    assert(ps.take(k + 1).drop_last() =~= ps.take(k as int));
                    assert(ps[k as int] == p@);
                }
                let granted = db.model_permission_link_exists(p.id, &mt, model_id)
                    || db.permission_via_role_exists(p.id, &mt, model_id);
                if granted {
                    let ghost before = out.deep_view();
                    out.push(p.name.clone());
                    assert(out.deep_view() =~= before.push(p.name@));
                }
                k = k + 1;
            }
        }
        assert(ps.take(n as int) =~= ps);
        proof {
            crate::laws::law_permissions_for_lists_each_name_once(db@, model_type@, model_id);
        }
        Ok(out)
    }
}

} // verus!