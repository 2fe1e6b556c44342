//! Laws of the RBAC service, stated over the outcomes of its operations.

use vstd::prelude::*;
use crate::model::{
    TablesView, find_role, role_exists, find_permission, permission_exists,
    model_role_matches, model_role_linked, model_permission_matches, model_permission_linked,
    create_role_outcome, create_permission_outcome, assign_role_outcome, remove_role_outcome,
    has_role_spec, has_permission_spec, permission_via_role, role_permission_matches,
    role_permission_linked, give_permission_to_outcome, revoke_permission_to_outcome,
    give_permission_to_role_outcome, revoke_permission_from_role_outcome, role_names_for,
    roles_for_spec, permission_names, granted_permission_names, permissions_for_spec,
    permission_granted, model_role_link_count, repeat_name,
};
use crate::entities::{RoleView, PermissionView, ModelHasRoleView, ModelHasPermissionView, RoleHasPermission};
use crate::tables::{lemma_find_role_at, lemma_find_permission_at};
use crate::error::PermissionError;

verus! {

/// A filter that keeps every entry gives the sequence back.
proof fn lemma_filter_keeps_all<A>(s: Seq<A>, keep: spec_fn(A) -> bool)
    requires
        forall|i: int| 0 <= i < s.len() ==> keep(#[trigger] s[i]),
    ensures
        s.filter(keep) == s,
    decreases s.len(),
{
    reveal(Seq::filter);
    if s.len() > 0 {
        let d = s.drop_last();
        assert forall|i: int| 0 <= i < d.len() implies keep(#[trigger] d[i]) by {
            assert(d[i] == s[i]);
        }
        lemma_filter_keeps_all(d, keep);
        assert(keep(s[s.len() - 1]));
        assert(d.push(s.last()) =~= s);
    }
}

/// After a role was added for a name that no role had, that name finds the new row.
proof fn lemma_find_pushed_role(t: TablesView, name: Seq<char>, row: crate::entities::RoleView)
    requires
        !role_exists(t.roles, name),
        row.name == name,
    ensures
        find_role(t.roles.push(row), name) == Some(row),
{
    let s = t.roles.push(row);
    assert(s[s.len() - 1] == row);
    assert(role_exists(s, name));
    let j = choose|j: int| #![trigger s[j]] 0 <= j < s.len() && s[j].name == name;
    if j < s.len() - 1 {
        assert(s[j] == t.roles[j]);
        assert(role_exists(t.roles, name));
    }
}

/// After a permission was added for a name that no permission had, that name finds the new row.
proof fn lemma_find_pushed_permission(t: TablesView, name: Seq<char>, row: crate::entities::PermissionView)
    requires
        !permission_exists(t.permissions, name),
        row.name == name,
    ensures
        find_permission(t.permissions.push(row), name) == Some(row),
{
    let s = t.permissions.push(row);
    assert(s[s.len() - 1] == row);
    assert(permission_exists(s, name));
    let j = choose|j: int| #![trigger s[j]] 0 <= j < s.len() && s[j].name == name;
    if j < s.len() - 1 {
        assert(s[j] == t.permissions[j]);
        assert(permission_exists(t.permissions, name));
    }
}

/// `create_role` finds or creates: when it succeeds, the role it returns has the
/// requested name and is the one that name now finds; a second call with the same
/// name, whatever its guard and time, returns the same role and changes nothing.
pub proof fn law_create_role_find_or_create(t: TablesView, name: Seq<char>, guard: Seq<char>, now: Seq<char>, guard2: Seq<char>, now2: Seq<char>)
    requires
        create_role_outcome(t, name, guard, now).1 is Ok,
    ensures
        ({
            let (t1, r1) = create_role_outcome(t, name, guard, now);
            &&& r1->Ok_0.name == name
            &&& find_role(t1.roles, name) == Some(r1->Ok_0)
            &&& create_role_outcome(t1, name, guard2, now2) == (t1, r1)
        }),
{
    let (t1, r1) = create_role_outcome(t, name, guard, now);
    match find_role(t.roles, name) {
        Some(r) => {
            let j = choose|j: int| #![trigger t.roles[j]] 0 <= j < t.roles.len() && t.roles[j].name == name;
            assert(r == t.roles[j]);
        },
        None => {
            lemma_find_pushed_role(t, name, r1->Ok_0);
        },
    }
}

/// `create_permission` finds or creates, as `create_role` does.
pub proof fn law_create_permission_find_or_create(t: TablesView, name: Seq<char>, guard: Seq<char>, now: Seq<char>, guard2: Seq<char>, now2: Seq<char>)
    requires
        create_permission_outcome(t, name, guard, now).1 is Ok,
    ensures
        ({
            let (t1, r1) = create_permission_outcome(t, name, guard, now);
            &&& r1->Ok_0.name == name
            &&& find_permission(t1.permissions, name) == Some(r1->Ok_0)
            &&& create_permission_outcome(t1, name, guard2, now2) == (t1, r1)
        }),
{
    let (t1, r1) = create_permission_outcome(t, name, guard, now);
    match find_permission(t.permissions, name) {
        Some(p) => {
            let j = choose|j: int| #![trigger t.permissions[j]] 0 <= j < t.permissions.len() && t.permissions[j].name == name;
            assert(p == t.permissions[j]);
        },
        None => {
            lemma_find_pushed_permission(t, name, r1->Ok_0);
        },
    }
}

/// A model that was assigned a role holds it.
pub proof fn law_assign_role_then_has_role(t: TablesView, model_type: Seq<char>, model_id: i32, role_name: Seq<char>)
    requires
        assign_role_outcome(t, model_type, model_id, role_name).1 is Ok,
    ensures
        has_role_spec(assign_role_outcome(t, model_type, model_id, role_name).0, model_type, model_id, role_name),
{
    let t1 = assign_role_outcome(t, model_type, model_id, role_name).0;
    let r = find_role(t.roles, role_name)->Some_0;
    if !model_role_linked(t.model_roles, r.id, model_type, model_id) {
        let last = t1.model_roles.len() - 1;
        assert(model_role_matches(t1.model_roles[last], r.id, model_type, model_id));
    }
}

/// Assigning a role twice is assigning it once: the second call succeeds and changes nothing.
pub proof fn law_assign_role_idempotent(t: TablesView, model_type: Seq<char>, model_id: i32, role_name: Seq<char>)
    requires
        assign_role_outcome(t, model_type, model_id, role_name).1 is Ok,
    ensures
        ({
            let t1 = assign_role_outcome(t, model_type, model_id, role_name).0;
            assign_role_outcome(t1, model_type, model_id, role_name) == (t1, Ok::<(), crate::error::PermissionError>(()))
        }),
{
    law_assign_role_then_has_role(t, model_type, model_id, role_name);
}

/// A model that had a role removed does not hold it.
pub proof fn law_remove_role_then_not_has_role(t: TablesView, model_type: Seq<char>, model_id: i32, role_name: Seq<char>)
    ensures
        !has_role_spec(remove_role_outcome(t, model_type, model_id, role_name), model_type, model_id, role_name),
{
    let t1 = remove_role_outcome(t, model_type, model_id, role_name);
    match find_role(t.roles, role_name) {
        None => {},
        Some(r) => {
            let keep = |l: crate::entities::ModelHasRoleView| !model_role_matches(l, r.id, model_type, model_id);
            if model_role_linked(t1.model_roles, r.id, model_type, model_id) {
                let j = choose|j: int| #![trigger t1.model_roles[j]] 0 <= j < t1.model_roles.len()
                    && model_role_matches(t1.model_roles[j], r.id, model_type, model_id);
                t.model_roles.lemma_filter_pred(keep, j);
            }
        },
    }
}

/// Removing a role undoes assigning it: when the model did not hold the role and
/// the assignment succeeded, removing it again leaves `model_has_roles` as it was
/// (only the identifier counter has moved on).
pub proof fn law_remove_role_undoes_assign_role(t: TablesView, model_type: Seq<char>, model_id: i32, role_name: Seq<char>)
    requires
        !has_role_spec(t, model_type, model_id, role_name),
        assign_role_outcome(t, model_type, model_id, role_name).1 is Ok,
    ensures
        ({
            let t1 = assign_role_outcome(t, model_type, model_id, role_name).0;
            remove_role_outcome(t1, model_type, model_id, role_name) == TablesView { next_model_role_id: t1.next_model_role_id, ..t }
        }),
{
    let t1 = assign_role_outcome(t, model_type, model_id, role_name).0;
    let r = find_role(t.roles, role_name)->Some_0;
    let keep = |l: crate::entities::ModelHasRoleView| !model_role_matches(l, r.id, model_type, model_id);
    let row = t1.model_roles.last();
    assert(t1.model_roles == t.model_roles.push(row));
    t.model_roles.lemma_filter_push(row, keep);
    assert forall|i: int| 0 <= i < t.model_roles.len() implies keep(#[trigger] t.model_roles[i]) by {
        if !keep(t.model_roles[i]) {
            assert(model_role_linked(t.model_roles, r.id, model_type, model_id));
        }
    }
    lemma_filter_keeps_all(t.model_roles, keep);
}

/// A model that was given a permission directly holds it.
pub proof fn law_give_permission_then_has_permission(t: TablesView, model_type: Seq<char>, model_id: i32, permission_name: Seq<char>)
    requires
        give_permission_to_outcome(t, model_type, model_id, permission_name).1 is Ok,
    ensures
        has_permission_spec(give_permission_to_outcome(t, model_type, model_id, permission_name).0, model_type, model_id, permission_name),
{
    let t1 = give_permission_to_outcome(t, model_type, model_id, permission_name).0;
    let p = find_permission(t.permissions, permission_name)->Some_0;
    if !model_permission_linked(t.model_permissions, p.id, model_type, model_id) {
        let last = t1.model_permissions.len() - 1;
        assert(model_permission_matches(t1.model_permissions[last], p.id, model_type, model_id));
    }
}

/// Giving a permission twice is giving it once.
pub proof fn law_give_permission_idempotent(t: TablesView, model_type: Seq<char>, model_id: i32, permission_name: Seq<char>)
    requires
        give_permission_to_outcome(t, model_type, model_id, permission_name).1 is Ok,
    ensures
        ({
            let t1 = give_permission_to_outcome(t, model_type, model_id, permission_name).0;
            give_permission_to_outcome(t1, model_type, model_id, permission_name) == (t1, Ok::<(), crate::error::PermissionError>(()))
        }),
{
    let t1 = give_permission_to_outcome(t, model_type, model_id, permission_name).0;
    let p = find_permission(t.permissions, permission_name)->Some_0;
    if !model_permission_linked(t.model_permissions, p.id, model_type, model_id) {
        let last = t1.model_permissions.len() - 1;
        assert(model_permission_matches(t1.model_permissions[last], p.id, model_type, model_id));
    }
}

/// Revoking a direct permission leaves only what the model's roles grant: afterwards
/// the model holds the permission exactly when one of its roles grants it.
pub proof fn law_revoke_permission_leaves_role_grants(t: TablesView, model_type: Seq<char>, model_id: i32, permission_name: Seq<char>)
    ensures
        has_permission_spec(revoke_permission_to_outcome(t, model_type, model_id, permission_name), model_type, model_id, permission_name)
            == (match find_permission(t.permissions, permission_name) {
                None => false,
                Some(p) => permission_via_role(t, p.id, model_type, model_id),
            }),
{
    let t1 = revoke_permission_to_outcome(t, model_type, model_id, permission_name);
    match find_permission(t.permissions, permission_name) {
        None => {},
        Some(p) => {
            let keep = |l: crate::entities::ModelHasPermissionView| !model_permission_matches(l, p.id, model_type, model_id);
            if model_permission_linked(t1.model_permissions, p.id, model_type, model_id) {
                let j = choose|j: int| #![trigger t1.model_permissions[j]] 0 <= j < t1.model_permissions.len()
                    && model_permission_matches(t1.model_permissions[j], p.id, model_type, model_id);
                t.model_permissions.lemma_filter_pred(keep, j);
            }
            assert(permission_via_role(t1, p.id, model_type, model_id) == permission_via_role(t, p.id, model_type, model_id));
        },
    }
}

/// Revoking a direct permission undoes giving it: when the model had no direct
/// grant and the gift succeeded, revoking leaves `model_has_permissions` as it was.
pub proof fn law_revoke_permission_undoes_give_permission(t: TablesView, model_type: Seq<char>, model_id: i32, permission_name: Seq<char>)
    requires
        find_permission(t.permissions, permission_name) is Some,
        !model_permission_linked(t.model_permissions, find_permission(t.permissions, permission_name)->Some_0.id, model_type, model_id),
        give_permission_to_outcome(t, model_type, model_id, permission_name).1 is Ok,
    ensures
        ({
            let t1 = give_permission_to_outcome(t, model_type, model_id, permission_name).0;
            revoke_permission_to_outcome(t1, model_type, model_id, permission_name) == TablesView { next_model_permission_id: t1.next_model_permission_id, ..t }
        }),
{
    let t1 = give_permission_to_outcome(t, model_type, model_id, permission_name).0;
    let p = find_permission(t.permissions, permission_name)->Some_0;
    let keep = |l: crate::entities::ModelHasPermissionView| !model_permission_matches(l, p.id, model_type, model_id);
    let row = t1.model_permissions.last();
    assert(t1.model_permissions == t.model_permissions.push(row));
    t.model_permissions.lemma_filter_push(row, keep);
    assert forall|i: int| 0 <= i < t.model_permissions.len() implies keep(#[trigger] t.model_permissions[i]) by {
        if !keep(t.model_permissions[i]) {
            assert(model_permission_linked(t.model_permissions, p.id, model_type, model_id));
        }
    }
    lemma_filter_keeps_all(t.model_permissions, keep);
}

/// Permissions are inherited through roles: once a role is granted a permission,
/// every model that holds the role holds the permission.
pub proof fn law_permission_inherited_through_role(t: TablesView, role_name: Seq<char>, permission_name: Seq<char>, model_type: Seq<char>, model_id: i32)
    requires
        give_permission_to_role_outcome(t, role_name, permission_name).1 is Ok,
        has_role_spec(t, model_type, model_id, role_name),
    ensures
        ({
            let t1 = give_permission_to_role_outcome(t, role_name, permission_name).0;
            &&& has_role_spec(t1, model_type, model_id, role_name)
            &&& has_permission_spec(t1, model_type, model_id, permission_name)
        }),
{
    let t1 = give_permission_to_role_outcome(t, role_name, permission_name).0;
    let r = find_role(t.roles, role_name)->Some_0;
    let p = find_permission(t.permissions, permission_name)->Some_0;
    let k = choose|k: int| #![trigger t.model_roles[k]] 0 <= k < t.model_roles.len()
        && model_role_matches(t.model_roles[k], r.id, model_type, model_id);
    assert(role_permission_linked(t1.role_permissions, r.id, p.id)) by {
        if !role_permission_linked(t.role_permissions, r.id, p.id) {
            let last = t1.role_permissions.len() - 1;
            assert(role_permission_matches(t1.role_permissions[last], r.id, p.id));
        }
    }
    let j = choose|j: int| #![trigger t1.role_permissions[j]] 0 <= j < t1.role_permissions.len()
        && role_permission_matches(t1.role_permissions[j], r.id, p.id);
    assert(t1.model_roles[k] == t.model_roles[k]);
    assert(permission_via_role(t1, p.id, model_type, model_id));
}

/// Revoking a permission from a role takes the grant away: afterwards the role
/// does not grant it.
pub proof fn law_revoke_permission_from_role_removes_grant(t: TablesView, role_name: Seq<char>, permission_name: Seq<char>)
    requires
        find_role(t.roles, role_name) is Some,
        find_permission(t.permissions, permission_name) is Some,
    ensures
        !role_permission_linked(
            revoke_permission_from_role_outcome(t, role_name, permission_name).role_permissions,
            find_role(t.roles, role_name)->Some_0.id,
            find_permission(t.permissions, permission_name)->Some_0.id,
        ),
{
    let t1 = revoke_permission_from_role_outcome(t, role_name, permission_name);
    let r = find_role(t.roles, role_name)->Some_0;
    let p = find_permission(t.permissions, permission_name)->Some_0;
    let keep = |l: crate::entities::RoleHasPermission| !role_permission_matches(l, r.id, p.id);
    if role_permission_linked(t1.role_permissions, r.id, p.id) {
        let j = choose|j: int| #![trigger t1.role_permissions[j]] 0 <= j < t1.role_permissions.len()
            && role_permission_matches(t1.role_permissions[j], r.id, p.id);
        t.role_permissions.lemma_filter_pred(keep, j);
    }
}

/// A role is linked to the model exactly when some row links it.
proof fn lemma_link_count_positive(links: Seq<ModelHasRoleView>, role_id: i32, model_type: Seq<char>, model_id: i32)
    ensures
        model_role_link_count(links, role_id, model_type, model_id) > 0 <==> model_role_linked(links, role_id, model_type, model_id),
{
    let pred = |l: ModelHasRoleView| model_role_matches(l, role_id, model_type, model_id);
    let f = links.filter(pred);
    if model_role_linked(links, role_id, model_type, model_id) {
        let k = choose|k: int| #![trigger links[k]] 0 <= k < links.len() && model_role_matches(links[k], role_id, model_type, model_id);
        links.lemma_filter_contains(pred, k);
    }
    if f.len() > 0 {
        links.lemma_filter_pred(pred, 0);
        assert(f.contains(f[0]));
        links.lemma_filter_contains_rev(pred, f[0]);
        let k = choose|k: int| 0 <= k < links.len() && links[k] == f[0];
        assert(model_role_matches(links[k], role_id, model_type, model_id));
    }
}

/// Which names `role_names_for` lists.
proof fn lemma_role_names_for_contains(roles: Seq<RoleView>, links: Seq<ModelHasRoleView>, model_type: Seq<char>, model_id: i32, n: Seq<char>)
    ensures
        role_names_for(roles, links, model_type, model_id).contains(n) <==> exists|i: int|
            #![trigger roles[i]]
            0 <= i < roles.len() && roles[i].name == n && model_role_linked(links, roles[i].id, model_type, model_id),
    decreases roles.len(),
{
    if roles.len() > 0 {
        let d = roles.drop_last();
        let last = roles.last();
        lemma_role_names_for_contains(d, links, model_type, model_id, n);
        lemma_link_count_positive(links, last.id, model_type, model_id);
        let rest = role_names_for(d, links, model_type, model_id);
        let c = model_role_link_count(links, last.id, model_type, model_id);
        let out = role_names_for(roles, links, model_type, model_id);
        assert(out == rest + repeat_name(last.name, c));
        if out.contains(n) {
            let a = choose|a: int| 0 <= a < out.len() && out[a] == n;
            if a < rest.len() {
                assert(rest[a] == out[a]);
                assert(rest.contains(n));
                let i = choose|i: int| #![trigger d[i]] 0 <= i < d.len() && d[i].name == n && model_role_linked(links, d[i].id, model_type, model_id);
                assert(roles[i] == d[i]);
            } else {
                assert(out[a] == repeat_name(last.name, c)[a - rest.len()]);
                assert(roles[roles.len() - 1] == last);
            }
        }
        if exists|i: int| #![trigger roles[i]] 0 <= i < roles.len() && roles[i].name == n && model_role_linked(links, roles[i].id, model_type, model_id) {
            let i = choose|i: int| #![trigger roles[i]] 0 <= i < roles.len() && roles[i].name == n && model_role_linked(links, roles[i].id, model_type, model_id);
            if i < roles.len() - 1 {
                assert(d[i] == roles[i]);
                assert(rest.contains(n));
                let a = choose|a: int| 0 <= a < rest.len() && rest[a] == n;
                assert(out[a] == rest[a]);
            } else {
                assert(roles[i] == last);
                assert(out[rest.len() as int] == repeat_name(last.name, c)[0]);
            }
        }
    }
}

/// Which names `permission_names` lists.
proof fn lemma_permission_names_contains(perms: Seq<PermissionView>, n: Seq<char>)
    ensures
        permission_names(perms).contains(n) <==> permission_exists(perms, n),
    decreases perms.len(),
{
    if perms.len() > 0 {
        let d = perms.drop_last();
        lemma_permission_names_contains(d, n);
        let rest = permission_names(d);
        let out = permission_names(perms);
        if out.contains(n) {
            let a = choose|a: int| 0 <= a < out.len() && out[a] == n;
            if a < rest.len() {
                assert(rest[a] == out[a]);
                assert(rest.contains(n));
                let i = choose|i: int| #![trigger d[i]] 0 <= i < d.len() && d[i].name == n;
                assert(perms[i] == d[i]);
            } else {
                assert(perms[perms.len() - 1] == perms.last());
            }
        }
        if permission_exists(perms, n) {
            let i = choose|i: int| #![trigger perms[i]] 0 <= i < perms.len() && perms[i].name == n;
            if i < perms.len() - 1 {
                assert(d[i] == perms[i]);
                assert(rest.contains(n));
                let a = choose|a: int| 0 <= a < rest.len() && rest[a] == n;
                assert(out[a] == rest[a]);
            } else {
                assert(out[out.len() - 1] == n);
            }
        }
    }
}

/// Which names `granted_permission_names` lists.
proof fn lemma_granted_permission_names_contains(perms: Seq<PermissionView>, t: TablesView, model_type: Seq<char>, model_id: i32, n: Seq<char>)
    ensures
        granted_permission_names(perms, t, model_type, model_id).contains(n) <==> exists|i: int|
            #![trigger perms[i]]
            0 <= i < perms.len() && perms[i].name == n && permission_granted(t, perms[i].id, model_type, model_id),
    decreases perms.len(),
{
    if perms.len() > 0 {
        let d = perms.drop_last();
        lemma_granted_permission_names_contains(d, t, model_type, model_id, n);
        let rest = granted_permission_names(d, t, model_type, model_id);
        let out = granted_permission_names(perms, t, model_type, model_id);
        if out.contains(n) {
            let a = choose|a: int| 0 <= a < out.len() && out[a] == n;
            if a < rest.len() {
                assert(rest[a] == out[a]);
                assert(rest.contains(n));
                let i = choose|i: int| #![trigger d[i]] 0 <= i < d.len() && d[i].name == n && permission_granted(t, d[i].id, model_type, model_id);
                assert(perms[i] == d[i]);
            } else {
                assert(perms[perms.len() - 1] == perms.last());
            }
        }
        if exists|i: int| #![trigger perms[i]] 0 <= i < perms.len() && perms[i].name == n && permission_granted(t, perms[i].id, model_type, model_id) {
            let i = choose|i: int| #![trigger perms[i]] 0 <= i < perms.len() && perms[i].name == n && permission_granted(t, perms[i].id, model_type, model_id);
            if i < perms.len() - 1 {
                assert(d[i] == perms[i]);
                assert(rest.contains(n));
                let a = choose|a: int| 0 <= a < rest.len() && rest[a] == n;
                if permission_granted(t, perms.last().id, model_type, model_id) {
                    assert(out[a] == rest[a]);
                }
            } else {
                assert(out[out.len() - 1] == n);
            }
        }
    }
}

/// `get_all_roles_for` lists exactly the roles `has_role` confirms.
pub proof fn law_roles_for_lists_held_roles(t: TablesView, model_type: Seq<char>, model_id: i32, role_name: Seq<char>)
    requires
        t.wf(),
    ensures
        roles_for_spec(t, model_type, model_id).contains(role_name) <==> has_role_spec(t, model_type, model_id, role_name),
{
    lemma_role_names_for_contains(t.roles, t.model_roles, model_type, model_id, role_name);
    if roles_for_spec(t, model_type, model_id).contains(role_name) {
        let i = choose|i: int| #![trigger t.roles[i]] 0 <= i < t.roles.len() && t.roles[i].name == role_name
            && model_role_linked(t.model_roles, t.roles[i].id, model_type, model_id);
        lemma_find_role_at(t.roles, i);
    }
    if has_role_spec(t, model_type, model_id, role_name) {
        let j = choose|j: int| #![trigger t.roles[j]] 0 <= j < t.roles.len() && t.roles[j].name == role_name;
        assert(t.roles[j].name == role_name);
    }
}

/// `get_all_permissions_for` lists every permission for a holder of the role
/// `admin`; for any other model it lists exactly the permissions `has_permission_to`
/// confirms.
pub proof fn law_permissions_for_lists_held_permissions(t: TablesView, model_type: Seq<char>, model_id: i32, permission_name: Seq<char>)
    requires
        t.wf(),
    ensures
        has_role_spec(t, model_type, model_id, "admin"@) ==> permissions_for_spec(t, model_type, model_id) == permission_names(t.permissions),
        has_role_spec(t, model_type, model_id, "admin"@) ==>
            (permissions_for_spec(t, model_type, model_id).contains(permission_name) <==> permission_exists(t.permissions, permission_name)),
        !has_role_spec(t, model_type, model_id, "admin"@) ==>
            (permissions_for_spec(t, model_type, model_id).contains(permission_name) <==> has_permission_spec(t, model_type, model_id, permission_name)),
{
    law_roles_for_lists_held_roles(t, model_type, model_id, "admin"@);
    lemma_permission_names_contains(t.permissions, permission_name);
    lemma_granted_permission_names_contains(t.permissions, t, model_type, model_id, permission_name);
    if granted_permission_names(t.permissions, t, model_type, model_id).contains(permission_name) {
        let i = choose|i: int| #![trigger t.permissions[i]] 0 <= i < t.permissions.len() && t.permissions[i].name == permission_name
            && permission_granted(t, t.permissions[i].id, model_type, model_id);
        lemma_find_permission_at(t.permissions, i);
    }
    if has_permission_spec(t, model_type, model_id, permission_name) {
        let j = choose|j: int| #![trigger t.permissions[j]] 0 <= j < t.permissions.len() && t.permissions[j].name == permission_name;
        assert(t.permissions[j].name == permission_name);
    }
}

/// When two tables differ at most in `model_has_roles`, and the role links of the
/// model `(model_type, model_id)` are the same in both, that model holds the same
/// roles and permissions in both.
proof fn lemma_same_role_links_same_rights(t: TablesView, t1: TablesView, model_type: Seq<char>, model_id: i32, role_name: Seq<char>, permission_name: Seq<char>)
    requires
        t1 == (TablesView { model_roles: t1.model_roles, next_model_role_id: t1.next_model_role_id, ..t }),
        forall|rid: i32| #[trigger] model_role_linked(t1.model_roles, rid, model_type, model_id) == model_role_linked(t.model_roles, rid, model_type, model_id),
    ensures
        has_role_spec(t1, model_type, model_id, role_name) == has_role_spec(t, model_type, model_id, role_name),
        has_permission_spec(t1, model_type, model_id, permission_name) == has_permission_spec(t, model_type, model_id, permission_name),
{
    if let Some(p) = find_permission(t.permissions, permission_name) {
        if permission_via_role(t, p.id, model_type, model_id) {
            let (j, k) = choose|j: int, k: int|
                #![trigger t.role_permissions[j], t.model_roles[k]]
                0 <= j < t.role_permissions.len() && 0 <= k < t.model_roles.len()
                    && t.role_permissions[j].permission_id == p.id
                    && model_role_matches(t.model_roles[k], t.role_permissions[j].role_id, model_type, model_id);
            let rid = t.role_permissions[j].role_id;
            assert(model_role_linked(t.model_roles, rid, model_type, model_id));
            assert(model_role_linked(t1.model_roles, rid, model_type, model_id));
            let k1 = choose|k1: int| #![trigger t1.model_roles[k1]] 0 <= k1 < t1.model_roles.len()
                && model_role_matches(t1.model_roles[k1], rid, model_type, model_id);
            assert(t1.role_permissions[j] == t.role_permissions[j]);
            assert(permission_via_role(t1, p.id, model_type, model_id));
        }
        if permission_via_role(t1, p.id, model_type, model_id) {
            let (j, k) = choose|j: int, k: int|
                #![trigger t1.role_permissions[j], t1.model_roles[k]]
                0 <= j < t1.role_permissions.len() && 0 <= k < t1.model_roles.len()
                    && t1.role_permissions[j].permission_id == p.id
                    && model_role_matches(t1.model_roles[k], t1.role_permissions[j].role_id, model_type, model_id);
            let rid = t1.role_permissions[j].role_id;
            assert(model_role_linked(t1.model_roles, rid, model_type, model_id));
            assert(model_role_linked(t.model_roles, rid, model_type, model_id));
            let k0 = choose|k0: int| #![trigger t.model_roles[k0]] 0 <= k0 < t.model_roles.len()
                && model_role_matches(t.model_roles[k0], rid, model_type, model_id);
            assert(t.role_permissions[j] == t1.role_permissions[j]);
            assert(permission_via_role(t, p.id, model_type, model_id));
        }
    }
}

/// Assigning or removing a role for one model changes no other model's roles or
/// permissions.
pub proof fn law_role_changes_touch_one_model(
    t: TablesView,
    model_type: Seq<char>,
    model_id: i32,
    role_name: Seq<char>,
    other_type: Seq<char>,
    other_id: i32,
    other_role: Seq<char>,
    other_permission: Seq<char>,
)
    requires
        other_type != model_type || other_id != model_id,
    ensures
        ({
            let t1 = assign_role_outcome(t, model_type, model_id, role_name).0;
            &&& has_role_spec(t1, other_type, other_id, other_role) == has_role_spec(t, other_type, other_id, other_role)
            &&& has_permission_spec(t1, other_type, other_id, other_permission) == has_permission_spec(t, other_type, other_id, other_permission)
        }),
        ({
            let t2 = remove_role_outcome(t, model_type, model_id, role_name);
            &&& has_role_spec(t2, other_type, other_id, other_role) == has_role_spec(t, other_type, other_id, other_role)
            &&& has_permission_spec(t2, other_type, other_id, other_permission) == has_permission_spec(t, other_type, other_id, other_permission)
        }),
{
    let t1 = assign_role_outcome(t, model_type, model_id, role_name).0;
    let t2 = remove_role_outcome(t, model_type, model_id, role_name);
    assert forall|rid: i32| #[trigger] model_role_linked(t1.model_roles, rid, other_type, other_id) == model_role_linked(t.model_roles, rid, other_type, other_id) by {
        if t1.model_roles != t.model_roles {
            let row = t1.model_roles.last();
            assert(t1.model_roles == t.model_roles.push(row));
            if model_role_linked(t1.model_roles, rid, other_type, other_id) {
                let k = choose|k: int| #![trigger t1.model_roles[k]] 0 <= k < t1.model_roles.len()
                    && model_role_matches(t1.model_roles[k], rid, other_type, other_id);
                assert(k < t.model_roles.len());
                assert(t.model_roles[k] == t1.model_roles[k]);
            }
            if model_role_linked(t.model_roles, rid, other_type, other_id) {
                let k = choose|k: int| #![trigger t.model_roles[k]] 0 <= k < t.model_roles.len()
                    && model_role_matches(t.model_roles[k], rid, other_type, other_id);
                assert(t1.model_roles[k] == t.model_roles[k]);
            }
        }
    }
    lemma_same_role_links_same_rights(t, t1, other_type, other_id, other_role, other_permission);
    if let Some(r) = find_role(t.roles, role_name) {
        let keep = |l: ModelHasRoleView| !model_role_matches(l, r.id, model_type, model_id);
        assert forall|rid: i32| #[trigger] model_role_linked(t2.model_roles, rid, other_type, other_id) == model_role_linked(t.model_roles, rid, other_type, other_id) by {
            if model_role_linked(t2.model_roles, rid, other_type, other_id) {
                let k = choose|k: int| #![trigger t2.model_roles[k]] 0 <= k < t2.model_roles.len()
                    && model_role_matches(t2.model_roles[k], rid, other_type, other_id);
                assert(t2.model_roles.contains(t2.model_roles[k]));
                t.model_roles.lemma_filter_contains_rev(keep, t2.model_roles[k]);
                let k0 = choose|k0: int| 0 <= k0 < t.model_roles.len() && t.model_roles[k0] == t2.model_roles[k];
                assert(model_role_matches(t.model_roles[k0], rid, other_type, other_id));
            }
            if model_role_linked(t.model_roles, rid, other_type, other_id) {
                let k = choose|k: int| #![trigger t.model_roles[k]] 0 <= k < t.model_roles.len()
                    && model_role_matches(t.model_roles[k], rid, other_type, other_id);
                t.model_roles.lemma_filter_contains(keep, k);
                let k2 = choose|k2: int| 0 <= k2 < t2.model_roles.len() && t2.model_roles[k2] == t.model_roles[k];
                assert(model_role_matches(t2.model_roles[k2], rid, other_type, other_id));
            }
        }
        lemma_same_role_links_same_rights(t, t2, other_type, other_id, other_role, other_permission);
    }
}

/// Revoking a permission from a role undoes granting it: when the role did not
/// grant the permission and the grant succeeded, revoking it leaves
/// `role_has_permissions` as it was (only the identifier counter has moved on).
pub proof fn law_revoke_from_role_undoes_give_to_role(t: TablesView, role_name: Seq<char>, permission_name: Seq<char>)
    requires
        find_role(t.roles, role_name) is Some,
        find_permission(t.permissions, permission_name) is Some,
        !role_permission_linked(t.role_permissions, find_role(t.roles, role_name)->Some_0.id, find_permission(t.permissions, permission_name)->Some_0.id),
        give_permission_to_role_outcome(t, role_name, permission_name).1 is Ok,
    ensures
        ({
            let t1 = give_permission_to_role_outcome(t, role_name, permission_name).0;
            revoke_permission_from_role_outcome(t1, role_name, permission_name) == TablesView { next_role_permission_id: t1.next_role_permission_id, ..t }
        }),
{
    let t1 = give_permission_to_role_outcome(t, role_name, permission_name).0;
    let r = find_role(t.roles, role_name)->Some_0;
    let p = find_permission(t.permissions, permission_name)->Some_0;
    let keep = |l: RoleHasPermission| !role_permission_matches(l, r.id, p.id);
    let row = t1.role_permissions.last();
    assert(t1.role_permissions == t.role_permissions.push(row));
    t.role_permissions.lemma_filter_push(row, keep);
    assert forall|i: int| 0 <= i < t.role_permissions.len() implies keep(#[trigger] t.role_permissions[i]) by {
        if !keep(t.role_permissions[i]) {
            assert(role_permission_linked(t.role_permissions, r.id, p.id));
        }
    }
    lemma_filter_keeps_all(t.role_permissions, keep);
}

/// When two tables differ at most in `model_has_permissions`, and the direct
/// grants of the model `(model_type, model_id)` are the same in both, that model
/// holds the same permissions in both.
proof fn lemma_same_permission_links_same_rights(t: TablesView, t1: TablesView, model_type: Seq<char>, model_id: i32, permission_name: Seq<char>)
    requires
        t1 == (TablesView { model_permissions: t1.model_permissions, next_model_permission_id: t1.next_model_permission_id, ..t }),
        forall|pid: i32| #[trigger] model_permission_linked(t1.model_permissions, pid, model_type, model_id) == model_permission_linked(t.model_permissions, pid, model_type, model_id),
    ensures
        has_permission_spec(t1, model_type, model_id, permission_name) == has_permission_spec(t, model_type, model_id, permission_name),
{
    assert(t1.role_permissions == t.role_permissions && t1.model_roles == t.model_roles && t1.permissions == t.permissions);
    if let Some(p) = find_permission(t.permissions, permission_name) {
        assert(permission_via_role(t1, p.id, model_type, model_id) == permission_via_role(t, p.id, model_type, model_id));
        assert(model_permission_linked(t1.model_permissions, p.id, model_type, model_id) == model_permission_linked(t.model_permissions, p.id, model_type, model_id));
    }
}

/// Giving or revoking a direct permission for one model changes no other model's
/// roles or permissions.
pub proof fn law_permission_changes_touch_one_model(
    t: TablesView,
    model_type: Seq<char>,
    model_id: i32,
    permission_name: Seq<char>,
    other_type: Seq<char>,
    other_id: i32,
    other_role: Seq<char>,
    other_permission: Seq<char>,
)
    requires
        other_type != model_type || other_id != model_id,
    ensures
        ({
            let t1 = give_permission_to_outcome(t, model_type, model_id, permission_name).0;
            &&& has_role_spec(t1, other_type, other_id, other_role) == has_role_spec(t, other_type, other_id, other_role)
            &&& has_permission_spec(t1, other_type, other_id, other_permission) == has_permission_spec(t, other_type, other_id, other_permission)
        }),
        ({
            let t2 = revoke_permission_to_outcome(t, model_type, model_id, permission_name);
            &&& has_role_spec(t2, other_type, other_id, other_role) == has_role_spec(t, other_type, other_id, other_role)
            &&& has_permission_spec(t2, other_type, other_id, other_permission) == has_permission_spec(t, other_type, other_id, other_permission)
        }),
{
    let t1 = give_permission_to_outcome(t, model_type, model_id, permission_name).0;
    let t2 = revoke_permission_to_outcome(t, model_type, model_id, permission_name);
    assert forall|pid: i32| #[trigger] model_permission_linked(t1.model_permissions, pid, other_type, other_id) == model_permission_linked(t.model_permissions, pid, other_type, other_id) by {
        if t1.model_permissions != t.model_permissions {
            let row = t1.model_permissions.last();
            assert(t1.model_permissions == t.model_permissions.push(row));
            if model_permission_linked(t1.model_permissions, pid, other_type, other_id) {
                let k = choose|k: int| #![trigger t1.model_permissions[k]] 0 <= k < t1.model_permissions.len()
                    && model_permission_matches(t1.model_permissions[k], pid, other_type, other_id);
                assert(k < t.model_permissions.len());
                assert(t.model_permissions[k] == t1.model_permissions[k]);
            }
            if model_permission_linked(t.model_permissions, pid, other_type, other_id) {
                let k = choose|k: int| #![trigger t.model_permissions[k]] 0 <= k < t.model_permissions.len()
                    && model_permission_matches(t.model_permissions[k], pid, other_type, other_id);
                assert(t1.model_permissions[k] == t.model_permissions[k]);
            }
        }
    }
    lemma_same_permission_links_same_rights(t, t1, other_type, other_id, other_permission);
    if let Some(p) = find_permission(t.permissions, permission_name) {
        let keep = |l: ModelHasPermissionView| !model_permission_matches(l, p.id, model_type, model_id);
        assert forall|pid: i32| #[trigger] model_permission_linked(t2.model_permissions, pid, other_type, other_id) == model_permission_linked(t.model_permissions, pid, other_type, other_id) by {
            if model_permission_linked(t2.model_permissions, pid, other_type, other_id) {
                let k = choose|k: int| #![trigger t2.model_permissions[k]] 0 <= k < t2.model_permissions.len()
                    && model_permission_matches(t2.model_permissions[k], pid, other_type, other_id);
                assert(t2.model_permissions.contains(t2.model_permissions[k]));
                t.model_permissions.lemma_filter_contains_rev(keep, t2.model_permissions[k]);
                let k0 = choose|k0: int| 0 <= k0 < t.model_permissions.len() && t.model_permissions[k0] == t2.model_permissions[k];
                assert(model_permission_matches(t.model_permissions[k0], pid, other_type, other_id));
            }
            if model_permission_linked(t.model_permissions, pid, other_type, other_id) {
                let k = choose|k: int| #![trigger t.model_permissions[k]] 0 <= k < t.model_permissions.len()
                    && model_permission_matches(t.model_permissions[k], pid, other_type, other_id);
                t.model_permissions.lemma_filter_contains(keep, k);
                let k2 = choose|k2: int| 0 <= k2 < t2.model_permissions.len() && t2.model_permissions[k2] == t.model_permissions[k];
                assert(model_permission_matches(t2.model_permissions[k2], pid, other_type, other_id));
            }
        }
        lemma_same_permission_links_same_rights(t, t2, other_type, other_id, other_permission);
    }
}

/// `s1` starts with `s0`.
pub open spec fn extends<A>(s1: Seq<A>, s0: Seq<A>) -> bool {
    s0.len() <= s1.len() && forall|i: int| 0 <= i < s0.len() ==> #[trigger] s1[i] == s0[i]
}

/// When the permission's lookup is unchanged and the three link tables only grew,
/// a permission the model held is still held.
proof fn lemma_growing_links_keep_permissions(t: TablesView, t1: TablesView, model_type: Seq<char>, model_id: i32, permission_name: Seq<char>)
    requires
        find_permission(t1.permissions, permission_name) == find_permission(t.permissions, permission_name),
        extends(t1.model_permissions, t.model_permissions),
        extends(t1.role_permissions, t.role_permissions),
        extends(t1.model_roles, t.model_roles),
        has_permission_spec(t, model_type, model_id, permission_name),
    ensures
        has_permission_spec(t1, model_type, model_id, permission_name),
{
    let p = find_permission(t.permissions, permission_name)->Some_0;
    if model_permission_linked(t.model_permissions, p.id, model_type, model_id) {
        let j = choose|j: int| #![trigger t.model_permissions[j]] 0 <= j < t.model_permissions.len()
            && model_permission_matches(t.model_permissions[j], p.id, model_type, model_id);
        assert(t1.model_permissions[j] == t.model_permissions[j]);
        assert(model_permission_linked(t1.model_permissions, p.id, model_type, model_id));
    } else {
        let (j, k) = choose|j: int, k: int|
            #![trigger t.role_permissions[j], t.model_roles[k]]
            0 <= j < t.role_permissions.len() && 0 <= k < t.model_roles.len()
                && t.role_permissions[j].permission_id == p.id
                && model_role_matches(t.model_roles[k], t.role_permissions[j].role_id, model_type, model_id);
        assert(t1.role_permissions[j] == t.role_permissions[j]);
        assert(t1.model_roles[k] == t.model_roles[k]);
        assert(permission_via_role(t1, p.id, model_type, model_id));
    }
}

/// Creating a role never takes a permission away.
pub proof fn law_create_role_keeps_permissions(t: TablesView, name: Seq<char>, guard: Seq<char>, now: Seq<char>, model_type: Seq<char>, model_id: i32, permission_name: Seq<char>)
    requires
        has_permission_spec(t, model_type, model_id, permission_name),
    ensures
        has_permission_spec(create_role_outcome(t, name, guard, now).0, model_type, model_id, permission_name),
{
    let t1 = create_role_outcome(t, name, guard, now).0;
    assert(t1.permissions == t.permissions && t1.model_permissions == t.model_permissions);
    assert(t1.role_permissions == t.role_permissions && t1.model_roles == t.model_roles);
    lemma_growing_links_keep_permissions(t, t1, model_type, model_id, permission_name);
}

/// Creating a permission never takes a permission away.
pub proof fn law_create_permission_keeps_permissions(t: TablesView, name: Seq<char>, guard: Seq<char>, now: Seq<char>, model_type: Seq<char>, model_id: i32, permission_name: Seq<char>)
    requires
        t.wf(),
        has_permission_spec(t, model_type, model_id, permission_name),
    ensures
        has_permission_spec(create_permission_outcome(t, name, guard, now).0, model_type, model_id, permission_name),
{
    let t1 = create_permission_outcome(t, name, guard, now).0;
    assert(find_permission(t1.permissions, permission_name) == find_permission(t.permissions, permission_name)) by {
        if t1.permissions != t.permissions {
            let i = choose|i: int| #![trigger t.permissions[i]] 0 <= i < t.permissions.len() && t.permissions[i].name == permission_name;
            lemma_find_permission_at(t.permissions, i);
            assert(t1.permissions[i] == t.permissions[i]);
            assert(permission_exists(t1.permissions, permission_name));
            let j = choose|j: int| #![trigger t1.permissions[j]] 0 <= j < t1.permissions.len() && t1.permissions[j].name == permission_name;
            if j == t.permissions.len() {
                assert(permission_exists(t.permissions, name));
            } else {
                assert(t1.permissions[j] == t.permissions[j]);
                assert(t.permissions[j].name == t.permissions[i].name);
            }
        }
    }
    lemma_growing_links_keep_permissions(t, t1, model_type, model_id, permission_name);
}

/// Assigning a role never takes a permission away.
pub proof fn law_assign_role_keeps_permissions(t: TablesView, assigned_type: Seq<char>, assigned_id: i32, role_name: Seq<char>, model_type: Seq<char>, model_id: i32, permission_name: Seq<char>)
    requires
        has_permission_spec(t, model_type, model_id, permission_name),
    ensures
        has_permission_spec(assign_role_outcome(t, assigned_type, assigned_id, role_name).0, model_type, model_id, permission_name),
{
    let t1 = assign_role_outcome(t, assigned_type, assigned_id, role_name).0;
    assert(extends(t1.model_roles, t.model_roles)) by {
        if t1.model_roles != t.model_roles {
            assert(t1.model_roles == t.model_roles.push(t1.model_roles.last()));
        }
    }
    lemma_growing_links_keep_permissions(t, t1, model_type, model_id, permission_name);
}

/// Giving a permission to a model never takes a permission away.
pub proof fn law_give_permission_keeps_permissions(t: TablesView, given_type: Seq<char>, given_id: i32, given_permission: Seq<char>, model_type: Seq<char>, model_id: i32, permission_name: Seq<char>)
    requires
        has_permission_spec(t, model_type, model_id, permission_name),
    ensures
        has_permission_spec(give_permission_to_outcome(t, given_type, given_id, given_permission).0, model_type, model_id, permission_name),
{
    let t1 = give_permission_to_outcome(t, given_type, given_id, given_permission).0;
    assert(extends(t1.model_permissions, t.model_permissions)) by {
        if t1.model_permissions != t.model_permissions {
            assert(t1.model_permissions == t.model_permissions.push(t1.model_permissions.last()));
        }
    }
    lemma_growing_links_keep_permissions(t, t1, model_type, model_id, permission_name);
}

/// Granting a permission to a role never takes a permission away.
pub proof fn law_give_permission_to_role_keeps_permissions(t: TablesView, role_name: Seq<char>, given_permission: Seq<char>, model_type: Seq<char>, model_id: i32, permission_name: Seq<char>)
    requires
        has_permission_spec(t, model_type, model_id, permission_name),
    ensures
        has_permission_spec(give_permission_to_role_outcome(t, role_name, given_permission).0, model_type, model_id, permission_name),
{
    let t1 = give_permission_to_role_outcome(t, role_name, given_permission).0;
    assert(extends(t1.role_permissions, t.role_permissions)) by {
        if t1.role_permissions != t.role_permissions {
            assert(t1.role_permissions == t.role_permissions.push(t1.role_permissions.last()));
        }
    }
    lemma_growing_links_keep_permissions(t, t1, model_type, model_id, permission_name);
}

/// A model holds a role exactly when a role of that name exists and some
/// `model_has_roles` row carries that role's identifier and the model's type and id.
pub proof fn law_has_role_means_a_link_row(t: TablesView, model_type: Seq<char>, model_id: i32, role_name: Seq<char>)
    requires
        t.wf(),
    ensures
        has_role_spec(t, model_type, model_id, role_name) <==> exists|i: int, k: int|
            #![trigger t.roles[i], t.model_roles[k]]
            0 <= i < t.roles.len() && 0 <= k < t.model_roles.len()
                && t.roles[i].name == role_name
                && t.model_roles[k].role_id == t.roles[i].id
                && t.model_roles[k].model_type == model_type
                && t.model_roles[k].model_id == model_id,
{
    if has_role_spec(t, model_type, model_id, role_name) {
        let i = choose|i: int| #![trigger t.roles[i]] 0 <= i < t.roles.len() && t.roles[i].name == role_name;
        lemma_find_role_at(t.roles, i);
        let k = choose|k: int| #![trigger t.model_roles[k]] 0 <= k < t.model_roles.len()
            && model_role_matches(t.model_roles[k], t.roles[i].id, model_type, model_id);
        assert(t.model_roles[k].role_id == t.roles[i].id);
    }
    if exists|i: int, k: int|
        #![trigger t.roles[i], t.model_roles[k]]
        0 <= i < t.roles.len() && 0 <= k < t.model_roles.len()
            && t.roles[i].name == role_name
            && t.model_roles[k].role_id == t.roles[i].id
            && t.model_roles[k].model_type == model_type
            && t.model_roles[k].model_id == model_id {
        let (i, k) = choose|i: int, k: int|
            #![trigger t.roles[i], t.model_roles[k]]
            0 <= i < t.roles.len() && 0 <= k < t.model_roles.len()
                && t.roles[i].name == role_name
                && t.model_roles[k].role_id == t.roles[i].id
                && t.model_roles[k].model_type == model_type
                && t.model_roles[k].model_id == model_id;
        lemma_find_role_at(t.roles, i);
        assert(model_role_matches(t.model_roles[k], t.roles[i].id, model_type, model_id));
    }
}

/// A model holds a permission exactly when a permission of that name exists and
/// either a `model_has_permissions` row gives it to the model, or a
/// `role_has_permissions` row grants it to a role whose identifier a
/// `model_has_roles` row of the model carries: the same role on both rows.
pub proof fn law_has_permission_means_a_direct_or_role_grant(t: TablesView, model_type: Seq<char>, model_id: i32, permission_name: Seq<char>)
    requires
        t.wf(),
    ensures
        has_permission_spec(t, model_type, model_id, permission_name) <==> exists|i: int|
            #![trigger t.permissions[i]]
            0 <= i < t.permissions.len() && t.permissions[i].name == permission_name && (
                (exists|j: int|
                    #![trigger t.model_permissions[j]]
                    0 <= j < t.model_permissions.len()
                        && t.model_permissions[j].permission_id == t.permissions[i].id
                        && t.model_permissions[j].model_type == model_type
                        && t.model_permissions[j].model_id == model_id)
                || (exists|j: int, k: int|
                    #![trigger t.role_permissions[j], t.model_roles[k]]
                    0 <= j < t.role_permissions.len() && 0 <= k < t.model_roles.len()
                        && t.role_permissions[j].permission_id == t.permissions[i].id
                        && t.model_roles[k].role_id == t.role_permissions[j].role_id
                        && t.model_roles[k].model_type == model_type
                        && t.model_roles[k].model_id == model_id)
            ),
{
    if permission_exists(t.permissions, permission_name) {
        let i = choose|i: int| #![trigger t.permissions[i]] 0 <= i < t.permissions.len() && t.permissions[i].name == permission_name;
        lemma_find_permission_at(t.permissions, i);
        let pid = t.permissions[i].id;
        let direct = exists|j: int|
            #![trigger t.model_permissions[j]]
            0 <= j < t.model_permissions.len()
                && t.model_permissions[j].permission_id == pid
                && t.model_permissions[j].model_type == model_type
                && t.model_permissions[j].model_id == model_id;
        let via = exists|j: int, k: int|
            #![trigger t.role_permissions[j], t.model_roles[k]]
            0 <= j < t.role_permissions.len() && 0 <= k < t.model_roles.len()
                && t.role_permissions[j].permission_id == pid
                && t.model_roles[k].role_id == t.role_permissions[j].role_id
                && t.model_roles[k].model_type == model_type
                && t.model_roles[k].model_id == model_id;
        assert(model_permission_linked(t.model_permissions, pid, model_type, model_id) == direct);
        assert(permission_via_role(t, pid, model_type, model_id) == via);
        assert(has_permission_spec(t, model_type, model_id, permission_name) == (direct || via));
        if exists|i2: int|
            #![trigger t.permissions[i2]]
            0 <= i2 < t.permissions.len() && t.permissions[i2].name == permission_name && (
                (exists|j: int|
                    #![trigger t.model_permissions[j]]
                    0 <= j < t.model_permissions.len()
                        && t.model_permissions[j].permission_id == t.permissions[i2].id
                        && t.model_permissions[j].model_type == model_type
                        && t.model_permissions[j].model_id == model_id)
                || (exists|j: int, k: int|
                    #![trigger t.role_permissions[j], t.model_roles[k]]
                    0 <= j < t.role_permissions.len() && 0 <= k < t.model_roles.len()
                        && t.role_permissions[j].permission_id == t.permissions[i2].id
                        && t.model_roles[k].role_id == t.role_permissions[j].role_id
                        && t.model_roles[k].model_type == model_type
                        && t.model_roles[k].model_id == model_id)
            ) {
            let i2 = choose|i2: int|
                #![trigger t.permissions[i2]]
                0 <= i2 < t.permissions.len() && t.permissions[i2].name == permission_name && (
                    (exists|j: int|
                        #![trigger t.model_permissions[j]]
                        0 <= j < t.model_permissions.len()
                            && t.model_permissions[j].permission_id == t.permissions[i2].id
                            && t.model_permissions[j].model_type == model_type
                            && t.model_permissions[j].model_id == model_id)
                    || (exists|j: int, k: int|
                        #![trigger t.role_permissions[j], t.model_roles[k]]
                        0 <= j < t.role_permissions.len() && 0 <= k < t.model_roles.len()
                            && t.role_permissions[j].permission_id == t.permissions[i2].id
                            && t.model_roles[k].role_id == t.role_permissions[j].role_id
                            && t.model_roles[k].model_type == model_type
                            && t.model_roles[k].model_id == model_id)
                );
            if i2 != i {
                assert(t.permissions[i2].name != t.permissions[i].name);
            }
        }
    }
}

/// `revoke_permission_from_role` deletes exactly the grants of the named
/// permission to the named role: a `role_has_permissions` row stays exactly when
/// no role of that name and no permission of that name are the pair it links, and
/// every other table is left as it was. When either name is missing, nothing changes.
pub proof fn law_revoke_permission_from_role_deletes_exactly_that_grant(t: TablesView, role_name: Seq<char>, permission_name: Seq<char>)
    requires
        t.wf(),
    ensures
        ({
            let t1 = revoke_permission_from_role_outcome(t, role_name, permission_name);
            &&& t1 == (TablesView { role_permissions: t1.role_permissions, ..t })
            &&& forall|x: RoleHasPermission| #[trigger] t1.role_permissions.contains(x) <==> (t.role_permissions.contains(x) && !(exists|a: int, b: int|
                    #![trigger t.roles[a], t.permissions[b]]
                    0 <= a < t.roles.len() && 0 <= b < t.permissions.len()
                        && t.roles[a].name == role_name && t.permissions[b].name == permission_name
                        && x.role_id == t.roles[a].id && x.permission_id == t.permissions[b].id))
        }),
        !(exists|a: int| #![trigger t.roles[a]] 0 <= a < t.roles.len() && t.roles[a].name == role_name)
            ==> revoke_permission_from_role_outcome(t, role_name, permission_name) == t,
        !(exists|b: int| #![trigger t.permissions[b]] 0 <= b < t.permissions.len() && t.permissions[b].name == permission_name)
            ==> revoke_permission_from_role_outcome(t, role_name, permission_name) == t,
{
    let t1 = revoke_permission_from_role_outcome(t, role_name, permission_name);
    if role_exists(t.roles, role_name) && permission_exists(t.permissions, permission_name) {
        let ra = choose|a: int| #![trigger t.roles[a]] 0 <= a < t.roles.len() && t.roles[a].name == role_name;
        let pb = choose|b: int| #![trigger t.permissions[b]] 0 <= b < t.permissions.len() && t.permissions[b].name == permission_name;
        lemma_find_role_at(t.roles, ra);
        lemma_find_permission_at(t.permissions, pb);
        let rid = t.roles[ra].id;
        let pid = t.permissions[pb].id;
        let keep = |l: RoleHasPermission| !role_permission_matches(l, rid, pid);
        assert(t1.role_permissions == t.role_permissions.filter(keep));
        assert forall|x: RoleHasPermission| #[trigger] t1.role_permissions.contains(x) <==> (t.role_permissions.contains(x) && !(exists|a: int, b: int|
                #![trigger t.roles[a], t.permissions[b]]
                0 <= a < t.roles.len() && 0 <= b < t.permissions.len()
                    && t.roles[a].name == role_name && t.permissions[b].name == permission_name
                    && x.role_id == t.roles[a].id && x.permission_id == t.permissions[b].id)) by {
            let named = exists|a: int, b: int|
                #![trigger t.roles[a], t.permissions[b]]
                0 <= a < t.roles.len() && 0 <= b < t.permissions.len()
                    && t.roles[a].name == role_name && t.permissions[b].name == permission_name
                    && x.role_id == t.roles[a].id && x.permission_id == t.permissions[b].id;
            if named {
                let (a, b) = choose|a: int, b: int|
                    #![trigger t.roles[a], t.permissions[b]]
                    0 <= a < t.roles.len() && 0 <= b < t.permissions.len()
                        && t.roles[a].name == role_name && t.permissions[b].name == permission_name
                        && x.role_id == t.roles[a].id && x.permission_id == t.permissions[b].id;
                if a != ra {
                    assert(t.roles[a].name != t.roles[ra].name);
                }
                if b != pb {
                    assert(t.permissions[b].name != t.permissions[pb].name);
                }
            }
            if role_permission_matches(x, rid, pid) {
                assert(t.roles[ra].name == role_name && t.permissions[pb].name == permission_name);
                assert(named);
            }
            assert(named == !keep(x));
            if t1.role_permissions.contains(x) {
                let q = choose|q: int| 0 <= q < t1.role_permissions.len() && t1.role_permissions[q] == x;
                t.role_permissions.lemma_filter_pred(keep, q);
                t.role_permissions.lemma_filter_contains_rev(keep, x);
            }
            if t.role_permissions.contains(x) && keep(x) {
                let q = choose|q: int| 0 <= q < t.role_permissions.len() && t.role_permissions[q] == x;
                t.role_permissions.lemma_filter_contains(keep, q);
            }
        }
    } else {
        assert(t1 == t);
        assert forall|x: RoleHasPermission| #[trigger] t1.role_permissions.contains(x) <==> (t.role_permissions.contains(x) && !(exists|a: int, b: int|
                #![trigger t.roles[a], t.permissions[b]]
                0 <= a < t.roles.len() && 0 <= b < t.permissions.len()
                    && t.roles[a].name == role_name && t.permissions[b].name == permission_name
                    && x.role_id == t.roles[a].id && x.permission_id == t.permissions[b].id)) by {
            if exists|a: int, b: int|
                #![trigger t.roles[a], t.permissions[b]]
                0 <= a < t.roles.len() && 0 <= b < t.permissions.len()
                    && t.roles[a].name == role_name && t.permissions[b].name == permission_name
                    && x.role_id == t.roles[a].id && x.permission_id == t.permissions[b].id {
                let (a, b) = choose|a: int, b: int|
                    #![trigger t.roles[a], t.permissions[b]]
                    0 <= a < t.roles.len() && 0 <= b < t.permissions.len()
                        && t.roles[a].name == role_name && t.permissions[b].name == permission_name
                        && x.role_id == t.roles[a].id && x.permission_id == t.permissions[b].id;
                assert(role_exists(t.roles, role_name));
                assert(permission_exists(t.permissions, permission_name));
            }
        }
    }
}

/// An entry survives a filter exactly when it was there and the filter keeps it.
proof fn lemma_filter_contains_iff<A>(s: Seq<A>, keep: spec_fn(A) -> bool, x: A)
    ensures
        s.filter(keep).contains(x) <==> (s.contains(x) && keep(x)),
{
    if s.filter(keep).contains(x) {
        let q = choose|q: int| 0 <= q < s.filter(keep).len() && s.filter(keep)[q] == x;
        s.lemma_filter_pred(keep, q);
        s.lemma_filter_contains_rev(keep, x);
    }
    if s.contains(x) && keep(x) {
        let q = choose|q: int| 0 <= q < s.len() && s[q] == x;
        s.lemma_filter_contains(keep, q);
    }
}

/// `remove_role` deletes exactly the links of the named role to the model: a
/// `model_has_roles` row stays exactly when it does not carry the identifier of a
/// role of that name together with the model's type and id, and every other table
/// is left as it was. When no role has that name, nothing changes.
pub proof fn law_remove_role_deletes_exactly_those_links(t: TablesView, model_type: Seq<char>, model_id: i32, role_name: Seq<char>)
    requires
        t.wf(),
    ensures
        ({
            let t1 = remove_role_outcome(t, model_type, model_id, role_name);
            &&& t1 == (TablesView { model_roles: t1.model_roles, ..t })
            &&& forall|x: ModelHasRoleView| #[trigger] t1.model_roles.contains(x) <==> (t.model_roles.contains(x) && !(exists|a: int|
                    #![trigger t.roles[a]]
                    0 <= a < t.roles.len() && t.roles[a].name == role_name
                        && x.role_id == t.roles[a].id && x.model_type == model_type && x.model_id == model_id))
        }),
        !(exists|a: int| #![trigger t.roles[a]] 0 <= a < t.roles.len() && t.roles[a].name == role_name)
            ==> remove_role_outcome(t, model_type, model_id, role_name) == t,
{
    let t1 = remove_role_outcome(t, model_type, model_id, role_name);
    if role_exists(t.roles, role_name) {
        let ra = choose|a: int| #![trigger t.roles[a]] 0 <= a < t.roles.len() && t.roles[a].name == role_name;
        lemma_find_role_at(t.roles, ra);
        let rid = t.roles[ra].id;
        let keep = |l: ModelHasRoleView| !model_role_matches(l, rid, model_type, model_id);
        assert(t1.model_roles == t.model_roles.filter(keep));
        assert forall|x: ModelHasRoleView| #[trigger] t1.model_roles.contains(x) <==> (t.model_roles.contains(x) && !(exists|a: int|
                #![trigger t.roles[a]]
                0 <= a < t.roles.len() && t.roles[a].name == role_name
                    && x.role_id == t.roles[a].id && x.model_type == model_type && x.model_id == model_id)) by {
            lemma_filter_contains_iff(t.model_roles, keep, x);
            if exists|a: int|
                #![trigger t.roles[a]]
                0 <= a < t.roles.len() && t.roles[a].name == role_name
                    && x.role_id == t.roles[a].id && x.model_type == model_type && x.model_id == model_id {
                let a = choose|a: int|
                    #![trigger t.roles[a]]
                    0 <= a < t.roles.len() && t.roles[a].name == role_name
                        && x.role_id == t.roles[a].id && x.model_type == model_type && x.model_id == model_id;
                if a != ra {
                    assert(t.roles[a].name != t.roles[ra].name);
                }
            }
            if !keep(x) {
                assert(t.roles[ra].name == role_name);
            }
        }
    } else {
        assert(t1 == t);
        assert forall|x: ModelHasRoleView| #[trigger] t1.model_roles.contains(x) <==> (t.model_roles.contains(x) && !(exists|a: int|
                #![trigger t.roles[a]]
                0 <= a < t.roles.len() && t.roles[a].name == role_name
                    && x.role_id == t.roles[a].id && x.model_type == model_type && x.model_id == model_id)) by {
            if exists|a: int|
                #![trigger t.roles[a]]
                0 <= a < t.roles.len() && t.roles[a].name == role_name
                    && x.role_id == t.roles[a].id && x.model_type == model_type && x.model_id == model_id {
                assert(role_exists(t.roles, role_name));
            }
        }
    }
}

/// `revoke_permission_to` deletes exactly the direct grants of the named
/// permission to the model: a `model_has_permissions` row stays exactly when it
/// does not carry the identifier of a permission of that name together with the
/// model's type and id, and every other table, `role_has_permissions` among them,
/// is left as it was. When no permission has that name, nothing changes.
pub proof fn law_revoke_permission_to_deletes_exactly_those_grants(t: TablesView, model_type: Seq<char>, model_id: i32, permission_name: Seq<char>)
    requires
        t.wf(),
    ensures
        ({
            let t1 = revoke_permission_to_outcome(t, model_type, model_id, permission_name);
            &&& t1 == (TablesView { model_permissions: t1.model_permissions, ..t })
            &&& forall|x: ModelHasPermissionView| #[trigger] t1.model_permissions.contains(x) <==> (t.model_permissions.contains(x) && !(exists|b: int|
                    #![trigger t.permissions[b]]
                    0 <= b < t.permissions.len() && t.permissions[b].name == permission_name
                        && x.permission_id == t.permissions[b].id && x.model_type == model_type && x.model_id == model_id))
        }),
        !(exists|b: int| #![trigger t.permissions[b]] 0 <= b < t.permissions.len() && t.permissions[b].name == permission_name)
            ==> revoke_permission_to_outcome(t, model_type, model_id, permission_name) == t,
{
    let t1 = revoke_permission_to_outcome(t, model_type, model_id, permission_name);
    if permission_exists(t.permissions, permission_name) {
        let pb = choose|b: int| #![trigger t.permissions[b]] 0 <= b < t.permissions.len() && t.permissions[b].name == permission_name;
        lemma_find_permission_at(t.permissions, pb);
        let pid = t.permissions[pb].id;
        let keep = |l: ModelHasPermissionView| !model_permission_matches(l, pid, model_type, model_id);
        assert(t1.model_permissions == t.model_permissions.filter(keep));
        assert forall|x: ModelHasPermissionView| #[trigger] t1.model_permissions.contains(x) <==> (t.model_permissions.contains(x) && !(exists|b: int|
                #![trigger t.permissions[b]]
                0 <= b < t.permissions.len() && t.permissions[b].name == permission_name
                    && x.permission_id == t.permissions[b].id && x.model_type == model_type && x.model_id == model_id)) by {
            lemma_filter_contains_iff(t.model_permissions, keep, x);
            if exists|b: int|
                #![trigger t.permissions[b]]
                0 <= b < t.permissions.len() && t.permissions[b].name == permission_name
                    && x.permission_id == t.permissions[b].id && x.model_type == model_type && x.model_id == model_id {
                let b = choose|b: int|
                    #![trigger t.permissions[b]]
                    0 <= b < t.permissions.len() && t.permissions[b].name == permission_name
                        && x.permission_id == t.permissions[b].id && x.model_type == model_type && x.model_id == model_id;
                if b != pb {
                    assert(t.permissions[b].name != t.permissions[pb].name);
                }
            }
            if !keep(x) {
                assert(t.permissions[pb].name == permission_name);
            }
        }
    } else {
        assert(t1 == t);
        assert forall|x: ModelHasPermissionView| #[trigger] t1.model_permissions.contains(x) <==> (t.model_permissions.contains(x) && !(exists|b: int|
                #![trigger t.permissions[b]]
                0 <= b < t.permissions.len() && t.permissions[b].name == permission_name
                    && x.permission_id == t.permissions[b].id && x.model_type == model_type && x.model_id == model_id)) by {
            if exists|b: int|
                #![trigger t.permissions[b]]
                0 <= b < t.permissions.len() && t.permissions[b].name == permission_name
                    && x.permission_id == t.permissions[b].id && x.model_type == model_type && x.model_id == model_id {
                assert(permission_exists(t.permissions, permission_name));
            }
        }
    }
}

/// `assign_role` changes `model_has_roles` alone (and its counter): it fails with
/// `RowNotFound` exactly when no role has the name; it changes nothing when it
/// fails or when a row already links that role to the model; otherwise it appends
/// one row, with the next identifier, that links that role to the model.
pub proof fn law_assign_role_appends_one_link(t: TablesView, model_type: Seq<char>, model_id: i32, role_name: Seq<char>)
    requires
        t.wf(),
    ensures
        ({
            let (t1, r) = assign_role_outcome(t, model_type, model_id, role_name);
            &&& (r == Err::<(), PermissionError>(PermissionError::RowNotFound)
                <==> !(exists|a: int| #![trigger t.roles[a]] 0 <= a < t.roles.len() && t.roles[a].name == role_name))
            &&& r is Err ==> t1 == t
            &&& (exists|a: int, k: int|
                    #![trigger t.roles[a], t.model_roles[k]]
                    0 <= a < t.roles.len() && 0 <= k < t.model_roles.len() && t.roles[a].name == role_name
                        && t.model_roles[k].role_id == t.roles[a].id
                        && t.model_roles[k].model_type == model_type && t.model_roles[k].model_id == model_id)
                ==> t1 == t
            &&& t1 == t || exists|a: int|
                    #![trigger t.roles[a]]
                    0 <= a < t.roles.len() && t.roles[a].name == role_name
                        && t1 == (TablesView {
                            model_roles: t.model_roles.push(ModelHasRoleView {
                                id: t.next_model_role_id as i32,
                                role_id: t.roles[a].id,
                                model_type,
                                model_id,
                            }),
                            next_model_role_id: (t.next_model_role_id + 1) as i64,
                            ..t
                        })
        }),
{
    if role_exists(t.roles, role_name) {
        let ra = choose|a: int| #![trigger t.roles[a]] 0 <= a < t.roles.len() && t.roles[a].name == role_name;
        lemma_find_role_at(t.roles, ra);
        let rid = t.roles[ra].id;
        if exists|a: int, k: int|
            #![trigger t.roles[a], t.model_roles[k]]
            0 <= a < t.roles.len() && 0 <= k < t.model_roles.len() && t.roles[a].name == role_name
                && t.model_roles[k].role_id == t.roles[a].id
                && t.model_roles[k].model_type == model_type && t.model_roles[k].model_id == model_id {
            let (a, k) = choose|a: int, k: int|
                #![trigger t.roles[a], t.model_roles[k]]
                0 <= a < t.roles.len() && 0 <= k < t.model_roles.len() && t.roles[a].name == role_name
                    && t.model_roles[k].role_id == t.roles[a].id
                    && t.model_roles[k].model_type == model_type && t.model_roles[k].model_id == model_id;
            if a != ra {
                assert(t.roles[a].name != t.roles[ra].name);
            }
            assert(model_role_matches(t.model_roles[k], rid, model_type, model_id));
        }
    }
}

/// `give_permission_to` changes `model_has_permissions` alone (and its counter):
/// it fails with `RowNotFound` exactly when no permission has the name; it changes
/// nothing when it fails or when a row already gives that permission to the model
/// directly; otherwise it appends one row, with the next identifier, that does.
pub proof fn law_give_permission_to_appends_one_grant(t: TablesView, model_type: Seq<char>, model_id: i32, permission_name: Seq<char>)
    requires
        t.wf(),
    ensures
        ({
            let (t1, r) = give_permission_to_outcome(t, model_type, model_id, permission_name);
            &&& (r == Err::<(), PermissionError>(PermissionError::RowNotFound)
                <==> !(exists|b: int| #![trigger t.permissions[b]] 0 <= b < t.permissions.len() && t.permissions[b].name == permission_name))
            &&& r is Err ==> t1 == t
            &&& (exists|b: int, k: int|
                    #![trigger t.permissions[b], t.model_permissions[k]]
                    0 <= b < t.permissions.len() && 0 <= k < t.model_permissions.len() && t.permissions[b].name == permission_name
                        && t.model_permissions[k].permission_id == t.permissions[b].id
                        && t.model_permissions[k].model_type == model_type && t.model_permissions[k].model_id == model_id)
                ==> t1 == t
            &&& t1 == t || exists|b: int|
                    #![trigger t.permissions[b]]
                    0 <= b < t.permissions.len() && t.permissions[b].name == permission_name
                        && t1 == (TablesView {
                            model_permissions: t.model_permissions.push(ModelHasPermissionView {
                                id: t.next_model_permission_id as i32,
                                permission_id: t.permissions[b].id,
                                model_type,
                                model_id,
                            }),
                            next_model_permission_id: (t.next_model_permission_id + 1) as i64,
                            ..t
                        })
        }),
{
    if permission_exists(t.permissions, permission_name) {
        let pb = choose|b: int| #![trigger t.permissions[b]] 0 <= b < t.permissions.len() && t.permissions[b].name == permission_name;
        lemma_find_permission_at(t.permissions, pb);
        let pid = t.permissions[pb].id;
        if exists|b: int, k: int|
            #![trigger t.permissions[b], t.model_permissions[k]]
            0 <= b < t.permissions.len() && 0 <= k < t.model_permissions.len() && t.permissions[b].name == permission_name
                && t.model_permissions[k].permission_id == t.permissions[b].id
                && t.model_permissions[k].model_type == model_type && t.model_permissions[k].model_id == model_id {
            let (b, k) = choose|b: int, k: int|
                #![trigger t.permissions[b], t.model_permissions[k]]
                0 <= b < t.permissions.len() && 0 <= k < t.model_permissions.len() && t.permissions[b].name == permission_name
                    && t.model_permissions[k].permission_id == t.permissions[b].id
                    && t.model_permissions[k].model_type == model_type && t.model_permissions[k].model_id == model_id;
            if b != pb {
                assert(t.permissions[b].name != t.permissions[pb].name);
            }
            assert(model_permission_matches(t.model_permissions[k], pid, model_type, model_id));
        }
    }
}

/// `give_permission_to_role` changes `role_has_permissions` alone (and its
/// counter): it fails with `RowNotFound` exactly when no role or no permission
/// has the name; it changes nothing when it fails or when a row already grants
/// that permission to that role; otherwise it appends one row, with the next
/// identifier, that does.
pub proof fn law_give_permission_to_role_appends_one_grant(t: TablesView, role_name: Seq<char>, permission_name: Seq<char>)
    requires
        t.wf(),
    ensures
        ({
            let (t1, r) = give_permission_to_role_outcome(t, role_name, permission_name);
            &&& (r == Err::<(), PermissionError>(PermissionError::RowNotFound)
                <==> (!(exists|a: int| #![trigger t.roles[a]] 0 <= a < t.roles.len() && t.roles[a].name == role_name)
                    || !(exists|b: int| #![trigger t.permissions[b]] 0 <= b < t.permissions.len() && t.permissions[b].name == permission_name)))
            &&& r is Err ==> t1 == t
            &&& (exists|a: int, b: int, k: int|
                    #![trigger t.roles[a], t.permissions[b], t.role_permissions[k]]
                    0 <= a < t.roles.len() && 0 <= b < t.permissions.len() && 0 <= k < t.role_permissions.len()
                        && t.roles[a].name == role_name && t.permissions[b].name == permission_name
                        && t.role_permissions[k].role_id == t.roles[a].id
                        && t.role_permissions[k].permission_id == t.permissions[b].id)
                ==> t1 == t
            &&& t1 == t || exists|a: int, b: int|
                    #![trigger t.roles[a], t.permissions[b]]
                    0 <= a < t.roles.len() && 0 <= b < t.permissions.len()
                        && t.roles[a].name == role_name && t.permissions[b].name == permission_name
                        && t1 == (TablesView {
                            role_permissions: t.role_permissions.push(RoleHasPermission {
                                id: t.next_role_permission_id as i32,
                                permission_id: t.permissions[b].id,
                                role_id: t.roles[a].id,
                            }),
                            next_role_permission_id: (t.next_role_permission_id + 1) as i64,
                            ..t
                        })
        }),
{
    if role_exists(t.roles, role_name) && permission_exists(t.permissions, permission_name) {
        let ra = choose|a: int| #![trigger t.roles[a]] 0 <= a < t.roles.len() && t.roles[a].name == role_name;
        let pb = choose|b: int| #![trigger t.permissions[b]] 0 <= b < t.permissions.len() && t.permissions[b].name == permission_name;
        lemma_find_role_at(t.roles, ra);
        lemma_find_permission_at(t.permissions, pb);
        let rid = t.roles[ra].id;
        let pid = t.permissions[pb].id;
        if exists|a: int, b: int, k: int|
            #![trigger t.roles[a], t.permissions[b], t.role_permissions[k]]
            0 <= a < t.roles.len() && 0 <= b < t.permissions.len() && 0 <= k < t.role_permissions.len()
                && t.roles[a].name == role_name && t.permissions[b].name == permission_name
                && t.role_permissions[k].role_id == t.roles[a].id
                && t.role_permissions[k].permission_id == t.permissions[b].id {
            let (a, b, k) = choose|a: int, b: int, k: int|
                #![trigger t.roles[a], t.permissions[b], t.role_permissions[k]]
                0 <= a < t.roles.len() && 0 <= b < t.permissions.len() && 0 <= k < t.role_permissions.len()
                    && t.roles[a].name == role_name && t.permissions[b].name == permission_name
                    && t.role_permissions[k].role_id == t.roles[a].id
                    && t.role_permissions[k].permission_id == t.permissions[b].id;
            if a != ra {
                assert(t.roles[a].name != t.roles[ra].name);
            }
            if b != pb {
                assert(t.permissions[b].name != t.permissions[pb].name);
            }
            assert(role_permission_matches(t.role_permissions[k], rid, pid));
        }
    }
}

/// No name occurs twice in `permission_names(perms)` when permission names are unique.
proof fn lemma_permission_names_distinct(perms: Seq<PermissionView>)
    requires
        forall|a: int, b: int| #![trigger perms[a], perms[b]] 0 <= a < perms.len() && 0 <= b < perms.len() && a != b ==> perms[a].name != perms[b].name,
    ensures
        ({
            let l = permission_names(perms);
            forall|a: int, b: int| #![trigger l[a], l[b]] 0 <= a < l.len() && 0 <= b < l.len() && a != b ==> l[a] != l[b]
        }),
    decreases perms.len(),
{
    if perms.len() > 0 {
        let d = perms.drop_last();
        assert forall|a: int, b: int| #![trigger d[a], d[b]] 0 <= a < d.len() && 0 <= b < d.len() && a != b implies d[a].name != d[b].name by {
            assert(d[a] == perms[a] && d[b] == perms[b]);
        }
        lemma_permission_names_distinct(d);
        lemma_permission_names_contains(d, perms.last().name);
        let rest = permission_names(d);
        let l = permission_names(perms);
        if rest.contains(perms.last().name) {
            let i = choose|i: int| #![trigger d[i]] 0 <= i < d.len() && d[i].name == perms.last().name;
            assert(perms[i] == d[i]);
            assert(perms[i].name != perms[perms.len() - 1].name);
        }
        assert forall|a: int, b: int| #![trigger l[a], l[b]] 0 <= a < l.len() && 0 <= b < l.len() && a != b implies l[a] != l[b] by {
            if a < rest.len() && b < rest.len() {
                assert(l[a] == rest[a] && l[b] == rest[b]);
            } else if a < rest.len() {
                assert(l[a] == rest[a]);
                assert(rest.contains(rest[a]));
            } else {
                assert(l[b] == rest[b]);
                assert(rest.contains(rest[b]));
            }
        }
    }
}

/// No name occurs twice in `granted_permission_names(perms, ..)` when permission names are unique.
proof fn lemma_granted_permission_names_distinct(perms: Seq<PermissionView>, t: TablesView, model_type: Seq<char>, model_id: i32)
    requires
        forall|a: int, b: int| #![trigger perms[a], perms[b]] 0 <= a < perms.len() && 0 <= b < perms.len() && a != b ==> perms[a].name != perms[b].name,
    ensures
        ({
            let l = granted_permission_names(perms, t, model_type, model_id);
            forall|a: int, b: int| #![trigger l[a], l[b]] 0 <= a < l.len() && 0 <= b < l.len() && a != b ==> l[a] != l[b]
        }),
    decreases perms.len(),
{
    if perms.len() > 0 {
        let d = perms.drop_last();
        assert forall|a: int, b: int| #![trigger d[a], d[b]] 0 <= a < d.len() && 0 <= b < d.len() && a != b implies d[a].name != d[b].name by {
            assert(d[a] == perms[a] && d[b] == perms[b]);
        }
        lemma_granted_permission_names_distinct(d, t, model_type, model_id);
        lemma_granted_permission_names_contains(d, t, model_type, model_id, perms.last().name);
        let rest = granted_permission_names(d, t, model_type, model_id);
        let l = granted_permission_names(perms, t, model_type, model_id);
        if rest.contains(perms.last().name) {
            let i = choose|i: int| #![trigger d[i]] 0 <= i < d.len() && d[i].name == perms.last().name
                && permission_granted(t, d[i].id, model_type, model_id);
            assert(perms[i] == d[i]);
            assert(perms[i].name != perms[perms.len() - 1].name);
        }
        assert forall|a: int, b: int| #![trigger l[a], l[b]] 0 <= a < l.len() && 0 <= b < l.len() && a != b implies l[a] != l[b] by {
            if a < rest.len() && b < rest.len() {
                assert(l[a] == rest[a] && l[b] == rest[b]);
            } else if a < rest.len() {
                assert(l[a] == rest[a]);
                assert(rest.contains(rest[a]));
            } else if b < rest.len() {
                assert(l[b] == rest[b]);
                assert(rest.contains(rest[b]));
            }
        }
    }
}

/// `get_all_permissions_for` lists every permission name at most once, whether
/// or not the model holds `admin`: grants reaching the model through several
/// roles, or both directly and through a role, still give one entry.
pub proof fn law_permissions_for_lists_each_name_once(t: TablesView, model_type: Seq<char>, model_id: i32)
    requires
        t.wf(),
    ensures
        ({
            let l = permissions_for_spec(t, model_type, model_id);
            forall|a: int, b: int| #![trigger l[a], l[b]] 0 <= a < l.len() && 0 <= b < l.len() && a != b ==> l[a] != l[b]
        }),
{
    lemma_permission_names_distinct(t.permissions);
    lemma_granted_permission_names_distinct(t.permissions, t, model_type, model_id);
}

} // verus!
