use vstd::prelude::*;

verus! {

/// A row of the `roles` table.
#[derive(Debug)]
pub struct Role {
    pub id: i32,
    pub name: String,
    pub guard_name: String,
    pub created_at: Option<String>,
    pub updated_at: Option<String>,
}

/// The mathematical value of a `roles` row.
pub struct RoleView {
    pub id: i32,
    pub name: Seq<char>,
    pub guard_name: Seq<char>,
    pub created_at: Option<Seq<char>>,
    pub updated_at: Option<Seq<char>>,
}

impl View for Role {
    type V = RoleView;

    open spec fn view(&self) -> RoleView {
        RoleView {
            id: self.id,
            name: self.name@,
            guard_name: self.guard_name@,
            created_at: self.created_at.deep_view(),
            updated_at: self.updated_at.deep_view(),
        }
    }
}

/// Copies an optional text column.
pub fn copy_optional_text(s: &Option<String>) -> (r: Option<String>)
    ensures
        r.deep_view() == s.deep_view(),
{
    match s {
        Some(t) => Some(t.clone()),
        None => None,
    }
}

impl Clone for Role {
    fn clone(&self) -> (r: Self)
        ensures
            r@ == self@,
    {
        Role {
            id: self.id,
            name: self.name.clone(),
            guard_name: self.guard_name.clone(),
            created_at: copy_optional_text(&self.created_at),
            updated_at: copy_optional_text(&self.updated_at),
        }
    }
}

} // verus!
