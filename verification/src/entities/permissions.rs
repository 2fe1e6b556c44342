use vstd::prelude::*;
use crate::entities::roles::copy_optional_text;

verus! {

/// A row of the `permissions` table.
#[derive(Debug)]
pub struct Permission {
    pub id: i32,
    pub name: String,
    pub guard_name: String,
    pub created_at: Option<String>,
    pub updated_at: Option<String>,
}

/// The mathematical value of a `permissions` row.
pub struct PermissionView {
    pub id: i32,
    pub name: Seq<char>,
    pub guard_name: Seq<char>,
    pub created_at: Option<Seq<char>>,
    pub updated_at: Option<Seq<char>>,
}

impl View for Permission {
    type V = PermissionView;

    open spec fn view(&self) -> PermissionView {
        PermissionView {
            id: self.id,
            name: self.name@,
            guard_name: self.guard_name@,
            created_at: self.created_at.deep_view(),
            updated_at: self.updated_at.deep_view(),
        }
    }
}

impl Clone for Permission {
    fn clone(&self) -> (r: Self)
        ensures
            r@ == self@,
    {
        Permission {
            id: self.id,
            name: self.name.clone(),
            guard_name: self.guard_name.clone(),
            created_at: copy_optional_text(&self.created_at),
            updated_at: copy_optional_text(&self.updated_at),
        }
    }
}

} // verus!
