use vstd::prelude::*;

verus! {

/// A row of the `model_has_permissions` pivot table: the model
/// `(model_type, model_id)` holds the permission `permission_id` directly.
#[derive(Debug)]
pub struct ModelHasPermission {
    pub id: i32,
    pub permission_id: i32,
    pub model_type: String,
    pub model_id: i32,
}

/// The mathematical value of a `model_has_permissions` row.
pub struct ModelHasPermissionView {
    pub id: i32,
    pub permission_id: i32,
    pub model_type: Seq<char>,
    pub model_id: i32,
}

impl View for ModelHasPermission {
    type V = ModelHasPermissionView;

    open spec fn view(&self) -> ModelHasPermissionView {
        ModelHasPermissionView {
            id: self.id,
            permission_id: self.permission_id,
            model_type: self.model_type@,
            model_id: self.model_id,
        }
    }
}

impl Clone for ModelHasPermission {
    fn clone(&self) -> (r: Self)
        ensures
            r@ == self@,
    {
        ModelHasPermission {
            id: self.id,
            permission_id: self.permission_id,
            model_type: self.model_type.clone(),
            model_id: self.model_id,
        }
    }
}

} // verus!
