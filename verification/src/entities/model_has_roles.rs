use vstd::prelude::*;

verus! {

/// A row of the `model_has_roles` pivot table: the model `(model_type, model_id)`
/// holds the role `role_id`.
#[derive(Debug)]
pub struct ModelHasRole {
    pub id: i32,
    pub role_id: i32,
    pub model_type: String,
    pub model_id: i32,
}

/// The mathematical value of a `model_has_roles` row.
pub struct ModelHasRoleView {
    pub id: i32,
    pub role_id: i32,
    pub model_type: Seq<char>,
    pub model_id: i32,
}

impl View for ModelHasRole {
    type V = ModelHasRoleView;

    open spec fn view(&self) -> ModelHasRoleView {
        ModelHasRoleView {
            id: self.id,
            role_id: self.role_id,
            model_type: self.model_type@,
            model_id: self.model_id,
        }
    }
}

impl Clone for ModelHasRole {
    fn clone(&self) -> (r: Self)
        ensures
            r@ == self@,
    {
        ModelHasRole {
            id: self.id,
            role_id: self.role_id,
            model_type: self.model_type.clone(),
            model_id: self.model_id,
        }
    }
}

} // verus!
