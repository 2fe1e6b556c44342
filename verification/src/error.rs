use vstd::prelude::*;

verus! {

/// Why an RBAC operation was refused.
#[derive(Clone, Copy, Debug, PartialEq, Eq, Structural)]
pub enum PermissionError {
    /// The role or permission named in the request does not exist.
    RowNotFound,
    /// The table has handed out identifier `i32::MAX`; no new row can be numbered.
    IdSpaceExhausted,
}

} // verus!
