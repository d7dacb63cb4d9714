//! The rigid-body record as the arena-level model sees it: only the
//! caller-owned tag; simulation state lives with the physics layer.

use vstd::prelude::*;

verus! {

/// A rigid body, carrying the caller-owned tag used to key external state.
#[derive(Debug, Clone)]
pub struct RigidBody {
    pub user_data: u128,
}

impl RigidBody {
    fn new() -> (r: Self)
        ensures
            r.user_data == 0,
    {
        RigidBody { user_data: 0 }
    }
}

impl Default for RigidBody {
    /// A body with a zero tag.
    fn default() -> (r: Self)
        ensures
            r.user_data == 0,
    {
        RigidBody::new()
    }
}

} // verus!
