use vstd::prelude::*;

verus! {

/// A stable handle to an entity owned by the host (the ECS world).
///
/// The simulation core never creates or destroys host entities itself; it
/// only records which handles belong to which module and reports intents
/// against them.  Two handles are the same entity exactly when the ids are
/// equal.
#[derive(Clone, Copy, Debug, PartialEq, Eq, Hash, Structural)]
pub struct EntityId(pub u64);

} // verus!
