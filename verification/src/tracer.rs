//! Handles for the trajectory-preview overlay.

use vstd::prelude::*;

use crate::entity::EntityId;

verus! {

/// How many tick sprites the trajectory preview uses, counting the target
/// marker at the end.
pub const TRACER_N: usize = 20;

/// The entities of the trajectory-preview overlay, spawned once by the host:
/// the tick sprites in order, the target marker last.
#[derive(Clone, Copy, Debug)]
pub struct TracerEntities(pub [EntityId; TRACER_N]);

/// Marks an entity as part of the trajectory-preview overlay.
#[derive(Clone, Copy, Debug)]
pub struct Tracer;

} // verus!
