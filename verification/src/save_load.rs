//! Requests for world persistence.
//!
//! Serialisation itself is the host's concern; the engine only defines the
//! request values that name the save slot.

use vstd::prelude::*;

verus! {

/// A request to save the placed modules under this name.
#[derive(Debug)]
pub struct SaveWorld(pub String);

/// A request to replace the placed modules with the save of this name.
#[derive(Debug)]
pub struct LoadWorld(pub String);

} // verus!
