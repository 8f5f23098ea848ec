use vstd::prelude::*;

use crate::entity::EntityId;
use crate::marble::Marble;

verus! {

/// A collision-start notification from the physics layer.
///
/// The pair is unordered: the engine itself works out which side, if either,
/// is an input port and which is a marble.
#[derive(Clone, Copy, Debug, PartialEq, Eq, Structural)]
pub struct CollisionStart {
    pub a: EntityId,
    pub b: EntityId,
}

/// What a module asks the dispatcher to do on its behalf.
///
/// Behaviours never mutate entities directly; they only emit these intents,
/// which a single event-processing pass performs once per tick.
#[derive(Clone, Copy, Debug, PartialEq, Eq, Structural)]
pub enum ModuleAction {
    /// Emit this marble from the module's first output port.
    FireMarble(Marble),
    /// Recolour the module's input indicators from its slot occupancy.
    UpdateIndicatorColors,
    /// Attach (or replace) a callback timer with this many ticks.
    ArmCallback(u32),
}

/// An intent record: which module asked, and for what.
#[derive(Clone, Copy, Debug, PartialEq, Eq, Structural)]
pub struct ModuleEvent {
    pub target: EntityId,
    pub action: ModuleAction,
}

/// A request to the physics layer to launch a marble from an output port.
///
/// The port's world transform, launch speed and spin are the host's concern;
/// the engine fixes only the payload and the port.
#[derive(Clone, Copy, Debug, PartialEq, Eq, Structural)]
pub struct FireMarbleEvent {
    pub marble: Marble,
    pub from: EntityId,
}

impl FireMarbleEvent {
    pub fn new(marble: Marble, from: EntityId) -> (r: Self)
        ensures
            r == (FireMarbleEvent { marble, from }),
    {
        FireMarbleEvent { marble, from }
    }
}

/// Indicator hue shown for an empty input slot (a green).
pub const HUE_EMPTY: u32 = 117;

/// Indicator hue shown for an occupied input slot (a red).
pub const HUE_OCCUPIED: u32 = 0;

/// The hue an input indicator must show for a slot.
pub open spec fn hue_of(slot: Option<Marble>) -> u32 {
    if slot is Some {
        HUE_OCCUPIED
    } else {
        HUE_EMPTY
    }
}

} // verus!
