use vstd::prelude::*;

use crate::body::BodyType;
use crate::entity::EntityId;
use crate::event::{ModuleAction, ModuleEvent};
use crate::marble::Marble;
use crate::state::ModuleState;

verus! {

/// How a module is to be spawned: its body shape and where its ports sit.
///
/// Rotations are in whole degrees around the body centre; the host turns them
/// into world transforms.  Port order here fixes the port numbering for the
/// life of the module.
#[derive(Clone, Debug)]
pub struct SpawnInstructions {
    pub body: BodyType,
    pub input_rotations: Vec<i64>,
    pub output_rotations: Vec<i64>,
}

impl SpawnInstructions {
    pub fn from_body(body: BodyType) -> (r: Self)
        ensures
            r.body == body,
            r.input_rotations@ == Seq::<i64>::empty(),
            r.output_rotations@ == Seq::<i64>::empty(),
    {
        SpawnInstructions { body, input_rotations: Vec::new(), output_rotations: Vec::new() }
    }

    pub fn with_input_rotations(self, rotations: Vec<i64>) -> (r: Self)
        ensures
            r.body == self.body,
            r.input_rotations == rotations,
            r.output_rotations == self.output_rotations,
    {
        SpawnInstructions { input_rotations: rotations, ..self }
    }

    pub fn with_output_rotations(self, rotations: Vec<i64>) -> (r: Self)
        ensures
            r.body == self.body,
            r.input_rotations == self.input_rotations,
            r.output_rotations == rotations,
    {
        SpawnInstructions { output_rotations: rotations, ..self }
    }
}

/// A countdown attached to a module that has asked to react later.
///
/// It holds the number of ticks left; the timer pass decrements it once per
/// tick and runs the module's callback when it runs out.
#[derive(Clone, Copy, Debug, PartialEq, Eq, Structural)]
pub struct ModuleCallbackTimer(pub u32);

impl ModuleCallbackTimer {
    pub fn new(ticks: u32) -> (r: Self)
        ensures
            r.0 == ticks,
    {
        ModuleCallbackTimer(ticks)
    }
}

/// The basic module: one input, one output.  A marble deposited into its
/// input is re-emitted from its output, unchanged, after a fixed delay.
#[derive(Clone, Copy, Debug, PartialEq, Eq, Structural, Default)]
pub struct Basic;

/// How many ticks a basic module holds a marble before re-emitting it.
pub const BASIC_DELAY_TICKS: u32 = 10;

/// The closed set of module behaviours, dispatched by `match`.
#[derive(Clone, Copy, Debug, PartialEq, Eq, Structural)]
pub enum ModuleType {
    Basic(Basic),
}

impl Default for ModuleType {
    fn default() -> (r: Self)
        ensures
            r == (ModuleType::Basic(Basic)),
    {
        ModuleType::Basic(Basic)
    }
}

/// The events a module emits when told its inputs changed: it always asks for
/// its indicators to be refreshed, and asks for a delayed callback exactly
/// when its triggering slot is occupied.
pub open spec fn update_emits(ty: ModuleType, target: EntityId, slots: Seq<Option<Marble>>)
    -> Seq<ModuleEvent> {
    match ty {
        ModuleType::Basic(_) => {
            let refresh = ModuleEvent { target, action: ModuleAction::UpdateIndicatorColors };
            if slots.len() > 0 && slots[0] is Some {
                seq![refresh, ModuleEvent { target, action: ModuleAction::ArmCallback(BASIC_DELAY_TICKS) }]
            } else {
                seq![refresh]
            }
        },
    }
}

/// Whether a module's callback finds its triggering slot unexpectedly empty.
/// That is the anomalous-but-recoverable case: the reaction is skipped.
pub open spec fn callback_anomaly(ty: ModuleType, slots: Seq<Option<Marble>>) -> bool {
    match ty {
        ModuleType::Basic(_) => !(slots.len() > 0 && slots[0] is Some),
    }
}

/// The slot buffer after a module's callback ran: the consumed slot returns
/// to `None`; on an anomaly nothing changes.
pub open spec fn callback_slots(ty: ModuleType, slots: Seq<Option<Marble>>)
    -> Seq<Option<Marble>> {
    match ty {
        ModuleType::Basic(_) => {
            if callback_anomaly(ty, slots) {
                slots
            } else {
                slots.update(0, None)
            }
        },
    }
}

/// The events a module's callback emits: the buffered marble is fired and the
/// indicators refreshed; on an anomaly nothing is emitted.
pub open spec fn callback_emits(ty: ModuleType, target: EntityId, slots: Seq<Option<Marble>>)
    -> Seq<ModuleEvent> {
    match ty {
        ModuleType::Basic(_) => {
            if callback_anomaly(ty, slots) {
                seq![]
            } else {
                seq![
                    ModuleEvent { target, action: ModuleAction::FireMarble(slots[0]->Some_0) },
                    ModuleEvent { target, action: ModuleAction::UpdateIndicatorColors },
                ]
            }
        },
    }
}

impl ModuleType {
    /// How many input ports this module type declares.
    pub open spec fn num_inputs_spec(self) -> nat {
        match self {
            ModuleType::Basic(_) => 1,
        }
    }

    /// How many output ports this module type declares.
    pub open spec fn num_outputs_spec(self) -> nat {
        match self {
            ModuleType::Basic(_) => 1,
        }
    }

    /// The delay, in ticks, this module type asks for between an input
    /// arriving and its reaction.
    pub open spec fn delay_spec(self) -> u32 {
        match self {
            ModuleType::Basic(_) => BASIC_DELAY_TICKS,
        }
    }

    pub fn num_inputs(&self) -> (n: usize)
        ensures
            n == self.num_inputs_spec(),
    {
        match self {
            ModuleType::Basic(_) => 1,
        }
    }

    pub fn num_outputs(&self) -> (n: usize)
        ensures
            n == self.num_outputs_spec(),
    {
        match self {
            ModuleType::Basic(_) => 1,
        }
    }

    pub fn callback_delay(&self) -> (d: u32)
        ensures
            d == self.delay_spec(),
    {
        match self {
            ModuleType::Basic(_) => BASIC_DELAY_TICKS,
        }
    }

    /// Static geometry for placing a module of this type.  Pure: the counts
    /// fix the port topology for the module's whole life.
    pub fn spawn_instructions(&self) -> (r: SpawnInstructions)
        ensures
            r.input_rotations@.len() == self.num_inputs_spec(),
            r.output_rotations@.len() == self.num_outputs_spec(),
            match *self {
                ModuleType::Basic(_) => r.body == BodyType::Small
                    && r.input_rotations@ == seq![270i64]
                    && r.output_rotations@ == seq![90i64],
            },
    {
        match self {
            ModuleType::Basic(_) => {
                let r = SpawnInstructions::from_body(BodyType::Small)
                    .with_input_rotations(vec![270])
                    .with_output_rotations(vec![90]);
                proof {
                    assert(r.input_rotations@ =~= seq![270i64]);
                    assert(r.output_rotations@ =~= seq![90i64]);
                }
                r
            },
        }
    }

    /// The module's display name.
    pub fn get_name(&self) -> (r: &'static str)
        ensures
            match *self {
                ModuleType::Basic(_) => r@ == "Basic Module"@,
            },
    {
        match self {
            ModuleType::Basic(_) => "Basic Module",
        }
    }

    /// The module's identifier string.
    pub fn get_identifier(&self) -> (r: &'static str)
        ensures
            match *self {
                ModuleType::Basic(_) => r@ == "basic.module"@,
            },
    {
        match self {
            ModuleType::Basic(_) => "basic.module",
        }
    }

    /// React to a changed input buffer: inspect the slots and emit intents.
    /// Runs once per tick for each module whose buffer changed this tick.
    pub fn update(&self, target: EntityId, state: &ModuleState, events: &mut Vec<ModuleEvent>)
        requires
            state.input_state@.len() == self.num_inputs_spec(),
        ensures
            final(events)@ == old(events)@ + update_emits(*self, target, state.input_state@),
    {
        match self {
            ModuleType::Basic(_) => {
                events.push(ModuleEvent { target, action: ModuleAction::UpdateIndicatorColors });
                if state.input_state[0].is_some() {
                    events.push(ModuleEvent {
                        target,
                        action: ModuleAction::ArmCallback(BASIC_DELAY_TICKS),
                    });
                }
                proof {
                    assert(events@ =~= old(events)@ + update_emits(
                        *self, target, state.input_state@));
                }
            },
        }
    }

    /// React to the callback timer running out: consume the buffered marble
    /// and emit the fire intent.  Finding the slot empty is reported as a
    /// non-fatal anomaly and the reaction is skipped.
    pub fn callback_update(
        &self,
        target: EntityId,
        state: &mut ModuleState,
        events: &mut Vec<ModuleEvent>,
    ) -> (anomaly: bool)
        requires
            old(state).input_state@.len() == self.num_inputs_spec(),
        ensures
            final(state).input_state@ == callback_slots(*self, old(state).input_state@),
            final(state).inputs == old(state).inputs,
            final(state).indicators == old(state).indicators,
            final(state).outputs == old(state).outputs,
            final(state).decals == old(state).decals,
            final(state).body == old(state).body,
            final(events)@ == old(events)@ + callback_emits(*self, target, old(state).input_state@),
            anomaly == callback_anomaly(*self, old(state).input_state@),
    {
        match self {
            ModuleType::Basic(_) => {
                if let Some(marble) = state.input_state[0] {
                    events.push(ModuleEvent { target, action: ModuleAction::FireMarble(marble) });
                    state.input_state.set(0, None);
                    events.push(ModuleEvent {
                        target,
                        action: ModuleAction::UpdateIndicatorColors,
                    });
                    proof {
                        assert(events@ =~= old(events)@ + callback_emits(
                            *self, target, old(state).input_state@));
                    }
                    false
                } else {
                    proof {
                        assert(events@ =~= old(events)@ + callback_emits(
                            *self, target, old(state).input_state@));
                    }
                    true
                }
            },
        }
    }
}

} // verus!
