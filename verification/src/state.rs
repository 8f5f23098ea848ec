use vstd::prelude::*;

use crate::entity::EntityId;
use crate::marble::Marble;

verus! {

/// Per-placed-module data: the handles to the module's parts and the buffer
/// of marbles waiting at its inputs.
///
/// `input_state` has one slot per input port, indexed by port number.  A slot
/// goes `None` to `Some` only through the collision bridge and `Some` to
/// `None` only through the module's own behaviour consuming it.
#[derive(Debug)]
pub struct ModuleState {
    /// The input port entities, in port order.
    pub inputs: Vec<EntityId>,
    /// The indicator light entities, one per input.
    pub indicators: Vec<EntityId>,
    /// The output port entities, in port order.
    pub outputs: Vec<EntityId>,
    /// Decorative child entities.
    pub decals: Vec<EntityId>,
    /// The body entity.
    pub body: EntityId,
    /// One buffered marble at most per input port.
    pub input_state: Vec<Option<Marble>>,
}

impl ModuleState {
    /// The slot buffer is sized to the input ports, with one indicator each.
    pub open spec fn wf(self) -> bool {
        &&& self.input_state@.len() == self.inputs@.len()
        &&& self.indicators@.len() == self.inputs@.len()
    }

    /// Fresh state for a module with the given parts: every slot empty.
    pub fn new(
        body: EntityId,
        inputs: Vec<EntityId>,
        indicators: Vec<EntityId>,
        outputs: Vec<EntityId>,
        decals: Vec<EntityId>,
    ) -> (s: ModuleState)
        requires
            indicators@.len() == inputs@.len(),
        ensures
            s.wf(),
            s.body == body,
            s.inputs == inputs,
            s.indicators == indicators,
            s.outputs == outputs,
            s.decals == decals,
            s.input_state@ == Seq::new(inputs@.len(), |i: int| None::<Marble>),
    {
        let n = inputs.len();
        let mut input_state: Vec<Option<Marble>> = Vec::new();
        for k in 0..n
            invariant
                input_state@ == Seq::new(k as nat, |i: int| None::<Marble>),
        {
            input_state.push(None);
            proof {
                assert(input_state@ =~= Seq::new((k + 1) as nat, |i: int| None::<Marble>));
            }
        }
        ModuleState { inputs, indicators, outputs, decals, body, input_state }
    }
}

} // verus!
