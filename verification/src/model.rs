//! The mathematical model of the simulation.
//!
//! Every executable pass in `sim` is specified as equality with one of the
//! transition functions here, stated over sequences; the laws in `laws` are
//! proved about these transitions.

use vstd::prelude::*;

use crate::entity::EntityId;
use crate::event::{hue_of, CollisionStart, FireMarbleEvent, ModuleAction, ModuleEvent};
use crate::marble::Marble;
use crate::module::{callback_anomaly, callback_emits, callback_slots, update_emits, ModuleType};

verus! {

/// A placed module as the model sees it.
#[verifier::ext_equal]
pub struct AbsModule {
    pub id: EntityId,
    pub ty: ModuleType,
    pub body: EntityId,
    pub inputs: Seq<EntityId>,
    pub indicators: Seq<EntityId>,
    pub outputs: Seq<EntityId>,
    pub decals: Seq<EntityId>,
    pub slots: Seq<Option<Marble>>,
    pub hues: Seq<u32>,
    pub timer: Option<u32>,
}

/// A live marble entity as the model sees it.
#[verifier::ext_equal]
pub struct AbsMarble {
    pub id: EntityId,
    pub marble: Marble,
    pub lifetime: usize,
}

/// The whole simulation state as the model sees it.
#[verifier::ext_equal]
pub struct AbsSim {
    pub modules: Seq<AbsModule>,
    pub marbles: Seq<AbsMarble>,
    pub anomalies: u64,
}

impl AbsModule {
    /// Port lists and the slot buffer are sized by the module's type, with
    /// one indicator and one hue per input.
    pub open spec fn wf(self) -> bool {
        &&& self.inputs.len() == self.ty.num_inputs_spec()
        &&& self.slots.len() == self.inputs.len()
        &&& self.indicators.len() == self.inputs.len()
        &&& self.hues.len() == self.inputs.len()
        &&& self.outputs.len() == self.ty.num_outputs_spec()
    }
}

impl AbsSim {
    /// Entity `e` is input port `i` of module `j`.
    pub open spec fn is_input_port_at(self, e: EntityId, j: int, i: int) -> bool {
        &&& 0 <= j < self.modules.len()
        &&& 0 <= i < self.modules[j].inputs.len()
        &&& self.modules[j].inputs[i] == e
    }

    /// Entity `e` is some module's input port.
    pub open spec fn is_input_port(self, e: EntityId) -> bool {
        exists|j: int, i: int| self.is_input_port_at(e, j, i)
    }

    /// The (module, port) pair an input port entity resolves to.  Under
    /// `wf` the pair is unique.
    pub open spec fn port_of(self, e: EntityId) -> (int, int) {
        choose|j: int, i: int| self.is_input_port_at(e, j, i)
    }

    /// Entity `e` is a live marble.
    pub open spec fn is_live_marble(self, e: EntityId) -> bool {
        exists|k: int| 0 <= k < self.marbles.len() && self.marbles[k].id == e
    }

    /// The index of the live marble with id `e`; unique under `wf`.
    pub open spec fn marble_at(self, e: EntityId) -> int {
        choose|k: int| 0 <= k < self.marbles.len() && self.marbles[k].id == e
    }

    /// Some placed module has root entity `e`.
    pub open spec fn has_module(self, e: EntityId) -> bool {
        exists|j: int| 0 <= j < self.modules.len() && self.modules[j].id == e
    }

    /// The index of the module with root entity `e`; unique under `wf`.
    pub open spec fn module_at(self, e: EntityId) -> int {
        choose|j: int| 0 <= j < self.modules.len() && self.modules[j].id == e
    }

    /// No two modules share a root entity.
    pub open spec fn module_ids_unique(self) -> bool {
        forall|j1: int, j2: int|
            #![trigger self.modules[j1].id, self.modules[j2].id]
            0 <= j1 < self.modules.len() && 0 <= j2 < self.modules.len()
                && self.modules[j1].id == self.modules[j2].id ==> j1 == j2
    }

    /// No two input ports, of any modules, share an entity.
    pub open spec fn input_ports_unique(self) -> bool {
        forall|j1: int, i1: int, j2: int, i2: int|
            #![trigger self.modules[j1].inputs[i1], self.modules[j2].inputs[i2]]
            self.is_input_port_at(self.modules[j1].inputs[i1], j1, i1)
                && self.is_input_port_at(self.modules[j1].inputs[i1], j2, i2)
                ==> j1 == j2 && i1 == i2
    }

    /// No two live marbles share an entity.
    pub open spec fn marble_ids_unique(self) -> bool {
        forall|k1: int, k2: int|
            #![trigger self.marbles[k1].id, self.marbles[k2].id]
            0 <= k1 < self.marbles.len() && 0 <= k2 < self.marbles.len()
                && self.marbles[k1].id == self.marbles[k2].id ==> k1 == k2
    }

    /// A marble entity is never also an input port.
    pub open spec fn ports_marbles_disjoint(self) -> bool {
        forall|j: int, i: int, k: int|
            #![trigger self.modules[j].inputs[i], self.marbles[k].id]
            self.is_input_port_at(self.modules[j].inputs[i], j, i)
                && 0 <= k < self.marbles.len()
                ==> self.modules[j].inputs[i] != self.marbles[k].id
    }

    /// Well-formedness of the whole state: every module is well formed and
    /// entity handles identify things unambiguously.
    pub open spec fn wf(self) -> bool {
        &&& forall|j: int| 0 <= j < self.modules.len() ==> (#[trigger] self.modules[j]).wf()
        &&& self.module_ids_unique()
        &&& self.input_ports_unique()
        &&& self.marble_ids_unique()
        &&& self.ports_marbles_disjoint()
    }
}

/// One more anomaly, saturating at the counter's ceiling.
pub open spec fn bump(a: u64) -> u64 {
    if a == u64::MAX {
        a
    } else {
        (a + 1) as u64
    }
}

// ---------------------------------------------------------------------------
// Collision -> input bridge
// ---------------------------------------------------------------------------

/// The deposit `(port a, marble b)` goes through: `a` resolves to an input
/// port whose slot is free and `b` is a live marble.
pub open spec fn deposit_enabled(s: AbsSim, a: EntityId, b: EntityId) -> bool {
    &&& s.is_input_port(a)
    &&& s.is_live_marble(b)
    &&& s.modules[s.port_of(a).0].slots[s.port_of(a).1] is None
}

/// Try to deposit marble entity `b` into input port entity `a`: fill the
/// slot and consume the marble, or change nothing.  An occupied slot refuses
/// the marble (the backpressure policy).
pub open spec fn deposit_pair(s: AbsSim, a: EntityId, b: EntityId) -> AbsSim {
    if deposit_enabled(s, a, b) {
        let j = s.port_of(a).0;
        let i = s.port_of(a).1;
        let k = s.marble_at(b);
        AbsSim {
            modules: s.modules.update(
                j,
                AbsModule { slots: s.modules[j].slots.update(i, Some(s.marbles[k].marble)), ..s.modules[j] },
            ),
            marbles: s.marbles.remove(k),
            ..s
        }
    } else {
        s
    }
}

/// Handle one collision-start pair: the notification is unordered, so both
/// role assignments are tried.
pub open spec fn collision_step(s: AbsSim, c: CollisionStart) -> AbsSim {
    deposit_pair(deposit_pair(s, c.a, c.b), c.b, c.a)
}

/// Run the bridge over all of a tick's collision notifications, in order.
pub open spec fn bridge(s: AbsSim, cs: Seq<CollisionStart>) -> AbsSim
    decreases cs.len(),
{
    if cs.len() == 0 {
        s
    } else {
        collision_step(bridge(s, cs.drop_last()), cs.last())
    }
}

/// Which modules' input buffers changed between two states of one tick.
pub open spec fn changed_flags(s0: AbsSim, s1: AbsSim) -> Seq<bool> {
    Seq::new(s1.modules.len(), |j: int| s1.modules[j].slots != s0.modules[j].slots)
}

// ---------------------------------------------------------------------------
// Module update pass
// ---------------------------------------------------------------------------

/// The events emitted by the update pass over the first `n` modules:
/// each changed module contributes its behaviour's emissions, in module
/// order.
pub open spec fn update_pass_events(ms: Seq<AbsModule>, changed: Seq<bool>, n: int)
    -> Seq<ModuleEvent>
    decreases n,
{
    if n <= 0 {
        seq![]
    } else {
        update_pass_events(ms, changed, n - 1) + if changed[n - 1] {
            update_emits(ms[n - 1].ty, ms[n - 1].id, ms[n - 1].slots)
        } else {
            seq![]
        }
    }
}

// ---------------------------------------------------------------------------
// Callback timer pass
// ---------------------------------------------------------------------------

/// An armed timer with at most one tick left fires this pass.
pub open spec fn timer_fires(m: AbsModule) -> bool {
    m.timer is Some && m.timer->0 <= 1
}

/// One module after the timer pass: an armed timer counts down, and on
/// firing it is removed and the module's callback consumes its slot.
pub open spec fn module_after_timer(m: AbsModule) -> AbsModule {
    match m.timer {
        None => m,
        Some(k) => if k > 1 {
            AbsModule { timer: Some((k - 1) as u32), ..m }
        } else {
            AbsModule { timer: None, slots: callback_slots(m.ty, m.slots), ..m }
        },
    }
}

/// The events one module's timer firing emits this pass.
pub open spec fn timer_events(m: AbsModule) -> Seq<ModuleEvent> {
    if timer_fires(m) {
        callback_emits(m.ty, m.id, m.slots)
    } else {
        seq![]
    }
}

/// Whether one module's timer firing hits the empty-slot anomaly.
pub open spec fn timer_anomaly(m: AbsModule) -> bool {
    timer_fires(m) && callback_anomaly(m.ty, m.slots)
}

/// Timer-pass events of the first `n` modules, in module order.
pub open spec fn timer_pass_events(ms: Seq<AbsModule>, n: int) -> Seq<ModuleEvent>
    decreases n,
{
    if n <= 0 {
        seq![]
    } else {
        timer_pass_events(ms, n - 1) + timer_events(ms[n - 1])
    }
}

/// The anomaly counter after the timer pass of the first `n` modules.
pub open spec fn timer_pass_anomalies(a: u64, ms: Seq<AbsModule>, n: int) -> u64
    decreases n,
{
    if n <= 0 {
        a
    } else {
        let prev = timer_pass_anomalies(a, ms, n - 1);
        if timer_anomaly(ms[n - 1]) {
            bump(prev)
        } else {
            prev
        }
    }
}

/// The whole timer pass: every module's countdown advances independently.
pub open spec fn timer_pass(s: AbsSim) -> AbsSim {
    AbsSim {
        modules: Seq::new(s.modules.len(), |j: int| module_after_timer(s.modules[j])),
        anomalies: timer_pass_anomalies(s.anomalies, s.modules, s.modules.len() as int),
        ..s
    }
}

// ---------------------------------------------------------------------------
// Event bus drain
// ---------------------------------------------------------------------------

/// Perform one intent.  An event whose target no longer exists is dropped
/// without effect: a module may be destroyed while intents against it are
/// still in flight.
pub open spec fn apply_event(s: AbsSim, ev: ModuleEvent) -> (AbsSim, Seq<FireMarbleEvent>) {
    if !s.has_module(ev.target) {
        (s, seq![])
    } else {
        let j = s.module_at(ev.target);
        match ev.action {
            ModuleAction::FireMarble(m) => if s.modules[j].outputs.len() > 0 {
                (s, seq![FireMarbleEvent { marble: m, from: s.modules[j].outputs[0] }])
            } else {
                (s, seq![])
            },
            ModuleAction::UpdateIndicatorColors => (
                AbsSim {
                    modules: s.modules.update(
                        j,
                        AbsModule {
                            hues: Seq::new(
                                s.modules[j].slots.len(),
                                |i: int| hue_of(s.modules[j].slots[i]),
                            ),
                            ..s.modules[j]
                        },
                    ),
                    ..s
                },
                seq![],
            ),
            ModuleAction::ArmCallback(d) => (
                AbsSim {
                    modules: s.modules.update(
                        j,
                        AbsModule { timer: Some(d), ..s.modules[j] },
                    ),
                    ..s
                },
                seq![],
            ),
        }
    }
}

/// Drain the event bus: intents are performed in emission order, and the
/// fire requests they produce are collected in that order.
pub open spec fn drain(s: AbsSim, evs: Seq<ModuleEvent>) -> (AbsSim, Seq<FireMarbleEvent>)
    decreases evs.len(),
{
    if evs.len() == 0 {
        (s, seq![])
    } else {
        let prev = drain(s, evs.drop_last());
        let step = apply_event(prev.0, evs.last());
        (step.0, prev.1 + step.1)
    }
}

// ---------------------------------------------------------------------------
// One whole tick
// ---------------------------------------------------------------------------

/// All intents of one tick: the update pass's (over the post-bridge state),
/// then the timer pass's, in that order.
pub open spec fn tick_intents(s0: AbsSim, s1: AbsSim) -> Seq<ModuleEvent> {
    update_pass_events(s1.modules, changed_flags(s0, s1), s1.modules.len() as int)
        + timer_pass_events(s1.modules, s1.modules.len() as int)
}

/// One simulation tick, in the fixed pass order: collision bridge, module
/// update pass, timer pass, event bus drain.  Returns the next state and the
/// fire requests handed to the physics layer.
pub open spec fn spec_tick(s: AbsSim, cs: Seq<CollisionStart>) -> (AbsSim, Seq<FireMarbleEvent>) {
    let s1 = bridge(s, cs);
    let evs = tick_intents(s, s1);
    let s2 = timer_pass(s1);
    drain(s2, evs)
}

// ---------------------------------------------------------------------------
// Marble housekeeping
// ---------------------------------------------------------------------------

/// The marbles surviving one lifetime tick, each one tick older.
pub open spec fn lifetime_step(ms: Seq<AbsMarble>) -> Seq<AbsMarble>
    decreases ms.len(),
{
    if ms.len() == 0 {
        seq![]
    } else {
        let prev = lifetime_step(ms.drop_last());
        let m = ms.last();
        if m.lifetime > 1 {
            prev + seq![AbsMarble { lifetime: (m.lifetime - 1) as usize, ..m }]
        } else {
            prev
        }
    }
}

/// The marbles left after the host reports some entities gone.
pub open spec fn without_ids(ms: Seq<AbsMarble>, gone: Seq<EntityId>) -> Seq<AbsMarble>
    decreases ms.len(),
{
    if ms.len() == 0 {
        seq![]
    } else {
        let prev = without_ids(ms.drop_last(), gone);
        let m = ms.last();
        if gone.contains(m.id) {
            prev
        } else {
            prev + seq![m]
        }
    }
}

// ---------------------------------------------------------------------------
// Frame and preservation facts about the bridge
// ---------------------------------------------------------------------------

/// Everything about a module except its slot contents.
pub open spec fn module_frame_eq(m1: AbsModule, m2: AbsModule) -> bool {
    &&& m1.id == m2.id
    &&& m1.ty == m2.ty
    &&& m1.body == m2.body
    &&& m1.inputs == m2.inputs
    &&& m1.indicators == m2.indicators
    &&& m1.outputs == m2.outputs
    &&& m1.decals == m2.decals
    &&& m1.hues == m2.hues
    &&& m1.timer == m2.timer
    &&& m1.slots.len() == m2.slots.len()
}

/// What the bridge leaves alone between two states: the module roster and
/// everything per module except slots, which may only fill (never empty,
/// never change an occupied slot), while the marble roster only loses
/// members.
pub open spec fn bridge_frame(s: AbsSim, d: AbsSim) -> bool {
    &&& d.modules.len() == s.modules.len()
    &&& forall|j: int| 0 <= j < s.modules.len()
        ==> module_frame_eq(#[trigger] d.modules[j], s.modules[j])
    &&& forall|j: int, i: int|
        #![trigger d.modules[j].slots[i]]
        0 <= j < s.modules.len() && 0 <= i < s.modules[j].slots.len()
            && s.modules[j].slots[i] is Some ==> d.modules[j].slots[i] == s.modules[j].slots[i]
    &&& forall|k: int| 0 <= k < d.marbles.len() ==> s.marbles.contains(#[trigger] d.marbles[k])
    &&& d.anomalies == s.anomalies
}

pub proof fn lemma_bridge_frame_trans(s0: AbsSim, s1: AbsSim, s2: AbsSim)
    requires
        bridge_frame(s0, s1),
        bridge_frame(s1, s2),
    ensures
        bridge_frame(s0, s2),
{
    assert forall|j: int, i: int|
        #![trigger s2.modules[j].slots[i]]
        0 <= j < s0.modules.len() && 0 <= i < s0.modules[j].slots.len()
            && s0.modules[j].slots[i] is Some
            implies s2.modules[j].slots[i] == s0.modules[j].slots[i] by {
        assert(s1.modules[j].slots[i] == s0.modules[j].slots[i]);
    }
}

/// One attempted deposit respects the bridge frame and keeps the state well
/// formed.
pub proof fn lemma_deposit_pair(s: AbsSim, a: EntityId, b: EntityId)
    requires
        s.wf(),
    ensures
        bridge_frame(s, deposit_pair(s, a, b)),
        deposit_pair(s, a, b).wf(),
{
    if deposit_enabled(s, a, b) {
        let d = deposit_pair(s, a, b);
        let j = s.port_of(a).0;
        let i = s.port_of(a).1;
        let k = s.marble_at(b);
        assert(s.is_input_port_at(a, j, i));
        assert(0 <= k < s.marbles.len() && s.marbles[k].id == b);
        assert(d.marbles =~= s.marbles.subrange(0, k) + s.marbles.subrange(
            k + 1, s.marbles.len() as int));
        assert forall|kk: int| 0 <= kk < d.marbles.len()
            implies s.marbles.contains(#[trigger] d.marbles[kk]) by {
            if kk < k {
                assert(d.marbles[kk] == s.marbles[kk]);
            } else {
                assert(d.marbles[kk] == s.marbles[kk + 1]);
            }
        }
        assert(bridge_frame(s, d));
        assert forall|kk1: int, kk2: int|
            #![trigger d.marbles[kk1].id, d.marbles[kk2].id]
            0 <= kk1 < d.marbles.len() && 0 <= kk2 < d.marbles.len()
                && d.marbles[kk1].id == d.marbles[kk2].id implies kk1 == kk2 by {
            let m1 = if kk1 < k { kk1 } else { kk1 + 1 };
            let m2 = if kk2 < k { kk2 } else { kk2 + 1 };
            assert(d.marbles[kk1] == s.marbles[m1]);
            assert(d.marbles[kk2] == s.marbles[m2]);
        }
        assert forall|jj: int, ii: int, kk: int|
            #![trigger d.modules[jj].inputs[ii], d.marbles[kk].id]
            d.is_input_port_at(d.modules[jj].inputs[ii], jj, ii) && 0 <= kk < d.marbles.len()
                implies d.modules[jj].inputs[ii] != d.marbles[kk].id by {
            let m = if kk < k { kk } else { kk + 1 };
            assert(d.marbles[kk] == s.marbles[m]);
            assert(s.modules[jj].inputs[ii] == d.modules[jj].inputs[ii]);
        }
        assert(d.wf());
    }
}

/// One collision notification respects the bridge frame and keeps the state
/// well formed.
pub proof fn lemma_collision_step(s: AbsSim, c: CollisionStart)
    requires
        s.wf(),
    ensures
        bridge_frame(s, collision_step(s, c)),
        collision_step(s, c).wf(),
{
    lemma_deposit_pair(s, c.a, c.b);
    let s1 = deposit_pair(s, c.a, c.b);
    lemma_deposit_pair(s1, c.b, c.a);
    lemma_bridge_frame_trans(s, s1, collision_step(s, c));
}

/// The whole bridge respects the frame and keeps the state well formed.
pub proof fn lemma_bridge(s: AbsSim, cs: Seq<CollisionStart>)
    requires
        s.wf(),
    ensures
        bridge_frame(s, bridge(s, cs)),
        bridge(s, cs).wf(),
    decreases cs.len(),
{
    if cs.len() == 0 {
        assert(bridge_frame(s, s));
    } else {
        lemma_bridge(s, cs.drop_last());
        let s1 = bridge(s, cs.drop_last());
        lemma_collision_step(s1, cs.last());
        lemma_bridge_frame_trans(s, s1, bridge(s, cs));
    }
}

/// The timer pass leaves everything but timers, slots and the anomaly
/// counter alone, and keeps the state well formed.
pub proof fn lemma_timer_pass(s: AbsSim)
    requires
        s.wf(),
    ensures
        ({
            let d = timer_pass(s);
            &&& d.wf()
            &&& d.modules.len() == s.modules.len()
            &&& forall|j: int| 0 <= j < s.modules.len() ==> {
                let m = #[trigger] d.modules[j];
                &&& m.id == s.modules[j].id
                &&& m.ty == s.modules[j].ty
                &&& m.body == s.modules[j].body
                &&& m.inputs == s.modules[j].inputs
                &&& m.indicators == s.modules[j].indicators
                &&& m.outputs == s.modules[j].outputs
                &&& m.decals == s.modules[j].decals
                &&& m.hues == s.modules[j].hues
                &&& m.slots.len() == s.modules[j].slots.len()
            }
            &&& d.marbles == s.marbles
        }),
{
    let d = timer_pass(s);
    assert forall|j: int| 0 <= j < s.modules.len() implies (#[trigger] d.modules[j])
        == module_after_timer(s.modules[j]) && d.modules[j].wf() by {
        let m = s.modules[j];
        assert(m.wf());
        if m.timer is Some && !(m.timer->0 > 1) && !callback_anomaly(m.ty, m.slots) {
            assert(callback_slots(m.ty, m.slots).len() == m.slots.len());
        }
    }
    assert forall|j1: int, i1: int, j2: int, i2: int|
        #![trigger d.modules[j1].inputs[i1], d.modules[j2].inputs[i2]]
        d.is_input_port_at(d.modules[j1].inputs[i1], j1, i1)
            && d.is_input_port_at(d.modules[j1].inputs[i1], j2, i2)
            implies j1 == j2 && i1 == i2 by {
        assert(s.is_input_port_at(s.modules[j1].inputs[i1], j1, i1));
        assert(s.is_input_port_at(s.modules[j1].inputs[i1], j2, i2));
    }
    assert forall|j: int, i: int, k: int|
        #![trigger d.modules[j].inputs[i], d.marbles[k].id]
        d.is_input_port_at(d.modules[j].inputs[i], j, i) && 0 <= k < d.marbles.len()
            implies d.modules[j].inputs[i] != d.marbles[k].id by {
        assert(s.is_input_port_at(s.modules[j].inputs[i], j, i));
    }
}

/// Performing one intent never touches the module roster, any module's
/// ports or slots, or the marbles; only hues and timers move.  Keeps the
/// state well formed.
pub proof fn lemma_apply_event(s: AbsSim, ev: ModuleEvent)
    requires
        s.wf(),
    ensures
        ({
            let d = apply_event(s, ev).0;
            &&& d.wf()
            &&& d.modules.len() == s.modules.len()
            &&& forall|j: int| 0 <= j < s.modules.len() ==> {
                let m = #[trigger] d.modules[j];
                &&& m.id == s.modules[j].id
                &&& m.ty == s.modules[j].ty
                &&& m.body == s.modules[j].body
                &&& m.inputs == s.modules[j].inputs
                &&& m.indicators == s.modules[j].indicators
                &&& m.outputs == s.modules[j].outputs
                &&& m.decals == s.modules[j].decals
                &&& m.slots == s.modules[j].slots
            }
            &&& d.marbles == s.marbles
            &&& d.anomalies == s.anomalies
        }),
{
    let d = apply_event(s, ev).0;
    assert forall|j1: int, i1: int, j2: int, i2: int|
        #![trigger d.modules[j1].inputs[i1], d.modules[j2].inputs[i2]]
        d.is_input_port_at(d.modules[j1].inputs[i1], j1, i1)
            && d.is_input_port_at(d.modules[j1].inputs[i1], j2, i2)
            implies j1 == j2 && i1 == i2 by {
        assert(s.is_input_port_at(s.modules[j1].inputs[i1], j1, i1));
        assert(s.is_input_port_at(s.modules[j1].inputs[i1], j2, i2));
    }
    assert forall|j: int, i: int, k: int|
        #![trigger d.modules[j].inputs[i], d.marbles[k].id]
        d.is_input_port_at(d.modules[j].inputs[i], j, i) && 0 <= k < d.marbles.len()
            implies d.modules[j].inputs[i] != d.marbles[k].id by {
        assert(s.is_input_port_at(s.modules[j].inputs[i], j, i));
    }
}

/// Draining any event sequence obeys the same frame as one intent.
pub proof fn lemma_drain(s: AbsSim, evs: Seq<ModuleEvent>)
    requires
        s.wf(),
    ensures
        ({
            let d = drain(s, evs).0;
            &&& d.wf()
            &&& d.modules.len() == s.modules.len()
            &&& forall|j: int| 0 <= j < s.modules.len() ==> {
                let m = #[trigger] d.modules[j];
                &&& m.id == s.modules[j].id
                &&& m.ty == s.modules[j].ty
                &&& m.body == s.modules[j].body
                &&& m.inputs == s.modules[j].inputs
                &&& m.indicators == s.modules[j].indicators
                &&& m.outputs == s.modules[j].outputs
                &&& m.decals == s.modules[j].decals
                &&& m.slots == s.modules[j].slots
            }
            &&& d.marbles == s.marbles
            &&& d.anomalies == s.anomalies
        }),
    decreases evs.len(),
{
    if evs.len() == 0 {
    } else {
        lemma_drain(s, evs.drop_last());
        lemma_apply_event(drain(s, evs.drop_last()).0, evs.last());
    }
}

/// No two marbles of the sequence share an id.
pub open spec fn marble_seq_ids_unique(ms: Seq<AbsMarble>) -> bool {
    forall|k1: int, k2: int|
        #![trigger ms[k1].id, ms[k2].id]
        0 <= k1 < ms.len() && 0 <= k2 < ms.len() && ms[k1].id == ms[k2].id ==> k1 == k2
}

/// Some marble of the sequence has this id.
pub open spec fn has_marble_id(ms: Seq<AbsMarble>, e: EntityId) -> bool {
    exists|k: int| 0 <= k < ms.len() && ms[k].id == e
}

/// Ageing marbles invents no ids and keeps them distinct.
pub proof fn lemma_lifetime_step(ms: Seq<AbsMarble>)
    ensures
        forall|x: int| 0 <= x < lifetime_step(ms).len() ==> has_marble_id(
            ms,
            (#[trigger] lifetime_step(ms)[x]).id,
        ),
        marble_seq_ids_unique(ms) ==> marble_seq_ids_unique(lifetime_step(ms)),
    decreases ms.len(),
{
    if ms.len() == 0 {
    } else {
        let front = ms.drop_last();
        lemma_lifetime_step(front);
        let prev = lifetime_step(front);
        assert forall|x: int| 0 <= x < lifetime_step(ms).len() implies has_marble_id(
            ms,
            (#[trigger] lifetime_step(ms)[x]).id,
        ) by {
            if x < prev.len() {
                assert(has_marble_id(front, prev[x].id));
                let k = choose|k: int| 0 <= k < front.len() && front[k].id == prev[x].id;
                assert(ms[k].id == prev[x].id);
            } else {
                assert(lifetime_step(ms)[x].id == ms.last().id);
                assert(ms[ms.len() - 1].id == ms.last().id);
            }
        }
        if marble_seq_ids_unique(ms) {
            assert(marble_seq_ids_unique(front));
            assert forall|k1: int, k2: int|
                #![trigger lifetime_step(ms)[k1].id, lifetime_step(ms)[k2].id]
                0 <= k1 < lifetime_step(ms).len() && 0 <= k2 < lifetime_step(ms).len()
                    && lifetime_step(ms)[k1].id == lifetime_step(ms)[k2].id
                    implies k1 == k2 by {
                let step = lifetime_step(ms);
                if k1 < prev.len() && k2 < prev.len() {
                    assert(prev[k1].id == prev[k2].id);
                } else if k1 < prev.len() && k2 >= prev.len() {
                    assert(has_marble_id(front, prev[k1].id));
                    let k = choose|k: int| 0 <= k < front.len() && front[k].id == prev[k1].id;
                    assert(ms[k].id == ms[ms.len() - 1].id);
                    assert(false);
                } else if k1 >= prev.len() && k2 < prev.len() {
                    assert(has_marble_id(front, prev[k2].id));
                    let k = choose|k: int| 0 <= k < front.len() && front[k].id == prev[k2].id;
                    assert(ms[k].id == ms[ms.len() - 1].id);
                    assert(false);
                }
            }
        }
    }
}

/// Culling marbles by id invents no ids and keeps them distinct.
pub proof fn lemma_without_ids(ms: Seq<AbsMarble>, gone: Seq<EntityId>)
    ensures
        forall|x: int| 0 <= x < without_ids(ms, gone).len() ==> has_marble_id(
            ms,
            (#[trigger] without_ids(ms, gone)[x]).id,
        ),
        marble_seq_ids_unique(ms) ==> marble_seq_ids_unique(without_ids(ms, gone)),
    decreases ms.len(),
{
    if ms.len() == 0 {
    } else {
        let front = ms.drop_last();
        lemma_without_ids(front, gone);
        let prev = without_ids(front, gone);
        assert forall|x: int| 0 <= x < without_ids(ms, gone).len() implies has_marble_id(
            ms,
            (#[trigger] without_ids(ms, gone)[x]).id,
        ) by {
            if x < prev.len() {
                assert(has_marble_id(front, prev[x].id));
                let k = choose|k: int| 0 <= k < front.len() && front[k].id == prev[x].id;
                assert(ms[k].id == prev[x].id);
            } else {
                assert(ms[ms.len() - 1].id == ms.last().id);
            }
        }
        if marble_seq_ids_unique(ms) {
            assert(marble_seq_ids_unique(front));
            assert forall|k1: int, k2: int|
                #![trigger without_ids(ms, gone)[k1].id, without_ids(ms, gone)[k2].id]
                0 <= k1 < without_ids(ms, gone).len() && 0 <= k2 < without_ids(ms, gone).len()
                    && without_ids(ms, gone)[k1].id == without_ids(ms, gone)[k2].id
                    implies k1 == k2 by {
                if k1 < prev.len() && k2 < prev.len() {
                    assert(prev[k1].id == prev[k2].id);
                } else if k1 < prev.len() && k2 >= prev.len() {
                    assert(has_marble_id(front, prev[k1].id));
                    let k = choose|k: int| 0 <= k < front.len() && front[k].id == prev[k1].id;
                    assert(ms[k].id == ms[ms.len() - 1].id);
                    assert(false);
                } else if k1 >= prev.len() && k2 < prev.len() {
                    assert(has_marble_id(front, prev[k2].id));
                    let k = choose|k: int| 0 <= k < front.len() && front[k].id == prev[k2].id;
                    assert(ms[k].id == ms[ms.len() - 1].id);
                    assert(false);
                }
            }
        }
    }
}

/// Replacing the marble roster with one whose ids all come from the old
/// roster, still pairwise distinct, keeps the state well formed.
pub proof fn lemma_replace_marbles_wf(s: AbsSim, ms: Seq<AbsMarble>)
    requires
        s.wf(),
        forall|x: int| 0 <= x < ms.len() ==> has_marble_id(s.marbles, (#[trigger] ms[x]).id),
        marble_seq_ids_unique(ms),
    ensures
        (AbsSim { marbles: ms, ..s }).wf(),
{
    let d = AbsSim { marbles: ms, ..s };
    assert forall|j: int, i: int, k: int|
        #![trigger d.modules[j].inputs[i], d.marbles[k].id]
        d.is_input_port_at(d.modules[j].inputs[i], j, i) && 0 <= k < d.marbles.len()
            implies d.modules[j].inputs[i] != d.marbles[k].id by {
        assert(s.is_input_port_at(s.modules[j].inputs[i], j, i));
        assert(has_marble_id(s.marbles, ms[k].id));
        let kk = choose|kk: int| 0 <= kk < s.marbles.len() && s.marbles[kk].id == ms[k].id;
        assert(s.modules[j].inputs[i] != s.marbles[kk].id);
    }
}

/// Removing one module keeps the state well formed.
pub proof fn lemma_remove_module_wf(s: AbsSim, j: int)
    requires
        s.wf(),
        0 <= j < s.modules.len(),
    ensures
        (AbsSim { modules: s.modules.remove(j), ..s }).wf(),
{
    let d = AbsSim { modules: s.modules.remove(j), ..s };
    assert forall|x: int| 0 <= x < d.modules.len() implies (#[trigger] d.modules[x])
        == s.modules[if x < j { x } else { x + 1 }] by {
        assert(s.modules.remove(j) =~= s.modules.subrange(0, j) + s.modules.subrange(
            j + 1, s.modules.len() as int));
    }
    assert forall|j1: int, j2: int|
        #![trigger d.modules[j1].id, d.modules[j2].id]
        0 <= j1 < d.modules.len() && 0 <= j2 < d.modules.len()
            && d.modules[j1].id == d.modules[j2].id implies j1 == j2 by {
        let m1 = if j1 < j { j1 } else { j1 + 1 };
        let m2 = if j2 < j { j2 } else { j2 + 1 };
        assert(s.modules[m1].id == s.modules[m2].id);
    }
    assert forall|j1: int, i1: int, j2: int, i2: int|
        #![trigger d.modules[j1].inputs[i1], d.modules[j2].inputs[i2]]
        d.is_input_port_at(d.modules[j1].inputs[i1], j1, i1)
            && d.is_input_port_at(d.modules[j1].inputs[i1], j2, i2)
            implies j1 == j2 && i1 == i2 by {
        let m1 = if j1 < j { j1 } else { j1 + 1 };
        let m2 = if j2 < j { j2 } else { j2 + 1 };
        assert(s.is_input_port_at(s.modules[m1].inputs[i1], m1, i1));
        assert(s.is_input_port_at(s.modules[m1].inputs[i1], m2, i2));
    }
    assert forall|jj: int, i: int, k: int|
        #![trigger d.modules[jj].inputs[i], d.marbles[k].id]
        d.is_input_port_at(d.modules[jj].inputs[i], jj, i) && 0 <= k < d.marbles.len()
            implies d.modules[jj].inputs[i] != d.marbles[k].id by {
        let m = if jj < j { jj } else { jj + 1 };
        assert(s.is_input_port_at(s.modules[m].inputs[i], m, i));
    }
}

} // verus!
