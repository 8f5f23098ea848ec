//! The executable simulation engine.
//!
//! `Sim` owns every placed module and every live marble as plain data.  The
//! host (physics, rendering, editor) drives it once per tick through `tick`,
//! handing in this tick's collision pairs and taking back fire requests.
//! Each pass is proved equal to its transition function in `model`.

use vstd::pervasive::VecAdditionalExecFns;
use vstd::prelude::*;

use crate::entity::EntityId;
use crate::event::{
    hue_of, CollisionStart, FireMarbleEvent, ModuleAction, ModuleEvent, HUE_EMPTY, HUE_OCCUPIED,
};
use crate::marble::{Lifetime, Marble};
use crate::model::{
    apply_event, bridge, bridge_frame, changed_flags, deposit_enabled, deposit_pair, drain, lemma_apply_event, lemma_bridge_frame_trans, lemma_deposit_pair,
    lemma_lifetime_step, lemma_remove_module_wf, lemma_replace_marbles_wf, lemma_timer_pass,
    lemma_without_ids, lifetime_step, module_after_timer, spec_tick, tick_intents, timer_pass,
    timer_pass_anomalies, timer_pass_events, update_pass_events, without_ids, AbsMarble,
    AbsModule, AbsSim,
};
use crate::module::{callback_slots, ModuleCallbackTimer, ModuleType};
use crate::state::ModuleState;

verus! {

/// A marble entity currently rolling through the playfield.
#[derive(Clone, Copy, Debug)]
pub struct LiveMarble {
    pub id: EntityId,
    pub marble: Marble,
    pub lifetime: Lifetime,
}

impl View for LiveMarble {
    type V = AbsMarble;

    open spec fn view(&self) -> AbsMarble {
        AbsMarble { id: self.id, marble: self.marble, lifetime: self.lifetime.0 }
    }
}

/// A placed module: its root entity, its behaviour, its parts and buffers,
/// the hues its indicators currently show, and its callback timer if armed.
#[derive(Debug)]
pub struct PlacedModule {
    pub id: EntityId,
    pub ty: ModuleType,
    pub state: ModuleState,
    pub indicator_hues: Vec<u32>,
    pub timer: Option<ModuleCallbackTimer>,
}

impl View for PlacedModule {
    type V = AbsModule;

    open spec fn view(&self) -> AbsModule {
        AbsModule {
            id: self.id,
            ty: self.ty,
            body: self.state.body,
            inputs: self.state.inputs@,
            indicators: self.state.indicators@,
            outputs: self.state.outputs@,
            decals: self.state.decals@,
            slots: self.state.input_state@,
            hues: self.indicator_hues@,
            timer: match self.timer {
                Some(t) => Some(t.0),
                None => None,
            },
        }
    }
}

/// The whole simulation state.
#[derive(Debug)]
pub struct Sim {
    pub modules: Vec<PlacedModule>,
    pub marbles: Vec<LiveMarble>,
    /// How many callbacks found their slot unexpectedly empty (saturating).
    pub anomalies: u64,
}

impl View for Sim {
    type V = AbsSim;

    open spec fn view(&self) -> AbsSim {
        AbsSim {
            modules: self.modules@.map_values(|m: PlacedModule| m@),
            marbles: self.marbles@.map_values(|m: LiveMarble| m@),
            anomalies: self.anomalies,
        }
    }
}

impl Sim {
    /// An empty playfield.
    pub fn new() -> (s: Sim)
        ensures
            s@.modules == Seq::<AbsModule>::empty(),
            s@.marbles == Seq::<AbsMarble>::empty(),
            s@.anomalies == 0,
            s@.wf(),
    {
        let s = Sim { modules: Vec::new(), marbles: Vec::new(), anomalies: 0 };
        proof {
            assert(s@.modules =~= Seq::<AbsModule>::empty());
            assert(s@.marbles =~= Seq::<AbsMarble>::empty());
        }
        s
    }

    /// Find the module index and port index an input-port entity resolves to.
    fn find_input_port(&self, e: EntityId) -> (r: Option<(usize, usize)>)
        ensures
            match r {
                Some((j, i)) => self@.is_input_port_at(e, j as int, i as int),
                None => !self@.is_input_port(e),
            },
    {
        let n = self.modules.len();
        for j in 0..n
            invariant
                n == self.modules.len(),
                forall|jj: int, ii: int| jj < j ==> !self@.is_input_port_at(e, jj, ii),
        {
            let ports = &self.modules[j].state.inputs;
            let np = ports.len();
            for i in 0..np
                invariant
                    n == self.modules.len(),
                    j < n,
                    np == self.modules[j as int].state.inputs.len(),
                    ports == &self.modules[j as int].state.inputs,
                    forall|jj: int, ii: int| jj < j ==> !self@.is_input_port_at(e, jj, ii),
                    forall|ii: int| ii < i ==> !self@.is_input_port_at(e, j as int, ii),
            {
                if ports[i] == e {
                    assert(self@.modules[j as int].inputs[i as int] == e);
                    return Some((j, i));
                }
            }
        }
        assert forall|jj: int, ii: int| !self@.is_input_port_at(e, jj, ii) by {
            if 0 <= jj < n {
                assert(!self@.is_input_port_at(e, jj, ii));
            }
        }
        None
    }

    /// Find the index of the live marble with this entity id.
    fn find_marble(&self, e: EntityId) -> (r: Option<usize>)
        ensures
            match r {
                Some(k) => 0 <= k < self@.marbles.len() && self@.marbles[k as int].id == e,
                None => !self@.is_live_marble(e),
            },
    {
        let n = self.marbles.len();
        for k in 0..n
            invariant
                n == self.marbles.len(),
                forall|kk: int| 0 <= kk < k ==> self@.marbles[kk].id != e,
        {
            if self.marbles[k].id == e {
                return Some(k);
            }
        }
        None
    }

    /// Find the index of the module whose root entity is `e`.
    fn find_module(&self, e: EntityId) -> (r: Option<usize>)
        ensures
            match r {
                Some(j) => 0 <= j < self@.modules.len() && self@.modules[j as int].id == e,
                None => !self@.has_module(e),
            },
    {
        let n = self.modules.len();
        for j in 0..n
            invariant
                n == self.modules.len(),
                forall|jj: int| 0 <= jj < j ==> self@.modules[jj].id != e,
        {
            if self.modules[j].id == e {
                return Some(j);
            }
        }
        None
    }
}

impl Sim {
    /// Try to deposit marble entity `b` into input port entity `a`.
    /// Returns the index of the module deposited into, if the deposit went
    /// through.
    fn try_deposit(&mut self, a: EntityId, b: EntityId) -> (r: Option<usize>)
        requires
            old(self)@.wf(),
        ensures
            final(self)@ == deposit_pair(old(self)@, a, b),
            final(self)@.wf(),
            match r {
                Some(j) => deposit_enabled(old(self)@, a, b) && j as int == old(self)@.port_of(
                    a,
                ).0,
                None => !deposit_enabled(old(self)@, a, b),
            },
    {
        proof {
            lemma_deposit_pair(self@, a, b);
        }
        let Some((j, i)) = self.find_input_port(a) else {
            return None;
        };
        proof {
            lemma_port_of(self@, a, j as int, i as int);
        }
        if self.modules[j].state.input_state[i].is_some() {
            return None;
        }
        let Some(k) = self.find_marble(b) else {
            return None;
        };
        proof {
            lemma_marble_at(self@, b, k as int);
        }
        let marble = self.marbles[k].marble;
        let ghost pre = self@;
        let m = &mut self.modules[j];
        m.state.input_state.set(i, Some(marble));
        let _ = self.marbles.remove(k);
        proof {
            assert(self@.modules =~= pre.modules.update(
                j as int,
                AbsModule {
                    slots: pre.modules[j as int].slots.update(i as int, Some(marble)),
                    ..pre.modules[j as int]
                },
            ));
            assert(self@.marbles =~= pre.marbles.remove(k as int));
            assert(self@ =~= deposit_pair(pre, a, b));
        }
        Some(j)
    }

    /// The collision -> input bridge: for every collision-start pair reported
    /// this tick, deposit the marble into the input port it hit, if the pair
    /// is such a pair and the slot is free.  A full slot refuses the marble.
    /// Returns one flag per module: whether its input buffer changed.
    pub fn update_inputs(&mut self, collisions: &Vec<CollisionStart>) -> (changed: Vec<bool>)
        requires
            old(self)@.wf(),
        ensures
            final(self)@ == bridge(old(self)@, collisions@),
            final(self)@.wf(),
            changed@ == changed_flags(old(self)@, final(self)@),
    {
        let n = self.modules.len();
        let mut changed: Vec<bool> = Vec::new();
        for j in 0..n
            invariant
                changed@ == Seq::new(j as nat, |jj: int| false),
        {
            changed.push(false);
            proof {
                assert(changed@ =~= Seq::new((j + 1) as nat, |jj: int| false));
            }
        }
        let ncs = collisions.len();
        for idx in 0..ncs
            invariant
                ncs == collisions@.len(),
                self@ == bridge(old(self)@, collisions@.take(idx as int)),
                self@.wf(),
                bridge_frame(old(self)@, self@),
                changed@.len() == old(self)@.modules.len(),
                forall|jj: int| 0 <= jj < changed@.len() ==> changed@[jj] == (
                self@.modules[jj].slots != old(self)@.modules[jj].slots),
        {
            let c = collisions[idx];
            let ghost pre = self@;
            let r1 = self.try_deposit(c.a, c.b);
            proof {
                lemma_deposit_pair(pre, c.a, c.b);
            }
            if let Some(j) = r1 {
                proof {
                    lemma_changed_slot(old(self)@, pre, c.a, c.b);
                }
                changed.set(j, true);
            }
            let ghost mid = self@;
            let r2 = self.try_deposit(c.b, c.a);
            proof {
                lemma_deposit_pair(mid, c.b, c.a);
                lemma_bridge_frame_trans(old(self)@, pre, mid);
            }
            if let Some(j) = r2 {
                proof {
                    lemma_changed_slot(old(self)@, mid, c.b, c.a);
                }
                changed.set(j, true);
            }
            proof {
                lemma_bridge_frame_trans(old(self)@, mid, self@);
                assert(collisions@.take(idx + 1).drop_last() =~= collisions@.take(idx as int));
                assert(collisions@.take(idx + 1).last() == collisions@[idx as int]);
                assert(self@ == bridge(old(self)@, collisions@.take(idx + 1)));
            }
        }
        proof {
            assert(collisions@.take(ncs as int) =~= collisions@);
            assert(changed@ =~= changed_flags(old(self)@, self@));
        }
        changed
    }
}

/// The hues a module's indicators must show for the given slot buffer.
fn compute_hues(slots: &Vec<Option<Marble>>) -> (hues: Vec<u32>)
    ensures
        hues@ == Seq::new(slots@.len(), |i: int| hue_of(slots@[i])),
{
    let n = slots.len();
    let mut hues: Vec<u32> = Vec::new();
    for i in 0..n
        invariant
            n == slots@.len(),
            hues@ == Seq::new(i as nat, |ii: int| hue_of(slots@[ii])),
    {
        let hue = if slots[i].is_some() {
            HUE_OCCUPIED
        } else {
            HUE_EMPTY
        };
        hues.push(hue);
        proof {
            assert(hues@ =~= Seq::new((i + 1) as nat, |ii: int| hue_of(slots@[ii])));
        }
    }
    hues
}

impl Sim {
    /// The module update pass: every module whose input buffer changed this
    /// tick is told so once, and its behaviour's intents are appended in
    /// module order.
    pub fn update_modules(&self, changed: &Vec<bool>, events: &mut Vec<ModuleEvent>)
        requires
            self@.wf(),
            changed@.len() == self@.modules.len(),
        ensures
            final(events)@ == old(events)@ + update_pass_events(
                self@.modules,
                changed@,
                self@.modules.len() as int,
            ),
    {
        let n = self.modules.len();
        for j in 0..n
            invariant
                self@.wf(),
                n == self@.modules.len(),
                changed@.len() == n,
                events@ == old(events)@ + update_pass_events(self@.modules, changed@, j as int),
        {
            if changed[j] {
                let m = &self.modules[j];
                assert(self@.modules[j as int].wf());
                m.ty.update(m.id, &m.state, events);
            }
            proof {
                assert(events@ =~= old(events)@ + update_pass_events(
                    self@.modules, changed@, j + 1));
            }
        }
    }

    /// The callback timer pass: every armed module's countdown falls by one
    /// tick; a countdown that runs out is removed and the module's callback
    /// behaviour runs, its intents appended in module order.
    pub fn update_module_callbacks(&mut self, events: &mut Vec<ModuleEvent>)
        requires
            old(self)@.wf(),
        ensures
            final(self)@ == timer_pass(old(self)@),
            final(self)@.wf(),
            final(events)@ == old(events)@ + timer_pass_events(
                old(self)@.modules,
                old(self)@.modules.len() as int,
            ),
    {
        let n = self.modules.len();
        for j in 0..n
            invariant
                old(self)@.wf(),
                n == old(self)@.modules.len(),
                self@.modules.len() == n,
                forall|jj: int| 0 <= jj < j ==> #[trigger] self@.modules[jj]
                    == module_after_timer(old(self)@.modules[jj]),
                forall|jj: int| j <= jj < n ==> #[trigger] self@.modules[jj]
                    == old(self)@.modules[jj],
                self@.marbles == old(self)@.marbles,
                self@.anomalies == timer_pass_anomalies(
                    old(self)@.anomalies, old(self)@.modules, j as int),
                events@ == old(events)@ + timer_pass_events(old(self)@.modules, j as int),
        {
            let ghost pre = self@;
            let timer = self.modules[j].timer;
            match timer {
                None => {},
                Some(t) => {
                    if t.0 > 1 {
                        let m = &mut self.modules[j];
                        m.timer = Some(ModuleCallbackTimer(t.0 - 1));
                        proof {
                            assert(self@.modules =~= pre.modules.update(
                                j as int,
                                AbsModule { timer: Some((t.0 - 1) as u32), ..pre.modules[j as int] },
                            ));
                        }
                    } else {
                        let ty = self.modules[j].ty;
                        let target = self.modules[j].id;
                        assert(old(self)@.modules[j as int].wf());
                        let m = &mut self.modules[j];
                        m.timer = None;
                        let anomaly = ty.callback_update(target, &mut m.state, events);
                        if anomaly {
                            if self.anomalies < u64::MAX {
                                self.anomalies = self.anomalies + 1;
                            }
                        }
                        proof {
                            assert(self@.modules =~= pre.modules.update(
                                j as int,
                                AbsModule {
                                    timer: None,
                                    slots: callback_slots(ty, pre.modules[j as int].slots),
                                    ..pre.modules[j as int]
                                },
                            ));
                        }
                    }
                },
            }
            proof {
                assert(events@ =~= old(events)@ + timer_pass_events(
                    old(self)@.modules, j + 1));
            }
        }
        proof {
            assert(self@.modules =~= Seq::new(
                old(self)@.modules.len(),
                |j: int| module_after_timer(old(self)@.modules[j]),
            ));
            assert(self@ =~= timer_pass(old(self)@));
            lemma_timer_pass(old(self)@);
        }
    }

    /// The event bus drain: perform this tick's intents in emission order and
    /// collect the fire requests for the physics layer.  An intent whose
    /// target module no longer exists is dropped without effect.
    pub fn do_module_events(&mut self, events: &Vec<ModuleEvent>) -> (fires: Vec<FireMarbleEvent>)
        requires
            old(self)@.wf(),
        ensures
            final(self)@ == drain(old(self)@, events@).0,
            fires@ == drain(old(self)@, events@).1,
            final(self)@.wf(),
    {
        let mut fires: Vec<FireMarbleEvent> = Vec::new();
        let n = events.len();
        for idx in 0..n
            invariant
                n == events@.len(),
                self@ == drain(old(self)@, events@.take(idx as int)).0,
                fires@ == drain(old(self)@, events@.take(idx as int)).1,
                self@.wf(),
        {
            let ev = events[idx];
            let ghost pre = self@;
            proof {
                lemma_apply_event(pre, ev);
            }
            match self.find_module(ev.target) {
                None => {},
                Some(j) => {
                    proof {
                        lemma_module_at(pre, ev.target, j as int);
                    }
                    match ev.action {
                        ModuleAction::FireMarble(mb) => {
                            if self.modules[j].state.outputs.len() > 0 {
                                let from = self.modules[j].state.outputs[0];
                                fires.push(FireMarbleEvent { marble: mb, from });
                            }
                        },
                        ModuleAction::UpdateIndicatorColors => {
                            let hues = compute_hues(&self.modules[j].state.input_state);
                            let m = &mut self.modules[j];
                            m.indicator_hues = hues;
                            proof {
                                assert(self@.modules =~= pre.modules.update(
                                    j as int,
                                    AbsModule {
                                        hues: Seq::new(
                                            pre.modules[j as int].slots.len(),
                                            |i: int| hue_of(pre.modules[j as int].slots[i]),
                                        ),
                                        ..pre.modules[j as int]
                                    },
                                ));
                            }
                        },
                        ModuleAction::ArmCallback(d) => {
                            let m = &mut self.modules[j];
                            m.timer = Some(ModuleCallbackTimer(d));
                            proof {
                                assert(self@.modules =~= pre.modules.update(
                                    j as int,
                                    AbsModule { timer: Some(d), ..pre.modules[j as int] },
                                ));
                            }
                        },
                    }
                },
            }
            proof {
                assert(self@ =~= apply_event(pre, ev).0);
                assert(events@.take(idx + 1).drop_last() =~= events@.take(idx as int));
                assert(events@.take(idx + 1).last() == events@[idx as int]);
                assert(fires@ =~= drain(old(self)@, events@.take(idx + 1)).1);
            }
        }
        proof {
            assert(events@.take(n as int) =~= events@);
        }
        fires
    }

    /// One whole simulation tick, in the fixed pass order: collision bridge,
    /// module update pass, callback timer pass, event bus drain.  Returns the
    /// fire requests to hand to the physics layer.
    pub fn tick(&mut self, collisions: &Vec<CollisionStart>) -> (fires: Vec<FireMarbleEvent>)
        requires
            old(self)@.wf(),
        ensures
            final(self)@ == spec_tick(old(self)@, collisions@).0,
            fires@ == spec_tick(old(self)@, collisions@).1,
            final(self)@.wf(),
    {
        let changed = self.update_inputs(collisions);
        let mut events: Vec<ModuleEvent> = Vec::new();
        self.update_modules(&changed, &mut events);
        let ghost s1 = self@;
        self.update_module_callbacks(&mut events);
        proof {
            assert(events@ =~= tick_intents(old(self)@, s1));
        }
        let fires = self.do_module_events(&events);
        fires
    }
}

/// When a deposit goes through, the receiving module's buffer now differs
/// from what it was at the start of the bridge, and no other module's buffer
/// moved this step.
proof fn lemma_changed_slot(s0: AbsSim, pre: AbsSim, a: EntityId, b: EntityId)
    requires
        bridge_frame(s0, pre),
        pre.wf(),
        deposit_enabled(pre, a, b),
    ensures
        ({
            let post = deposit_pair(pre, a, b);
            let j = pre.port_of(a).0;
            &&& 0 <= j < pre.modules.len()
            &&& post.modules[j].slots != s0.modules[j].slots
            &&& forall|jj: int| 0 <= jj < pre.modules.len() && jj != j
                ==> (#[trigger] post.modules[jj]).slots == pre.modules[jj].slots
        }),
{
    let post = deposit_pair(pre, a, b);
    let j = pre.port_of(a).0;
    let i = pre.port_of(a).1;
    assert(pre.is_input_port_at(a, j, i));
    assert(pre.modules[j].wf());
    assert(post.modules[j].slots[i] is Some);
    assert(pre.modules[j].slots[i] is None);
    if s0.modules[j].slots[i] is Some {
        assert(pre.modules[j].slots[i] == s0.modules[j].slots[i]);
        assert(false);
    }
    assert(post.modules[j].slots[i] != s0.modules[j].slots[i]);
}

/// Under uniqueness of input ports, resolution is a function: any witness
/// pair is the one `port_of` picks.
pub proof fn lemma_port_of(s: AbsSim, e: EntityId, j: int, i: int)
    requires
        s.input_ports_unique(),
        s.is_input_port_at(e, j, i),
    ensures
        s.is_input_port(e),
        s.port_of(e) == (j, i),
{
    assert(s.is_input_port(e));
    let (j2, i2) = s.port_of(e);
    assert(s.is_input_port_at(e, j2, i2));
    assert(s.modules[j].inputs[i] == e);
    assert(s.modules[j2].inputs[i2] == e);
}

/// Under uniqueness of marble ids, any witness index is the one `marble_at`
/// picks.
pub proof fn lemma_marble_at(s: AbsSim, e: EntityId, k: int)
    requires
        s.marble_ids_unique(),
        0 <= k < s.marbles.len(),
        s.marbles[k].id == e,
    ensures
        s.is_live_marble(e),
        s.marble_at(e) == k,
{
    assert(s.is_live_marble(e));
    let k2 = s.marble_at(e);
    assert(0 <= k2 < s.marbles.len() && s.marbles[k2].id == e);
}

/// Under uniqueness of module ids, any witness index is the one `module_at`
/// picks.
pub proof fn lemma_module_at(s: AbsSim, e: EntityId, j: int)
    requires
        s.module_ids_unique(),
        0 <= j < s.modules.len(),
        s.modules[j].id == e,
    ensures
        s.has_module(e),
        s.module_at(e) == j,
{
    assert(s.has_module(e));
    let j2 = s.module_at(e);
    assert(0 <= j2 < s.modules.len() && s.modules[j2].id == e);
}

/// Whether an id occurs in a list of entity handles.
fn id_in(v: &Vec<EntityId>, e: EntityId) -> (r: bool)
    ensures
        r == v@.contains(e),
{
    let n = v.len();
    for k in 0..n
        invariant
            n == v@.len(),
            forall|kk: int| 0 <= kk < k ==> v@[kk] != e,
    {
        if v[k] == e {
            return true;
        }
    }
    false
}

/// Age every marble by one tick and reclaim the ones whose lifetime ran out,
/// so that a marble that never reaches an input cannot linger forever.
pub fn update_lifetime(sim: &mut Sim)
    requires
        old(sim)@.wf(),
    ensures
        final(sim)@.modules == old(sim)@.modules,
        final(sim)@.anomalies == old(sim)@.anomalies,
        final(sim)@.marbles == lifetime_step(old(sim)@.marbles),
        final(sim)@.wf(),
{
    let n = sim.marbles.len();
    let mut kept: Vec<LiveMarble> = Vec::new();
    for k in 0..n
        invariant
            n == sim.marbles@.len(),
            sim.marbles@ == old(sim).marbles@,
            kept@.map_values(|m: LiveMarble| m@) == lifetime_step(
                old(sim)@.marbles.take(k as int)),
    {
        let lm = sim.marbles[k];
        proof {
            assert(old(sim)@.marbles.take(k + 1).drop_last() =~= old(sim)@.marbles.take(k as int));
            assert(old(sim)@.marbles.take(k + 1).last() == old(sim)@.marbles[k as int]);
        }
        if lm.lifetime.0 > 1 {
            kept.push(LiveMarble { lifetime: Lifetime(lm.lifetime.0 - 1), ..lm });
            proof {
                assert(kept@.map_values(|m: LiveMarble| m@) =~= lifetime_step(
                    old(sim)@.marbles.take(k + 1)));
            }
        } else {
            proof {
                assert(kept@.map_values(|m: LiveMarble| m@) =~= lifetime_step(
                    old(sim)@.marbles.take(k + 1)));
            }
        }
    }
    sim.marbles = kept;
    proof {
        assert(old(sim)@.marbles.take(n as int) =~= old(sim)@.marbles);
        lemma_lifetime_step(old(sim)@.marbles);
        lemma_replace_marbles_wf(old(sim)@, lifetime_step(old(sim)@.marbles));
        assert(sim@ =~= (AbsSim { marbles: lifetime_step(old(sim)@.marbles), ..old(sim)@ }));
    }
}

/// Remove the marbles the host reports gone (fallen out of the playfield or
/// otherwise reclaimed by the physics layer).
pub fn despawn_marbles(sim: &mut Sim, gone: &Vec<EntityId>)
    requires
        old(sim)@.wf(),
    ensures
        final(sim)@.modules == old(sim)@.modules,
        final(sim)@.anomalies == old(sim)@.anomalies,
        final(sim)@.marbles == without_ids(old(sim)@.marbles, gone@),
        final(sim)@.wf(),
{
    let n = sim.marbles.len();
    let mut kept: Vec<LiveMarble> = Vec::new();
    for k in 0..n
        invariant
            n == sim.marbles@.len(),
            sim.marbles@ == old(sim).marbles@,
            kept@.map_values(|m: LiveMarble| m@) == without_ids(
                old(sim)@.marbles.take(k as int), gone@),
    {
        let lm = sim.marbles[k];
        proof {
            assert(old(sim)@.marbles.take(k + 1).drop_last() =~= old(sim)@.marbles.take(k as int));
            assert(old(sim)@.marbles.take(k + 1).last() == old(sim)@.marbles[k as int]);
        }
        if !id_in(gone, lm.id) {
            kept.push(lm);
        }
        proof {
            assert(kept@.map_values(|m: LiveMarble| m@) =~= without_ids(
                old(sim)@.marbles.take(k + 1), gone@));
        }
    }
    sim.marbles = kept;
    proof {
        assert(old(sim)@.marbles.take(n as int) =~= old(sim)@.marbles);
        lemma_without_ids(old(sim)@.marbles, gone@);
        lemma_replace_marbles_wf(old(sim)@, without_ids(old(sim)@.marbles, gone@));
        assert(sim@ =~= (AbsSim { marbles: without_ids(old(sim)@.marbles, gone@), ..old(sim)@ }));
    }
}

/// The module a fresh placement adds: every slot empty, every indicator on
/// the empty hue, no timer armed.
pub open spec fn fresh_module(
    id: EntityId,
    ty: ModuleType,
    body: EntityId,
    inputs: Seq<EntityId>,
    indicators: Seq<EntityId>,
    outputs: Seq<EntityId>,
    decals: Seq<EntityId>,
) -> AbsModule {
    AbsModule {
        id,
        ty,
        body,
        inputs,
        indicators,
        outputs,
        decals,
        slots: Seq::new(inputs.len(), |i: int| None),
        hues: Seq::new(inputs.len(), |i: int| HUE_EMPTY),
        timer: None,
    }
}

/// A placement is accepted exactly when the part counts match the module
/// type's declared topology and the new handles collide with nothing the
/// simulation already tracks.
pub open spec fn can_place(
    s: AbsSim,
    id: EntityId,
    ty: ModuleType,
    inputs: Seq<EntityId>,
    indicators: Seq<EntityId>,
    outputs: Seq<EntityId>,
) -> bool {
    &&& inputs.len() == ty.num_inputs_spec()
    &&& indicators.len() == inputs.len()
    &&& outputs.len() == ty.num_outputs_spec()
    &&& !s.has_module(id)
    &&& forall|i: int| 0 <= i < inputs.len() ==> !s.is_input_port(#[trigger] inputs[i])
        && !s.is_live_marble(inputs[i])
    &&& forall|i1: int, i2: int|
        0 <= i1 < inputs.len() && 0 <= i2 < inputs.len() && #[trigger] inputs[i1]
            == #[trigger] inputs[i2] ==> i1 == i2
}

/// A marble entity is accepted exactly when its handle collides with nothing
/// the simulation already tracks.
pub open spec fn can_add_marble(s: AbsSim, id: EntityId) -> bool {
    &&& !s.is_live_marble(id)
    &&& !s.is_input_port(id)
}

impl Sim {
    /// Place a fully formed module: the host has already spawned its part
    /// entities and resolved its ports.  Rejected (and nothing changes) if
    /// the part counts do not match the module type or a handle is already
    /// taken.
    pub fn place_module(
        &mut self,
        id: EntityId,
        ty: ModuleType,
        body: EntityId,
        inputs: Vec<EntityId>,
        indicators: Vec<EntityId>,
        outputs: Vec<EntityId>,
        decals: Vec<EntityId>,
    ) -> (ok: bool)
        requires
            old(self)@.wf(),
        ensures
            ok == can_place(old(self)@, id, ty, inputs@, indicators@, outputs@),
            ok ==> final(self)@ == (AbsSim {
                modules: old(self)@.modules.push(
                    fresh_module(id, ty, body, inputs@, indicators@, outputs@, decals@),
                ),
                ..old(self)@
            }),
            !ok ==> final(self)@ == old(self)@,
            final(self)@.wf(),
    {
        let n_in = inputs.len();
        if n_in != ty.num_inputs() || indicators.len() != n_in || outputs.len()
            != ty.num_outputs() {
            return false;
        }
        if self.find_module(id).is_some() {
            return false;
        }
        for i in 0..n_in
            invariant
                self@ == old(self)@,
                self@.wf(),
                n_in == inputs@.len(),
                forall|ii: int| 0 <= ii < i ==> !self@.is_input_port(#[trigger] inputs@[ii])
                    && !self@.is_live_marble(inputs@[ii]),
                forall|i1: int, i2: int|
                    0 <= i1 < i && 0 <= i2 < i && #[trigger] inputs@[i1] == #[trigger] inputs@[i2]
                        ==> i1 == i2,
        {
            if self.find_input_port(inputs[i]).is_some() {
                return false;
            }
            if self.find_marble(inputs[i]).is_some() {
                return false;
            }
            for i2 in 0..i
                invariant
                    self@ == old(self)@,
                    self@.wf(),
                    i < n_in,
                    n_in == inputs@.len(),
                    forall|ii: int| 0 <= ii < i2 ==> inputs@[ii] != inputs@[i as int],
            {
                if inputs[i2] == inputs[i] {
                    return false;
                }
            }
        }
        let n_slots = inputs.len();
        let state = ModuleState::new(body, inputs, indicators, outputs, decals);
        let mut hues: Vec<u32> = Vec::new();
        for k in 0..n_slots
            invariant
                hues@ == Seq::new(k as nat, |i: int| HUE_EMPTY),
        {
            hues.push(HUE_EMPTY);
            proof {
                assert(hues@ =~= Seq::new((k + 1) as nat, |i: int| HUE_EMPTY));
            }
        }
        let ghost pre = self@;
        let ghost fresh = fresh_module(
            id, ty, state.body, state.inputs@, state.indicators@, state.outputs@, state.decals@);
        self.modules.push(PlacedModule { id, ty, state, indicator_hues: hues, timer: None });
        proof {
            assert(self@.modules =~= pre.modules.push(fresh));
            assert(self@ =~= (AbsSim { modules: pre.modules.push(fresh), ..pre }));
            lemma_place_wf(pre, fresh);
        }
        true
    }

    /// Remove a placed module and everything it owns.  A timer armed on it
    /// dies with it: its callback will never run.  Returns whether the module
    /// existed.
    pub fn destroy_module(&mut self, id: EntityId) -> (found: bool)
        requires
            old(self)@.wf(),
        ensures
            found == old(self)@.has_module(id),
            found ==> final(self)@ == (AbsSim {
                modules: old(self)@.modules.remove(old(self)@.module_at(id)),
                ..old(self)@
            }),
            !found ==> final(self)@ == old(self)@,
            final(self)@.wf(),
    {
        let Some(j) = self.find_module(id) else {
            return false;
        };
        proof {
            lemma_module_at(self@, id, j as int);
            lemma_remove_module_wf(self@, j as int);
        }
        let ghost pre = self@;
        let _ = self.modules.remove(j);
        proof {
            assert(self@.modules =~= pre.modules.remove(j as int));
            assert(self@ =~= (AbsSim { modules: pre.modules.remove(j as int), ..pre }));
        }
        true
    }

    /// Track a marble entity the physics layer has spawned.  Rejected (and
    /// nothing changes) if the handle is already taken.
    pub fn add_marble(&mut self, id: EntityId, marble: Marble, lifetime: Lifetime) -> (ok: bool)
        requires
            old(self)@.wf(),
        ensures
            ok == can_add_marble(old(self)@, id),
            ok ==> final(self)@ == (AbsSim {
                marbles: old(self)@.marbles.push(
                    AbsMarble { id, marble, lifetime: lifetime.0 },
                ),
                ..old(self)@
            }),
            !ok ==> final(self)@ == old(self)@,
            final(self)@.wf(),
    {
        if self.find_marble(id).is_some() {
            return false;
        }
        if self.find_input_port(id).is_some() {
            return false;
        }
        let ghost pre = self@;
        self.marbles.push(LiveMarble { id, marble, lifetime });
        proof {
            assert(self@.marbles =~= pre.marbles.push(AbsMarble { id, marble, lifetime: lifetime.0 }));
            assert(self@ =~= (AbsSim {
                marbles: pre.marbles.push(AbsMarble { id, marble, lifetime: lifetime.0 }),
                ..pre
            }));
            lemma_add_marble_wf(pre, AbsMarble { id, marble, lifetime: lifetime.0 });
        }
        true
    }
}

/// Appending a module whose handles are fresh keeps the state well formed.
proof fn lemma_place_wf(s: AbsSim, m: AbsModule)
    requires
        s.wf(),
        m.wf(),
        !s.has_module(m.id),
        forall|i: int| 0 <= i < m.inputs.len() ==> !s.is_input_port(#[trigger] m.inputs[i])
            && !s.is_live_marble(m.inputs[i]),
        forall|i1: int, i2: int|
            0 <= i1 < m.inputs.len() && 0 <= i2 < m.inputs.len() && #[trigger] m.inputs[i1]
                == #[trigger] m.inputs[i2] ==> i1 == i2,
    ensures
        (AbsSim { modules: s.modules.push(m), ..s }).wf(),
{
    let d = AbsSim { modules: s.modules.push(m), ..s };
    let n = s.modules.len() as int;
    assert forall|j1: int, j2: int|
        #![trigger d.modules[j1].id, d.modules[j2].id]
        0 <= j1 < d.modules.len() && 0 <= j2 < d.modules.len()
            && d.modules[j1].id == d.modules[j2].id implies j1 == j2 by {
        if j1 < n && j2 == n {
            assert(s.modules[j1].id == m.id);
            assert(false);
        }
        if j1 == n && j2 < n {
            assert(s.modules[j2].id == m.id);
            assert(false);
        }
        if j1 < n && j2 < n {
            assert(s.modules[j1].id == s.modules[j2].id);
        }
    }
    assert forall|j1: int, i1: int, j2: int, i2: int|
        #![trigger d.modules[j1].inputs[i1], d.modules[j2].inputs[i2]]
        d.is_input_port_at(d.modules[j1].inputs[i1], j1, i1)
            && d.is_input_port_at(d.modules[j1].inputs[i1], j2, i2)
            implies j1 == j2 && i1 == i2 by {
        if j1 < n && j2 < n {
            assert(s.is_input_port_at(s.modules[j1].inputs[i1], j1, i1));
            assert(s.is_input_port_at(s.modules[j1].inputs[i1], j2, i2));
        }
        if j1 == n && j2 < n {
            assert(s.is_input_port_at(m.inputs[i1], j2, i2));
            assert(!s.is_input_port(m.inputs[i1]));
            assert(false);
        }
        if j1 < n && j2 == n {
            assert(d.modules[j1].inputs[i1] == m.inputs[i2]);
            assert(s.is_input_port_at(m.inputs[i2], j1, i1));
            assert(!s.is_input_port(m.inputs[i2]));
            assert(false);
        }
    }
    assert forall|j: int, i: int, k: int|
        #![trigger d.modules[j].inputs[i], d.marbles[k].id]
        d.is_input_port_at(d.modules[j].inputs[i], j, i) && 0 <= k < d.marbles.len()
            implies d.modules[j].inputs[i] != d.marbles[k].id by {
        if j < n {
            assert(s.is_input_port_at(s.modules[j].inputs[i], j, i));
        } else {
            assert(!s.is_live_marble(m.inputs[i]));
        }
    }
}

/// Appending a marble whose handle is fresh keeps the state well formed.
proof fn lemma_add_marble_wf(s: AbsSim, m: AbsMarble)
    requires
        s.wf(),
        !s.is_live_marble(m.id),
        !s.is_input_port(m.id),
    ensures
        (AbsSim { marbles: s.marbles.push(m), ..s }).wf(),
{
    let d = AbsSim { marbles: s.marbles.push(m), ..s };
    let n = s.marbles.len() as int;
    assert forall|k1: int, k2: int|
        #![trigger d.marbles[k1].id, d.marbles[k2].id]
        0 <= k1 < d.marbles.len() && 0 <= k2 < d.marbles.len()
            && d.marbles[k1].id == d.marbles[k2].id implies k1 == k2 by {
        if k1 < n && k2 == n {
            assert(s.marbles[k1].id == m.id);
            assert(false);
        }
        if k1 == n && k2 < n {
            assert(s.marbles[k2].id == m.id);
            assert(false);
        }
        if k1 < n && k2 < n {
            assert(s.marbles[k1].id == s.marbles[k2].id);
        }
    }
    assert forall|j: int, i: int, k: int|
        #![trigger d.modules[j].inputs[i], d.marbles[k].id]
        d.is_input_port_at(d.modules[j].inputs[i], j, i) && 0 <= k < d.marbles.len()
            implies d.modules[j].inputs[i] != d.marbles[k].id by {
        assert(s.is_input_port_at(s.modules[j].inputs[i], j, i));
        if k < n {
            assert(s.modules[j].inputs[i] != s.marbles[k].id);
        } else {
            assert(!s.is_input_port(m.id));
        }
    }
}

} // verus!
