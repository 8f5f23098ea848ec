//! The engine's guarantees, stated and proved against the model.
//!
//! Each law here is a public proof function over the transition functions of
//! `model`; the executable passes in `sim` are proved equal to those
//! transitions, so these laws carry over to every run of the engine.

use vstd::prelude::*;

use crate::entity::EntityId;
use crate::event::{CollisionStart, FireMarbleEvent, ModuleAction, ModuleEvent};
use crate::marble::Marble;
use crate::model::{
    apply_event, bridge, changed_flags, collision_step, deposit_enabled, deposit_pair, drain,
    lemma_apply_event, lemma_bridge, lemma_drain, lemma_timer_pass, module_after_timer, spec_tick,
    tick_intents, timer_anomaly, timer_events, timer_fires, timer_pass, timer_pass_anomalies,
    timer_pass_events, update_pass_events, AbsModule, AbsSim,
};
use crate::module::{callback_emits, ModuleType};
use crate::sim::{lemma_module_at, lemma_port_of};

verus! {

// ---------------------------------------------------------------------------
// Exclusivity: no silent overwrite of an occupied slot
// ---------------------------------------------------------------------------

/// For every sequence of collision events, an occupied input slot keeps
/// exactly its marble through the whole bridge: a slot that is `Some` never
/// becomes `Some` of a different value without first passing through `None`,
/// and the bridge never empties a slot at all.
pub proof fn lemma_exclusivity_bridge(
    s: AbsSim,
    cs: Seq<CollisionStart>,
    j: int,
    i: int,
    v: Marble,
)
    requires
        s.wf(),
        0 <= j < s.modules.len(),
        0 <= i < s.modules[j].slots.len(),
        s.modules[j].slots[i] == Some(v),
    ensures
        bridge(s, cs).modules[j].slots[i] == Some(v),
{
    lemma_bridge(s, cs);
}

/// Across one whole tick, an occupied slot either keeps exactly its marble
/// or returns to `None` (consumed by its own module's callback); it is never
/// replaced by a different marble.
pub proof fn lemma_exclusivity_tick(
    s: AbsSim,
    cs: Seq<CollisionStart>,
    j: int,
    i: int,
    v: Marble,
)
    requires
        s.wf(),
        0 <= j < s.modules.len(),
        0 <= i < s.modules[j].slots.len(),
        s.modules[j].slots[i] == Some(v),
    ensures
        spec_tick(s, cs).0.modules[j].slots[i] == Some(v) || spec_tick(s, cs).0.modules[j].slots[i]
            is None,
{
    lemma_bridge(s, cs);
    let s1 = bridge(s, cs);
    let s2 = timer_pass(s1);
    assert(s2.modules[j] == module_after_timer(s1.modules[j]));
    assert(s2.modules[j].slots[i] == Some(v) || s2.modules[j].slots[i] is None);
    lemma_timer_pass(s1);
    lemma_drain(s2, tick_intents(s, s1));
}

// ---------------------------------------------------------------------------
// Backpressure: a full slot refuses marbles, with no other effect
// ---------------------------------------------------------------------------

/// A marble colliding with an already-occupied input port changes nothing:
/// the tick runs exactly as if the collision had not been reported.  In
/// particular the slot's value stays, and no second callback is armed.
pub proof fn lemma_backpressure(s: AbsSim, c: CollisionStart, j: int, i: int)
    requires
        s.wf(),
        s.is_input_port_at(c.a, j, i),
        s.modules[j].slots[i] is Some,
        s.is_live_marble(c.b),
    ensures
        spec_tick(s, seq![c]) == spec_tick(s, Seq::<CollisionStart>::empty()),
{
    lemma_port_of(s, c.a, j, i);
    assert(s.modules[j].wf());
    assert(!deposit_enabled(s, c.a, c.b));
    assert(deposit_pair(s, c.a, c.b) == s);
    let k = choose|k: int| 0 <= k < s.marbles.len() && s.marbles[k].id == c.b;
    assert forall|j2: int, i2: int| !s.is_input_port_at(c.b, j2, i2) by {
        if s.is_input_port_at(c.b, j2, i2) {
            assert(s.modules[j2].inputs[i2] != s.marbles[k].id);
        }
    }
    assert(!s.is_input_port(c.b));
    assert(!deposit_enabled(s, c.b, c.a));
    assert(collision_step(s, c) == s);
    assert(seq![c].drop_last() =~= Seq::<CollisionStart>::empty());
    assert(seq![c].last() == c);
    assert(bridge(s, Seq::<CollisionStart>::empty()) == s);
    assert(bridge(s, seq![c].drop_last()) == s);
    assert(bridge(s, seq![c]) == s);
}

// ---------------------------------------------------------------------------
// Idempotent indicator state
// ---------------------------------------------------------------------------

/// Refreshing a module's indicator colours twice in a row, with no change to
/// its input buffer in between, shows the same colours as refreshing once.
pub proof fn lemma_indicator_idempotent(s: AbsSim, ev: ModuleEvent)
    requires
        s.wf(),
        ev.action is UpdateIndicatorColors,
    ensures
        apply_event(apply_event(s, ev).0, ev).0 == apply_event(s, ev).0,
{
    let d = apply_event(s, ev).0;
    lemma_apply_event(s, ev);
    if s.has_module(ev.target) {
        let j = s.module_at(ev.target);
        assert(0 <= j < s.modules.len() && s.modules[j].id == ev.target);
        assert(d.modules[j].id == ev.target);
        lemma_module_at(d, ev.target, j);
        let d2 = apply_event(d, ev).0;
        assert(d2.modules[j].hues =~= d.modules[j].hues);
        assert(d2.modules[j] =~= d.modules[j]);
        assert(d2.modules =~= d.modules);
        assert(d2 =~= d);
    } else {
        assert(d == s);
        assert(!d.has_module(ev.target));
    }
}

// ---------------------------------------------------------------------------
// Timer liveness: a destroyed module is never called back
// ---------------------------------------------------------------------------

/// Every intent the update pass emits targets a module that exists.
proof fn lemma_update_events_targets(ms: Seq<AbsModule>, changed: Seq<bool>, n: int)
    requires
        n <= ms.len(),
    ensures
        forall|x: int| 0 <= x < update_pass_events(ms, changed, n).len() ==> exists|jj: int|
            0 <= jj < n && (#[trigger] update_pass_events(ms, changed, n)[x]).target
                == ms[jj].id,
    decreases n,
{
    if n <= 0 {
    } else {
        lemma_update_events_targets(ms, changed, n - 1);
        let prev = update_pass_events(ms, changed, n - 1);
        let all = update_pass_events(ms, changed, n);
        assert forall|x: int| 0 <= x < all.len() implies exists|jj: int|
            0 <= jj < n && (#[trigger] all[x]).target == ms[jj].id by {
            if x < prev.len() {
                let jj = choose|jj: int| 0 <= jj < n - 1 && prev[x].target == ms[jj].id;
                assert(0 <= jj < n && all[x].target == ms[jj].id);
            } else {
                assert(all[x].target == ms[n - 1].id);
            }
        }
    }
}

/// Every intent the timer pass emits targets a module that exists.
proof fn lemma_timer_events_targets(ms: Seq<AbsModule>, n: int)
    requires
        n <= ms.len(),
    ensures
        forall|x: int| 0 <= x < timer_pass_events(ms, n).len() ==> exists|jj: int|
            0 <= jj < n && (#[trigger] timer_pass_events(ms, n)[x]).target == ms[jj].id,
    decreases n,
{
    if n <= 0 {
    } else {
        lemma_timer_events_targets(ms, n - 1);
        let prev = timer_pass_events(ms, n - 1);
        let all = timer_pass_events(ms, n);
        assert forall|x: int| 0 <= x < all.len() implies exists|jj: int|
            0 <= jj < n && (#[trigger] all[x]).target == ms[jj].id by {
            if x < prev.len() {
                let jj = choose|jj: int| 0 <= jj < n - 1 && prev[x].target == ms[jj].id;
                assert(0 <= jj < n && all[x].target == ms[jj].id);
            } else {
                assert(all[x].target == ms[n - 1].id);
            }
        }
    }
}

/// Destroying a module while its callback timer is armed drops the pending
/// callback without effect: in the state with the module removed, no intent
/// of any later tick addresses the destroyed entity, so nothing fires from
/// it and nothing is mutated on its behalf.
pub proof fn lemma_timer_liveness(s: AbsSim, cs: Seq<CollisionStart>, id: EntityId)
    requires
        s.wf(),
        s.has_module(id),
    ensures
        ({
            let d = AbsSim { modules: s.modules.remove(s.module_at(id)), ..s };
            forall|x: int| 0 <= x < tick_intents(d, bridge(d, cs)).len()
                ==> (#[trigger] tick_intents(d, bridge(d, cs))[x]).target != id
        }),
{
    let jd = s.module_at(id);
    assert(0 <= jd < s.modules.len() && s.modules[jd].id == id);
    let d = AbsSim { modules: s.modules.remove(jd), ..s };
    crate::model::lemma_remove_module_wf(s, jd);
    assert forall|j: int| 0 <= j < d.modules.len() implies (#[trigger] d.modules[j]).id
        != id by {
        assert(s.modules.remove(jd) =~= s.modules.subrange(0, jd) + s.modules.subrange(
            jd + 1, s.modules.len() as int));
        let m = if j < jd { j } else { j + 1 };
        assert(d.modules[j] == s.modules[m]);
        if s.modules[m].id == id {
            assert(s.modules[m].id == s.modules[jd].id);
            assert(m == jd);
            assert(false);
        }
    }
    lemma_bridge(d, cs);
    let d1 = bridge(d, cs);
    let evs = tick_intents(d, d1);
    lemma_update_events_targets(d1.modules, changed_flags(d, d1), d1.modules.len() as int);
    lemma_timer_events_targets(d1.modules, d1.modules.len() as int);
    let upd = update_pass_events(d1.modules, changed_flags(d, d1), d1.modules.len() as int);
    assert forall|x: int| 0 <= x < evs.len() implies (#[trigger] evs[x]).target != id by {
        if x < upd.len() {
            let jj = choose|jj: int|
                0 <= jj < d1.modules.len() && upd[x].target == d1.modules[jj].id;
            assert(d1.modules[jj].id == d.modules[jj].id);
        } else {
            let tev = timer_pass_events(d1.modules, d1.modules.len() as int);
            assert(evs[x] == tev[x - upd.len()]);
            let jj = choose|jj: int|
                0 <= jj < d1.modules.len() && tev[x - upd.len()].target == d1.modules[jj].id;
            assert(d1.modules[jj].id == d.modules[jj].id);
        }
    }
}

// ---------------------------------------------------------------------------
// Conservation under normal flow
// ---------------------------------------------------------------------------

/// Run `n` ticks with no collisions reported, collecting every fire request.
pub open spec fn run_quiet(s: AbsSim, n: nat) -> (AbsSim, Seq<FireMarbleEvent>)
    decreases n,
{
    if n == 0 {
        (s, seq![])
    } else {
        let first = spec_tick(s, Seq::<CollisionStart>::empty());
        let rest = run_quiet(first.0, (n - 1) as nat);
        (rest.0, first.1 + rest.1)
    }
}

/// With no module's buffer changed, the update pass emits nothing.
proof fn lemma_update_events_all_false(ms: Seq<AbsModule>, changed: Seq<bool>, n: int)
    requires
        forall|jj: int| 0 <= jj < n ==> !changed[jj],
    ensures
        update_pass_events(ms, changed, n) == Seq::<ModuleEvent>::empty(),
    decreases n,
{
    if n <= 0 {
    } else {
        lemma_update_events_all_false(ms, changed, n - 1);
        assert(update_pass_events(ms, changed, n) =~= Seq::<ModuleEvent>::empty());
    }
}

/// When at most module `j` can fire this pass, the timer pass emits exactly
/// that module's callback events, or nothing.
proof fn lemma_timer_events_single(ms: Seq<AbsModule>, n: int, j: int)
    requires
        forall|jj: int| 0 <= jj < n && jj != j ==> !timer_fires(#[trigger] ms[jj]),
    ensures
        timer_pass_events(ms, n) == if 0 <= j < n && timer_fires(ms[j]) {
            timer_events(ms[j])
        } else {
            Seq::<ModuleEvent>::empty()
        },
    decreases n,
{
    if n <= 0 {
    } else {
        lemma_timer_events_single(ms, n - 1, j);
        if 0 <= j < n && timer_fires(ms[j]) {
            if j == n - 1 {
                assert(timer_pass_events(ms, n) =~= timer_events(ms[j]));
            } else {
                assert(timer_events(ms[n - 1]) =~= Seq::<ModuleEvent>::empty());
                assert(timer_pass_events(ms, n) =~= timer_events(ms[j]));
            }
        } else {
            assert(timer_events(ms[n - 1]) =~= Seq::<ModuleEvent>::empty());
            assert(timer_pass_events(ms, n) =~= Seq::<ModuleEvent>::empty());
        }
    }
}

/// With no firing callback finding an empty slot, the anomaly counter rests.
proof fn lemma_timer_anomalies_none(a: u64, ms: Seq<AbsModule>, n: int)
    requires
        forall|jj: int| 0 <= jj < n ==> !timer_anomaly(#[trigger] ms[jj]),
    ensures
        timer_pass_anomalies(a, ms, n) == a,
    decreases n,
{
    if n <= 0 {
    } else {
        lemma_timer_anomalies_none(a, ms, n - 1);
    }
}

/// A quiet tick on a state whose one armed timer still has more than one
/// tick left: the countdown falls by one and nothing else happens.
proof fn lemma_quiet_tick_armed(s: AbsSim, j: int, k: u32)
    requires
        s.wf(),
        0 <= j < s.modules.len(),
        s.modules[j].timer == Some(k),
        k > 1,
        forall|j2: int| 0 <= j2 < s.modules.len() && j2 != j
            ==> (#[trigger] s.modules[j2]).timer is None,
    ensures
        spec_tick(s, Seq::<CollisionStart>::empty()).0 == (AbsSim {
            modules: s.modules.update(
                j,
                AbsModule { timer: Some((k - 1) as u32), ..s.modules[j] },
            ),
            ..s
        }),
        spec_tick(s, Seq::<CollisionStart>::empty()).1 == Seq::<FireMarbleEvent>::empty(),
{
    let cs = Seq::<CollisionStart>::empty();
    assert(bridge(s, cs) == s);
    let flags = changed_flags(s, s);
    assert(forall|jj: int| 0 <= jj < s.modules.len() ==> !flags[jj]);
    lemma_update_events_all_false(s.modules, flags, s.modules.len() as int);
    assert(!timer_fires(s.modules[j]));
    lemma_timer_events_single(s.modules, s.modules.len() as int, j);
    assert(tick_intents(s, s) =~= Seq::<ModuleEvent>::empty());
    assert(forall|jj: int| 0 <= jj < s.modules.len() ==> !timer_anomaly(#[trigger] s.modules[jj]));
    lemma_timer_anomalies_none(s.anomalies, s.modules, s.modules.len() as int);
    let s2 = timer_pass(s);
    assert forall|jj: int| 0 <= jj < s.modules.len() && jj != j implies #[trigger] s2.modules[jj]
        == s.modules[jj] by {
        assert(s2.modules[jj] == module_after_timer(s.modules[jj]));
    }
    assert(s2.modules[j] == module_after_timer(s.modules[j]));
    assert(s2.modules =~= s.modules.update(
        j,
        AbsModule { timer: Some((k - 1) as u32), ..s.modules[j] },
    ));
    assert(drain(s2, tick_intents(s, s)).0 == s2);
    assert(drain(s2, tick_intents(s, s)).1 =~= Seq::<FireMarbleEvent>::empty());
    assert(spec_tick(s, cs).0 =~= (AbsSim {
        modules: s.modules.update(j, AbsModule { timer: Some((k - 1) as u32), ..s.modules[j] }),
        ..s
    }));
}

/// A quiet tick on a state whose one armed timer runs out: the module's
/// callback consumes the buffered marble and exactly one fire request, for
/// that marble from the module's first output, leaves the tick.
proof fn lemma_quiet_tick_fire(s: AbsSim, j: int, v: Marble)
    requires
        s.wf(),
        0 <= j < s.modules.len(),
        s.modules[j].slots[0] == Some(v),
        timer_fires(s.modules[j]),
        forall|j2: int| 0 <= j2 < s.modules.len() && j2 != j
            ==> (#[trigger] s.modules[j2]).timer is None,
    ensures
        spec_tick(s, Seq::<CollisionStart>::empty()).1 == seq![
            FireMarbleEvent { marble: v, from: s.modules[j].outputs[0] },
        ],
        spec_tick(s, Seq::<CollisionStart>::empty()).0.modules[j].slots[0] is None,
        spec_tick(s, Seq::<CollisionStart>::empty()).0.modules[j].timer is None,
{
    let cs = Seq::<CollisionStart>::empty();
    assert(bridge(s, cs) == s);
    let flags = changed_flags(s, s);
    assert(forall|jj: int| 0 <= jj < s.modules.len() ==> !flags[jj]);
    lemma_update_events_all_false(s.modules, flags, s.modules.len() as int);
    lemma_timer_events_single(s.modules, s.modules.len() as int, j);
    let m = s.modules[j];
    assert(m.wf());
    let id = m.id;
    let fire_ev = ModuleEvent { target: id, action: ModuleAction::FireMarble(v) };
    let upd_ev = ModuleEvent { target: id, action: ModuleAction::UpdateIndicatorColors };
    assert(timer_events(m) == seq![fire_ev, upd_ev]);
    let evs = tick_intents(s, s);
    assert(evs =~= seq![fire_ev, upd_ev]);
    let s2 = timer_pass(s);
    lemma_timer_pass(s);
    assert(s2.modules[j] == module_after_timer(m));
    assert(s2.modules[j].timer is None);
    assert(s2.modules[j].slots == m.slots.update(0, None::<Marble>));
    assert(s2.modules[j].slots[0] is None);
    assert(s2.modules[j].id == id);
    lemma_module_at(s2, id, j);
    // Drain the two intents in order: the fire produces the one request, the
    // indicator refresh touches nothing but hues.
    assert(evs.drop_last() =~= seq![fire_ev]);
    assert(evs.last() == upd_ev);
    assert(seq![fire_ev].drop_last() =~= Seq::<ModuleEvent>::empty());
    assert(seq![fire_ev].last() == fire_ev);
    assert(drain(s2, Seq::<ModuleEvent>::empty()) == (s2, Seq::<FireMarbleEvent>::empty()));
    assert(s2.modules[j].outputs.len() > 0);
    assert(apply_event(s2, fire_ev).0 == s2);
    assert(apply_event(s2, fire_ev).1 == seq![
        FireMarbleEvent { marble: v, from: s2.modules[j].outputs[0] },
    ]);
    assert(drain(s2, seq![fire_ev]).0 == s2);
    assert(drain(s2, seq![fire_ev]).1 =~= seq![
        FireMarbleEvent { marble: v, from: s.modules[j].outputs[0] },
    ]);
    let s3 = apply_event(s2, upd_ev).0;
    lemma_apply_event(s2, upd_ev);
    assert(s3.modules[j].slots == s2.modules[j].slots);
    assert(s3.modules[j].slots[0] is None);
    assert(s3.modules[j].timer == s2.modules[j].timer);
    assert(drain(s2, evs).0 == s3);
    assert(drain(s2, evs).1 =~= seq![
        FireMarbleEvent { marble: v, from: s.modules[j].outputs[0] },
    ]);
}

/// Conservation under normal flow: a marble buffered in slot 0 of a module
/// whose callback timer is armed with `k` ticks, left undisturbed (no
/// collisions, no other armed module), is after exactly `k` ticks re-emitted
/// from that module's first output with the same payload, and slot 0 returns
/// to `None`.  `lemma_no_early_fire` adds that nothing fires before then.
pub proof fn lemma_conservation(s: AbsSim, j: int, v: Marble, k: u32)
    requires
        s.wf(),
        0 <= j < s.modules.len(),
        s.modules[j].slots[0] == Some(v),
        s.modules[j].timer == Some(k),
        k >= 1,
        forall|j2: int| 0 <= j2 < s.modules.len() && j2 != j
            ==> (#[trigger] s.modules[j2]).timer is None,
    ensures
        run_quiet(s, k as nat).1 == seq![
            FireMarbleEvent { marble: v, from: s.modules[j].outputs[0] },
        ],
        run_quiet(s, k as nat).0.modules[j].slots[0] is None,
        run_quiet(s, k as nat).0.modules[j].timer is None,
    decreases k,
{
    assert(s.modules[j].wf());
    let first = spec_tick(s, Seq::<CollisionStart>::empty());
    if k == 1 {
        lemma_quiet_tick_fire(s, j, v);
        assert(run_quiet(first.0, 0) == (first.0, Seq::<FireMarbleEvent>::empty()));
        assert(run_quiet(s, 1nat).1 =~= seq![
            FireMarbleEvent { marble: v, from: s.modules[j].outputs[0] },
        ]);
    } else {
        lemma_quiet_tick_armed(s, j, k);
        let s1 = first.0;
        assert(s1.modules[j] == (AbsModule { timer: Some((k - 1) as u32), ..s.modules[j] }));
        assert forall|j2: int| 0 <= j2 < s1.modules.len() && j2 != j
            implies (#[trigger] s1.modules[j2]).timer is None by {
            assert(s1.modules[j2] == s.modules[j2]);
        }
        assert forall|j2: int| 0 <= j2 < s1.modules.len() implies (#[trigger] s1.modules[j2]).wf()
            by {
            if j2 != j {
                assert(s1.modules[j2] == s.modules[j2]);
            }
        }
        assert(s1.wf()) by {
            assert forall|j1: int, j2: int|
                #![trigger s1.modules[j1].id, s1.modules[j2].id]
                0 <= j1 < s1.modules.len() && 0 <= j2 < s1.modules.len()
                    && s1.modules[j1].id == s1.modules[j2].id implies j1 == j2 by {
                assert(s1.modules[j1].id == s.modules[j1].id);
                assert(s1.modules[j2].id == s.modules[j2].id);
            }
            assert forall|j1: int, i1: int, j2: int, i2: int|
                #![trigger s1.modules[j1].inputs[i1], s1.modules[j2].inputs[i2]]
                s1.is_input_port_at(s1.modules[j1].inputs[i1], j1, i1)
                    && s1.is_input_port_at(s1.modules[j1].inputs[i1], j2, i2)
                    implies j1 == j2 && i1 == i2 by {
                assert(s1.modules[j1].inputs == s.modules[j1].inputs);
                assert(s1.modules[j2].inputs == s.modules[j2].inputs);
                assert(s.is_input_port_at(s.modules[j1].inputs[i1], j1, i1));
                assert(s.is_input_port_at(s.modules[j1].inputs[i1], j2, i2));
            }
            assert forall|jj: int, i: int, kk: int|
                #![trigger s1.modules[jj].inputs[i], s1.marbles[kk].id]
                s1.is_input_port_at(s1.modules[jj].inputs[i], jj, i) && 0 <= kk
                    < s1.marbles.len() implies s1.modules[jj].inputs[i] != s1.marbles[kk].id by {
                assert(s1.modules[jj].inputs == s.modules[jj].inputs);
                assert(s.is_input_port_at(s.modules[jj].inputs[i], jj, i));
            }
        }
        lemma_conservation(s1, j, v, (k - 1) as u32);
        assert(s1.modules[j].outputs == s.modules[j].outputs);
        assert(run_quiet(s, k as nat).1 =~= seq![
            FireMarbleEvent { marble: v, from: s.modules[j].outputs[0] },
        ]);
    }
}

/// A callback's events all address the module that ran it, and none of them
/// arms a timer.
proof fn lemma_callback_emits_shape(ty: ModuleType, target: EntityId, slots: Seq<Option<Marble>>)
    ensures
        forall|x: int| 0 <= x < callback_emits(ty, target, slots).len()
            ==> (#[trigger] callback_emits(ty, target, slots)[x]).target == target
                && !(callback_emits(ty, target, slots)[x].action is ArmCallback),
{
}

/// No timer-pass intent addresses a module that never fires this pass, and
/// none of them arms a timer.
proof fn lemma_timer_events_avoid(ms: Seq<AbsModule>, n: int, id: EntityId)
    requires
        n <= ms.len(),
        forall|jj: int| 0 <= jj < n && (#[trigger] ms[jj]).id == id ==> !timer_fires(ms[jj]),
    ensures
        forall|x: int| 0 <= x < timer_pass_events(ms, n).len()
            ==> (#[trigger] timer_pass_events(ms, n)[x]).target != id,
    decreases n,
{
    if n <= 0 {
    } else {
        lemma_timer_events_avoid(ms, n - 1, id);
        if timer_fires(ms[n - 1]) {
            lemma_callback_emits_shape(ms[n - 1].ty, ms[n - 1].id, ms[n - 1].slots);
        }
    }
}

/// No timer-pass intent arms a timer: callbacks only fire marbles and
/// refresh indicators.
proof fn lemma_timer_events_no_arm(ms: Seq<AbsModule>, n: int)
    ensures
        forall|x: int| 0 <= x < timer_pass_events(ms, n).len()
            ==> !((#[trigger] timer_pass_events(ms, n)[x]).action is ArmCallback),
    decreases n,
{
    if n <= 0 {
    } else {
        lemma_timer_events_no_arm(ms, n - 1);
        if timer_fires(ms[n - 1]) {
            lemma_callback_emits_shape(ms[n - 1].ty, ms[n - 1].id, ms[n - 1].slots);
        }
    }
}

/// A module's own callback events sit inside the whole timer pass's.
proof fn lemma_timer_events_member(ms: Seq<AbsModule>, n: int, j: int)
    requires
        0 <= j < n <= ms.len(),
        timer_fires(ms[j]),
    ensures
        forall|y: int| 0 <= y < timer_events(ms[j]).len() ==> timer_pass_events(ms, n).contains(
            #[trigger] timer_events(ms[j])[y],
        ),
    decreases n,
{
    let all = timer_pass_events(ms, n);
    let prev = timer_pass_events(ms, n - 1);
    if j == n - 1 {
        assert forall|y: int| 0 <= y < timer_events(ms[j]).len() implies all.contains(
            #[trigger] timer_events(ms[j])[y],
        ) by {
            assert(all[prev.len() + y] == timer_events(ms[j])[y]);
        }
    } else {
        lemma_timer_events_member(ms, n - 1, j);
        assert forall|y: int| 0 <= y < timer_events(ms[j]).len() implies all.contains(
            #[trigger] timer_events(ms[j])[y],
        ) by {
            let x = choose|x: int| 0 <= x < prev.len() && prev[x] == timer_events(ms[j])[y];
            assert(all[x] == timer_events(ms[j])[y]);
        }
    }
}

/// Draining events that never address module `j` leaves module `j` alone.
proof fn lemma_drain_avoids(s: AbsSim, evs: Seq<ModuleEvent>, j: int)
    requires
        s.wf(),
        0 <= j < s.modules.len(),
        forall|x: int| 0 <= x < evs.len() ==> (#[trigger] evs[x]).target != s.modules[j].id,
    ensures
        drain(s, evs).0.modules[j] == s.modules[j],
    decreases evs.len(),
{
    if evs.len() == 0 {
    } else {
        lemma_drain_avoids(s, evs.drop_last(), j);
        let mid = drain(s, evs.drop_last()).0;
        lemma_drain(s, evs.drop_last());
        let ev = evs.last();
        if mid.has_module(ev.target) {
            let t = mid.module_at(ev.target);
            assert(0 <= t < mid.modules.len() && mid.modules[t].id == ev.target);
            if t == j {
                assert(mid.modules[j].id == s.modules[j].id);
                assert(false);
            }
        }
    }
}

/// Draining events that arm nothing leaves every module's timer alone.
proof fn lemma_drain_keeps_timers(s: AbsSim, evs: Seq<ModuleEvent>)
    requires
        s.wf(),
        forall|x: int| 0 <= x < evs.len() ==> !((#[trigger] evs[x]).action is ArmCallback),
    ensures
        forall|j: int| 0 <= j < s.modules.len()
            ==> (#[trigger] drain(s, evs).0.modules[j]).timer == s.modules[j].timer,
    decreases evs.len(),
{
    if evs.len() == 0 {
    } else {
        lemma_drain_keeps_timers(s, evs.drop_last());
        lemma_drain(s, evs.drop_last());
    }
}

/// A fire intent against an existing module puts its request into the
/// drain's output, whatever else is in flight.
proof fn lemma_drain_fire_member(s: AbsSim, evs: Seq<ModuleEvent>, x: int)
    requires
        s.wf(),
        0 <= x < evs.len(),
        evs[x].action is FireMarble,
        s.has_module(evs[x].target),
        s.modules[s.module_at(evs[x].target)].outputs.len() > 0,
    ensures
        drain(s, evs).1.contains(FireMarbleEvent {
            marble: evs[x].action->FireMarble_0,
            from: s.modules[s.module_at(evs[x].target)].outputs[0],
        }),
    decreases evs.len(),
{
    let jt = s.module_at(evs[x].target);
    assert(0 <= jt < s.modules.len() && s.modules[jt].id == evs[x].target);
    let fire = FireMarbleEvent {
        marble: evs[x].action->FireMarble_0,
        from: s.modules[jt].outputs[0],
    };
    let prev = drain(s, evs.drop_last());
    lemma_drain(s, evs.drop_last());
    if x == evs.len() - 1 {
        let ev = evs.last();
        assert(prev.0.modules[jt].id == ev.target);
        lemma_module_at(prev.0, ev.target, jt);
        assert(prev.0.modules[jt].outputs == s.modules[jt].outputs);
        let step = apply_event(prev.0, ev);
        assert(step.1 == seq![fire]);
        assert(drain(s, evs).1[prev.1.len() as int] == fire);
        assert(drain(s, evs).1.contains(fire));
    } else {
        lemma_drain_fire_member(s, evs.drop_last(), x);
        let y = choose|y: int| 0 <= y < prev.1.len() && prev.1[y] == fire;
        assert(drain(s, evs).1[y] == fire);
        assert(drain(s, evs).1.contains(fire));
    }
}

/// One quiet tick seen from one module whose timer does not run out this
/// tick: its own state advances by exactly the timer step, whatever the
/// other modules do.
proof fn lemma_quiet_tick_module(s: AbsSim, j: int)
    requires
        s.wf(),
        0 <= j < s.modules.len(),
        !timer_fires(s.modules[j]),
    ensures
        ({
            let d = spec_tick(s, Seq::<CollisionStart>::empty()).0;
            &&& d.wf()
            &&& d.modules.len() == s.modules.len()
            &&& d.modules[j] == module_after_timer(s.modules[j])
        }),
{
    let cs = Seq::<CollisionStart>::empty();
    assert(bridge(s, cs) == s);
    let flags = changed_flags(s, s);
    assert(forall|jj: int| 0 <= jj < s.modules.len() ==> !flags[jj]);
    lemma_update_events_all_false(s.modules, flags, s.modules.len() as int);
    let evs = tick_intents(s, s);
    assert(evs =~= timer_pass_events(s.modules, s.modules.len() as int));
    let s2 = timer_pass(s);
    lemma_timer_pass(s);
    assert(s2.modules[j] == module_after_timer(s.modules[j]));
    assert(s2.modules[j].id == s.modules[j].id);
    assert forall|jj: int| 0 <= jj < s.modules.len() && (#[trigger] s.modules[jj]).id
        == s.modules[j].id implies !timer_fires(s.modules[jj]) by {
        assert(jj == j);
    }
    lemma_timer_events_avoid(s.modules, s.modules.len() as int, s.modules[j].id);
    assert forall|x: int| 0 <= x < evs.len() implies (#[trigger] evs[x]).target
        != s2.modules[j].id by {
        assert(evs[x] == timer_pass_events(s.modules, s.modules.len() as int)[x]);
    }
    lemma_drain_avoids(s2, evs, j);
    lemma_drain(s2, evs);
}

/// One quiet tick seen from one module whose timer runs out now with a
/// marble waiting: whatever the other modules do, its slot empties, its
/// timer is removed, and its fire request is among the tick's output.
proof fn lemma_quiet_tick_module_fires(s: AbsSim, j: int, v: Marble)
    requires
        s.wf(),
        0 <= j < s.modules.len(),
        s.modules[j].slots[0] == Some(v),
        timer_fires(s.modules[j]),
    ensures
        ({
            let r = spec_tick(s, Seq::<CollisionStart>::empty());
            &&& r.0.wf()
            &&& r.0.modules.len() == s.modules.len()
            &&& r.0.modules[j].slots[0] is None
            &&& r.0.modules[j].timer is None
            &&& r.1.contains(FireMarbleEvent { marble: v, from: s.modules[j].outputs[0] })
        }),
{
    let cs = Seq::<CollisionStart>::empty();
    assert(bridge(s, cs) == s);
    let flags = changed_flags(s, s);
    assert(forall|jj: int| 0 <= jj < s.modules.len() ==> !flags[jj]);
    lemma_update_events_all_false(s.modules, flags, s.modules.len() as int);
    let n = s.modules.len() as int;
    let evs = tick_intents(s, s);
    assert(evs =~= timer_pass_events(s.modules, n));
    let m = s.modules[j];
    assert(m.wf());
    let fire_ev = ModuleEvent { target: m.id, action: ModuleAction::FireMarble(v) };
    assert(timer_events(m) == seq![
        fire_ev,
        ModuleEvent { target: m.id, action: ModuleAction::UpdateIndicatorColors },
    ]);
    lemma_timer_events_member(s.modules, n, j);
    assert(timer_events(m)[0] == fire_ev);
    assert(evs.contains(fire_ev));
    let x = choose|x: int| 0 <= x < evs.len() && evs[x] == fire_ev;
    let s2 = timer_pass(s);
    lemma_timer_pass(s);
    assert(s2.modules[j] == module_after_timer(m));
    assert(s2.modules[j].slots == m.slots.update(0, None::<Marble>));
    assert(s2.modules[j].timer is None);
    assert(s2.modules[j].id == m.id);
    lemma_module_at(s2, m.id, j);
    assert(s2.modules[j].outputs == m.outputs);
    lemma_drain_fire_member(s2, evs, x);
    lemma_drain(s2, evs);
    lemma_timer_events_no_arm(s.modules, n);
    assert forall|xx: int| 0 <= xx < evs.len() implies !((#[trigger] evs[xx]).action
        is ArmCallback) by {
        assert(evs[xx] == timer_pass_events(s.modules, n)[xx]);
    }
    lemma_drain_keeps_timers(s2, evs);
}

/// Conservation in any surroundings: whatever the other modules are doing, a
/// module armed with `k` ticks over a buffered marble has, after `k` quiet
/// ticks, re-emitted exactly that marble from its first output (its fire
/// request is among the collected output) and its slot and timer are clear.
pub proof fn lemma_conservation_general(s: AbsSim, j: int, v: Marble, k: u32)
    requires
        s.wf(),
        0 <= j < s.modules.len(),
        s.modules[j].slots[0] == Some(v),
        s.modules[j].timer == Some(k),
        k >= 1,
    ensures
        run_quiet(s, k as nat).0.modules[j].slots[0] is None,
        run_quiet(s, k as nat).0.modules[j].timer is None,
        run_quiet(s, k as nat).1.contains(FireMarbleEvent {
            marble: v,
            from: s.modules[j].outputs[0],
        }),
    decreases k,
{
    assert(s.modules[j].wf());
    let first = spec_tick(s, Seq::<CollisionStart>::empty());
    let fire = FireMarbleEvent { marble: v, from: s.modules[j].outputs[0] };
    if k == 1 {
        lemma_quiet_tick_module_fires(s, j, v);
        assert(run_quiet(first.0, 0) == (first.0, Seq::<FireMarbleEvent>::empty()));
        let y = choose|y: int| 0 <= y < first.1.len() && first.1[y] == fire;
        assert(run_quiet(s, k as nat).1[y] == fire);
    } else {
        lemma_quiet_tick_module(s, j);
        let s1 = first.0;
        assert(s1.modules[j] == (AbsModule { timer: Some((k - 1) as u32), ..s.modules[j] }));
        lemma_conservation_general(s1, j, v, (k - 1) as u32);
        let rest = run_quiet(s1, (k - 1) as nat);
        let y = choose|y: int| 0 <= y < rest.1.len() && rest.1[y] == fire;
        assert(run_quiet(s, k as nat).1[first.1.len() + y] == fire);
    }
}

/// Before the armed delay has elapsed, nothing fires and the buffered marble
/// sits untouched in its slot.
pub proof fn lemma_no_early_fire(s: AbsSim, j: int, v: Marble, k: u32, n: u32)
    requires
        s.wf(),
        0 <= j < s.modules.len(),
        s.modules[j].slots[0] == Some(v),
        s.modules[j].timer == Some(k),
        k >= 1,
        n < k,
        forall|j2: int| 0 <= j2 < s.modules.len() && j2 != j
            ==> (#[trigger] s.modules[j2]).timer is None,
    ensures
        run_quiet(s, n as nat).1 == Seq::<FireMarbleEvent>::empty(),
        run_quiet(s, n as nat).0.modules[j].slots[0] == Some(v),
        run_quiet(s, n as nat).0.modules[j].timer == Some((k - n) as u32),
    decreases n,
{
    if n == 0 {
    } else {
        lemma_quiet_tick_armed(s, j, k);
        let first = spec_tick(s, Seq::<CollisionStart>::empty());
        let s1 = first.0;
        assert(s1.modules[j] == (AbsModule { timer: Some((k - 1) as u32), ..s.modules[j] }));
        assert forall|j2: int| 0 <= j2 < s1.modules.len() && j2 != j
            implies (#[trigger] s1.modules[j2]).timer is None by {
            assert(s1.modules[j2] == s.modules[j2]);
        }
        assert forall|j2: int| 0 <= j2 < s1.modules.len() implies (#[trigger] s1.modules[j2]).wf()
            by {
            if j2 != j {
                assert(s1.modules[j2] == s.modules[j2]);
            } else {
                assert(s.modules[j].wf());
            }
        }
        assert(s1.wf()) by {
            assert forall|j1: int, j2: int|
                #![trigger s1.modules[j1].id, s1.modules[j2].id]
                0 <= j1 < s1.modules.len() && 0 <= j2 < s1.modules.len()
                    && s1.modules[j1].id == s1.modules[j2].id implies j1 == j2 by {
                assert(s1.modules[j1].id == s.modules[j1].id);
                assert(s1.modules[j2].id == s.modules[j2].id);
            }
            assert forall|j1: int, i1: int, j2: int, i2: int|
                #![trigger s1.modules[j1].inputs[i1], s1.modules[j2].inputs[i2]]
                s1.is_input_port_at(s1.modules[j1].inputs[i1], j1, i1)
                    && s1.is_input_port_at(s1.modules[j1].inputs[i1], j2, i2)
                    implies j1 == j2 && i1 == i2 by {
                assert(s1.modules[j1].inputs == s.modules[j1].inputs);
                assert(s1.modules[j2].inputs == s.modules[j2].inputs);
                assert(s.is_input_port_at(s.modules[j1].inputs[i1], j1, i1));
                assert(s.is_input_port_at(s.modules[j1].inputs[i1], j2, i2));
            }
            assert forall|jj: int, i: int, kk: int|
                #![trigger s1.modules[jj].inputs[i], s1.marbles[kk].id]
                s1.is_input_port_at(s1.modules[jj].inputs[i], jj, i) && 0 <= kk
                    < s1.marbles.len() implies s1.modules[jj].inputs[i] != s1.marbles[kk].id by {
                assert(s1.modules[jj].inputs == s.modules[jj].inputs);
                assert(s.is_input_port_at(s.modules[jj].inputs[i], jj, i));
            }
        }
        lemma_no_early_fire(s1, j, v, (k - 1) as u32, (n - 1) as u32);
        assert(run_quiet(s, n as nat).1 =~= Seq::<FireMarbleEvent>::empty());
    }
}

} // verus!
