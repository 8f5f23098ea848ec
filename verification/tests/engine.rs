use marble_machine::entity::EntityId;
use marble_machine::event::{CollisionStart, ModuleAction, ModuleEvent, HUE_EMPTY, HUE_OCCUPIED};
use marble_machine::marble::{Lifetime, Marble};
use marble_machine::module::{Basic, ModuleType};
use marble_machine::sim::{despawn_marbles, update_lifetime, Sim};

const MODULE: EntityId = EntityId(1);
const BODY: EntityId = EntityId(2);
const INPUT: EntityId = EntityId(10);
const INDICATOR: EntityId = EntityId(11);
const OUTPUT: EntityId = EntityId(20);

/// A playfield with one basic module placed.
fn one_module() -> Sim {
    let mut sim = Sim::new();
    let ok = sim.place_module(
        MODULE,
        ModuleType::Basic(Basic),
        BODY,
        vec![INPUT],
        vec![INDICATOR],
        vec![OUTPUT],
        vec![],
    );
    assert!(ok);
    sim
}

fn collide(a: EntityId, b: EntityId) -> Vec<CollisionStart> {
    vec![CollisionStart { a, b }]
}

#[test]
fn place_module_rejects_bad_shapes_and_taken_handles() {
    let mut sim = one_module();
    // Same root entity again.
    assert!(!sim.place_module(
        MODULE,
        ModuleType::Basic(Basic),
        EntityId(50),
        vec![EntityId(51)],
        vec![EntityId(52)],
        vec![EntityId(53)],
        vec![],
    ));
    // Port entity already taken by the first module.
    assert!(!sim.place_module(
        EntityId(60),
        ModuleType::Basic(Basic),
        EntityId(61),
        vec![INPUT],
        vec![EntityId(62)],
        vec![EntityId(63)],
        vec![],
    ));
    // Wrong port count for the type.
    assert!(!sim.place_module(
        EntityId(70),
        ModuleType::Basic(Basic),
        EntityId(71),
        vec![EntityId(72), EntityId(73)],
        vec![EntityId(74), EntityId(75)],
        vec![EntityId(76)],
        vec![],
    ));
    // A fresh well-shaped module is still accepted.
    assert!(sim.place_module(
        EntityId(80),
        ModuleType::Basic(Basic),
        EntityId(81),
        vec![EntityId(82)],
        vec![EntityId(83)],
        vec![EntityId(84)],
        vec![],
    ));
    assert_eq!(sim.modules.len(), 2);
}

#[test]
fn add_marble_rejects_taken_handles() {
    let mut sim = one_module();
    assert!(sim.add_marble(EntityId(100), Marble::bit(true), Lifetime(1200)));
    assert!(!sim.add_marble(EntityId(100), Marble::bit(false), Lifetime(1200)));
    assert!(!sim.add_marble(INPUT, Marble::bit(false), Lifetime(1200)));
    assert_eq!(sim.marbles.len(), 1);
}

/// End to end: one basic module (1 input, 1 output, delay 10 ticks); inject a
/// Bit(true) marble at tick 0; the slot holds it at tick 0; at tick 10 the
/// slot is empty again and exactly one fire request with the same payload
/// leaves the output; tick 11 is silent.
#[test]
fn end_to_end_basic_module_delay() {
    let mut sim = one_module();
    assert!(sim.add_marble(EntityId(100), Marble::bit(true), Lifetime(1200)));

    // Tick 0: the marble hits the input port.
    let fires = sim.tick(&collide(INPUT, EntityId(100)));
    assert!(fires.is_empty());
    assert_eq!(sim.modules[0].state.input_state[0], Some(Marble::bit(true)));
    // The marble entity was consumed and the indicator shows occupied.
    assert!(sim.marbles.is_empty());
    assert_eq!(sim.modules[0].indicator_hues, vec![HUE_OCCUPIED]);
    assert!(sim.modules[0].timer.is_some());

    // Ticks 1..=9: armed, holding, silent.
    for _ in 1..10 {
        let fires = sim.tick(&vec![]);
        assert!(fires.is_empty());
        assert_eq!(sim.modules[0].state.input_state[0], Some(Marble::bit(true)));
    }

    // Tick 10: the module re-emits the marble from its sole output.
    let fires = sim.tick(&vec![]);
    assert_eq!(fires.len(), 1);
    assert_eq!(fires[0].marble, Marble::bit(true));
    assert_eq!(fires[0].from, OUTPUT);
    assert_eq!(sim.modules[0].state.input_state[0], None);
    assert!(sim.modules[0].timer.is_none());
    assert_eq!(sim.modules[0].indicator_hues, vec![HUE_EMPTY]);

    // Tick 11: nothing further without new input.
    let fires = sim.tick(&vec![]);
    assert!(fires.is_empty());
    assert_eq!(sim.anomalies, 0);
}

/// Backpressure: a second marble colliding with the occupied input is
/// refused; the slot keeps its original value, the second marble stays live,
/// and only one callback ever fires.
#[test]
fn backpressure_refuses_second_marble() {
    let mut sim = one_module();
    assert!(sim.add_marble(EntityId(100), Marble::bit(true), Lifetime(1200)));
    assert!(sim.add_marble(EntityId(101), Marble::bit(false), Lifetime(1200)));

    let fires = sim.tick(&collide(INPUT, EntityId(100)));
    assert!(fires.is_empty());
    assert_eq!(sim.modules[0].state.input_state[0], Some(Marble::bit(true)));

    // The second marble bounces off the full input, twice.
    for _ in 0..2 {
        let fires = sim.tick(&collide(EntityId(101), INPUT));
        assert!(fires.is_empty());
        assert_eq!(sim.modules[0].state.input_state[0], Some(Marble::bit(true)));
        assert_eq!(sim.marbles.len(), 1);
    }

    // The one armed callback still fires exactly on time with the first
    // marble's payload.
    let mut all_fires = Vec::new();
    for _ in 3..=11 {
        all_fires.extend(sim.tick(&vec![]));
    }
    assert_eq!(all_fires.len(), 1);
    assert_eq!(all_fires[0].marble, Marble::bit(true));
    assert_eq!(sim.modules[0].state.input_state[0], None);
    assert_eq!(sim.anomalies, 0);
}

/// After the slot empties, the refused marble can deposit on a later tick and
/// the module runs a second full cycle.
#[test]
fn refused_marble_deposits_after_the_slot_clears() {
    let mut sim = one_module();
    assert!(sim.add_marble(EntityId(100), Marble::bit(true), Lifetime(1200)));
    assert!(sim.add_marble(EntityId(101), Marble::bit(false), Lifetime(1200)));

    sim.tick(&collide(INPUT, EntityId(100)));
    for _ in 1..10 {
        sim.tick(&vec![]);
    }
    let fires = sim.tick(&vec![]);
    assert_eq!(fires.len(), 1);

    // Slot is free again: the second marble lands now.
    let fires = sim.tick(&collide(INPUT, EntityId(101)));
    assert!(fires.is_empty());
    assert_eq!(sim.modules[0].state.input_state[0], Some(Marble::bit(false)));
    for _ in 0..9 {
        assert!(sim.tick(&vec![]).is_empty());
    }
    let fires = sim.tick(&vec![]);
    assert_eq!(fires.len(), 1);
    assert_eq!(fires[0].marble, Marble::bit(false));
}

/// Timer liveness: destroying the module while its callback timer is armed
/// drops the pending callback; later ticks fire nothing and corrupt nothing.
#[test]
fn destroyed_module_never_fires() {
    let mut sim = one_module();
    assert!(sim.add_marble(EntityId(100), Marble::bit(true), Lifetime(1200)));
    sim.tick(&collide(INPUT, EntityId(100)));
    sim.tick(&vec![]);
    sim.tick(&vec![]);

    assert!(sim.destroy_module(MODULE));
    assert!(sim.modules.is_empty());
    for _ in 0..20 {
        let fires = sim.tick(&vec![]);
        assert!(fires.is_empty());
    }
    assert_eq!(sim.anomalies, 0);
    // Destroying it again reports that nothing was there.
    assert!(!sim.destroy_module(MODULE));
}

/// A collision pair that is not (input port, marble) in either order is a
/// silent no-op.
#[test]
fn stray_collisions_are_ignored() {
    let mut sim = one_module();
    assert!(sim.add_marble(EntityId(100), Marble::bit(true), Lifetime(1200)));
    // Marble against the body, the output, a stranger, and itself.
    for other in [BODY, OUTPUT, EntityId(999), EntityId(100)] {
        let fires = sim.tick(&collide(EntityId(100), other));
        assert!(fires.is_empty());
    }
    assert_eq!(sim.modules[0].state.input_state[0], None);
    assert_eq!(sim.marbles.len(), 1);
    assert_eq!(sim.anomalies, 0);
}

/// Both orderings of the collision pair deposit the marble.
#[test]
fn collision_pair_is_unordered() {
    let mut sim = one_module();
    assert!(sim.add_marble(EntityId(100), Marble::bit(true), Lifetime(1200)));
    sim.tick(&collide(EntityId(100), INPUT));
    assert_eq!(sim.modules[0].state.input_state[0], Some(Marble::bit(true)));
}

/// A callback that finds its slot unexpectedly empty is counted as an
/// anomaly, skipped, and nothing fires.
#[test]
fn empty_slot_callback_is_a_counted_anomaly() {
    let mut sim = one_module();
    // Arm a callback by hand without ever depositing a marble.
    let events = vec![ModuleEvent { target: MODULE, action: ModuleAction::ArmCallback(1) }];
    let fires = sim.do_module_events(&events);
    assert!(fires.is_empty());
    assert!(sim.modules[0].timer.is_some());
    let fires = sim.tick(&vec![]);
    assert!(fires.is_empty());
    assert_eq!(sim.anomalies, 1);
    assert!(sim.modules[0].timer.is_none());
}

/// Re-arming a module replaces its timer rather than stacking a second one.
#[test]
fn rearming_replaces_the_timer() {
    let mut sim = one_module();
    let events = vec![
        ModuleEvent { target: MODULE, action: ModuleAction::ArmCallback(5) },
        ModuleEvent { target: MODULE, action: ModuleAction::ArmCallback(30) },
    ];
    let fires = sim.do_module_events(&events);
    assert!(fires.is_empty());
    assert_eq!(sim.modules[0].timer.map(|t| t.0), Some(30));
}

/// An intent against a module that no longer exists is dropped silently.
#[test]
fn intents_against_missing_modules_are_dropped() {
    let mut sim = one_module();
    let events = vec![
        ModuleEvent { target: EntityId(999), action: ModuleAction::ArmCallback(5) },
        ModuleEvent { target: EntityId(999), action: ModuleAction::FireMarble(Marble::bit(true)) },
    ];
    let fires = sim.do_module_events(&events);
    assert!(fires.is_empty());
    assert!(sim.modules[0].timer.is_none());
}

/// Idempotent indicator state: refreshing the colours twice with no input
/// change shows the same colours both times.
#[test]
fn indicator_refresh_is_idempotent() {
    let mut sim = one_module();
    assert!(sim.add_marble(EntityId(100), Marble::bit(true), Lifetime(1200)));
    sim.tick(&collide(INPUT, EntityId(100)));
    let refresh = vec![ModuleEvent { target: MODULE, action: ModuleAction::UpdateIndicatorColors }];
    sim.do_module_events(&refresh);
    let once = sim.modules[0].indicator_hues.clone();
    sim.do_module_events(&refresh);
    assert_eq!(sim.modules[0].indicator_hues, once);
    assert_eq!(once, vec![HUE_OCCUPIED]);
}

#[test]
fn update_lifetime_ages_and_reclaims() {
    let mut sim = Sim::new();
    assert!(sim.add_marble(EntityId(1), Marble::bit(true), Lifetime(1)));
    assert!(sim.add_marble(EntityId(2), Marble::bit(false), Lifetime(2)));
    assert!(sim.add_marble(EntityId(3), Marble::bit(true), Lifetime(3)));
    update_lifetime(&mut sim);
    assert_eq!(sim.marbles.len(), 2);
    assert_eq!(sim.marbles[0].id, EntityId(2));
    assert_eq!(sim.marbles[0].lifetime.0, 1);
    assert_eq!(sim.marbles[1].id, EntityId(3));
    assert_eq!(sim.marbles[1].lifetime.0, 2);
    update_lifetime(&mut sim);
    assert_eq!(sim.marbles.len(), 1);
    assert_eq!(sim.marbles[0].id, EntityId(3));
}

#[test]
fn despawn_marbles_culls_reported_ids() {
    let mut sim = Sim::new();
    assert!(sim.add_marble(EntityId(1), Marble::bit(true), Lifetime(10)));
    assert!(sim.add_marble(EntityId(2), Marble::bit(false), Lifetime(10)));
    assert!(sim.add_marble(EntityId(3), Marble::bit(true), Lifetime(10)));
    despawn_marbles(&mut sim, &vec![EntityId(2), EntityId(9)]);
    assert_eq!(sim.marbles.len(), 2);
    assert_eq!(sim.marbles[0].id, EntityId(1));
    assert_eq!(sim.marbles[1].id, EntityId(3));
}

/// Two modules run independent countdowns; each fires from its own output.
#[test]
fn independent_timers_fire_independently() {
    let mut sim = one_module();
    assert!(sim.place_module(
        EntityId(80),
        ModuleType::Basic(Basic),
        EntityId(81),
        vec![EntityId(82)],
        vec![EntityId(83)],
        vec![EntityId(84)],
        vec![],
    ));
    assert!(sim.add_marble(EntityId(100), Marble::bit(true), Lifetime(1200)));
    assert!(sim.add_marble(EntityId(101), Marble::bit(false), Lifetime(1200)));

    // First module loaded at tick 0, second at tick 3.
    sim.tick(&collide(INPUT, EntityId(100)));
    sim.tick(&vec![]);
    sim.tick(&vec![]);
    sim.tick(&collide(EntityId(82), EntityId(101)));

    let mut fired: Vec<(u32, marble_machine::event::FireMarbleEvent)> = Vec::new();
    for t in 4..=20u32 {
        for f in sim.tick(&vec![]) {
            fired.push((t, f));
        }
    }
    assert_eq!(fired.len(), 2);
    assert_eq!(fired[0].0, 10);
    assert_eq!(fired[0].1.from, OUTPUT);
    assert_eq!(fired[0].1.marble, Marble::bit(true));
    assert_eq!(fired[1].0, 13);
    assert_eq!(fired[1].1.from, EntityId(84));
    assert_eq!(fired[1].1.marble, Marble::bit(false));
}
