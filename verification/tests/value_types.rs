use marble_machine::body::{BodyType, Color, ColliderShape, BODY_LARGE_WIDTH, BODY_SMALL_WIDTH};
use marble_machine::entity::EntityId;
use marble_machine::event::{FireMarbleEvent, HUE_EMPTY, HUE_OCCUPIED};
use marble_machine::marble::{Lifetime, Marble, MarbleType, MARBLE_LIFETIME_TICKS};
use marble_machine::module::{
    Basic, ModuleCallbackTimer, ModuleType, SpawnInstructions, BASIC_DELAY_TICKS,
};
use marble_machine::state::ModuleState;

#[test]
fn marble_new_keeps_type_and_value() {
    let m = Marble::new(MarbleType::Num, 7);
    assert!(matches!(m.get_type(), MarbleType::Num));
    assert_eq!(m.get_val(), 7);
}

#[test]
fn marble_bit_encodes_booleans() {
    let t = Marble::bit(true);
    let f = Marble::bit(false);
    assert!(matches!(t.get_type(), MarbleType::Bit));
    assert!(matches!(f.get_type(), MarbleType::Bit));
    assert_eq!(t.get_val(), 1);
    assert_eq!(f.get_val(), 0);
}

#[test]
fn marble_is_a_pure_value() {
    let a = Marble::bit(true);
    let b = a;
    assert_eq!(a, b);
    assert_ne!(a, Marble::bit(false));
    assert_ne!(a, Marble::new(MarbleType::Num, 1));
}

#[test]
fn color_rgb_u32_splits_channels() {
    let c = Color::rgb_u32(0x123456);
    assert_eq!(c, Color { r: 0x12, g: 0x34, b: 0x56 });
}

#[test]
fn body_color_is_the_cyanish_fill() {
    assert_eq!(BodyType::Small.color(), Color { r: 0x65, g: 0xed, b: 0xc0 });
    assert_eq!(BodyType::Large.color(), Color { r: 0x65, g: 0xed, b: 0xc0 });
}

#[test]
fn body_collider_is_a_ball_inside_the_sprite() {
    assert_eq!(BodyType::Small.width(), BODY_SMALL_WIDTH);
    assert_eq!(BodyType::Large.width(), BODY_LARGE_WIDTH);
    assert_eq!(
        BodyType::Small.collider(),
        ColliderShape::Ball { radius_half_px: BODY_SMALL_WIDTH - 1 }
    );
    assert_eq!(
        BodyType::Large.collider(),
        ColliderShape::Ball { radius_half_px: BODY_LARGE_WIDTH - 1 }
    );
}

#[test]
fn basic_module_declares_one_input_one_output() {
    let ty = ModuleType::Basic(Basic);
    assert_eq!(ty.num_inputs(), 1);
    assert_eq!(ty.num_outputs(), 1);
    assert_eq!(ty.callback_delay(), BASIC_DELAY_TICKS);
    assert_eq!(ty.callback_delay(), 10);
    assert_eq!(ty.get_name(), "Basic Module");
    assert_eq!(ty.get_identifier(), "basic.module");
}

#[test]
fn basic_spawn_instructions_geometry() {
    let ty = ModuleType::Basic(Basic);
    let ins = ty.spawn_instructions();
    assert!(matches!(ins.body, BodyType::Small));
    assert_eq!(ins.input_rotations, vec![270]);
    assert_eq!(ins.output_rotations, vec![90]);
}

#[test]
fn spawn_instructions_builders_chain() {
    let ins = SpawnInstructions::from_body(BodyType::Large)
        .with_input_rotations(vec![0, 180])
        .with_output_rotations(vec![90]);
    assert!(matches!(ins.body, BodyType::Large));
    assert_eq!(ins.input_rotations, vec![0, 180]);
    assert_eq!(ins.output_rotations, vec![90]);
}

#[test]
fn module_state_new_sizes_the_buffer() {
    let s = ModuleState::new(
        EntityId(1),
        vec![EntityId(10), EntityId(11)],
        vec![EntityId(20), EntityId(21)],
        vec![EntityId(30)],
        vec![],
    );
    assert_eq!(s.input_state, vec![None, None]);
    assert_eq!(s.body, EntityId(1));
    assert_eq!(s.outputs, vec![EntityId(30)]);
}

#[test]
fn callback_timer_holds_its_ticks() {
    let t = ModuleCallbackTimer::new(10);
    assert_eq!(t.0, 10);
}

#[test]
fn fire_marble_event_new() {
    let ev = FireMarbleEvent::new(Marble::bit(true), EntityId(5));
    assert_eq!(ev.marble, Marble::bit(true));
    assert_eq!(ev.from, EntityId(5));
}

#[test]
fn lifetime_is_plain_ticks() {
    assert_eq!(Lifetime(MARBLE_LIFETIME_TICKS).0, 1200);
}

#[test]
fn indicator_hues_are_two_discrete_states() {
    assert_eq!(HUE_EMPTY, 117);
    assert_eq!(HUE_OCCUPIED, 0);
    assert_ne!(HUE_EMPTY, HUE_OCCUPIED);
}
