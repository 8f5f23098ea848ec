use marble_machine::entity::EntityId;
use marble_machine::interact::{
    get_hovered_entities, select_target, HoverEntity, HoveredEntities, Interactive,
    InteractiveSelected, SelectTarget,
};
use marble_machine::save_load::{LoadWorld, SaveWorld};
use marble_machine::tracer::{Tracer, TracerEntities, TRACER_N};

#[test]
fn hover_list_is_replaced_each_tick() {
    let mut hovered = HoveredEntities::new();
    get_hovered_entities(&mut hovered, &vec![EntityId(1), EntityId(2)]);
    assert_eq!(hovered.0, vec![EntityId(1), EntityId(2)]);
    get_hovered_entities(&mut hovered, &vec![EntityId(3)]);
    assert_eq!(hovered.0, vec![EntityId(3)]);
    get_hovered_entities(&mut hovered, &vec![]);
    assert!(hovered.0.is_empty());
}

#[test]
fn selection_prefers_interactive_widgets() {
    let mut hovered = HoveredEntities::new();
    get_hovered_entities(&mut hovered, &vec![EntityId(5), EntityId(6), EntityId(7)]);
    let widgets = vec![EntityId(6), EntityId(7)];
    let bodies = vec![EntityId(5)];
    // A body is hovered first, but the widget wins; among widgets the first
    // in hover order wins.
    assert_eq!(
        select_target(&hovered, &widgets, &bodies),
        Some(SelectTarget::Widget(EntityId(6)))
    );
}

#[test]
fn selection_falls_back_to_bodies_then_nothing() {
    let mut hovered = HoveredEntities::new();
    get_hovered_entities(&mut hovered, &vec![EntityId(5), EntityId(6)]);
    let no_widgets: Vec<EntityId> = vec![];
    let bodies = vec![EntityId(6)];
    assert_eq!(
        select_target(&hovered, &no_widgets, &bodies),
        Some(SelectTarget::ModuleBody(EntityId(6)))
    );
    let no_bodies: Vec<EntityId> = vec![];
    assert_eq!(select_target(&hovered, &no_widgets, &no_bodies), None);
}

#[test]
fn editor_state_types_hold_plain_values() {
    let selected = InteractiveSelected(Some(EntityId(4)));
    assert_eq!(selected.0, Some(EntityId(4)));
    let hover = HoverEntity(EntityId(9));
    assert_eq!(hover.0, EntityId(9));
    let widget = Interactive::Rotation;
    assert!(matches!(widget, Interactive::Rotation));
    assert!(!matches!(Interactive::Delete, Interactive::IORotation));
}

#[test]
fn tracer_entities_hold_the_overlay_handles() {
    let entities = TracerEntities([EntityId(0); TRACER_N]);
    assert_eq!(entities.0.len(), TRACER_N);
    assert_eq!(TRACER_N, 20);
    let _marker = Tracer;
}

#[test]
fn save_load_requests_name_their_slot() {
    let save = SaveWorld(String::from("level1"));
    let load = LoadWorld(String::from("level1"));
    assert_eq!(save.0, "level1");
    assert_eq!(load.0, "level1");
}
