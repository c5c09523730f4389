use mud_core::game_room::{eval_room_condition, eval_room_description};
use mud_core::game_state::{
    Condition, DynamicDescriptionFragment, GameState, LoadedGameState, RoomDescription,
};
use mud_core::id::Id;
use mud_core::room_vars::RoomVars;
use std::collections::HashMap;

fn empty_state() -> GameState {
    GameState::new(LoadedGameState { rooms: HashMap::new(), mob_templates: HashMap::new() })
}

#[test]
fn missing_variable_reads_zero() {
    let vars = RoomVars::new();
    assert_eq!(vars.get(Id::new(1), &"lever".to_string()), 0);
}

#[test]
fn set_then_get_per_room_and_name() {
    let mut vars = RoomVars::new();
    vars.set(Id::new(1), "lever".to_string(), 3);
    vars.set(Id::new(2), "lever".to_string(), -4);
    vars.set(Id::new(1), "door".to_string(), 1);
    assert_eq!(vars.get(Id::new(1), &"lever".to_string()), 3);
    assert_eq!(vars.get(Id::new(2), &"lever".to_string()), -4);
    assert_eq!(vars.get(Id::new(1), &"door".to_string()), 1);
    assert_eq!(vars.get(Id::new(2), &"door".to_string()), 0);
    vars.set(Id::new(1), "lever".to_string(), 8);
    assert_eq!(vars.get(Id::new(1), &"lever".to_string()), 8);
    assert_eq!(vars.get(Id::new(2), &"lever".to_string()), -4);
}

#[test]
fn zero_is_never_stored() {
    let mut vars = RoomVars::new();
    let shown_empty = format!("{:?}", vars);
    vars.set(Id::new(1), "lever".to_string(), 0);
    assert_eq!(format!("{:?}", vars), shown_empty);
    vars.set(Id::new(1), "lever".to_string(), 5);
    assert_ne!(format!("{:?}", vars), shown_empty);
    vars.set(Id::new(1), "lever".to_string(), 0);
    assert_eq!(format!("{:?}", vars), shown_empty);
    assert_eq!(vars.get(Id::new(1), &"lever".to_string()), 0);
}

#[test]
fn state_room_vars_follow_the_store() {
    let mut state = empty_state();
    assert_eq!(state.get_room_var(Id::new(3), "x".to_string()), 0);
    state.set_room_var(Id::new(3), "x".to_string(), 2);
    assert_eq!(state.get_room_var(Id::new(3), "x".to_string()), 2);
    state.set_room_var(Id::new(3), "x".to_string(), 0);
    assert_eq!(state.get_room_var(Id::new(3), "x".to_string()), 0);
}

#[test]
fn conditions_read_the_room_variables() {
    let mut state = empty_state();
    let open = Condition::Equals("door".to_string(), 1);
    let shut = Condition::NotEquals("door".to_string(), 1);
    assert!(!eval_room_condition(&open, Id::new(1), &state));
    assert!(eval_room_condition(&shut, Id::new(1), &state));
    assert!(eval_room_condition(&Condition::Equals("door".to_string(), 0), Id::new(1), &state));
    state.set_room_var(Id::new(1), "door".to_string(), 1);
    assert!(eval_room_condition(&open, Id::new(1), &state));
    assert!(!eval_room_condition(&shut, Id::new(1), &state));
    assert!(!eval_room_condition(&open, Id::new(2), &state));
}

#[test]
fn dynamic_description_joins_what_shows() {
    let mut state = empty_state();
    let description = RoomDescription::Dynamic(vec![
        DynamicDescriptionFragment { fragment: "A vault.".to_string(), condition: None },
        DynamicDescriptionFragment {
            fragment: "The door is open.".to_string(),
            condition: Some(Condition::Equals("door".to_string(), 1)),
        },
        DynamicDescriptionFragment {
            fragment: "The door is shut.".to_string(),
            condition: Some(Condition::NotEquals("door".to_string(), 1)),
        },
        DynamicDescriptionFragment { fragment: "It is cold.".to_string(), condition: None },
    ]);
    assert_eq!(
        eval_room_description(&description, Id::new(1), &state),
        Some("A vault. The door is shut. It is cold.".to_string())
    );
    state.set_room_var(Id::new(1), "door".to_string(), 1);
    assert_eq!(
        eval_room_description(&description, Id::new(1), &state),
        Some("A vault. The door is open. It is cold.".to_string())
    );
}

#[test]
fn description_without_any_fragment_is_none() {
    let state = empty_state();
    let hidden = RoomDescription::Dynamic(vec![DynamicDescriptionFragment {
        fragment: "Glowing runes.".to_string(),
        condition: Some(Condition::Equals("lit".to_string(), 1)),
    }]);
    assert_eq!(eval_room_description(&hidden, Id::new(1), &state), None);
    assert_eq!(eval_room_description(&RoomDescription::Dynamic(vec![]), Id::new(1), &state), None);
    assert_eq!(
        eval_room_description(&RoomDescription::Static("Bare.".to_string()), Id::new(1), &state),
        Some("Bare.".to_string())
    );
}
