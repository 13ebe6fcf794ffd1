use input_manager::action_state::ActionState;
use input_manager::clashing_inputs::ClashStrategy;
use input_manager::input_map::InputMap;
use input_manager::systems::release_on_disable;
use input_manager::systems::run_if_enabled;
use input_manager::systems::tick_action_state;
use input_manager::systems::update_action_state;
use input_manager::systems::update_action_state_from_interaction;
use input_manager::systems::ActionStateDriver;
use input_manager::systems::Interaction;
use input_manager::systems::ToggleActions;
use input_manager::user_input::InputSnapshot;
use input_manager::user_input::RawInput;

const JUMP: usize = 0;
const SHOOT: usize = 1;
const N_ACTIONS: usize = 2;

const KEY_SPACE: u32 = 44;
const KEY_CTRL: u32 = 100;

fn demo_map() -> InputMap {
    let mut map = InputMap::new(N_ACTIONS);
    map.insert_single(JUMP, RawInput::Keyboard(KEY_SPACE));
    map.insert_single(SHOOT, RawInput::Keyboard(KEY_CTRL));
    map
}

fn keyboard_snapshot(keys: &[u32]) -> InputSnapshot {
    InputSnapshot {
        keyboard: Some(keys.to_vec()),
        mouse: None,
        gamepads: None,
    }
}

#[test]
fn tick_action_state_advances_every_owner() {
    let mut states = vec![ActionState::new(N_ACTIONS), ActionState::new(N_ACTIONS)];
    states[0].press(JUMP);
    tick_action_state(&mut states, Some(8));
    tick_action_state(&mut states, Some(20));
    assert!(states[0].pressed(JUMP));
    assert!(!states[0].just_pressed(JUMP));
    assert_eq!(states[0].current_duration(JUMP), 12);
    assert_eq!(states[1].current_duration(JUMP), 12);
}

#[test]
fn update_action_state_applies_each_owners_map() {
    let maps = vec![demo_map(), demo_map()];
    let mut states = vec![ActionState::new(N_ACTIONS), ActionState::new(N_ACTIONS)];
    let snapshot = keyboard_snapshot(&[KEY_SPACE]);
    update_action_state(&snapshot, ClashStrategy::PressAll, &maps, &mut states);
    for state in &states {
        assert!(state.pressed(JUMP));
        assert!(state.just_pressed(JUMP));
        assert!(!state.pressed(SHOOT));
    }
}

#[test]
fn missing_modalities_press_nothing() {
    let maps = vec![demo_map()];
    let mut states = vec![ActionState::new(N_ACTIONS)];
    let snapshot = InputSnapshot::empty();
    update_action_state(&snapshot, ClashStrategy::PressAll, &maps, &mut states);
    assert!(!states[0].pressed(JUMP));
    assert!(!states[0].pressed(SHOOT));
}

#[test]
fn clicked_interaction_presses_target_action() {
    let mut states = vec![ActionState::new(N_ACTIONS), ActionState::new(N_ACTIONS)];
    let ui = vec![
        (Interaction::Clicked, ActionStateDriver { action: SHOOT, entity: 1 }),
        (Interaction::Hovered, ActionStateDriver { action: JUMP, entity: 0 }),
        (Interaction::Idle, ActionStateDriver { action: SHOOT, entity: 0 }),
    ];
    update_action_state_from_interaction(&ui, &mut states);
    assert!(!states[0].pressed(JUMP));
    assert!(!states[0].pressed(SHOOT));
    assert!(states[1].pressed(SHOOT));
    assert!(states[1].just_pressed(SHOOT));
}

#[test]
fn disabling_toggle_releases_everything() {
    let mut states = vec![ActionState::new(N_ACTIONS)];
    states[0].press(JUMP);
    let toggle = ToggleActions { enabled: false };
    release_on_disable(&mut states, &toggle, true);
    assert!(!states[0].pressed(JUMP));
    assert!(states[0].just_released(JUMP));
}

#[test]
fn unchanged_toggle_leaves_states_alone() {
    let mut states = vec![ActionState::new(N_ACTIONS)];
    states[0].press(JUMP);
    // The toggle is off but did not change this tick: nothing is released.
    let toggle = ToggleActions { enabled: false };
    release_on_disable(&mut states, &toggle, false);
    assert!(states[0].pressed(JUMP));
    // The toggle changed but is on: nothing is released either.
    let toggle = ToggleActions { enabled: true };
    release_on_disable(&mut states, &toggle, true);
    assert!(states[0].pressed(JUMP));
}

#[test]
fn run_if_enabled_follows_toggle() {
    assert!(run_if_enabled(&ToggleActions { enabled: true }));
    assert!(!run_if_enabled(&ToggleActions { enabled: false }));
}
