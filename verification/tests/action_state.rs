use input_manager::action_state::ActionDiff;
use input_manager::action_state::ActionState;
use input_manager::systems::generate_action_diffs;
use input_manager::systems::process_action_diffs;

const JUMP: usize = 0;
const SHOOT: usize = 1;
const N_ACTIONS: usize = 2;

fn update_with(state: &mut ActionState, pressed: &[bool]) {
    let set: Vec<bool> = pressed.to_vec();
    state.update(&set);
}

#[test]
fn new_state_is_fully_released() {
    let state = ActionState::new(N_ACTIONS);
    assert_eq!(state.n_actions(), N_ACTIONS);
    for action in 0..N_ACTIONS {
        assert!(state.released(action));
        assert!(!state.pressed(action));
        assert!(!state.just_pressed(action));
        assert!(!state.just_released(action));
        assert_eq!(state.current_duration(action), 0);
        assert_eq!(state.previous_duration(action), 0);
    }
}

#[test]
fn update_sets_transients_on_flip() {
    let mut state = ActionState::new(N_ACTIONS);
    update_with(&mut state, &[true, false]);
    assert!(state.pressed(JUMP));
    assert!(state.just_pressed(JUMP));
    assert!(!state.just_released(JUMP));
    assert!(!state.pressed(SHOOT));
    assert!(!state.just_pressed(SHOOT));
    assert!(!state.just_released(SHOOT));

    // Leaving the set releases; staying out keeps everything clear.
    update_with(&mut state, &[false, false]);
    assert!(!state.pressed(JUMP));
    assert!(!state.just_pressed(JUMP));
    assert!(state.just_released(JUMP));
    assert!(!state.just_released(SHOOT));
}

#[test]
fn update_clears_transients_when_membership_is_unchanged() {
    let mut state = ActionState::new(N_ACTIONS);
    update_with(&mut state, &[true, false]);
    assert!(state.just_pressed(JUMP));
    // Same membership again: pressed is retained, transients are cleared.
    update_with(&mut state, &[true, false]);
    assert!(state.pressed(JUMP));
    assert!(!state.just_pressed(JUMP));
    assert!(!state.just_released(JUMP));
}

#[test]
fn tick_clears_transients_and_keeps_pressed() {
    let mut state = ActionState::new(N_ACTIONS);
    update_with(&mut state, &[true, false]);
    assert!(state.just_pressed(JUMP));
    state.tick(10);
    assert!(state.pressed(JUMP));
    assert!(!state.just_pressed(JUMP));
    assert!(!state.just_released(JUMP));
}

#[test]
fn tick_twice_is_idempotent() {
    let mut state = ActionState::new(N_ACTIONS);
    update_with(&mut state, &[true, false]);
    state.tick(10);
    let pressed_before: Vec<bool> = (0..N_ACTIONS).map(|a| state.pressed(a)).collect();
    let current_before: Vec<u64> = (0..N_ACTIONS).map(|a| state.current_duration(a)).collect();

    // A second tick at the same instant changes nothing at all.
    state.tick(10);
    for action in 0..N_ACTIONS {
        assert_eq!(state.pressed(action), pressed_before[action]);
        assert_eq!(state.current_duration(action), current_before[action]);
        assert!(!state.just_pressed(action));
        assert!(!state.just_released(action));
    }
}

#[test]
fn durations_advance_and_reset_on_flip() {
    let mut state = ActionState::new(N_ACTIONS);
    // First tick: no previous instant, so no time has elapsed yet.
    state.tick(5);
    assert_eq!(state.current_duration(JUMP), 0);

    state.tick(12);
    assert_eq!(state.current_duration(JUMP), 7);

    // Pressing flips the state: the released duration moves to previous.
    update_with(&mut state, &[true, false]);
    assert_eq!(state.current_duration(JUMP), 0);
    assert_eq!(state.previous_duration(JUMP), 7);

    state.tick(20);
    assert_eq!(state.current_duration(JUMP), 8);
    assert_eq!(state.previous_duration(JUMP), 7);
}

#[test]
fn direct_press_and_release() {
    let mut state = ActionState::new(N_ACTIONS);
    state.press(JUMP);
    assert!(state.pressed(JUMP));
    assert!(state.just_pressed(JUMP));

    // Pressing an already pressed action changes nothing.
    state.tick(3);
    state.press(JUMP);
    assert!(state.pressed(JUMP));
    assert!(!state.just_pressed(JUMP));

    state.release(JUMP);
    assert!(!state.pressed(JUMP));
    assert!(state.just_released(JUMP));

    // Releasing an already released action changes nothing.
    state.tick(4);
    state.release(JUMP);
    assert!(!state.pressed(JUMP));
    assert!(!state.just_released(JUMP));
}

#[test]
fn release_all_releases_everything() {
    let mut state = ActionState::new(N_ACTIONS);
    state.press(JUMP);
    state.press(SHOOT);
    state.release_all();
    for action in 0..N_ACTIONS {
        assert!(!state.pressed(action));
        assert!(state.just_released(action));
    }
}

#[test]
fn generated_diffs_match_transitions() {
    let mut hero = ActionState::new(N_ACTIONS);
    let mut sidekick = ActionState::new(N_ACTIONS);
    update_with(&mut hero, &[true, true]);
    update_with(&mut sidekick, &[true, false]);
    // Next frame: hero releases SHOOT, sidekick keeps JUMP held.
    hero.tick(1);
    sidekick.tick(1);
    update_with(&mut hero, &[true, false]);
    update_with(&mut sidekick, &[true, false]);

    let ids: Vec<u64> = vec![7, 9];
    let states = vec![hero, sidekick];
    let diffs = generate_action_diffs(&ids, &states);
    assert_eq!(diffs, vec![ActionDiff::Released { action: SHOOT, id: 7 }]);
}

#[test]
fn diff_round_trip_replicates_state() {
    // Drive one side from input, replay its diffs on the other side, and
    // the pressed sets agree.
    let mut source = ActionState::new(N_ACTIONS);
    let mut replica = ActionState::new(N_ACTIONS);

    update_with(&mut source, &[true, false]);
    let diffs = generate_action_diffs(&vec![42], &vec![source.clone()]);
    assert_eq!(diffs, vec![ActionDiff::Pressed { action: JUMP, id: 42 }]);

    let ids: Vec<u64> = vec![42];
    let mut replicas = vec![replica];
    process_action_diffs(&ids, &mut replicas, &diffs);
    replica = replicas.remove(0);
    assert!(replica.pressed(JUMP));
    assert!(!replica.pressed(SHOOT));
}

#[test]
fn diffs_with_unknown_id_are_dropped() {
    let ids: Vec<u64> = vec![1];
    let mut states = vec![ActionState::new(N_ACTIONS)];
    let diffs = vec![ActionDiff::Pressed { action: JUMP, id: 2 }];
    process_action_diffs(&ids, &mut states, &diffs);
    assert!(!states[0].pressed(JUMP));
}

#[test]
fn diffs_apply_to_every_matching_id() {
    let ids: Vec<u64> = vec![5, 6, 5];
    let mut states = vec![
        ActionState::new(N_ACTIONS),
        ActionState::new(N_ACTIONS),
        ActionState::new(N_ACTIONS),
    ];
    let diffs = vec![ActionDiff::Pressed { action: SHOOT, id: 5 }];
    process_action_diffs(&ids, &mut states, &diffs);
    assert!(states[0].pressed(SHOOT));
    assert!(!states[1].pressed(SHOOT));
    assert!(states[2].pressed(SHOOT));
}
