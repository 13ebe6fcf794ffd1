use input_manager::clashing_inputs::ClashStrategy;
use input_manager::input_map::InputMap;
use input_manager::user_input::InputCombination;
use input_manager::user_input::InputSnapshot;
use input_manager::user_input::RawInput;

// Action ordinals, in declaration order.
const ONE: usize = 0;
const TWO: usize = 1;
const ONE_AND_TWO: usize = 2;
const TWO_AND_THREE: usize = 3;
const ONE_AND_TWO_AND_THREE: usize = 4;
const CTRL_ONE: usize = 5;
const ALT_ONE: usize = 6;
const CTRL_ALT_ONE: usize = 7;
const N_ACTIONS: usize = 8;

// Key codes.
const KEY1: u32 = 1;
const KEY2: u32 = 2;
const KEY3: u32 = 3;
const L_CONTROL: u32 = 100;
const L_ALT: u32 = 101;

fn key_chord(keys: &[u32]) -> InputCombination {
    let mut inputs: Vec<RawInput> = Vec::new();
    for &k in keys {
        inputs.push(RawInput::Keyboard(k));
    }
    InputCombination::chord(inputs).unwrap()
}

fn spawn_input_map() -> InputMap {
    let mut input_map = InputMap::new(N_ACTIONS);
    input_map.insert_single(ONE, RawInput::Keyboard(KEY1));
    input_map.insert_single(TWO, RawInput::Keyboard(KEY2));
    input_map.insert(ONE_AND_TWO, key_chord(&[KEY1, KEY2]));
    input_map.insert(TWO_AND_THREE, key_chord(&[KEY2, KEY3]));
    input_map.insert(ONE_AND_TWO_AND_THREE, key_chord(&[KEY1, KEY2, KEY3]));
    input_map.insert(CTRL_ONE, key_chord(&[L_CONTROL, KEY1]));
    input_map.insert(ALT_ONE, key_chord(&[L_ALT, KEY1]));
    input_map.insert(CTRL_ALT_ONE, key_chord(&[L_CONTROL, L_ALT, KEY1]));
    input_map
}

fn keyboard_snapshot(keys: &[u32]) -> InputSnapshot {
    InputSnapshot {
        keyboard: Some(keys.to_vec()),
        mouse: None,
        gamepads: None,
    }
}

fn assert_input_map_actions_eq(
    input_map: &InputMap,
    held_keys: &[u32],
    clash_strategy: ClashStrategy,
    pressed_actions: &[usize],
) {
    let snapshot = keyboard_snapshot(held_keys);
    for action in 0..input_map.n_actions() {
        let expected = pressed_actions.contains(&action);
        assert_eq!(
            input_map.pressed(action, &snapshot, clash_strategy),
            expected,
            "action {action} wrong for {clash_strategy:?} with held keys {held_keys:?}"
        );
    }
}

#[test]
fn input_clash_handling() {
    let input_map = spawn_input_map();

    // Two inputs
    let held = [KEY1, KEY2];
    assert_input_map_actions_eq(
        &input_map,
        &held,
        ClashStrategy::PressAll,
        &[ONE, TWO, ONE_AND_TWO],
    );
    assert_input_map_actions_eq(
        &input_map,
        &held,
        ClashStrategy::PrioritizeLongest,
        &[ONE_AND_TWO],
    );
    assert_input_map_actions_eq(&input_map, &held, ClashStrategy::UseActionOrder, &[ONE, TWO]);

    // Three inputs
    let held = [KEY1, KEY2, KEY3];
    assert_input_map_actions_eq(
        &input_map,
        &held,
        ClashStrategy::PressAll,
        &[ONE, TWO, ONE_AND_TWO, TWO_AND_THREE, ONE_AND_TWO_AND_THREE],
    );
    assert_input_map_actions_eq(
        &input_map,
        &held,
        ClashStrategy::PrioritizeLongest,
        &[ONE_AND_TWO_AND_THREE],
    );
    assert_input_map_actions_eq(&input_map, &held, ClashStrategy::UseActionOrder, &[ONE, TWO]);

    // Modifier
    let held = [KEY1, KEY2, KEY3, L_CONTROL];
    assert_input_map_actions_eq(
        &input_map,
        &held,
        ClashStrategy::PressAll,
        &[ONE, TWO, ONE_AND_TWO, TWO_AND_THREE, ONE_AND_TWO_AND_THREE, CTRL_ONE],
    );
    assert_input_map_actions_eq(
        &input_map,
        &held,
        ClashStrategy::PrioritizeLongest,
        &[CTRL_ONE, ONE_AND_TWO_AND_THREE],
    );
    assert_input_map_actions_eq(&input_map, &held, ClashStrategy::UseActionOrder, &[ONE, TWO]);

    // Multiple modifiers
    let held = [KEY1, L_CONTROL, L_ALT];
    assert_input_map_actions_eq(
        &input_map,
        &held,
        ClashStrategy::PressAll,
        &[ONE, CTRL_ONE, ALT_ONE, CTRL_ALT_ONE],
    );
    assert_input_map_actions_eq(
        &input_map,
        &held,
        ClashStrategy::PrioritizeLongest,
        &[CTRL_ALT_ONE],
    );
    assert_input_map_actions_eq(&input_map, &held, ClashStrategy::UseActionOrder, &[ONE]);

    // Action order
    let held = [KEY3, KEY2];
    assert_input_map_actions_eq(
        &input_map,
        &held,
        ClashStrategy::PressAll,
        &[TWO, TWO_AND_THREE],
    );
    assert_input_map_actions_eq(
        &input_map,
        &held,
        ClashStrategy::PrioritizeLongest,
        &[TWO_AND_THREE],
    );
    assert_input_map_actions_eq(&input_map, &held, ClashStrategy::UseActionOrder, &[TWO]);
}

#[test]
fn press_all_keeps_every_candidate() {
    let input_map = spawn_input_map();
    let snapshot = keyboard_snapshot(&[KEY1, KEY2, KEY3, L_CONTROL, L_ALT]);
    let which = input_map.which_pressed(&snapshot, ClashStrategy::PressAll);
    // Every action with a satisfied combination stays pressed.
    assert_eq!(which, vec![true; N_ACTIONS]);
}

#[test]
fn prioritize_longest_chord_beats_single() {
    let input_map = spawn_input_map();
    // Holding Key1+Key2, the most specific chord wins and suppresses both
    // singles.
    let snapshot = keyboard_snapshot(&[KEY1, KEY2]);
    let which = input_map.which_pressed(&snapshot, ClashStrategy::PrioritizeLongest);
    assert!(which[ONE_AND_TWO]);
    assert!(!which[ONE]);
    assert!(!which[TWO]);
}

#[test]
fn action_order_five_actions() {
    // Holding Key1+Key2+Key3 with actions declared in order One, Two,
    // OneAndTwo, TwoAndThree, OneAndTwoAndThree, the earlier-declared
    // singles survive and every later-declared chord is dropped.
    let input_map = spawn_input_map();
    let snapshot = keyboard_snapshot(&[KEY1, KEY2, KEY3]);
    let which = input_map.which_pressed(&snapshot, ClashStrategy::UseActionOrder);
    assert!(which[ONE]);
    assert!(which[TWO]);
    assert!(!which[ONE_AND_TWO]);
    assert!(!which[TWO_AND_THREE]);
    assert!(!which[ONE_AND_TWO_AND_THREE]);
}

#[test]
fn multi_modifier_scenario() {
    // Holding Key1+LControl+LAlt: under PrioritizeLongest only the full
    // modifier chord remains; under UseActionOrder only the earliest
    // declared action remains.
    let input_map = spawn_input_map();
    let snapshot = keyboard_snapshot(&[KEY1, L_CONTROL, L_ALT]);

    let longest = input_map.which_pressed(&snapshot, ClashStrategy::PrioritizeLongest);
    for action in 0..N_ACTIONS {
        assert_eq!(longest[action], action == CTRL_ALT_ONE);
    }

    let ordered = input_map.which_pressed(&snapshot, ClashStrategy::UseActionOrder);
    for action in 0..N_ACTIONS {
        assert_eq!(ordered[action], action == ONE);
    }
}

#[test]
fn unbound_action_is_never_pressed() {
    // An action bound to zero combinations is never a candidate and never
    // appears pressed under any strategy.
    let mut input_map = InputMap::new(2);
    input_map.insert_single(0, RawInput::Keyboard(KEY1));
    let snapshot = keyboard_snapshot(&[KEY1, KEY2, KEY3]);
    for strategy in [
        ClashStrategy::PressAll,
        ClashStrategy::PrioritizeLongest,
        ClashStrategy::UseActionOrder,
    ] {
        assert!(input_map.pressed(0, &snapshot, strategy));
        assert!(!input_map.pressed(1, &snapshot, strategy));
        assert!(!input_map.is_candidate(&snapshot, 1));
    }
}

#[test]
fn overlapping_non_subset_chords_keep_both() {
    // Chords [Key1, Key2] and [Key2, Key3] share Key2, but neither contains
    // the other: both can be held deliberately, so both stay pressed under
    // every strategy.
    let mut input_map = InputMap::new(2);
    input_map.insert(0, key_chord(&[KEY1, KEY2]));
    input_map.insert(1, key_chord(&[KEY2, KEY3]));
    let snapshot = keyboard_snapshot(&[KEY1, KEY2, KEY3]);
    for strategy in [
        ClashStrategy::PressAll,
        ClashStrategy::PrioritizeLongest,
        ClashStrategy::UseActionOrder,
    ] {
        assert!(input_map.pressed(0, &snapshot, strategy));
        assert!(input_map.pressed(1, &snapshot, strategy));
    }
}
