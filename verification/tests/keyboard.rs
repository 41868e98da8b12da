use bevy_input::ButtonInput;
use voxel_core::keyboard::{
    default_bindings, get_action_keys, get_bindings, is_action_just_pressed,
    is_action_just_released, is_action_pressed, GameAction, KeyCode, KeyMap,
};

const ALL_ACTIONS: [GameAction; 17] = [
    GameAction::MoveForward,
    GameAction::MoveBackward,
    GameAction::MoveLeft,
    GameAction::MoveRight,
    GameAction::Jump,
    GameAction::Escape,
    GameAction::ToggleFps,
    GameAction::ToggleViewMode,
    GameAction::ToggleChunkDebugMode,
    GameAction::ToggleFlyMode,
    GameAction::FlyUp,
    GameAction::FlyDown,
    GameAction::ToggleBlockWireframeDebugMode,
    GameAction::ToggleInventory,
    GameAction::OpenChat,
    GameAction::RenderDistanceMinus,
    GameAction::RenderDistancePlus,
];

#[test]
fn default_bindings_bind_every_action() {
    let m = default_bindings();
    assert_eq!(get_action_keys(GameAction::MoveForward, &m), vec![KeyCode::KeyW, KeyCode::ArrowUp]);
    assert_eq!(get_action_keys(GameAction::MoveBackward, &m), vec![KeyCode::KeyS, KeyCode::ArrowDown]);
    assert_eq!(get_action_keys(GameAction::MoveLeft, &m), vec![KeyCode::KeyA, KeyCode::ArrowLeft]);
    assert_eq!(get_action_keys(GameAction::MoveRight, &m), vec![KeyCode::KeyD, KeyCode::ArrowRight]);
    assert_eq!(get_action_keys(GameAction::Jump, &m), vec![KeyCode::Space]);
    assert_eq!(get_action_keys(GameAction::Escape, &m), vec![KeyCode::Escape]);
    assert_eq!(get_action_keys(GameAction::ToggleFps, &m), vec![KeyCode::F3]);
    assert_eq!(get_action_keys(GameAction::ToggleViewMode, &m), vec![KeyCode::F5]);
    assert_eq!(get_action_keys(GameAction::ToggleChunkDebugMode, &m), vec![KeyCode::F4]);
    assert_eq!(get_action_keys(GameAction::ToggleFlyMode, &m), vec![KeyCode::KeyF]);
    assert_eq!(get_action_keys(GameAction::FlyUp, &m), vec![KeyCode::Space]);
    assert_eq!(get_action_keys(GameAction::FlyDown, &m), vec![KeyCode::ShiftLeft]);
    assert_eq!(get_action_keys(GameAction::ToggleBlockWireframeDebugMode, &m), vec![KeyCode::F6]);
    assert_eq!(get_action_keys(GameAction::ToggleInventory, &m), vec![KeyCode::KeyE]);
    assert_eq!(get_action_keys(GameAction::OpenChat, &m), vec![KeyCode::KeyT]);
    assert_eq!(get_action_keys(GameAction::RenderDistanceMinus, &m), vec![KeyCode::KeyO]);
    assert_eq!(get_action_keys(GameAction::RenderDistancePlus, &m), vec![KeyCode::KeyP]);
    assert_eq!(m.bindings().len(), 17);
    for a in ALL_ACTIONS {
        assert!(m.get(a).is_some());
    }
}

#[test]
fn stored_bindings_win_over_the_default_ones() {
    let mut stored = KeyMap::new();
    stored.insert(GameAction::Jump, vec![KeyCode::KeyE]);
    let m = get_bindings(Some(stored));
    assert_eq!(get_action_keys(GameAction::Jump, &m), vec![KeyCode::KeyE]);
    assert!(m.get(GameAction::MoveForward).is_none());
    let d = get_bindings(None);
    assert_eq!(get_action_keys(GameAction::Jump, &d), vec![KeyCode::Space]);
    assert_eq!(d.bindings().len(), 17);
}

#[test]
fn insert_replaces_the_keys_of_a_bound_action() {
    let mut m = KeyMap::new();
    assert!(m.get(GameAction::Jump).is_none());
    m.insert(GameAction::Jump, vec![KeyCode::Space]);
    m.insert(GameAction::OpenChat, vec![KeyCode::KeyT, KeyCode::Other(9)]);
    m.insert(GameAction::Jump, vec![KeyCode::KeyW, KeyCode::KeyA]);
    assert_eq!(m.bindings().len(), 2);
    assert_eq!(get_action_keys(GameAction::Jump, &m), vec![KeyCode::KeyW, KeyCode::KeyA]);
    assert_eq!(get_action_keys(GameAction::OpenChat, &m), vec![KeyCode::KeyT, KeyCode::Other(9)]);
    m.insert(GameAction::Jump, Vec::new());
    assert_eq!(get_action_keys(GameAction::Jump, &m), Vec::<KeyCode>::new());
    assert_eq!(m.bindings()[0].action, GameAction::Jump);
    assert_eq!(m.bindings()[1].action, GameAction::OpenChat);
}

#[test]
fn key_codes_are_distinct() {
    let named = [
        KeyCode::KeyA,
        KeyCode::KeyD,
        KeyCode::KeyE,
        KeyCode::KeyF,
        KeyCode::KeyO,
        KeyCode::KeyP,
        KeyCode::KeyS,
        KeyCode::KeyT,
        KeyCode::KeyW,
        KeyCode::ArrowUp,
        KeyCode::ArrowDown,
        KeyCode::ArrowLeft,
        KeyCode::ArrowRight,
        KeyCode::Space,
        KeyCode::Escape,
        KeyCode::ShiftLeft,
        KeyCode::F3,
        KeyCode::F4,
        KeyCode::F5,
        KeyCode::F6,
    ];
    for (i, a) in named.iter().enumerate() {
        assert!(a.code() > u16::MAX as u32);
        for b in &named[i + 1..] {
            assert_ne!(a.code(), b.code());
        }
    }
    assert_eq!(KeyCode::Other(0).code(), 0);
    assert_eq!(KeyCode::Other(u16::MAX).code(), 65535);
    assert_eq!(KeyCode::KeyA.code(), 65536);
    assert_eq!(KeyCode::F6.code(), 65536 + 19);
}

#[test]
fn a_held_key_makes_its_action_pressed() {
    let m = default_bindings();
    let mut input = ButtonInput::<u32>::default();
    assert!(!is_action_pressed(GameAction::MoveForward, &input, &m));
    input.press(KeyCode::ArrowUp.code());
    assert!(is_action_pressed(GameAction::MoveForward, &input, &m));
    assert!(is_action_just_pressed(GameAction::MoveForward, &input, &m));
    assert!(!is_action_just_released(GameAction::MoveForward, &input, &m));
    assert!(!is_action_pressed(GameAction::MoveBackward, &input, &m));
    input.clear();
    assert!(is_action_pressed(GameAction::MoveForward, &input, &m));
    assert!(!is_action_just_pressed(GameAction::MoveForward, &input, &m));
    input.release(KeyCode::ArrowUp.code());
    assert!(!is_action_pressed(GameAction::MoveForward, &input, &m));
    assert!(is_action_just_released(GameAction::MoveForward, &input, &m));
    input.clear();
    assert!(!is_action_just_released(GameAction::MoveForward, &input, &m));
}

#[test]
fn one_key_can_make_two_actions_active() {
    let m = default_bindings();
    let mut input = ButtonInput::<u32>::default();
    input.press(KeyCode::Space.code());
    assert!(is_action_pressed(GameAction::Jump, &input, &m));
    assert!(is_action_pressed(GameAction::FlyUp, &input, &m));
    assert!(!is_action_pressed(GameAction::FlyDown, &input, &m));
}

#[test]
fn an_unbound_action_is_never_active() {
    let mut m = KeyMap::new();
    m.insert(GameAction::Jump, Vec::new());
    let mut input = ButtonInput::<u32>::default();
    input.press(KeyCode::Space.code());
    input.press(KeyCode::KeyW.code());
    assert!(!is_action_pressed(GameAction::Jump, &input, &m));
    assert!(!is_action_pressed(GameAction::MoveForward, &input, &m));
    assert!(!is_action_just_pressed(GameAction::MoveForward, &input, &m));
    assert!(!is_action_just_released(GameAction::MoveForward, &input, &m));
}
