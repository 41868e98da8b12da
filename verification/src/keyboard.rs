//! Key bindings, and which actions the keyboard state of a tick makes active.
//!
//! The keyboard state is a `bevy_input::ButtonInput` over key codes. What it
//! holds is not proved here: it is named by `held_keys`, `pressed_now` and
//! `released_now`, and read through three wrappers of that type's methods.

use bevy_input::ButtonInput;
use std::hash::Hash;
use vstd::prelude::*;

verus! {

/// `bevy_input::ButtonInput`, the state of a set of buttons during one tick:
/// the buttons that are held, those that were just pressed and those that
/// were just released. Nothing inside a value of it is visible to a proof.
#[verifier::external_type_specification]
#[verifier::external_body]
#[verifier::reject_recursive_types(T)]
pub struct ExButtonInput<T: Copy + Eq + Hash + Send + Sync + 'static>(ButtonInput<T>);

/// The codes of the keys that are held down in `input`.
pub uninterp spec fn held_keys(input: ButtonInput<u32>) -> Set<u32>;

/// The codes of the keys that went down during the tick of `input`.
pub uninterp spec fn pressed_now(input: ButtonInput<u32>) -> Set<u32>;

/// The codes of the keys that went up during the tick of `input`.
pub uninterp spec fn released_now(input: ButtonInput<u32>) -> Set<u32>;

/// Calls `bevy_input::ButtonInput::pressed`. Taken on trust: that method
/// says whether `key` is in the set of held buttons, the set that
/// `held_keys` names.
#[verifier::external_body]
fn key_pressed(input: &ButtonInput<u32>, key: u32) -> (b: bool)
    ensures
        b == held_keys(*input).contains(key),
{
    input.pressed(key)
}

/// Calls `bevy_input::ButtonInput::just_pressed`. Taken on trust: that
/// method says whether `key` is in the set of buttons that were pressed
/// during this tick, the set that `pressed_now` names.
#[verifier::external_body]
fn key_just_pressed(input: &ButtonInput<u32>, key: u32) -> (b: bool)
    ensures
        b == pressed_now(*input).contains(key),
{
    input.just_pressed(key)
}

/// Calls `bevy_input::ButtonInput::just_released`. Taken on trust: that
/// method says whether `key` is in the set of buttons that were released
/// during this tick, the set that `released_now` names.
#[verifier::external_body]
fn key_just_released(input: &ButtonInput<u32>, key: u32) -> (b: bool)
    ensures
        b == released_now(*input).contains(key),
{
    input.just_released(key)
}

/// What the player can ask for.
#[derive(Clone, Copy, Debug, PartialEq, Eq, Structural, Hash)]
pub enum GameAction {
    MoveForward,
    MoveBackward,
    MoveLeft,
    MoveRight,
    Jump,
    Escape,
    ToggleFps,
    ToggleViewMode,
    ToggleChunkDebugMode,
    ToggleFlyMode,
    FlyUp,
    FlyDown,
    ToggleBlockWireframeDebugMode,
    ToggleInventory,
    OpenChat,
    RenderDistanceMinus,
    RenderDistancePlus,
}

/// A physical key. A key without a name of its own carries a number.
#[derive(Clone, Copy, Debug, PartialEq, Eq, Structural, Hash)]
pub enum KeyCode {
    KeyA,
    KeyD,
    KeyE,
    KeyF,
    KeyO,
    KeyP,
    KeyS,
    KeyT,
    KeyW,
    ArrowUp,
    ArrowDown,
    ArrowLeft,
    ArrowRight,
    Space,
    Escape,
    ShiftLeft,
    F3,
    F4,
    F5,
    F6,
    Other(u16),
}

impl KeyCode {
    /// The code under which the key occurs in the keyboard state. No two
    /// keys have the same code.
    pub open spec fn spec_code(self) -> u32 {
        match self {
            KeyCode::Other(n) => n as u32,
            KeyCode::KeyA => 0x1_0000,
            KeyCode::KeyD => 0x1_0001,
            KeyCode::KeyE => 0x1_0002,
            KeyCode::KeyF => 0x1_0003,
            KeyCode::KeyO => 0x1_0004,
            KeyCode::KeyP => 0x1_0005,
            KeyCode::KeyS => 0x1_0006,
            KeyCode::KeyT => 0x1_0007,
            KeyCode::KeyW => 0x1_0008,
            KeyCode::ArrowUp => 0x1_0009,
            KeyCode::ArrowDown => 0x1_000a,
            KeyCode::ArrowLeft => 0x1_000b,
            KeyCode::ArrowRight => 0x1_000c,
            KeyCode::Space => 0x1_000d,
            KeyCode::Escape => 0x1_000e,
            KeyCode::ShiftLeft => 0x1_000f,
            KeyCode::F3 => 0x1_0010,
            KeyCode::F4 => 0x1_0011,
            KeyCode::F5 => 0x1_0012,
            KeyCode::F6 => 0x1_0013,
        }
    }

    /// Computes `spec_code`.
    pub fn code(&self) -> (c: u32)
        ensures
            c == self.spec_code(),
    {
        match self {
            KeyCode::Other(n) => *n as u32,
            KeyCode::KeyA => 0x1_0000,
            KeyCode::KeyD => 0x1_0001,
            KeyCode::KeyE => 0x1_0002,
            KeyCode::KeyF => 0x1_0003,
            KeyCode::KeyO => 0x1_0004,
            KeyCode::KeyP => 0x1_0005,
            KeyCode::KeyS => 0x1_0006,
            KeyCode::KeyT => 0x1_0007,
            KeyCode::KeyW => 0x1_0008,
            KeyCode::ArrowUp => 0x1_0009,
            KeyCode::ArrowDown => 0x1_000a,
            KeyCode::ArrowLeft => 0x1_000b,
            KeyCode::ArrowRight => 0x1_000c,
            KeyCode::Space => 0x1_000d,
            KeyCode::Escape => 0x1_000e,
            KeyCode::ShiftLeft => 0x1_000f,
            KeyCode::F3 => 0x1_0010,
            KeyCode::F4 => 0x1_0011,
            KeyCode::F5 => 0x1_0012,
            KeyCode::F6 => 0x1_0013,
        }
    }

    /// Two keys with the same code are the same key.
    pub proof fn lemma_code_injective(a: KeyCode, b: KeyCode)
        requires
            a.spec_code() == b.spec_code(),
        ensures
            a == b,
    {
    }
}

/// The keys bound to one action.
#[derive(Clone, Debug)]
pub struct Binding {
    pub action: GameAction,
    pub keys: Vec<KeyCode>,
}

/// The keys bound to each action; an action is bound at most once.
#[derive(Debug)]
pub struct KeyMap {
    bindings: Vec<Binding>,
}

/// Whether the code of some key of `keys` is in `held`.
pub open spec fn any_key_in(keys: Seq<KeyCode>, held: Set<u32>) -> bool {
    exists|i: int| 0 <= i < keys.len() && held.contains((#[trigger] keys[i]).spec_code())
}

/// Whether `action` is bound in `bindings` to a key whose code is in `held`.
pub open spec fn action_active(
    action: GameAction,
    held: Set<u32>,
    bindings: Map<GameAction, Seq<KeyCode>>,
) -> bool {
    bindings.contains_key(action) && any_key_in(bindings[action], held)
}

impl View for KeyMap {
    type V = Map<GameAction, Seq<KeyCode>>;

    closed spec fn view(&self) -> Map<GameAction, Seq<KeyCode>> {
        Map::new(
            |a: GameAction| exists|i: int| 0 <= i < self.bindings@.len() && self.bindings@[i].action == a,
            |a: GameAction| self.bindings@[self.slot_of(a)].keys@,
        )
    }
}

impl KeyMap {
    /// The position of the binding of `action`, where it has one.
    closed spec fn slot_of(&self, action: GameAction) -> int {
        choose|i: int| 0 <= i < self.bindings@.len() && self.bindings@[i].action == action
    }

    /// No action is bound twice.
    pub closed spec fn wf(&self) -> bool {
        forall|i: int, j: int|
            0 <= i < j < self.bindings@.len() ==> (#[trigger] self.bindings@[i]).action != (
            #[trigger] self.bindings@[j]).action
    }

    /// A key map that binds nothing.
    pub fn new() -> (m: KeyMap)
        ensures
            m.wf(),
            m@ == Map::<GameAction, Seq<KeyCode>>::empty(),
    {
        let m = KeyMap { bindings: Vec::new() };
        assert(m@ =~= Map::<GameAction, Seq<KeyCode>>::empty());
        m
    }

    fn find(&self, action: GameAction) -> (at: Option<usize>)
        requires
            self.wf(),
        ensures
            at is Some <==> self@.contains_key(action),
            at matches Some(i) ==> i < self.bindings@.len() && self.bindings@[i as int].action
                == action && self.slot_of(action) == i,
    {
        let mut i: usize = 0;
        while i < self.bindings.len()
            invariant
                self.wf(),
                i <= self.bindings@.len(),
                forall|j: int| 0 <= j < i ==> (#[trigger] self.bindings@[j]).action != action,
            decreases self.bindings@.len() - i,
        {
            if self.bindings[i].action == action {
                proof {
                    let j = self.slot_of(action);
                    assert(self.bindings@[i as int].action == action);
                    assert(self.bindings@[j].action == action);
                }
                return Some(i);
            }
            i = i + 1;
        }
        None
    }

    /// The keys bound to `action`, if it is bound.
    pub fn get(&self, action: GameAction) -> (keys: Option<&Vec<KeyCode>>)
        requires
            self.wf(),
        ensures
            keys is Some <==> self@.contains_key(action),
            keys matches Some(k) ==> k@ == self@[action],
    {
        match self.find(action) {
            None => None,
            Some(i) => Some(&self.bindings[i].keys),
        }
    }

    /// Binds `keys` to `action`, in place of what was bound to it before.
    pub fn insert(&mut self, action: GameAction, keys: Vec<KeyCode>)
        requires
            old(self).wf(),
        ensures
            final(self).wf(),
            final(self)@ == old(self)@.insert(action, keys@),
    {
        match self.find(action) {
            Some(i) => {
                self.bindings.set(i, Binding { action, keys });
                proof {
                    assert forall|a: GameAction| #[trigger]
                        self@.contains_key(a) == old(self)@.insert(action, keys@).contains_key(
                            a,
                        ) by {
                        if old(self)@.contains_key(a) {
                            let j = old(self).slot_of(a);
                            assert(self.bindings@[j].action == a);
                        }
                        if self@.contains_key(a) {
                            let j = self.slot_of(a);
                            assert(old(self).bindings@[j].action == a);
                        }
                    }
                    assert forall|a: GameAction| #[trigger] self@.contains_key(a) implies self@[a]
                        == old(self)@.insert(action, keys@)[a] by {
                        let j = self.slot_of(a);
                        assert(old(self).bindings@[j].action == a);
                        if a != action {
                            let j0 = old(self).slot_of(a);
                            assert(j0 == j);
                        }
                    }
                    assert(self@ =~= old(self)@.insert(action, keys@));
                }
            },
            None => {
                self.bindings.push(Binding { action, keys });
                proof {
                    let last = old(self).bindings@.len() as int;
                    assert(self.bindings@[last].action == action);
                    assert forall|a: GameAction| #[trigger]
                        self@.contains_key(a) == old(self)@.insert(action, keys@).contains_key(
                            a,
                        ) by {
                        if old(self)@.contains_key(a) {
                            let j = old(self).slot_of(a);
                            assert(self.bindings@[j].action == a);
                        }
                        if self@.contains_key(a) && a != action {
                            let j = self.slot_of(a);
                            assert(old(self).bindings@[j].action == a);
                        }
                    }
                    assert forall|a: GameAction| #[trigger] self@.contains_key(a) implies self@[a]
                        == old(self)@.insert(action, keys@)[a] by {
                        let j = self.slot_of(a);
                        if a != action {
                            assert(old(self).bindings@[j].action == a);
                            let j0 = old(self).slot_of(a);
                            assert(j0 == j);
                        }
                    }
                    assert(self@ =~= old(self)@.insert(action, keys@));
                }
            },
        }
    }

    /// Every binding, each action once.
    pub fn bindings(&self) -> (b: &Vec<Binding>)
        requires
            self.wf(),
        ensures
            forall|i: int|
                0 <= i < b@.len() ==> self@.contains_key((#[trigger] b@[i]).action) && self@[b@[i].action]
                    == b@[i].keys@,
            forall|a: GameAction|
                self@.contains_key(a) ==> exists|i: int| 0 <= i < b@.len() && (#[trigger] b@[i]).action == a,
            forall|i: int, j: int|
                0 <= i < j < b@.len() ==> (#[trigger] b@[i]).action != (#[trigger] b@[j]).action,
    {
        proof {
            assert forall|i: int| 0 <= i < self.bindings@.len() implies self@.contains_key(
                (#[trigger] self.bindings@[i]).action,
            ) && self@[self.bindings@[i].action] == self.bindings@[i].keys@ by {
                let a = self.bindings@[i].action;
                let j = self.slot_of(a);
                assert(j == i);
            }
        }
        &self.bindings
    }
}

/// The three sets of keys that a keyboard state holds.
#[derive(Clone, Copy, Debug, PartialEq, Eq, Structural)]
enum KeySet {
    Held,
    PressedNow,
    ReleasedNow,
}

/// The codes that `input` holds in the set `which`.
spec fn keys_in(input: ButtonInput<u32>, which: KeySet) -> Set<u32> {
    match which {
        KeySet::Held => held_keys(input),
        KeySet::PressedNow => pressed_now(input),
        KeySet::ReleasedNow => released_now(input),
    }
}

fn any_key_of(keys: &Vec<KeyCode>, input: &ButtonInput<u32>, which: KeySet) -> (b: bool)
    ensures
        b == any_key_in(keys@, keys_in(*input, which)),
{
    let mut i: usize = 0;
    while i < keys.len()
        invariant
            i <= keys@.len(),
            forall|j: int|
                0 <= j < i ==> !keys_in(*input, which).contains((#[trigger] keys@[j]).spec_code()),
        decreases keys@.len() - i,
    {
        let code = keys[i].code();
        let found = match which {
            KeySet::Held => key_pressed(input, code),
            KeySet::PressedNow => key_just_pressed(input, code),
            KeySet::ReleasedNow => key_just_released(input, code),
        };
        if found {
            return true;
        }
        i = i + 1;
    }
    false
}

/// Whether a key bound to `action` is held down.
pub fn is_action_pressed(action: GameAction, keyboard_input: &ButtonInput<u32>, key_map: &KeyMap) -> (b:
    bool)
    requires
        key_map.wf(),
    ensures
        b == action_active(action, held_keys(*keyboard_input), key_map@),
{
    match key_map.get(action) {
        Some(key_codes) => any_key_of(key_codes, keyboard_input, KeySet::Held),
        None => false,
    }
}

/// Whether a key bound to `action` went down during this tick.
pub fn is_action_just_pressed(
    action: GameAction,
    keyboard_input: &ButtonInput<u32>,
    key_map: &KeyMap,
) -> (b: bool)
    requires
        key_map.wf(),
    ensures
        b == action_active(action, pressed_now(*keyboard_input), key_map@),
{
    match key_map.get(action) {
        Some(key_codes) => any_key_of(key_codes, keyboard_input, KeySet::PressedNow),
        None => false,
    }
}

/// Whether a key bound to `action` went up during this tick.
pub fn is_action_just_released(
    action: GameAction,
    keyboard_input: &ButtonInput<u32>,
    key_map: &KeyMap,
) -> (b: bool)
    requires
        key_map.wf(),
    ensures
        b == action_active(action, released_now(*keyboard_input), key_map@),
{
    match key_map.get(action) {
        Some(key_codes) => any_key_of(key_codes, keyboard_input, KeySet::ReleasedNow),
        None => false,
    }
}

/// A copy of the keys bound to `action`, which must be bound.
pub fn get_action_keys(action: GameAction, key_map: &KeyMap) -> (keys: Vec<KeyCode>)
    requires
        key_map.wf(),
        key_map@.contains_key(action),
    ensures
        keys@ == key_map@[action],
{
    let bound = key_map.get(action).unwrap();
    let mut keys: Vec<KeyCode> = Vec::new();
    let mut i: usize = 0;
    while i < bound.len()
        invariant
            i <= bound@.len(),
            keys@ == bound@.take(i as int),
        decreases bound@.len() - i,
    {
        keys.push(bound[i]);
        i = i + 1;
        assert(keys@ =~= bound@.take(i as int));
    }
    assert(keys@ =~= bound@);
    keys
}

/// The bindings in force when none were stored.
pub open spec fn spec_default_bindings() -> Map<GameAction, Seq<KeyCode>> {
    Map::<GameAction, Seq<KeyCode>>::empty().insert(
        GameAction::MoveForward,
        seq![KeyCode::KeyW, KeyCode::ArrowUp],
    ).insert(GameAction::MoveBackward, seq![KeyCode::KeyS, KeyCode::ArrowDown]).insert(
        GameAction::MoveLeft,
        seq![KeyCode::KeyA, KeyCode::ArrowLeft],
    ).insert(GameAction::MoveRight, seq![KeyCode::KeyD, KeyCode::ArrowRight]).insert(
        GameAction::Jump,
        seq![KeyCode::Space],
    ).insert(GameAction::Escape, seq![KeyCode::Escape]).insert(
        GameAction::ToggleFps,
        seq![KeyCode::F3],
    ).insert(GameAction::ToggleViewMode, seq![KeyCode::F5]).insert(
        GameAction::ToggleChunkDebugMode,
        seq![KeyCode::F4],
    ).insert(GameAction::ToggleFlyMode, seq![KeyCode::KeyF]).insert(
        GameAction::FlyUp,
        seq![KeyCode::Space],
    ).insert(GameAction::FlyDown, seq![KeyCode::ShiftLeft]).insert(
        GameAction::ToggleBlockWireframeDebugMode,
        seq![KeyCode::F6],
    ).insert(GameAction::ToggleInventory, seq![KeyCode::KeyE]).insert(
        GameAction::OpenChat,
        seq![KeyCode::KeyT],
    ).insert(GameAction::RenderDistanceMinus, seq![KeyCode::KeyO]).insert(
        GameAction::RenderDistancePlus,
        seq![KeyCode::KeyP],
    )
}

fn one_key(a: KeyCode) -> (keys: Vec<KeyCode>)
    ensures
        keys@ == seq![a],
{
    let mut keys: Vec<KeyCode> = Vec::new();
    keys.push(a);
    assert(keys@ =~= seq![a]);
    keys
}

fn two_keys(a: KeyCode, b: KeyCode) -> (keys: Vec<KeyCode>)
    ensures
        keys@ == seq![a, b],
{
    let mut keys: Vec<KeyCode> = Vec::new();
    keys.push(a);
    keys.push(b);
    assert(keys@ =~= seq![a, b]);
    keys
}

/// Builds the bindings in force when none were stored.
pub fn default_bindings() -> (m: KeyMap)
    ensures
        m.wf(),
        m@ == spec_default_bindings(),
{
    let mut m = KeyMap::new();
    m.insert(GameAction::MoveForward, two_keys(KeyCode::KeyW, KeyCode::ArrowUp));
    m.insert(GameAction::MoveBackward, two_keys(KeyCode::KeyS, KeyCode::ArrowDown));
    m.insert(GameAction::MoveLeft, two_keys(KeyCode::KeyA, KeyCode::ArrowLeft));
    m.insert(GameAction::MoveRight, two_keys(KeyCode::KeyD, KeyCode::ArrowRight));
    m.insert(GameAction::Jump, one_key(KeyCode::Space));
    m.insert(GameAction::Escape, one_key(KeyCode::Escape));
    m.insert(GameAction::ToggleFps, one_key(KeyCode::F3));
    m.insert(GameAction::ToggleViewMode, one_key(KeyCode::F5));
    m.insert(GameAction::ToggleChunkDebugMode, one_key(KeyCode::F4));
    m.insert(GameAction::ToggleFlyMode, one_key(KeyCode::KeyF));
    m.insert(GameAction::FlyUp, one_key(KeyCode::Space));
    m.insert(GameAction::FlyDown, one_key(KeyCode::ShiftLeft));
    m.insert(GameAction::ToggleBlockWireframeDebugMode, one_key(KeyCode::F6));
    m.insert(GameAction::ToggleInventory, one_key(KeyCode::KeyE));
    m.insert(GameAction::OpenChat, one_key(KeyCode::KeyT));
    m.insert(GameAction::RenderDistanceMinus, one_key(KeyCode::KeyO));
    m.insert(GameAction::RenderDistancePlus, one_key(KeyCode::KeyP));
    m
}

/// The stored bindings where there are any, else the default ones.
pub fn get_bindings(stored: Option<KeyMap>) -> (m: KeyMap)
    requires
        stored matches Some(s) ==> s.wf(),
    ensures
        m.wf(),
        match stored {
            Some(s) => m == s,
            None => m@ == spec_default_bindings(),
        },
{
    match stored {
        Some(key_map) => key_map,
        None => default_bindings(),
    }
}

} // verus!
