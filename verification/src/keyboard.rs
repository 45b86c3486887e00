//! Global keyboard events: each window-level key transition goes to React
//! as a `keyDown` or `keyUp` event carrying a web-`KeyboardEvent`-like
//! payload, independent of any focused node.

use vstd::prelude::*;

verus! {

/// The payload of [`KeyDown`] / [`KeyUp`].
pub struct KeyboardEventData {
    /// Layout-aware logical key: the typed character (`"a"`, `"A"`) or a
    /// named key (`"Enter"`, `"ArrowLeft"`, `"Escape"`).
    pub key: String,
    /// Layout-independent physical key, W3C `code` style (`"KeyA"`).
    pub code: String,
    /// The text the key produced, if any.
    pub text: Option<String>,
    /// An OS auto-repeat while the key is held.
    pub repeat: bool,
    pub ctrl_key: bool,
    pub shift_key: bool,
    pub alt_key: bool,
    /// The "Meta"/"Super" key (Windows/Command).
    pub meta_key: bool,
}

/// A key press (or OS auto-repeat), sent as `keyDown`.
pub struct KeyDown(pub KeyboardEventData);

/// A key release, sent as `keyUp`.
pub struct KeyUp(pub KeyboardEventData);

/// The event a transition is sent as.
pub enum KeyboardEvent {
    Down(KeyDown),
    Up(KeyUp),
}

/// Whether the key went down or up.
#[derive(Debug, Clone, Copy, PartialEq, Eq, Structural)]
pub enum KeyState {
    Pressed,
    Released,
}

/// The logical key of a transition: a typed character, or a named key
/// under its name.
pub enum LogicalKey {
    Character(String),
    Named(String),
}

/// The modifier keys, each side on its own.
#[derive(Debug, Clone, Copy, PartialEq, Eq, Structural)]
pub enum ModifierKey {
    ControlLeft,
    ControlRight,
    ShiftLeft,
    ShiftRight,
    AltLeft,
    AltRight,
    SuperLeft,
    SuperRight,
}

/// Which modifiers are held: either side counts.
#[derive(Debug, Clone, Copy, PartialEq, Eq)]
pub struct Modifiers {
    pub ctrl: bool,
    pub shift: bool,
    pub alt: bool,
    pub meta: bool,
}

fn held(pressed: &Vec<ModifierKey>, left: ModifierKey, right: ModifierKey) -> (r: bool)
    ensures
        r == (pressed@.contains(left) || pressed@.contains(right)),
{
    let mut i: usize = 0;
    while i < pressed.len()
        invariant
            0 <= i <= pressed@.len(),
            forall|j: int| 0 <= j < i ==> pressed@[j] != left && pressed@[j] != right,
        decreases pressed@.len() - i,
    {
        let k = pressed[i];
        if k == left || k == right {
            assert(pressed@[i as int] == k);
            return true;
        }
        i = i + 1;
    }
    false
}

/// The modifier snapshot for the modifier keys held at the end of the frame.
pub fn modifiers(pressed: &Vec<ModifierKey>) -> (r: Modifiers)
    ensures
        r.ctrl == (pressed@.contains(ModifierKey::ControlLeft) || pressed@.contains(
            ModifierKey::ControlRight,
        )),
        r.shift == (pressed@.contains(ModifierKey::ShiftLeft) || pressed@.contains(
            ModifierKey::ShiftRight,
        )),
        r.alt == (pressed@.contains(ModifierKey::AltLeft) || pressed@.contains(
            ModifierKey::AltRight,
        )),
        r.meta == (pressed@.contains(ModifierKey::SuperLeft) || pressed@.contains(
            ModifierKey::SuperRight,
        )),
{
    Modifiers {
        ctrl: held(pressed, ModifierKey::ControlLeft, ModifierKey::ControlRight),
        shift: held(pressed, ModifierKey::ShiftLeft, ModifierKey::ShiftRight),
        alt: held(pressed, ModifierKey::AltLeft, ModifierKey::AltRight),
        meta: held(pressed, ModifierKey::SuperLeft, ModifierKey::SuperRight),
    }
}

/// The web-style `key` string: the character itself, or the key's name.
pub fn logical_key_string(key: LogicalKey) -> (r: String)
    ensures
        match key {
            LogicalKey::Character(s) => r@ == s@,
            LogicalKey::Named(n) => r@ == n@,
        },
{
    match key {
        LogicalKey::Character(s) => s,
        LogicalKey::Named(n) => n,
    }
}

/// The event for one key transition, with the frame's modifier snapshot:
/// `keyDown` for a press, `keyUp` for a release.
pub fn keyboard_event(
    state: KeyState,
    key: LogicalKey,
    code: String,
    text: Option<String>,
    repeat: bool,
    mods: Modifiers,
) -> (r: KeyboardEvent)
    ensures
        state == KeyState::Pressed <==> r is Down,
        ({
            let d = match r {
                KeyboardEvent::Down(KeyDown(d)) => d,
                KeyboardEvent::Up(KeyUp(d)) => d,
            };
            &&& d.key@ == match key {
                LogicalKey::Character(s) => s@,
                LogicalKey::Named(n) => n@,
            }
            &&& d.code == code
            &&& d.text == text
            &&& d.repeat == repeat
            &&& d.ctrl_key == mods.ctrl
            &&& d.shift_key == mods.shift
            &&& d.alt_key == mods.alt
            &&& d.meta_key == mods.meta
        }),
{
    let data = KeyboardEventData {
        key: logical_key_string(key),
        code,
        text,
        repeat,
        ctrl_key: mods.ctrl,
        shift_key: mods.shift,
        alt_key: mods.alt,
        meta_key: mods.meta,
    };
    match state {
        KeyState::Pressed => KeyboardEvent::Down(KeyDown(data)),
        KeyState::Released => KeyboardEvent::Up(KeyUp(data)),
    }
}

} // verus!
