use bevy_react_core::keyboard::{
    keyboard_event, logical_key_string, modifiers, KeyDown, KeyState, KeyUp, KeyboardEvent,
    LogicalKey, ModifierKey, Modifiers,
};

fn no_mods() -> Modifiers {
    modifiers(&Vec::new())
}

#[test]
fn key_press_and_release_produce_named_events() {
    let down = keyboard_event(
        KeyState::Pressed,
        LogicalKey::Character("a".to_string()),
        "KeyA".to_string(),
        Some("a".to_string()),
        false,
        no_mods(),
    );
    match down {
        KeyboardEvent::Down(KeyDown(d)) => {
            assert_eq!(d.key, "a");
            assert_eq!(d.code, "KeyA");
            assert_eq!(d.text.as_deref(), Some("a"));
            assert!(!d.repeat);
            assert!(!d.ctrl_key);
        }
        KeyboardEvent::Up(_) => panic!("expected a keyDown event"),
    }
    let up = keyboard_event(
        KeyState::Released,
        LogicalKey::Character("a".to_string()),
        "KeyA".to_string(),
        None,
        false,
        no_mods(),
    );
    assert!(matches!(up, KeyboardEvent::Up(KeyUp(_))), "expected a keyUp event");
}

#[test]
fn named_key_maps_to_variant_name() {
    let ev = keyboard_event(
        KeyState::Pressed,
        LogicalKey::Named("Escape".to_string()),
        "Escape".to_string(),
        None,
        false,
        no_mods(),
    );
    match ev {
        KeyboardEvent::Down(KeyDown(d)) => {
            assert_eq!(d.key, "Escape");
            assert_eq!(d.code, "Escape");
        }
        KeyboardEvent::Up(_) => panic!("expected a keyDown event"),
    }
}

#[test]
fn either_side_of_a_modifier_counts() {
    let m = modifiers(&vec![ModifierKey::ControlRight, ModifierKey::ShiftLeft]);
    assert_eq!(m, Modifiers { ctrl: true, shift: true, alt: false, meta: false });
    let m = modifiers(&vec![ModifierKey::AltLeft, ModifierKey::SuperRight]);
    assert_eq!(m, Modifiers { ctrl: false, shift: false, alt: true, meta: true });
    assert_eq!(no_mods(), Modifiers { ctrl: false, shift: false, alt: false, meta: false });
}

#[test]
fn modifiers_and_repeat_ride_along() {
    let m = modifiers(&vec![ModifierKey::ControlLeft]);
    match keyboard_event(
        KeyState::Pressed,
        LogicalKey::Character("z".to_string()),
        "KeyZ".to_string(),
        None,
        true,
        m,
    ) {
        KeyboardEvent::Down(KeyDown(d)) => {
            assert!(d.repeat);
            assert!(d.ctrl_key && !d.shift_key && !d.alt_key && !d.meta_key);
            assert!(d.text.is_none());
        }
        KeyboardEvent::Up(_) => panic!("expected a keyDown event"),
    }
}

#[test]
fn logical_key_is_the_character_or_the_name() {
    assert_eq!(logical_key_string(LogicalKey::Character("A".to_string())), "A");
    assert_eq!(logical_key_string(LogicalKey::Named("ArrowLeft".to_string())), "ArrowLeft");
}
