use henge_desktop::input::{Action, Bindings, Source};
use henge_desktop::keys::{
    key_index, slot_of, typed_char, Key, BACKSPACE_SLOT, CALIBRATE_SLOT, ENTER_SLOT, NUMBER_SLOT,
};
use winit::keyboard::KeyCode;

/// The chain a key press walks: the window system's key, its own name, the
/// binding table, and the slot the game reads.
fn slots_for(b: &Bindings, code: KeyCode) -> Vec<usize> {
    b.raised_by(&Source::key(&format!("{code:?}")))
        .into_iter()
        .map(|(seat, action)| slot_of(seat, action))
        .collect()
}

#[test]
fn the_developer_keys_are_not_in_the_binding_table() {
    let b = Bindings::default();
    for code in [KeyCode::BracketLeft, KeyCode::Comma, KeyCode::F2, KeyCode::KeyC, KeyCode::KeyR] {
        assert!(slots_for(&b, code).is_empty(), "{code:?} is bound as a control");
    }
    assert_eq!(key_index(Key::BracketLeft), 4);
    assert_eq!(key_index(Key::Enter), 12);
    for key in [Key::BracketLeft, Key::BracketRight, Key::Enter, Key::Comma, Key::Period] {
        let i = key_index(key);
        assert!(!(0..=3).contains(&i) && !(6..=11).contains(&i), "{key:?} took slot {i}");
    }
}

#[test]
fn the_number_keys_are_nine_slots_of_their_own() {
    let b = Bindings::default();
    let digits = [
        (KeyCode::Digit1, Key::Digit1),
        (KeyCode::Digit2, Key::Digit2),
        (KeyCode::Digit3, Key::Digit3),
        (KeyCode::Digit4, Key::Digit4),
        (KeyCode::Digit5, Key::Digit5),
        (KeyCode::Digit6, Key::Digit6),
        (KeyCode::Digit7, Key::Digit7),
        (KeyCode::Digit8, Key::Digit8),
        (KeyCode::Digit9, Key::Digit9),
    ];
    for (n, (code, key)) in digits.iter().enumerate() {
        assert_eq!(key_index(*key), NUMBER_SLOT + n, "{code:?} lost its slot");
        assert!(slots_for(&b, *code).is_empty(), "{code:?} is bound as a control");
        let i = key_index(*key);
        assert!(!(0..=3).contains(&i) && !(6..=11).contains(&i), "{code:?} took slot {i}");
        assert!(i < 256, "and it has to be a slot that exists");
    }
}

#[test]
fn rebinding_moves_the_slot_a_key_feeds() {
    let mut b = Bindings::default();
    let (seat, action, src) = Bindings::parse_bind("0:fire=Space").expect("a readable spec");
    b.bind(seat, action, src);
    assert_eq!(slots_for(&b, KeyCode::Space), vec![6]);
    // And the key it joined still works, because a list is a list.
    assert_eq!(slots_for(&b, KeyCode::Enter), vec![6]);
}

#[test]
fn the_originals_own_keys_are_what_ships_and_reach_the_right_slots() {
    let b = Bindings::default();
    for (key, slot) in [
        (KeyCode::ArrowUp, 0),
        (KeyCode::ArrowDown, 1),
        (KeyCode::ArrowLeft, 2),
        (KeyCode::ArrowRight, 3),
        (KeyCode::Enter, 6),
        (KeyCode::KeyW, 7),
        (KeyCode::KeyX, 8),
        (KeyCode::KeyA, 9),
        (KeyCode::KeyD, 10),
        (KeyCode::Tab, 11),
    ] {
        assert_eq!(slots_for(&b, key), vec![slot], "{key:?}");
    }
    for key in [KeyCode::Space, KeyCode::KeyF, KeyCode::KeyS] {
        assert_eq!(slots_for(&b, key), Vec::<usize>::new(), "{key:?}");
    }
}

#[test]
fn j_is_the_calibration_key_and_nothing_else() {
    assert_eq!(key_index(Key::KeyJ), CALIBRATE_SLOT);
    assert!(CALIBRATE_SLOT < 256);
    assert!(CALIBRATE_SLOT > NUMBER_SLOT + 8);
    let b = Bindings::default();
    assert_eq!(slots_for(&b, KeyCode::KeyJ), Vec::<usize>::new());
}

#[test]
fn every_seat_has_its_own_slots_and_they_collide_with_nothing() {
    let mut seen: std::collections::BTreeMap<usize, (usize, Action)> = std::collections::BTreeMap::new();
    for seat in 0..4 {
        for a in Action::ALL {
            let slot = slot_of(seat, a);
            assert!(slot < 256, "seat {seat} {a:?} has nowhere to land");
            assert!(seen.insert(slot, (seat, a)).is_none(), "slot {slot} is claimed twice");
        }
    }
    for taken in [ENTER_SLOT, BACKSPACE_SLOT, CALIBRATE_SLOT] {
        assert!(!seen.contains_key(&taken), "slot {taken} is a seat's");
    }
    for n in 0..9 {
        assert!(!seen.contains_key(&(NUMBER_SLOT + n)));
    }
    assert_eq!(slot_of(4, Action::Up), 255);
}

#[test]
fn the_space_bar_types_the_underscore() {
    assert_eq!(typed_char(Key::Space), Some('_'));
    assert_eq!(typed_char(Key::KeyQ), Some('Q'));
    assert_eq!(typed_char(Key::Digit0), Some('0'));
    assert_eq!(typed_char(Key::Backslash), Some('\\'));
    assert_eq!(typed_char(Key::Enter), None);
    assert_eq!(typed_char(Key::Other), None);
    assert_eq!(key_index(Key::Other), 255);
    assert_eq!(key_index(Key::Backspace), BACKSPACE_SLOT);
}
