use henge_desktop::input::{Action, Bindings, Source};
use henge_desktop::input::RIGHT;
use henge_desktop::keys::{slot_of, Key, BACKSPACE_SLOT, ENTER_SLOT, NUMBER_SLOT};
use henge_desktop::slots::{seat_press, seat_slots, Driven, SeatPress, SeatWord, Slots};

fn press(s: &mut Slots, b: &Bindings, name: &str, code: Key, down: bool) -> bool {
    s.key(b, &Source::key(name), code, down)
}

#[test]
fn a_control_key_feeds_its_seat_slot_and_says_so() {
    let b = Bindings::shipped();
    let mut s = Slots::new();
    assert!(press(&mut s, &b, "ArrowUp", Key::Other, true));
    assert!(s.keys[0] && s.pressed[0] && s.kb[0] && s.raw[0] && s.raw_pressed[0]);
    assert!(press(&mut s, &b, "KeyD", Key::Other, true));
    assert!(s.keys[slot_of(1, Action::Right)]);
    assert!(!press(&mut s, &b, "BracketLeft", Key::BracketLeft, true));
    assert!(s.keys[4] && s.pressed[4]);
}

#[test]
fn enter_is_fire_and_takes_a_menu_option() {
    let b = Bindings::shipped();
    let mut s = Slots::new();
    assert!(!s.takes());
    press(&mut s, &b, "Enter", Key::Enter, true);
    assert!(s.pressed[6], "seat zero's fire");
    assert!(s.pressed[ENTER_SLOT], "and Enter's own slot");
    assert!(s.takes());
}

#[test]
fn a_held_key_is_pressed_once() {
    let b = Bindings::shipped();
    let mut s = Slots::new();
    press(&mut s, &b, "ArrowLeft", Key::Other, true);
    assert!(s.pressed[2]);
    s.spend();
    assert!(!s.pressed[2] && !s.raw_pressed[2]);
    assert!(s.keys[2], "still held after the tick");
    press(&mut s, &b, "ArrowLeft", Key::Other, true);
    assert!(!s.pressed[2], "a repeat is not a second press");
    press(&mut s, &b, "ArrowLeft", Key::Other, false);
    assert!(!s.keys[2] && !s.raw[2] && !s.pressed[2]);
}

#[test]
fn the_pad_and_the_key_are_ored() {
    let b = Bindings::shipped();
    let mut s = Slots::new();
    s.pad(0, Action::Up.bit() | Action::Fire.bit());
    assert!(s.keys[0] && s.pad_held[0] && s.pressed[0]);
    assert!(s.keys[6] && s.pressed[6]);
    assert!(!s.keys[1]);
    press(&mut s, &b, "ArrowUp", Key::Other, true);
    s.pad(0, 0);
    assert!(s.keys[0], "the key still holds it");
    assert!(!s.keys[6], "fire was only the pad's");
    press(&mut s, &b, "ArrowUp", Key::Other, false);
    assert!(!s.keys[0]);
}

#[test]
fn seat_one_reads_its_own_slots_from_a_pad() {
    let mut s = Slots::new();
    s.pad(1, Action::Fire.bit());
    assert!(s.keys[11]);
    s.pad(7, Action::Fire.bit());
    assert!(s.keys[255], "a seat with no slots of its own has only the last one");
}

#[test]
fn a_number_key_types_and_has_a_slot() {
    let b = Bindings::shipped();
    let mut s = Slots::new();
    press(&mut s, &b, "Digit3", Key::Digit3, true);
    assert!(s.pressed[NUMBER_SLOT + 2]);
    assert_eq!(s.typed, Some('3'));
    assert_eq!(s.raw_typed, Some('3'));
    s.spend();
    assert_eq!(s.typed, None);
    press(&mut s, &b, "Space", Key::Space, true);
    assert_eq!(s.typed, Some('_'));
    press(&mut s, &b, "KeyQ", Key::Other, true);
    assert_eq!(s.typed, Some('_'), "a key with no character types nothing");
}

fn word(pad: u8) -> SeatWord {
    SeatWord { pad, ..SeatWord::none() }
}

/// A held word stays held and a press lasts exactly the tick the word
/// arrived on. Two machines compute this from the same stream, which is why
/// they agree.
#[test]
fn a_press_is_the_rising_edge_of_a_held_word() {
    let right = RIGHT;
    let first = seat_slots(0, word(right), SeatWord::none(), false);
    let slot = slot_of(0, Action::Right);
    assert_eq!(
        first.iter().find(|(s, _, _)| *s == slot),
        Some(&(slot, true, true)),
        "held and pressed on the tick it arrived"
    );
    // Held on, and no longer a press.
    let again = seat_slots(0, word(right), word(right), false);
    assert_eq!(again.iter().find(|(s, _, _)| *s == slot), Some(&(slot, true, false)));
    // Let go: neither.
    let gone = seat_slots(0, word(0), word(right), false);
    assert_eq!(gone.iter().find(|(s, _, _)| *s == slot), Some(&(slot, false, false)));
    // And pressing again after letting go is a press again.
    let retaken = seat_slots(0, word(right), word(0), false);
    assert_eq!(retaken.iter().find(|(s, _, _)| *s == slot), Some(&(slot, true, true)));
}

#[test]
fn the_keyboard_half_is_filled_by_one_seat_and_no_other() {
    let typing = SeatWord { take: true, back: true, number: Some(4), typed: Some('Q'), ..SeatWord::none() };
    let other = seat_slots(1, typing, SeatWord::none(), false);
    for slot in [ENTER_SLOT, BACKSPACE_SLOT, NUMBER_SLOT + 3] {
        assert!(!other.iter().any(|(s, _, _)| *s == slot), "slot {slot} was filled by a seat that does not fill it");
    }
    let shared = seat_slots(1, typing, SeatWord::none(), true);
    assert_eq!(shared.iter().find(|(s, _, _)| *s == ENTER_SLOT), Some(&(ENTER_SLOT, true, true)));
    assert_eq!(shared.iter().find(|(s, _, _)| *s == NUMBER_SLOT + 3), Some(&(NUMBER_SLOT + 3, true, true)));
}

#[test]
fn a_held_number_key_is_read_once() {
    let three = SeatWord { number: Some(3), ..SeatWord::none() };
    let slot = NUMBER_SLOT + 2;
    let first = seat_slots(0, three, SeatWord::none(), true);
    assert_eq!(first.iter().find(|(s, _, _)| *s == slot), Some(&(slot, true, true)));
    let held = seat_slots(0, three, three, true);
    assert_eq!(held.iter().find(|(s, _, _)| *s == slot), Some(&(slot, true, false)));
}

#[test]
fn this_machines_word_is_what_its_keyboard_holds() {
    let b = Bindings::shipped();
    let mut s = Slots::new();
    press(&mut s, &b, "ArrowUp", Key::Other, true);
    press(&mut s, &b, "Enter", Key::Enter, true);
    press(&mut s, &b, "Digit5", Key::Digit5, true);
    press(&mut s, &b, "Digit2", Key::Digit2, true);
    let w = s.local_word();
    assert_eq!(w.pad, Action::Up.bit() | Action::Fire.bit());
    assert!(w.take && !w.back);
    assert_eq!(w.number, Some(2), "the first number key held");
    assert_eq!(w.typed, Some('2'));
    // Written back as seat zero's, it is the same slots.
    let mut t = Slots::new();
    t.write_word(0, w, SeatWord::none(), true);
    assert!(t.keys[0] && t.pressed[0] && t.keys[6] && t.keys[ENTER_SLOT]);
    assert!(t.keys[NUMBER_SLOT + 1] && !t.keys[NUMBER_SLOT + 4]);
    assert_eq!(t.typed, Some('2'));
    let mut u = Slots::new();
    u.write_word(1, w, SeatWord::none(), false);
    assert!(u.keys[7] && !u.keys[ENTER_SLOT] && u.typed.is_none());
}

#[test]
fn a_seats_presses_take_fire_and_enter_as_one() {
    let p = seat_press(SeatWord { pad: Action::Fire.bit() | RIGHT, ..SeatWord::none() }, word(RIGHT));
    assert_eq!(p, SeatPress { left: false, right: false, take: true, back: false, typed: None });
    let q = seat_press(SeatWord { take: true, back: true, typed: Some('A'), ..SeatWord::none() }, SeatWord::none());
    assert_eq!(q, SeatPress { left: false, right: false, take: true, back: true, typed: Some('A') });
}

#[test]
fn a_scripted_key_lets_go_of_everything_and_presses_one_thing() {
    let mut s = Slots::new();
    s.keys[9] = true;
    assert_eq!(s.drive(Some('s'), false), Driven::Nothing);
    assert!(s.keys[6] && s.pressed[6] && !s.keys[9]);
    s.spend();
    s.drive(Some('u'), false);
    assert!(s.pressed[0] && !s.keys[0] && !s.keys[6], "up is pressed, not held");
    s.spend();
    s.drive(Some('7'), false);
    assert!(s.keys[6] && s.keys[0] && s.keys[2] && !s.keys[1] && !s.keys[3]);
    assert!(s.pressed[NUMBER_SLOT + 6] && !s.pressed[6], "the chord holds fire without pressing it");
    assert_eq!(s.drive(Some('c'), false), Driven::Sheet);
    assert_eq!(s.drive(Some('S'), false), Driven::Save);
    assert_eq!(s.drive(Some('L'), false), Driven::Load);
    assert_eq!(s.drive(None, false), Driven::Nothing);
    assert!(s.keys.iter().all(|k| !k));
}

#[test]
fn while_a_name_is_typed_capitals_and_digits_are_themselves() {
    let mut s = Slots::new();
    assert_eq!(s.drive(Some('S'), true), Driven::Nothing);
    assert_eq!(s.typed, Some('S'));
    s.drive(Some('4'), true);
    assert_eq!(s.typed, Some('4'));
    assert!(!s.keys[6], "a digit is typed, not a chord");
    s.drive(Some('<'), true);
    assert!(s.pressed[BACKSPACE_SLOT]);
    s.drive(Some('e'), true);
    assert!(s.pressed[ENTER_SLOT]);
}

#[test]
fn steering_holds_the_keys_towards_the_goal() {
    let mut s = Slots::new();
    s.steer(10, 10, 5, 20);
    assert!(s.keys[2] && !s.keys[3] && !s.keys[0] && s.keys[1]);
    s.steer(5, 20, 5, 20);
    assert!(!s.keys[0] && !s.keys[1] && !s.keys[2] && !s.keys[3]);
}
