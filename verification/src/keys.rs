//! The key slots the simulation reads, and the keys that are not controls.
//!
//! Ten slots belong to the two seats at the keyboard and come out of the
//! binding table; the rest are the developer keys, Enter, backspace, the
//! nine number keys the map's paper is answered with, and `J`.

use vstd::prelude::*;
use crate::input::Action;

verus! {

/// Enter. `ScanKEYS` tests scancode 0x1c as the end of a name, and every
/// menu takes it as well as fire; it is not a control, so it has a slot of
/// its own.
pub const ENTER_SLOT: usize = 12;

/// Where the nine number keys start. `_MAP:DisplayStack` reads scancodes 2
/// to 0x0a, the top row's `1` to `9`.
pub const NUMBER_SLOT: usize = 16;

/// `ScanKEYS` at 0x1447 tests scancode 0xe, backspace, before `ASCIIKEY`.
pub const BACKSPACE_SLOT: usize = 15;

/// `J`, which is how the options screen reaches the stick calibration:
/// `OptionKeys` tests scancode 0x24 before anything else.
pub const CALIBRATE_SLOT: usize = 25;

/// How many slots there are; a slot at or past this is nowhere.
pub const SLOTS: usize = 256;

/// The slot a seat's action lands in, as a value.
pub open spec fn slot_spec(seat: usize, a: Action) -> usize {
    let base: usize = if seat == 0 {
        0
    } else if seat == 1 {
        7
    } else if seat == 2 {
        30
    } else {
        35
    };
    if seat > 3 {
        255
    } else if seat == 0 && a == Action::Fire {
        6
    } else {
        (base + a.spec_index()) as usize
    }
}

/// The slots the seats own. Seat zero has 0 to 3 and 6, seat one 7 to 11,
/// and seats two and three, which have no keys of their own but need
/// somewhere for a lockstep game to write their words, 30 to 34 and 35 to
/// 39. Any other seat has nowhere, which is 255.
pub fn slot_of(seat: usize, a: Action) -> (s: usize)
    ensures
        s == slot_spec(seat, a),
{
    match (seat, a) {
        (0, Action::Up) => 0,
        (0, Action::Down) => 1,
        (0, Action::Left) => 2,
        (0, Action::Right) => 3,
        (0, Action::Fire) => 6,
        (1, Action::Up) => 7,
        (1, Action::Down) => 8,
        (1, Action::Left) => 9,
        (1, Action::Right) => 10,
        (1, Action::Fire) => 11,
        (2, Action::Up) => 30,
        (2, Action::Down) => 31,
        (2, Action::Left) => 32,
        (2, Action::Right) => 33,
        (2, Action::Fire) => 34,
        (3, Action::Up) => 35,
        (3, Action::Down) => 36,
        (3, Action::Left) => 37,
        (3, Action::Right) => 38,
        (3, Action::Fire) => 39,
        _ => 255,
    }
}

/// The keys the shell reads besides the controls, by the names the window
/// system gives them. Every other key is [`Key::Other`].
#[derive(PartialEq, Eq, Structural, Clone, Copy, Debug)]
pub enum Key {
    Digit1,
    Digit2,
    Digit3,
    Digit4,
    Digit5,
    Digit6,
    Digit7,
    Digit8,
    Digit9,
    Digit0,
    Minus,
    Equal,
    Backspace,
    KeyQ,
    KeyW,
    KeyE,
    KeyR,
    KeyT,
    KeyY,
    KeyU,
    KeyI,
    KeyO,
    KeyP,
    BracketLeft,
    BracketRight,
    Enter,
    NumpadEnter,
    KeyA,
    KeyS,
    KeyD,
    KeyF,
    KeyG,
    KeyH,
    KeyJ,
    KeyK,
    KeyL,
    Semicolon,
    Quote,
    Backslash,
    KeyZ,
    KeyX,
    KeyC,
    KeyV,
    KeyB,
    KeyN,
    KeyM,
    Comma,
    Period,
    Slash,
    Space,
    Other,
}

/// The slot a key that is not a control feeds, as a value.
pub open spec fn key_index_spec(k: Key) -> usize {
    match k {
        Key::BracketLeft => 4,
        Key::BracketRight => 5,
        Key::Backspace => BACKSPACE_SLOT,
        Key::KeyJ => CALIBRATE_SLOT,
        Key::Digit1 => NUMBER_SLOT,
        Key::Digit2 => (NUMBER_SLOT + 1) as usize,
        Key::Digit3 => (NUMBER_SLOT + 2) as usize,
        Key::Digit4 => (NUMBER_SLOT + 3) as usize,
        Key::Digit5 => (NUMBER_SLOT + 4) as usize,
        Key::Digit6 => (NUMBER_SLOT + 5) as usize,
        Key::Digit7 => (NUMBER_SLOT + 6) as usize,
        Key::Digit8 => (NUMBER_SLOT + 7) as usize,
        Key::Digit9 => (NUMBER_SLOT + 8) as usize,
        Key::Enter | Key::NumpadEnter => 12,
        Key::Comma => 13,
        Key::Period => 14,
        _ => 255,
    }
}

/// The slot a key that is not a control feeds: the arena cycle on the
/// brackets, the creature cycle on comma and period, backspace, `J`, the
/// number keys, and Enter, which takes a menu option without also swinging
/// a sword. Anything else feeds nowhere, which is 255.
pub fn key_index(c: Key) -> (i: usize)
    ensures
        i == key_index_spec(c),
{
    match c {
        Key::BracketLeft => 4,
        Key::BracketRight => 5,
        Key::Backspace => BACKSPACE_SLOT,
        Key::KeyJ => CALIBRATE_SLOT,
        Key::Digit1 => NUMBER_SLOT,
        Key::Digit2 => NUMBER_SLOT + 1,
        Key::Digit3 => NUMBER_SLOT + 2,
        Key::Digit4 => NUMBER_SLOT + 3,
        Key::Digit5 => NUMBER_SLOT + 4,
        Key::Digit6 => NUMBER_SLOT + 5,
        Key::Digit7 => NUMBER_SLOT + 6,
        Key::Digit8 => NUMBER_SLOT + 7,
        Key::Digit9 => NUMBER_SLOT + 8,
        Key::Enter | Key::NumpadEnter => 12,
        Key::Comma => 13,
        Key::Period => 14,
        _ => 255,
    }
}

/// `ASCIIT`, the scancode to character table `ASCIIKEY` reads a name's
/// letters through, as a value.
pub open spec fn typed_spec(c: Key) -> Option<char> {
    match c {
        Key::Digit1 => Some('1'),
        Key::Digit2 => Some('2'),
        Key::Digit3 => Some('3'),
        Key::Digit4 => Some('4'),
        Key::Digit5 => Some('5'),
        Key::Digit6 => Some('6'),
        Key::Digit7 => Some('7'),
        Key::Digit8 => Some('8'),
        Key::Digit9 => Some('9'),
        Key::Digit0 => Some('0'),
        Key::Minus => Some('-'),
        Key::Equal => Some('='),
        Key::KeyQ => Some('Q'),
        Key::KeyW => Some('W'),
        Key::KeyE => Some('E'),
        Key::KeyR => Some('R'),
        Key::KeyT => Some('T'),
        Key::KeyY => Some('Y'),
        Key::KeyU => Some('U'),
        Key::KeyI => Some('I'),
        Key::KeyO => Some('O'),
        Key::KeyP => Some('P'),
        Key::BracketLeft => Some('['),
        Key::BracketRight => Some(']'),
        Key::KeyA => Some('A'),
        Key::KeyS => Some('S'),
        Key::KeyD => Some('D'),
        Key::KeyF => Some('F'),
        Key::KeyG => Some('G'),
        Key::KeyH => Some('H'),
        Key::KeyJ => Some('J'),
        Key::KeyK => Some('K'),
        Key::KeyL => Some('L'),
        Key::Semicolon => Some(';'),
        Key::Quote => Some('\''),
        Key::Backslash => Some('\\'),
        Key::KeyZ => Some('Z'),
        Key::KeyX => Some('X'),
        Key::KeyC => Some('C'),
        Key::KeyV => Some('V'),
        Key::KeyB => Some('B'),
        Key::KeyN => Some('N'),
        Key::KeyM => Some('M'),
        Key::Comma => Some(','),
        Key::Period => Some('.'),
        Key::Slash => Some('/'),
        Key::Space => Some('_'),
        _ => None,
    }
}

/// `ASCIIKEY`: the character a key types into a name. Uppercase throughout,
/// no shift, and the space bar types the underscore `TextASCII` draws as
/// the blank. A key the table has no entry for types nothing.
pub fn typed_char(c: Key) -> (r: Option<char>)
    ensures
        r == typed_spec(c),
{
    match c {
        Key::Digit1 => Some('1'),
        Key::Digit2 => Some('2'),
        Key::Digit3 => Some('3'),
        Key::Digit4 => Some('4'),
        Key::Digit5 => Some('5'),
        Key::Digit6 => Some('6'),
        Key::Digit7 => Some('7'),
        Key::Digit8 => Some('8'),
        Key::Digit9 => Some('9'),
        Key::Digit0 => Some('0'),
        Key::Minus => Some('-'),
        Key::Equal => Some('='),
        Key::KeyQ => Some('Q'),
        Key::KeyW => Some('W'),
        Key::KeyE => Some('E'),
        Key::KeyR => Some('R'),
        Key::KeyT => Some('T'),
        Key::KeyY => Some('Y'),
        Key::KeyU => Some('U'),
        Key::KeyI => Some('I'),
        Key::KeyO => Some('O'),
        Key::KeyP => Some('P'),
        Key::BracketLeft => Some('['),
        Key::BracketRight => Some(']'),
        Key::KeyA => Some('A'),
        Key::KeyS => Some('S'),
        Key::KeyD => Some('D'),
        Key::KeyF => Some('F'),
        Key::KeyG => Some('G'),
        Key::KeyH => Some('H'),
        Key::KeyJ => Some('J'),
        Key::KeyK => Some('K'),
        Key::KeyL => Some('L'),
        Key::Semicolon => Some(';'),
        Key::Quote => Some('\''),
        Key::Backslash => Some('\\'),
        Key::KeyZ => Some('Z'),
        Key::KeyX => Some('X'),
        Key::KeyC => Some('C'),
        Key::KeyV => Some('V'),
        Key::KeyB => Some('B'),
        Key::KeyN => Some('N'),
        Key::KeyM => Some('M'),
        Key::Comma => Some(','),
        Key::Period => Some('.'),
        Key::Slash => Some('/'),
        Key::Space => Some('_'),
        _ => None,
    }
}

/// Whether a slot is one of the ten the two keyboard seats own.
pub open spec fn keyboard_seat_slot(i: int) -> bool {
    (0 <= i <= 3) || (6 <= i <= 11)
}

/// **Every seat has its own slots and they collide with nothing**: the four
/// seats' twenty slots all exist, no two seat-and-action pairs share one,
/// and none of them is Enter's, backspace's, `J`'s or a number key's.
pub proof fn the_seats_slots_are_their_own(s1: usize, a1: Action, s2: usize, a2: Action)
    requires
        s1 < 4,
        s2 < 4,
    ensures
        slot_spec(s1, a1) < SLOTS,
        slot_spec(s1, a1) == slot_spec(s2, a2) ==> s1 == s2 && a1 == a2,
        slot_spec(s1, a1) != ENTER_SLOT,
        slot_spec(s1, a1) != BACKSPACE_SLOT,
        slot_spec(s1, a1) != CALIBRATE_SLOT,
        !(NUMBER_SLOT <= slot_spec(s1, a1) < NUMBER_SLOT + 9),
        keyboard_seat_slot(slot_spec(s1, a1) as int) <==> s1 < 2,
{
}

/// **The developer keys are not controls**: no key that is not a control
/// feeds one of the ten slots the keyboard seats own, the number keys are
/// nine slots of their own in order, and `J` reaches the calibration slot.
pub proof fn the_developer_keys_are_not_controls(k: Key)
    ensures
        !keyboard_seat_slot(key_index_spec(k) as int),
        key_index_spec(Key::KeyJ) == CALIBRATE_SLOT,
        key_index_spec(Key::Digit1) == NUMBER_SLOT,
        key_index_spec(Key::Digit9) == NUMBER_SLOT + 8,
        CALIBRATE_SLOT > NUMBER_SLOT + 8,
{
}

} // verus!
