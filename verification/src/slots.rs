//! The key slots a tick reads: which are held, which went down this tick, and
//! the keyboard's and the pads' halves that are ORed into them.
//!
//! The simulation reads `keys` and `pressed`. A lockstep game overwrites those
//! with what came off the wire, so what this machine's own keyboard and pads
//! are doing is kept apart in `raw` and `raw_pressed`, which only the key
//! handler and the pads write. The wire carries each seat's held word, a
//! [`SeatWord`], and every machine works the presses out of the stream of
//! words the same way.

use vstd::prelude::*;
use crate::input::{Action, Bindings, Source, raised};
use crate::keys::{
    Key, SLOTS, ENTER_SLOT, BACKSPACE_SLOT, NUMBER_SLOT, slot_of, slot_spec, key_index, key_index_spec, typed_char,
    typed_spec,
};

verus! {

/// The slots as values.
pub struct SlotsView {
    pub keys: Seq<bool>,
    pub pressed: Seq<bool>,
    pub raw: Seq<bool>,
    pub raw_pressed: Seq<bool>,
    pub kb: Seq<bool>,
    pub pad_held: Seq<bool>,
    pub typed: Option<char>,
    pub raw_typed: Option<char>,
}

/// Whether a slot belongs to one of the four seats' five controls.
pub open spec fn control_slot(s: int) -> bool {
    (0 <= s <= 3) || (6 <= s <= 11) || (30 <= s <= 39)
}

impl SlotsView {
    /// Every slot table has a slot for each of the [`SLOTS`].
    pub open spec fn sized(self) -> bool {
        &&& self.keys.len() == SLOTS
        &&& self.pressed.len() == SLOTS
        &&& self.raw.len() == SLOTS
        &&& self.raw_pressed.len() == SLOTS
        &&& self.kb.len() == SLOTS
        &&& self.pad_held.len() == SLOTS
    }

    /// A control slot is held exactly when the keyboard or a pad holds it,
    /// and this machine's own word agrees with it.
    pub open spec fn ored(self) -> bool {
        forall|s: int|
            #![trigger self.keys[s]]
            control_slot(s) ==> self.keys[s] == (self.kb[s] || self.pad_held[s]) && self.raw[s]
                == self.keys[s]
    }

    /// One half of a control slot, the keyboard's or a pad's, going to `on`:
    /// the slot is pressed if it was not held, and is then held if either half
    /// holds it.
    pub open spec fn held_by(self, s: int, on: bool, from_pad: bool) -> SlotsView {
        let kb = if from_pad { self.kb } else { self.kb.update(s, on) };
        let pad_held = if from_pad { self.pad_held.update(s, on) } else { self.pad_held };
        let held = kb[s] || pad_held[s];
        SlotsView {
            keys: self.keys.update(s, held),
            pressed: self.pressed.update(s, self.pressed[s] || (on && !self.keys[s])),
            raw: self.raw.update(s, held),
            raw_pressed: self.raw_pressed.update(s, self.raw_pressed[s] || (on && !self.raw[s])),
            kb,
            pad_held,
            typed: self.typed,
            raw_typed: self.raw_typed,
        }
    }

    /// The keyboard's half of every control slot a key raises, in the order
    /// the binding table lists them.
    pub open spec fn controls(self, raised: Seq<(usize, Action)>, down: bool) -> SlotsView
        decreases raised.len(),
    {
        if raised.len() == 0 {
            self
        } else {
            let last = raised.last();
            self.controls(raised.drop_last(), down).held_by(
                slot_spec(last.0, last.1) as int,
                down,
                false,
            )
        }
    }

    /// A key that is not a control, in slot `i`, and the character it types.
    pub open spec fn plain_key(self, i: int, down: bool, c: Option<char>) -> SlotsView {
        let typed = if down && c is Some { c } else { self.typed };
        let raw_typed = if down && c is Some { c } else { self.raw_typed };
        if 0 <= i < SLOTS {
            SlotsView {
                keys: self.keys.update(i, down),
                pressed: self.pressed.update(i, self.pressed[i] || (down && !self.keys[i])),
                raw: self.raw.update(i, down),
                raw_pressed: self.raw_pressed.update(i, self.raw_pressed[i] || (down && !self.raw[i])),
                kb: self.kb,
                pad_held: self.pad_held,
                typed,
                raw_typed,
            }
        } else {
            SlotsView { typed, raw_typed, ..self }
        }
    }

    /// A key going down or up: the controls the binding table says it raises,
    /// then its own slot.
    pub open spec fn key(self, bindings: Bindings, name: Source, code: Key, down: bool) -> SlotsView {
        self.controls(raised(bindings.seats@, name@), down).plain_key(
            key_index_spec(code) as int,
            down,
            typed_spec(code),
        )
    }

    /// The first `k` of a seat's five controls set from a pad's word.
    pub open spec fn pad_upto(self, seat: usize, word: u8, k: int) -> SlotsView
        decreases k,
    {
        if k <= 0 {
            self
        } else {
            let a = Action::at(k - 1);
            self.pad_upto(seat, word, k - 1).held_by(
                slot_spec(seat, a) as int,
                word & a.spec_bit() != 0,
                true,
            )
        }
    }

    /// The end of a tick: every press is spent, whether or not anything
    /// wanted it, and so is the character typed.
    pub open spec fn spent(self) -> SlotsView {
        SlotsView {
            pressed: Seq::new(SLOTS as nat, |i: int| false),
            raw_pressed: Seq::new(SLOTS as nat, |i: int| false),
            typed: None,
            raw_typed: None,
            ..self
        }
    }
}

/// The slots, one table per half and one per reader.
pub struct Slots {
    /// What the simulation reads as held.
    pub keys: [bool; 256],
    /// What went down this tick. A menu wants presses, not held keys, or one
    /// tap of Down would run the highlight off the bottom of the list.
    pub pressed: [bool; 256],
    /// What this machine's keyboard and pads are holding, for the wire.
    pub raw: [bool; 256],
    pub raw_pressed: [bool; 256],
    /// The keyboard's half of the seats' slots.
    pub kb: [bool; 256],
    /// The pads' half.
    pub pad_held: [bool; 256],
    /// The character the key pressed this tick types, for the one screen that
    /// reads letters.
    pub typed: Option<char>,
    pub raw_typed: Option<char>,
}

impl View for Slots {
    type V = SlotsView;

    open spec fn view(&self) -> SlotsView {
        SlotsView {
            keys: self.keys@,
            pressed: self.pressed@,
            raw: self.raw@,
            raw_pressed: self.raw_pressed@,
            kb: self.kb@,
            pad_held: self.pad_held@,
            typed: self.typed,
            raw_typed: self.raw_typed,
        }
    }
}

impl Slots {
    /// Nothing held, nothing pressed.
    pub fn new() -> (s: Slots)
        ensures
            forall|i: int|
                0 <= i < SLOTS ==> !s.keys@[i] && !s.pressed@[i] && !s.raw@[i] && !s.raw_pressed@[i]
                    && !s.kb@[i] && !s.pad_held@[i],
            s.typed is None,
            s.raw_typed is None,
            s@.ored(),
    {
        Slots {
            keys: [false; 256],
            pressed: [false; 256],
            raw: [false; 256],
            raw_pressed: [false; 256],
            kb: [false; 256],
            pad_held: [false; 256],
            typed: None,
            raw_typed: None,
        }
    }

    /// One half of a control slot going to `on`.
    fn hold(&mut self, s: usize, on: bool, from_pad: bool)
        requires
            s < SLOTS,
        ensures
            final(self)@ == old(self)@.held_by(s as int, on, from_pad),
    {
        if on && !self.keys[s] {
            self.pressed[s] = true;
        }
        if on && !self.raw[s] {
            self.raw_pressed[s] = true;
        }
        if from_pad {
            self.pad_held[s] = on;
        } else {
            self.kb[s] = on;
        }
        self.keys[s] = self.kb[s] || self.pad_held[s];
        self.raw[s] = self.keys[s];
        proof {
            assert(self@.keys =~= old(self)@.held_by(s as int, on, from_pad).keys);
            assert(self@.pressed =~= old(self)@.held_by(s as int, on, from_pad).pressed);
            assert(self@.raw =~= old(self)@.held_by(s as int, on, from_pad).raw);
            assert(self@.raw_pressed =~= old(self)@.held_by(s as int, on, from_pad).raw_pressed);
            assert(self@.kb =~= old(self)@.held_by(s as int, on, from_pad).kb);
            assert(self@.pad_held =~= old(self)@.held_by(s as int, on, from_pad).pad_held);
        }
    }

    /// A key going down or up. The seats' slots come out of the binding table,
    /// under `name`, the name the window system gives the key; the key's own
    /// slot and the character it types come from `code`. Says whether the key
    /// is a control, which no developer key may also be.
    pub fn key(&mut self, bindings: &Bindings, name: &Source, code: Key, down: bool) -> (control: bool)
        ensures
            final(self)@ == old(self)@.key(*bindings, *name, code, down),
            control == (raised(bindings.seats@, name@).len() > 0),
            old(self)@.ored() ==> final(self)@.ored(),
    {
        let raised_now = bindings.raised_by(name);
        let ghost start = self@;
        let mut j: usize = 0;
        while j < raised_now.len()
            invariant
                j <= raised_now@.len(),
                self@ == start.controls(raised_now@.take(j as int), down),
                start.ored() ==> self@.ored(),
            decreases raised_now@.len() - j,
        {
            let (seat, action) = raised_now[j];
            let s = slot_of(seat, action);
            proof {
                let t = raised_now@.take(j as int + 1);
                assert(t.drop_last() =~= raised_now@.take(j as int));
                assert(t.last() == raised_now@[j as int]);
            }
            if s < SLOTS {
                self.hold(s, down, false);
            }
            j = j + 1;
        }
        proof {
            assert(raised_now@.take(raised_now@.len() as int) =~= raised_now@);
        }
        let i = key_index(code);
        if i < SLOTS {
            if down && !self.keys[i] {
                self.pressed[i] = true;
            }
            if down && !self.raw[i] {
                self.raw_pressed[i] = true;
            }
            self.raw[i] = down;
            self.keys[i] = down;
        }
        if down {
            match typed_char(code) {
                Some(c) => {
                    self.typed = Some(c);
                    self.raw_typed = Some(c);
                },
                None => {},
            }
        }
        proof {
            let want = start.key(*bindings, *name, code, down);
            assert(self@.keys =~= want.keys);
            assert(self@.pressed =~= want.pressed);
            assert(self@.raw =~= want.raw);
            assert(self@.raw_pressed =~= want.raw_pressed);
        }
        raised_now.len() > 0
    }

    /// A pad's word for one seat, ORed into the slots the keys feed. A seat
    /// with no slots of its own is left alone.
    pub fn pad(&mut self, seat: usize, word: u8)
        ensures
            final(self)@ == old(self)@.pad_upto(seat, word, 5),
            old(self)@.ored() ==> final(self)@.ored(),
    {
        let ghost start = self@;
        let mut k: usize = 0;
        while k < 5
            invariant
                k <= 5,
                self@ == start.pad_upto(seat, word, k as int),
                start.ored() ==> self@.ored(),
            decreases 5 - k,
        {
            let a = Action::from_index(k);
            let s = slot_of(seat, a);
            if s < SLOTS {
                let on = word & a.bit() != 0;
                self.hold(s, on, true);
            }
            k = k + 1;
        }
    }

    /// The end of a tick: presses last exactly one.
    pub fn spend(&mut self)
        ensures
            final(self)@ == old(self)@.spent(),
            old(self)@.ored() ==> final(self)@.ored(),
    {
        self.pressed = [false; 256];
        self.raw_pressed = [false; 256];
        self.typed = None;
        self.raw_typed = None;
        proof {
            assert(self@.pressed =~= old(self)@.spent().pressed);
            assert(self@.raw_pressed =~= old(self)@.spent().raw_pressed);
        }
    }

    /// Space or Enter takes the highlighted option, everywhere a menu asks.
    pub fn takes(&self) -> (b: bool)
        ensures
            b == (self.pressed@[6] || self.pressed@[ENTER_SLOT as int]),
    {
        self.pressed[6] || self.pressed[ENTER_SLOT]
    }
}

/// The binding table's half of a key going up leaves every press of the
/// tick as it was.
proof fn lemma_controls_up(v: SlotsView, raised: Seq<(usize, Action)>)
    requires
        v.sized(),
    ensures
        v.controls(raised, false).sized(),
        v.controls(raised, false).pressed == v.pressed,
        v.controls(raised, false).raw_pressed == v.raw_pressed,
    decreases raised.len(),
{
    if raised.len() > 0 {
        lemma_controls_up(v, raised.drop_last());
        let w = v.controls(raised.drop_last(), false);
        let last = raised.last();
        let s = slot_spec(last.0, last.1) as int;
        assert(w.held_by(s, false, false).pressed =~= w.pressed);
        assert(w.held_by(s, false, false).raw_pressed =~= w.raw_pressed);
    }
}

/// **Only a key going down presses**: a key let go, and a pad's word with
/// nothing in it, leave every press of the tick as it was.
pub proof fn letting_go_presses_nothing(v: SlotsView, b: Bindings, name: Source, code: Key, seat: usize)
    requires
        v.sized(),
    ensures
        v.key(b, name, code, false).pressed == v.pressed,
        v.key(b, name, code, false).raw_pressed == v.raw_pressed,
        v.pad_upto(seat, 0, 5).pressed == v.pressed,
        v.pad_upto(seat, 0, 5).raw_pressed == v.raw_pressed,
{
    let r = raised(b.seats@, name@);
    lemma_controls_up(v, r);
    let w = v.controls(r, false);
    let i = key_index_spec(code) as int;
    assert(w.plain_key(i, false, typed_spec(code)).pressed =~= w.pressed);
    assert(w.plain_key(i, false, typed_spec(code)).raw_pressed =~= w.raw_pressed);
    assert forall|k: int| 0 <= k <= 5 implies #[trigger] v.pad_upto(seat, 0, k).pressed == v.pressed
        && v.pad_upto(seat, 0, k).raw_pressed == v.raw_pressed by {
        lemma_pad_silent(v, seat, k);
    }
}

/// The pads' word with nothing in it, one control at a time.
proof fn lemma_pad_silent(v: SlotsView, seat: usize, k: int)
    requires
        v.sized(),
    ensures
        v.pad_upto(seat, 0, k).sized(),
        v.pad_upto(seat, 0, k).pressed == v.pressed,
        v.pad_upto(seat, 0, k).raw_pressed == v.raw_pressed,
    decreases k,
{
    if k > 0 {
        lemma_pad_silent(v, seat, k - 1);
        let a = Action::at(k - 1);
        let w = v.pad_upto(seat, 0, k - 1);
        assert(0u8 & a.spec_bit() == 0) by (bit_vector);
        let s = slot_spec(seat, a) as int;
        assert(w.held_by(s, false, true).pressed =~= w.pressed);
        assert(w.held_by(s, false, true).raw_pressed =~= w.raw_pressed);
    }
}

/// The binding table's half of a key leaves the character typed alone.
proof fn lemma_controls_keep_typed(v: SlotsView, raised: Seq<(usize, Action)>, down: bool)
    ensures
        v.controls(raised, down).typed == v.typed,
        v.controls(raised, down).raw_typed == v.raw_typed,
    decreases raised.len(),
{
    if raised.len() > 0 {
        lemma_controls_keep_typed(v, raised.drop_last(), down);
    }
}

/// **Only a key going down types, and it types its own character**: a key
/// let go leaves the character typed this tick as it was, on the
/// simulation's side and on the wire's, so a letter typed into a name is
/// typed once; a key going down that has a character types exactly that
/// character on both sides, and one with none types nothing new.
pub proof fn only_a_key_going_down_types(v: SlotsView, b: Bindings, name: Source, code: Key)
    ensures
        v.key(b, name, code, false).typed == v.typed,
        v.key(b, name, code, false).raw_typed == v.raw_typed,
        typed_spec(code) matches Some(c) ==> v.key(b, name, code, true).typed == Some(c) && v.key(
            b,
            name,
            code,
            true,
        ).raw_typed == Some(c),
        typed_spec(code) is None ==> v.key(b, name, code, true).typed == v.typed && v.key(
            b,
            name,
            code,
            true,
        ).raw_typed == v.raw_typed,
{
    lemma_controls_keep_typed(v, raised(b.seats@, name@), false);
    lemma_controls_keep_typed(v, raised(b.seats@, name@), true);
}

/// **A held key is one press**: a half going down presses its slot exactly
/// when the slot was not already held, the slot is then held, and holding it
/// into the next tick presses nothing more.
pub proof fn a_held_slot_is_one_press(v: SlotsView, s: int, from_pad: bool)
    requires
        v.sized(),
        0 <= s < SLOTS,
    ensures
        v.held_by(s, true, from_pad).keys[s],
        v.held_by(s, true, from_pad).pressed[s] == (v.pressed[s] || !v.keys[s]),
        !v.held_by(s, true, from_pad).spent().held_by(s, true, from_pad).pressed[s],
{
}

/// **The keyboard and the pads share a slot**: one half letting go leaves a
/// control slot held exactly when the other half still holds it, on the
/// simulation's side and on the wire's.
pub proof fn a_key_and_a_pad_share_a_slot(v: SlotsView, s: int)
    requires
        v.sized(),
        v.ored(),
        control_slot(s),
    ensures
        v.held_by(s, false, true).keys[s] == v.kb[s],
        v.held_by(s, false, false).keys[s] == v.pad_held[s],
        v.held_by(s, false, true).raw[s] == v.kb[s],
        v.held_by(s, false, false).raw[s] == v.pad_held[s],
        v.held_by(s, false, true).ored(),
        v.held_by(s, false, false).ored(),
{
}


/// One seat's word for one tick, as it travels between machines: the five
/// control bits, Enter and backspace, the character typed, and the number
/// key held. The wire carries held words rather than presses, so two
/// machines cannot disagree about whether a press happened.
#[derive(Clone, Copy, Debug, PartialEq, Eq, Structural)]
pub struct SeatWord {
    pub pad: u8,
    pub take: bool,
    pub back: bool,
    pub typed: Option<char>,
    pub number: Option<u8>,
}

impl SeatWord {
    /// Nothing held.
    pub fn none() -> (w: SeatWord)
        ensures
            w == (SeatWord { pad: 0, take: false, back: false, typed: None, number: None }),
    {
        SeatWord { pad: 0, take: false, back: false, typed: None, number: None }
    }
}

/// The slot each of a seat's controls and each shared key lands in, with
/// whether it is held and whether it went down this tick, as values.
pub open spec fn seat_slots_spec(seat: usize, now: SeatWord, was: SeatWord, shared: bool) -> Seq<(usize, bool, bool)> {
    let controls = Seq::new(
        5,
        |k: int|
            {
                let a = Action::at(k);
                let on = now.pad & a.spec_bit() != 0;
                (slot_spec(seat, a), on, on && was.pad & a.spec_bit() == 0)
            },
    );
    if shared {
        controls + seq![
            (ENTER_SLOT, now.take, now.take && !was.take),
            (BACKSPACE_SLOT, now.back, now.back && !was.back),
        ] + Seq::new(
            9,
            |k: int|
                {
                    let on = now.number == Some((k + 1) as u8);
                    ((NUMBER_SLOT + k) as usize, on, on && was.number != Some((k + 1) as u8))
                },
        )
    } else {
        controls
    }
}

/// One seat's word turned into the slots the simulation reads, with every
/// press worked out as a rising edge against the tick before. `shared` says
/// whether this seat is the one that fills the slots the seats have between
/// them: Enter, backspace and the nine number keys, which the original reads
/// off its one keyboard. Every machine must pass it for the same seat.
pub fn seat_slots(seat: usize, now: SeatWord, was: SeatWord, shared: bool) -> (out: Vec<(usize, bool, bool)>)
    ensures
        out@ == seat_slots_spec(seat, now, was, shared),
{
    let ghost want = seat_slots_spec(seat, now, was, shared);
    let mut out: Vec<(usize, bool, bool)> = Vec::new();
    let mut k: usize = 0;
    while k < 5
        invariant
            k <= 5,
            want == seat_slots_spec(seat, now, was, shared),
            out@ == want.take(k as int),
        decreases 5 - k,
    {
        let a = Action::from_index(k);
        let slot = slot_of(seat, a);
        let on = now.pad & a.bit() != 0;
        out.push((slot, on, on && (was.pad & a.bit() == 0)));
        proof {
            assert(want.take(k as int + 1) =~= want.take(k as int).push(want[k as int]));
        }
        k = k + 1;
    }
    if shared {
        out.push((ENTER_SLOT, now.take, now.take && !was.take));
        out.push((BACKSPACE_SLOT, now.back, now.back && !was.back));
        proof {
            assert(out@ =~= want.take(7));
        }
        let mut n: u8 = 1;
        while n <= 9
            invariant
                1 <= n <= 10,
                want == seat_slots_spec(seat, now, was, shared),
                shared,
                out@ == want.take(n as int + 6),
            decreases 10 - n,
        {
            let on = now.number == Some(n);
            out.push((NUMBER_SLOT + n as usize - 1, on, on && was.number != Some(n)));
            proof {
                assert(want.take(n as int + 7) =~= want.take(n as int + 6).push(want[n as int + 6]));
            }
            n = n + 1;
        }
        proof {
            assert(want.take(16) =~= want);
        }
    } else {
        proof {
            assert(want.take(5) =~= want);
        }
    }
    out
}

/// The control bits of the first `k` of seat zero's controls that this
/// machine holds.
pub open spec fn pad_of(raw: Seq<bool>, k: int) -> u8
    decreases k,
{
    if k <= 0 {
        0
    } else {
        let a = Action::at(k - 1);
        pad_of(raw, k - 1) | if raw[slot_spec(0, a) as int] {
            a.spec_bit()
        } else {
            0u8
        }
    }
}

/// The first number key this machine holds, from `n` on.
pub open spec fn number_from(raw: Seq<bool>, n: int) -> Option<u8>
    decreases 10 - n,
{
    if n > 9 {
        None
    } else if raw[NUMBER_SLOT + n - 1] {
        Some(n as u8)
    } else {
        number_from(raw, n + 1)
    }
}

impl Slots {
    /// This machine's own word for the tick: seat zero's controls, Enter,
    /// backspace, the character typed and the first number key held, read
    /// off what its own keyboard and pads hold rather than off what the wire
    /// last wrote.
    pub fn local_word(&self) -> (w: SeatWord)
        ensures
            w.pad == pad_of(self.raw@, 5),
            w.take == self.raw@[ENTER_SLOT as int],
            w.back == self.raw@[BACKSPACE_SLOT as int],
            w.typed == self.raw_typed,
            w.number == number_from(self.raw@, 1),
    {
        let mut pad: u8 = 0;
        let mut k: usize = 0;
        while k < 5
            invariant
                k <= 5,
                pad == pad_of(self.raw@, k as int),
            decreases 5 - k,
        {
            let a = Action::from_index(k);
            let slot = slot_of(0, a);
            if self.raw[slot] {
                pad = pad | a.bit();
            } else {
                proof {
                    let p = pad_of(self.raw@, k as int);
                    assert(p | 0u8 == p) by (bit_vector);
                }
            }
            k = k + 1;
        }
        let mut number: Option<u8> = None;
        let mut n: u8 = 9;
        proof {
            assert(number_from(self.raw@, 10) is None);
        }
        while n >= 1
            invariant
                0 <= n <= 9,
                number == number_from(self.raw@, n as int + 1),
            decreases n,
        {
            if self.raw[NUMBER_SLOT + n as usize - 1] {
                number = Some(n);
            }
            n = n - 1;
        }
        SeatWord {
            pad,
            take: self.raw[ENTER_SLOT],
            back: self.raw[BACKSPACE_SLOT],
            typed: self.raw_typed,
            number,
        }
    }
}


/// The slots after a seat's word is written into them, entry by entry, as
/// values.
pub open spec fn wrote(v: SlotsView, entries: Seq<(usize, bool, bool)>) -> SlotsView
    decreases entries.len(),
{
    if entries.len() == 0 {
        v
    } else {
        let w = wrote(v, entries.drop_last());
        let e = entries.last();
        SlotsView {
            keys: w.keys.update(e.0 as int, e.1),
            pressed: w.pressed.update(e.0 as int, e.2),
            ..w
        }
    }
}

/// Writing a word touches only what the simulation reads as held and
/// pressed.
proof fn lemma_wrote_keeps(v: SlotsView, entries: Seq<(usize, bool, bool)>)
    ensures
        wrote(v, entries).raw == v.raw,
        wrote(v, entries).raw_pressed == v.raw_pressed,
        wrote(v, entries).kb == v.kb,
        wrote(v, entries).pad_held == v.pad_held,
        wrote(v, entries).typed == v.typed,
        wrote(v, entries).raw_typed == v.raw_typed,
    decreases entries.len(),
{
    if entries.len() > 0 {
        lemma_wrote_keeps(v, entries.drop_last());
    }
}

/// One seat's presses for one tick, for the screens that read one seat's
/// whole word: left and right, fire or Enter taken as the same press,
/// backspace, and the character typed.
#[derive(Clone, Copy, Debug, PartialEq, Eq, Structural)]
pub struct SeatPress {
    pub left: bool,
    pub right: bool,
    pub take: bool,
    pub back: bool,
    pub typed: Option<char>,
}

/// Whether a control went down between two words.
pub open spec fn rose(now: SeatWord, was: SeatWord, a: Action) -> bool {
    now.pad & a.spec_bit() != 0 && was.pad & a.spec_bit() == 0
}

/// A seat's presses, worked out where last tick's word is still to hand.
pub fn seat_press(now: SeatWord, was: SeatWord) -> (p: SeatPress)
    ensures
        p == (SeatPress {
            left: rose(now, was, Action::Left),
            right: rose(now, was, Action::Right),
            take: rose(now, was, Action::Fire) || (now.take && !was.take),
            back: now.back && !was.back,
            typed: now.typed,
        }),
{
    let edge_left = now.pad & Action::Left.bit() != 0 && was.pad & Action::Left.bit() == 0;
    let edge_right = now.pad & Action::Right.bit() != 0 && was.pad & Action::Right.bit() == 0;
    let edge_fire = now.pad & Action::Fire.bit() != 0 && was.pad & Action::Fire.bit() == 0;
    SeatPress {
        left: edge_left,
        right: edge_right,
        take: edge_fire || (now.take && !was.take),
        back: now.back && !was.back,
        typed: now.typed,
    }
}

impl Slots {
    /// A seat's word for a tick, written into the slots the simulation
    /// reads: each of its slots held or not and pressed or not, and, from the
    /// seat that fills the shared slots, the character typed.
    pub fn write_word(&mut self, seat: usize, now: SeatWord, was: SeatWord, shared: bool)
        ensures
            final(self)@ == (SlotsView {
                typed: if shared { now.typed } else { old(self).typed },
                ..wrote(old(self)@, seat_slots_spec(seat, now, was, shared))
            }),
    {
        let entries = seat_slots(seat, now, was, shared);
        let ghost start = self@;
        let mut i: usize = 0;
        while i < entries.len()
            invariant
                i <= entries@.len(),
                entries@ == seat_slots_spec(seat, now, was, shared),
                forall|k: int| 0 <= k < entries@.len() ==> (#[trigger] entries@[k]).0 < SLOTS,
                self@ == wrote(start, entries@.take(i as int)),
            decreases entries@.len() - i,
        {
            let (slot, held, pressed) = entries[i];
            proof {
                let t = entries@.take(i as int + 1);
                assert(t.drop_last() =~= entries@.take(i as int));
                assert(t.last() == entries@[i as int]);
            }
            self.keys[slot] = held;
            self.pressed[slot] = pressed;
            proof {
                let w = wrote(start, entries@.take(i as int + 1));
                assert(self@.keys =~= w.keys);
                assert(self@.pressed =~= w.pressed);
            }
            i = i + 1;
        }
        proof {
            assert(entries@.take(entries@.len() as int) =~= entries@);
            lemma_wrote_keeps(start, entries@);
        }
        if shared {
            self.typed = now.typed;
        }
    }
}

/// **A press is the rising edge of a held word**: every slot a word fills
/// is pressed exactly when it is held now and was not held in the word
/// before, which every machine works out the same way from the same stream.
pub proof fn a_press_is_the_rising_edge(seat: usize, now: SeatWord, was: SeatWord, before: SeatWord, shared: bool, k: int)
    requires
        0 <= k < seat_slots_spec(seat, now, was, shared).len(),
    ensures
        seat_slots_spec(seat, now, was, shared)[k].0 == seat_slots_spec(seat, was, before, shared)[k].0,
        seat_slots_spec(seat, now, was, shared)[k].2 == (seat_slots_spec(seat, now, was, shared)[k].1
            && !seat_slots_spec(seat, was, before, shared)[k].1),
{
}

/// **The shared slots are filled by one seat and no other**: a seat that
/// does not fill them writes only its own five control slots, and the one
/// that does writes Enter, backspace and the nine number keys as well.
pub proof fn one_seat_fills_the_shared_slots(seat: usize, now: SeatWord, was: SeatWord, k: int)
    requires
        seat < 4,
        0 <= k < seat_slots_spec(seat, now, was, false).len(),
    ensures
        seat_slots_spec(seat, now, was, false).len() == 5,
        seat_slots_spec(seat, now, was, true).len() == 16,
        seat_slots_spec(seat, now, was, false)[k].0 == slot_spec(seat, Action::at(k)),
        seat_slots_spec(seat, now, was, false)[k].0 != ENTER_SLOT,
        seat_slots_spec(seat, now, was, false)[k].0 != BACKSPACE_SLOT,
        !(NUMBER_SLOT <= seat_slots_spec(seat, now, was, false)[k].0 < NUMBER_SLOT + 9),
{
    crate::keys::the_seats_slots_are_their_own(seat, Action::at(k), seat, Action::at(k));
}

/// Each of seat zero's control bits in this machine's word is its slot.
proof fn lemma_pad_bits(raw: Seq<bool>, k: int)
    requires
        0 <= k < 5,
    ensures
        (pad_of(raw, 5) & Action::at(k).spec_bit() != 0) == raw[slot_spec(0, Action::at(k)) as int],
{
    reveal_with_fuel(pad_of, 6);
    let r0 = raw[slot_spec(0, Action::Up) as int];
    let r1 = raw[slot_spec(0, Action::Down) as int];
    let r2 = raw[slot_spec(0, Action::Left) as int];
    let r3 = raw[slot_spec(0, Action::Right) as int];
    let r4 = raw[slot_spec(0, Action::Fire) as int];
    let p = pad_of(raw, 5);
    assert(p == ((((0u8 | (if r0 { 8u8 } else { 0u8 })) | (if r1 { 4u8 } else { 0u8 })) | (if r2 { 2u8 } else { 0u8 }))
        | (if r3 { 1u8 } else { 0u8 })) | (if r4 { 16u8 } else { 0u8 }));
    assert({
        &&& (p & 8u8 != 0) == r0
        &&& (p & 4u8 != 0) == r1
        &&& (p & 2u8 != 0) == r2
        &&& (p & 1u8 != 0) == r3
        &&& (p & 16u8 != 0) == r4
    }) by (bit_vector)
        requires
            p == ((((0u8 | (if r0 { 8u8 } else { 0u8 })) | (if r1 { 4u8 } else { 0u8 })) | (if r2 { 2u8 } else {
                0u8
            })) | (if r3 { 1u8 } else { 0u8 })) | (if r4 { 16u8 } else { 0u8 }),
    ;
}

/// **What goes onto the wire comes back as the same slots**: this machine's
/// word, written back as seat zero's, holds exactly the controls, Enter and
/// backspace this machine holds, and the first number key it holds.
pub proof fn the_wire_gives_back_what_was_held(v: SlotsView, was: SeatWord, k: int)
    requires
        v.sized(),
        0 <= k < 16,
    ensures
        ({
            let w = SeatWord {
                pad: pad_of(v.raw, 5),
                take: v.raw[ENTER_SLOT as int],
                back: v.raw[BACKSPACE_SLOT as int],
                typed: v.raw_typed,
                number: number_from(v.raw, 1),
            };
            let e = seat_slots_spec(0, w, was, true)[k];
            &&& k < 7 ==> e.1 == v.raw[e.0 as int]
            &&& k >= 7 ==> e.1 == (number_from(v.raw, 1) == Some((k - 6) as u8))
        }),
{
    if k < 5 {
        lemma_pad_bits(v.raw, k);
    }
}


/// Entries with slots of their own each leave their own value.
proof fn lemma_wrote_at(v: SlotsView, es: Seq<(usize, bool, bool)>, k: int)
    requires
        v.sized(),
        forall|i: int| 0 <= i < es.len() ==> (#[trigger] es[i]).0 < SLOTS,
        forall|i: int, j: int| 0 <= i < j < es.len() ==> (#[trigger] es[i]).0 != (#[trigger] es[j]).0,
        0 <= k < es.len(),
    ensures
        wrote(v, es).sized(),
        wrote(v, es).keys[es[k].0 as int] == es[k].1,
        wrote(v, es).pressed[es[k].0 as int] == es[k].2,
    decreases es.len(),
{
    let rest = es.drop_last();
    if rest.len() > 0 {
        assert forall|i: int| 0 <= i < rest.len() implies (#[trigger] rest[i]).0 < SLOTS by {
            assert(rest[i] == es[i]);
        }
        assert forall|i: int, j: int| 0 <= i < j < rest.len() implies (#[trigger] rest[i]).0 != (
        #[trigger] rest[j]).0 by {
            assert(rest[i] == es[i]);
            assert(rest[j] == es[j]);
        }
        lemma_wrote_at(v, rest, if k < rest.len() { k } else { 0 });
        if k < rest.len() {
            assert(rest[k] == es[k]);
            assert(es[k].0 != es[es.len() - 1].0);
        }
    } else {
        assert(wrote(v, rest) == v);
    }
    assert(es[es.len() - 1].0 < SLOTS);
}

/// **A written word is what the simulation reads**: once a seat's word is
/// written, each of the slots it fills holds that slot's held and pressed
/// exactly, because no two of its slots are the same slot.
pub proof fn a_written_word_is_what_is_read(v: SlotsView, seat: usize, now: SeatWord, was: SeatWord, shared: bool, k: int)
    requires
        v.sized(),
        seat < 4,
        0 <= k < seat_slots_spec(seat, now, was, shared).len(),
    ensures
        ({
            let es = seat_slots_spec(seat, now, was, shared);
            &&& wrote(v, es).keys[es[k].0 as int] == es[k].1
            &&& wrote(v, es).pressed[es[k].0 as int] == es[k].2
        }),
{
    let es = seat_slots_spec(seat, now, was, shared);
    assert forall|i: int| 0 <= i < es.len() implies (#[trigger] es[i]).0 < SLOTS by {
        if i < 5 {
            crate::keys::the_seats_slots_are_their_own(seat, Action::at(i), seat, Action::at(i));
        }
    }
    assert forall|i: int, j: int| 0 <= i < j < es.len() implies (#[trigger] es[i]).0 != (#[trigger] es[j]).0 by {
        if j < 5 {
            crate::keys::the_seats_slots_are_their_own(seat, Action::at(i), seat, Action::at(j));
        } else if i < 5 {
            crate::keys::the_seats_slots_are_their_own(seat, Action::at(i), seat, Action::at(i));
        }
    }
    lemma_wrote_at(v, es, k);
}


/// What a scripted key asks of the caller besides the slots.
#[derive(Clone, Copy, Debug, PartialEq, Eq, Structural)]
pub enum Driven {
    /// Nothing more.
    Nothing,
    /// The character sheet, on or off.
    Sheet,
    /// The test harness's snapshot, written.
    Save,
    /// The test harness's snapshot, read back.
    Load,
}

/// A slot both held and pressed, so that walking reads the key and a menu
/// reads the edge.
pub open spec fn both(v: SlotsView, s: int) -> SlotsView {
    SlotsView { keys: v.keys.update(s, true), pressed: v.pressed.update(s, true), ..v }
}

/// A slot pressed and not held.
pub open spec fn tapped(v: SlotsView, s: int) -> SlotsView {
    SlotsView { pressed: v.pressed.update(s, true), ..v }
}

/// Whether a character is one the name typing takes as itself.
pub open spec fn types_itself(c: char) -> bool {
    ('A' <= c && c <= 'Z') || ('0' <= c && c <= '9')
}

/// The numpad chord a digit stands for: fire held with a direction, the
/// digit's place on the pad, and the number key of that digit pressed.
pub open spec fn chord(v: SlotsView, n: int) -> SlotsView {
    SlotsView {
        keys: v.keys.update(6, true).update(0, 7 <= n <= 9).update(1, 1 <= n <= 3).update(
            2,
            n == 1 || n == 4 || n == 7,
        ).update(3, n == 3 || n == 6 || n == 9),
        pressed: v.pressed.update(NUMBER_SLOT + n - 1, true),
        ..v
    }
}

/// One scripted key, as values: every held key let go, then the one the
/// character stands for.
pub open spec fn driven(v: SlotsView, c: Option<char>, typing: bool) -> SlotsView {
    let v0 = SlotsView { keys: Seq::new(SLOTS as nat, |i: int| false), ..v };
    match c {
        Some(ch) => if typing && types_itself(ch) {
            SlotsView { typed: Some(ch), ..v0 }
        } else if typing && ch == '<' {
            tapped(v0, BACKSPACE_SLOT as int)
        } else if ch == 'u' {
            tapped(v0, 0)
        } else if ch == 'd' {
            tapped(v0, 1)
        } else if ch == 's' {
            both(v0, 6)
        } else if '1' <= ch && ch <= '9' {
            chord(v0, ch as int - '0' as int)
        } else if ch == 'e' {
            tapped(v0, ENTER_SLOT as int)
        } else if ch == 'p' {
            both(v0, 11)
        } else if ch == 'h' {
            both(v0, 2)
        } else if ch == 'l' {
            both(v0, 3)
        } else if ch == 'k' {
            both(v0, 0)
        } else if ch == 'j' {
            both(v0, 1)
        } else {
            v0
        },
        None => v0,
    }
}

/// What else a scripted key asks for, as a value.
pub open spec fn asked(c: Option<char>, typing: bool) -> Driven {
    match c {
        Some(ch) => if typing && (types_itself(ch) || ch == '<') {
            Driven::Nothing
        } else if ch == 'c' {
            Driven::Sheet
        } else if ch == 'S' {
            Driven::Save
        } else if ch == 'L' {
            Driven::Load
        } else {
            Driven::Nothing
        },
        None => Driven::Nothing,
    }
}

impl Slots {
    /// A slot both held and pressed.
    fn hold_and_press(&mut self, s: usize)
        requires
            s < SLOTS,
        ensures
            final(self)@ == both(old(self)@, s as int),
    {
        self.keys[s] = true;
        self.pressed[s] = true;
        proof {
            assert(self@.keys =~= both(old(self)@, s as int).keys);
            assert(self@.pressed =~= both(old(self)@, s as int).pressed);
        }
    }

    /// A slot pressed and not held.
    fn tap(&mut self, s: usize)
        requires
            s < SLOTS,
        ensures
            final(self)@ == tapped(old(self)@, s as int),
    {
        self.pressed[s] = true;
        proof {
            assert(self@.pressed =~= tapped(old(self)@, s as int).pressed);
        }
    }

    /// One scripted key press, for the headless harness, which drives the
    /// game through the same slots a keyboard does. Every held key is let go
    /// first. While a name is being typed, a capital letter or a digit is that
    /// character and `<` is backspace. Otherwise `u` and `d` press up and
    /// down, `s` holds and presses fire, `1` to `9` are the numpad chords and
    /// press their number key, `e` is Enter, `p` is seat two's fire, and `h`,
    /// `l`, `k`, `j` hold and press left, right, up and down. `c`, `S` and
    /// `L` are the caller's: the sheet, and the harness's snapshot.
    pub fn drive(&mut self, c: Option<char>, typing: bool) -> (d: Driven)
        ensures
            final(self)@ == driven(old(self)@, c, typing),
            d == asked(c, typing),
    {
        self.keys = [false; 256];
        proof {
            assert(self@.keys =~= Seq::new(SLOTS as nat, |i: int| false));
        }
        let ch = match c {
            Some(ch) => ch,
            None => return Driven::Nothing,
        };
        if typing && ((ch >= 'A' && ch <= 'Z') || (ch >= '0' && ch <= '9')) {
            self.typed = Some(ch);
            return Driven::Nothing;
        }
        if typing && ch == '<' {
            self.tap(BACKSPACE_SLOT);
            return Driven::Nothing;
        }
        if ch == 'u' {
            self.tap(0);
        } else if ch == 'd' {
            self.tap(1);
        } else if ch == 's' {
            self.hold_and_press(6);
        } else if ch >= '1' && ch <= '9' {
            let n: u32 = ch as u32 - '0' as u32;
            self.keys[6] = true;
            self.keys[0] = n >= 7 && n <= 9;
            self.keys[1] = n >= 1 && n <= 3;
            self.keys[2] = n == 1 || n == 4 || n == 7;
            self.keys[3] = n == 3 || n == 6 || n == 9;
            self.pressed[NUMBER_SLOT + n as usize - 1] = true;
            proof {
                let want = chord(SlotsView { keys: Seq::new(SLOTS as nat, |i: int| false), ..old(self)@ }, n as int);
                assert(self@.keys =~= want.keys);
                assert(self@.pressed =~= want.pressed);
            }
        } else if ch == 'e' {
            self.tap(ENTER_SLOT);
        } else if ch == 'p' {
            self.hold_and_press(11);
        } else if ch == 'h' {
            self.hold_and_press(2);
        } else if ch == 'l' {
            self.hold_and_press(3);
        } else if ch == 'k' {
            self.hold_and_press(0);
        } else if ch == 'j' {
            self.hold_and_press(1);
        }
        if ch == 'c' {
            Driven::Sheet
        } else if ch == 'S' {
            Driven::Save
        } else if ch == 'L' {
            Driven::Load
        } else {
            Driven::Nothing
        }
    }

    /// Steer towards a map position, one step a tick, the way held keys
    /// would: left while right of it, right while left of it, up while below
    /// it and down while above it.
    pub fn steer(&mut self, x: i32, y: i32, gx: i32, gy: i32)
        ensures
            final(self)@ == (SlotsView {
                keys: old(self)@.keys.update(2, x > gx).update(3, x < gx).update(0, y > gy).update(1, y < gy),
                ..old(self)@
            }),
    {
        self.keys[2] = x > gx;
        self.keys[3] = x < gx;
        self.keys[0] = y > gy;
        self.keys[1] = y < gy;
        proof {
            assert(self@.keys =~= old(self)@.keys.update(2, x > gx).update(3, x < gx).update(0, y > gy).update(1, y < gy));
        }
    }
}

} // verus!
