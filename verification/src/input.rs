//! Input: the original's own reading of a stick, and a binding table of ours.
//!
//! The whole game is driven by one five-bit word. `_KBD:JOY0` and `_KBD:JOY1`
//! build it from the gameport, the routine beside them builds it from the
//! keyboard, and the two are OR'd together, so a stick and the keys are the
//! same input and always have been.
//!
//! ```text
//! 0x01 right   0x02 left   0x04 down   0x08 up   0x10 fire
//! ```
//!
//! * **Reading a stick.** A count that reaches the cap `0x400` is a stick that
//!   is not there, and contributes nothing. Otherwise the count is compared
//!   against four thresholds: at or below `JOY_XMIN` is left, at or above
//!   `JOY_XMAX` is right, and the same pair for Y. See [`Calibration::mask`].
//! * **Calibration.** `Fix_JoyStick` asks twice, top left and then bottom
//!   right, and `AdjustJoy` pulls each threshold one eighth of the measured
//!   range inwards, so three quarters of the travel is dead. Before anybody
//!   calibrates, the four thresholds are the constants the image ships: 16,
//!   16, 80, 80.
//! * **Debounce.** `BOUNCEBUTTON`: a press is worth exactly one thing, however
//!   long it is held. See [`Debounce`].
//! * **Opposite directions.** `GetInputDevice` throws away left and right held
//!   together, and up and down together. See [`settle`].
//! * **The original's own keys.** Player one is Enter, Up, Down, Left, Right.
//!   Player two is Tab, W, X, A, D.
//!
//! **Rebindable controls** are ours: [`Bindings`] is a table of actions to
//! sources, data that a file can carry.

use vstd::prelude::*;
use crate::chars::{
    chars_of, copy_string, parse_unsigned, parse_unsigned_chars, same_chars, slice_chars,
    split_once, split_once_chars, starts_with_chars, string_of, strip_prefix, strip_prefix_chars,
    trim_chars, trimmed,
};

verus! {

/// The original's input word. `Rjoystick` and `Ljoystick` index on these bits.
pub const RIGHT: u8 = 0x01;
pub const LEFT: u8 = 0x02;
pub const DOWN: u8 = 0x04;
pub const UP: u8 = 0x08;
pub const FIRE: u8 = 0x10;

/// What a player can ask for. Five per seat, which is the whole of the
/// original's input word; everything else the game does is a menu on top of it.
#[derive(Clone, Copy, Debug, PartialEq, Eq, Structural)]
pub enum Action {
    Up,
    Down,
    Left,
    Right,
    Fire,
}

impl Action {
    pub const ALL: [Action; 5] = [
        Action::Up,
        Action::Down,
        Action::Left,
        Action::Right,
        Action::Fire,
    ];

    /// The bit this action sets, as a value.
    pub open spec fn spec_bit(self) -> u8 {
        match self {
            Action::Up => UP,
            Action::Down => DOWN,
            Action::Left => LEFT,
            Action::Right => RIGHT,
            Action::Fire => FIRE,
        }
    }

    /// The bit this action sets in the original's word.
    pub fn bit(self) -> (b: u8)
        ensures
            b == self.spec_bit(),
    {
        match self {
            Action::Up => UP,
            Action::Down => DOWN,
            Action::Left => LEFT,
            Action::Right => RIGHT,
            Action::Fire => FIRE,
        }
    }

    /// Where the action sits in a seat's table, which is the order the
    /// actions are declared in.
    pub open spec fn spec_index(self) -> int {
        match self {
            Action::Up => 0,
            Action::Down => 1,
            Action::Left => 2,
            Action::Right => 3,
            Action::Fire => 4,
        }
    }

    /// [`Action::spec_index`], executably.
    pub fn index(self) -> (i: usize)
        ensures
            i == self.spec_index(),
    {
        match self {
            Action::Up => 0,
            Action::Down => 1,
            Action::Left => 2,
            Action::Right => 3,
            Action::Fire => 4,
        }
    }

    /// The action at a place in the table.
    pub open spec fn at(i: int) -> Action {
        if i == 0 {
            Action::Up
        } else if i == 1 {
            Action::Down
        } else if i == 2 {
            Action::Left
        } else if i == 3 {
            Action::Right
        } else {
            Action::Fire
        }
    }
}

/// A source, as a value: its kind (0 a key, 1 a pad button, 2 one end of an
/// axis), its name, and which end of the axis.
pub type SourceView = (u8, Seq<char>, bool);

/// Where an action can come from. Names rather than numbers, so a bindings
/// file is readable and survives a change of key enumeration.
#[derive(Clone, Debug, PartialEq, Eq)]
pub enum Source {
    /// A keyboard key, by winit's own `KeyCode` name: `ArrowUp`, `KeyW`, `Space`.
    Key { code: String },
    /// A gamepad button, by gilrs' own `Button` name: `South`, `DPadUp`.
    Button { name: String },
    /// One end of a gamepad axis: `LeftStickX` negative is left.
    Axis { name: String, positive: bool },
}

impl View for Source {
    type V = SourceView;

    open spec fn view(&self) -> SourceView {
        match self {
            Source::Key { code } => (0u8, code@, false),
            Source::Button { name } => (1u8, name@, false),
            Source::Axis { name, positive } => (2u8, name@, *positive),
        }
    }
}

/// The views of a list of sources.
pub open spec fn views(l: Seq<Source>) -> Seq<SourceView> {
    l.map_values(|s: Source| s@)
}

impl Source {
    pub fn key(code: &str) -> (s: Source)
        ensures
            s@ == (0u8, code@, false),
    {
        Source::Key { code: code.to_owned() }
    }

    pub fn button(name: &str) -> (s: Source)
        ensures
            s@ == (1u8, name@, false),
    {
        Source::Button { name: name.to_owned() }
    }

    pub fn axis(name: &str, positive: bool) -> (s: Source)
        ensures
            s@ == (2u8, name@, positive),
    {
        Source::Axis { name: name.to_owned(), positive }
    }

    /// A second source the same as this one.
    pub fn copy(&self) -> (s: Source)
        ensures
            s@ == self@,
    {
        match self {
            Source::Key { code } => Source::Key { code: copy_string(code) },
            Source::Button { name } => Source::Button { name: copy_string(name) },
            Source::Axis { name, positive } => Source::Axis {
                name: copy_string(name),
                positive: *positive,
            },
        }
    }

    /// Whether two sources name the same thing.
    pub fn same(&self, other: &Source) -> (b: bool)
        ensures
            b == (self@ == other@),
    {
        match (self, other) {
            (Source::Key { code: a }, Source::Key { code: b }) => a.eq(b),
            (Source::Button { name: a }, Source::Button { name: b }) => a.eq(b),
            (Source::Axis { name: a, positive: p }, Source::Axis { name: b, positive: q }) => {
                *p == *q && a.eq(b)
            },
            _ => false,
        }
    }
}

/// Whether a list holds a source.
fn holds(list: &Vec<Source>, src: &Source) -> (b: bool)
    ensures
        b == views(list@).contains(src@),
{
    let mut i: usize = 0;
    while i < list.len()
        invariant
            i <= list@.len(),
            forall|k: int| 0 <= k < i ==> list@[k]@ != src@,
        decreases list@.len() - i,
    {
        if list[i].same(src) {
            proof {
                assert(views(list@)[i as int] == src@);
            }
            return true;
        }
        i = i + 1;
    }
    proof {
        if views(list@).contains(src@) {
            let j = choose|j: int| 0 <= j < views(list@).len() && views(list@)[j] == src@;
            assert(list@[j]@ == src@);
        }
    }
    false
}

/// A list with every copy of one source taken out.
pub open spec fn without(l: Seq<SourceView>, x: SourceView) -> Seq<SourceView>
    decreases l.len(),
{
    if l.len() == 0 {
        l
    } else if l.last() == x {
        without(l.drop_last(), x)
    } else {
        without(l.drop_last(), x).push(l.last())
    }
}

/// One seat's controls, and which gamepad answers for it.
#[derive(Clone, Debug)]
pub struct Seat {
    /// Which pad, in the order the system reports them. Seat zero takes the
    /// first pad, seat one the second, and a seat with no pad is keys only.
    pub pad: usize,
    /// Every source that can raise each action, in [`Action::index`] order.
    /// A list, because a key and a pad both being able to move the same
    /// knight is the original's own behaviour: it ORs the keyboard word into
    /// the stick word.
    pub actions: [Vec<Source>; 5],
}

/// The list a row set gives an action: the last row naming it, as a map
/// built from those rows keeps the last insertion.
pub open spec fn last_for(rows: Seq<(Action, Vec<Source>)>, k: int) -> Option<Vec<Source>>
    decreases rows.len(),
{
    if rows.len() == 0 {
        None
    } else if rows.last().0.spec_index() == k {
        Some(rows.last().1)
    } else {
        last_for(rows.drop_last(), k)
    }
}

impl Seat {
    /// The sources of one action, as values.
    pub open spec fn sources(self, a: Action) -> Seq<SourceView> {
        views(self.actions@[a.spec_index()]@)
    }

    /// The list of sources for one action.
    pub fn list(&self, a: Action) -> (l: &Vec<Source>)
        ensures
            views(l@) == self.sources(a),
    {
        &self.actions[a.index()]
    }

    /// A seat built from rows of action and sources. A row for an action
    /// already given replaces the earlier one.
    fn of(pad: usize, rows: Vec<(Action, Vec<Source>)>) -> (s: Seat)
        ensures
            s.pad == pad,
            forall|k: int|
                0 <= k < 5 ==> match #[trigger] last_for(rows@, k) {
                    Some(l) => s.actions@[k] == l,
                    None => s.actions@[k]@.len() == 0,
                },
    {
        let ghost orig = rows@;
        let mut rows = rows;
        let mut filled = [false; 5];
        let mut acts: [Vec<Source>; 5] = [Vec::new(), Vec::new(), Vec::new(), Vec::new(), Vec::new()];
        while rows.len() > 0
            invariant
                forall|k: int|
                    0 <= k < 5 ==> last_for(orig, k) == if filled@[k] {
                        Some(acts@[k])
                    } else {
                        last_for(rows@, k)
                    },
                forall|k: int| 0 <= k < 5 && !filled@[k] ==> acts@[k]@.len() == 0,
            decreases rows@.len(),
        {
            let ghost before = rows@;
            let (a, l) = rows.pop().unwrap();
            proof {
                assert(before.drop_last() == rows@);
            }
            let i = a.index();
            if !filled[i] {
                acts[i] = l;
                filled[i] = true;
            }
        }
        Seat { pad, actions: acts }
    }
}

/// The whole table. Two seats, which is as many as share one keyboard.
#[derive(Clone, Debug)]
pub struct Bindings {
    pub seats: Vec<Seat>,
    /// Where the sticks sit, per seat. Saved with the bindings because a
    /// calibration is as much a setting as a key is.
    pub calibration: Vec<Calibration>,
}

/// The sources one of the original's keys comes with: the key, a d-pad
/// direction or a face button, and an end of the left stick.
pub open spec fn shipped_row(a: Action, key: Seq<char>) -> Seq<SourceView> {
    match a {
        Action::Up => seq![(0u8, key, false), (1u8, "DPadUp"@, false), (2u8, "LeftStickY"@, true)],
        Action::Down => seq![(0u8, key, false), (1u8, "DPadDown"@, false), (2u8, "LeftStickY"@, false)],
        Action::Left => seq![(0u8, key, false), (1u8, "DPadLeft"@, false), (2u8, "LeftStickX"@, false)],
        Action::Right => seq![(0u8, key, false), (1u8, "DPadRight"@, false), (2u8, "LeftStickX"@, true)],
        Action::Fire => seq![(0u8, key, false), (1u8, "South"@, false), (1u8, "East"@, false)],
    }
}

/// One seat as the defaults ship it: `keys` in up, down, left, right, fire
/// order.
pub open spec fn shipped_seat(s: Seat, pad: usize, keys: Seq<Seq<char>>) -> bool {
    &&& s.pad == pad
    &&& forall|k: int| 0 <= k < 5 ==> #[trigger] s.sources(Action::at(k)) == shipped_row(Action::at(k), keys[k])
}

/// A row of sources for one action, as the defaults ship them.
fn row(a: Action, key: &str, button: &str, second: &str, positive: bool) -> (r: (Action, Vec<Source>))
    ensures
        r.0 == a,
        views(r.1@) == seq![(0u8, key@, false), (1u8, button@, false), if a == Action::Fire {
            (1u8, second@, false)
        } else {
            (2u8, second@, positive)
        }],
{
    let mut v: Vec<Source> = Vec::new();
    v.push(Source::key(key));
    v.push(Source::button(button));
    if a == Action::Fire {
        v.push(Source::button(second));
    } else {
        v.push(Source::axis(second, positive));
    }
    proof {
        assert(views(v@) =~= seq![(0u8, key@, false), (1u8, button@, false), v@[2]@]);
    }
    (a, v)
}

/// The seat the defaults give: these five keys, plus the pad `pad`.
fn pad_dirs(pad: usize, keys: [&str; 5]) -> (s: Seat)
    ensures
        shipped_seat(s, pad, keys@.map_values(|k: &str| k@)),
{
    let mut rows: Vec<(Action, Vec<Source>)> = Vec::new();
    rows.push(row(Action::Up, keys[0], "DPadUp", "LeftStickY", true));
    rows.push(row(Action::Down, keys[1], "DPadDown", "LeftStickY", false));
    rows.push(row(Action::Left, keys[2], "DPadLeft", "LeftStickX", false));
    rows.push(row(Action::Right, keys[3], "DPadRight", "LeftStickX", true));
    rows.push(row(Action::Fire, keys[4], "South", "East", false));
    let s = Seat::of(pad, rows);
    proof {
        reveal_with_fuel(last_for, 6);
        let ks = keys@.map_values(|k: &str| k@);
        assert forall|k: int| 0 <= k < 5 implies #[trigger] s.sources(Action::at(k)) == shipped_row(
            Action::at(k),
            ks[k],
        ) by {
            assert(last_for(rows@, k) is Some);
            assert(ks[k] == keys@[k]@);
        }
    }
    s
}

impl Bindings {
    /// **The original's own ten keys**, plus a pad for each seat.
    ///
    /// The reader at image `0x81ec` is two runs of five `KEYPRESSED` calls.
    /// Player one: `0x1c` Enter, `0x48` up, `0x50` down, `0x4b` left, `0x4d`
    /// right. Player two: `0x0f` Tab, `0x11` W, `0x2d` X, `0x1e` A, `0x20` D.
    /// The pad sources beside them are ours.
    pub fn shipped() -> (b: Bindings)
        ensures
            b.seats@.len() == 2,
            shipped_seat(
                b.seats@[0],
                0,
                seq!["ArrowUp"@, "ArrowDown"@, "ArrowLeft"@, "ArrowRight"@, "Enter"@],
            ),
            shipped_seat(b.seats@[1], 1, seq!["KeyW"@, "KeyX"@, "KeyA"@, "KeyD"@, "Tab"@]),
            b.calibration@ == seq![Calibration::shipped_spec(), Calibration::shipped_spec()],
    {
        let one = pad_dirs(0, ["ArrowUp", "ArrowDown", "ArrowLeft", "ArrowRight", "Enter"]);
        let two = pad_dirs(1, ["KeyW", "KeyX", "KeyA", "KeyD", "Tab"]);
        proof {
            let k1: [&str; 5] = ["ArrowUp", "ArrowDown", "ArrowLeft", "ArrowRight", "Enter"];
            assert(k1@.map_values(|k: &str| k@) =~= seq![
                "ArrowUp"@,
                "ArrowDown"@,
                "ArrowLeft"@,
                "ArrowRight"@,
                "Enter"@,
            ]);
            let k2: [&str; 5] = ["KeyW", "KeyX", "KeyA", "KeyD", "Tab"];
            assert(k2@.map_values(|k: &str| k@) =~= seq!["KeyW"@, "KeyX"@, "KeyA"@, "KeyD"@, "Tab"@]);
        }
        let mut seats: Vec<Seat> = Vec::new();
        seats.push(one);
        seats.push(two);
        let mut calibration: Vec<Calibration> = Vec::new();
        calibration.push(Calibration::shipped());
        calibration.push(Calibration::shipped());
        proof {
            assert(calibration@ =~= seq![Calibration::shipped_spec(), Calibration::shipped_spec()]);
        }
        Bindings { seats, calibration }
    }
}

/// The actions of one seat a source raises, among the first `k` of the five,
/// in table order, each with the seat's number.
pub open spec fn raised_at(seat: Seat, i: usize, src: SourceView, k: int) -> Seq<(usize, Action)>
    decreases k,
{
    if k <= 0 {
        seq![]
    } else {
        raised_at(seat, i, src, k - 1) + if seat.sources(Action::at(k - 1)).contains(src) {
            seq![(i, Action::at(k - 1))]
        } else {
            seq![]
        }
    }
}

/// Every action a source raises across these seats, seat by seat.
pub open spec fn raised(seats: Seq<Seat>, src: SourceView) -> Seq<(usize, Action)>
    decreases seats.len(),
{
    if seats.len() == 0 {
        seq![]
    } else {
        raised(seats.drop_last(), src) + raised_at(seats.last(), (seats.len() - 1) as usize, src, 5)
    }
}

/// A seat's list for one action after a rebinding: the source taken off it,
/// and put on the end of the action it now raises.
pub open spec fn refiled(l: Seq<SourceView>, src: SourceView, add: bool) -> Seq<SourceView> {
    without(l, src) + if add {
        seq![src]
    } else {
        seq![]
    }
}

/// The binding actions' names, as `--bind` spells them.
pub open spec fn action_named(t: Seq<char>) -> Option<Action> {
    if t == "up"@ {
        Some(Action::Up)
    } else if t == "down"@ {
        Some(Action::Down)
    } else if t == "left"@ {
        Some(Action::Left)
    } else if t == "right"@ {
        Some(Action::Right)
    } else if t == "fire"@ {
        Some(Action::Fire)
    } else {
        None
    }
}

/// `str::trim_start_matches` with a non-empty string: every leading copy of
/// `p` goes.
pub open spec fn strip_all(s: Seq<char>, p: Seq<char>) -> Seq<char>
    decreases s.len(),
{
    if p.len() > 0 && p.len() <= s.len() && s.take(p.len() as int) == p {
        strip_all(s.skip(p.len() as int), p)
    } else {
        s
    }
}

/// `str::trim_end_matches(['+', '-'])`.
pub open spec fn trim_signs(s: Seq<char>) -> Seq<char>
    decreases s.len(),
{
    if s.len() > 0 && (s.last() == '+' || s.last() == '-') {
        trim_signs(s.drop_last())
    } else {
        s
    }
}

/// The source a binding's right hand side names: `pad:<button>`,
/// `axis:<axis>+` or `axis:<axis>-`, or a key, with or without `key:`.
pub open spec fn source_named(src: Seq<char>) -> Option<SourceView> {
    match strip_prefix(src, "pad:"@) {
        Some(name) => Some((1u8, name, false)),
        None => match strip_prefix(src, "axis:"@) {
            Some(name) => {
                let positive = name.len() > 0 && name.last() == '+';
                let n = trim_signs(name);
                if n.len() == 0 {
                    None
                } else {
                    Some((2u8, n, positive))
                }
            },
            None => if src.len() == 0 {
                None
            } else {
                Some((0u8, strip_all(src, "key:"@), false))
            },
        },
    }
}

/// What `--bind <seat>:<action>=<source>` says, or nothing when it says
/// nothing this grammar reads.
pub open spec fn bind_spec(spec: Seq<char>) -> Option<(usize, Action, SourceView)> {
    match split_once(spec, '=') {
        None => None,
        Some((who, src)) => match split_once(who, ':') {
            None => None,
            Some((seat, action)) => match parse_unsigned(trimmed(seat), usize::MAX as int) {
                None => None,
                Some(n) => match action_named(trimmed(action)) {
                    None => None,
                    Some(a) => match source_named(trimmed(src)) {
                        None => None,
                        Some(sv) => Some((n as usize, a, sv)),
                    },
                },
            },
        },
    }
}

/// A list with `src` taken out, and put on the end if `add`.
fn refile(list: &Vec<Source>, src: &Source, add: bool) -> (r: Vec<Source>)
    ensures
        views(r@) == refiled(views(list@), src@, add),
{
    let mut r: Vec<Source> = Vec::new();
    let mut i: usize = 0;
    while i < list.len()
        invariant
            i <= list@.len(),
            views(r@) == without(views(list@.take(i as int)), src@),
        decreases list@.len() - i,
    {
        let ghost before = r@;
        proof {
            assert(views(list@.take(i as int + 1)) =~= views(list@.take(i as int)).push(list@[i as int]@));
            assert(views(list@.take(i as int + 1)).drop_last() =~= views(list@.take(i as int)));
        }
        if !list[i].same(src) {
            r.push(list[i].copy());
            proof {
                assert(views(r@) =~= views(before).push(r@.last()@));
            }
        }
        i = i + 1;
    }
    proof {
        assert(list@.take(list@.len() as int) =~= list@);
    }
    if add {
        let ghost before = r@;
        r.push(src.copy());
        proof {
            assert(views(r@) =~= views(before).push(src@));
        }
    } else {
        proof {
            assert(views(r@) =~= views(r@) + seq![]);
        }
    }
    r
}

impl Action {
    /// The action at a place in the table, executably.
    pub fn from_index(k: usize) -> (a: Action)
        ensures
            a == Action::at(k as int),
    {
        if k == 0 {
            Action::Up
        } else if k == 1 {
            Action::Down
        } else if k == 2 {
            Action::Left
        } else if k == 3 {
            Action::Right
        } else {
            Action::Fire
        }
    }
}

/// The characters of `s` with every leading copy of `p` taken off.
fn strip_all_chars(s: &Vec<char>, p: &Vec<char>) -> (r: Vec<char>)
    ensures
        r@ == strip_all(s@, p@),
    decreases s@.len(),
{
    if p.len() > 0 && starts_with_chars(s, p) {
        let rest = slice_chars(s, p.len(), s.len());
        proof {
            assert(rest@ =~= s@.skip(p@.len() as int));
        }
        strip_all_chars(&rest, p)
    } else {
        slice_chars(s, 0, s.len())
    }
}

/// The characters of `s` with trailing signs taken off.
fn trim_signs_chars(s: &Vec<char>) -> (r: Vec<char>)
    ensures
        r@ == trim_signs(s@),
{
    let mut j = s.len();
    proof {
        assert(s@.take(j as int) =~= s@);
    }
    while j > 0 && (s[j - 1] == '+' || s[j - 1] == '-')
        invariant
            j <= s@.len(),
            trim_signs(s@) == trim_signs(s@.take(j as int)),
        decreases j,
    {
        proof {
            assert(s@.take(j as int).drop_last() =~= s@.take(j - 1));
        }
        j = j - 1;
    }
    proof {
        assert(s@.take(j as int) =~= s@.subrange(0, j as int));
    }
    slice_chars(s, 0, j)
}

/// A source built from a kind and a name.
fn source_of(kind: u8, name: &Vec<char>, positive: bool) -> (s: Source)
    requires
        kind <= 2,
    ensures
        s@ == (kind, name@, if kind == 2 {
            positive
        } else {
            false
        }),
{
    let n = string_of(name.as_slice());
    if kind == 0 {
        Source::Key { code: n }
    } else if kind == 1 {
        Source::Button { name: n }
    } else {
        Source::Axis { name: n, positive }
    }
}

/// [`source_named`], executably.
fn source_from(src: &Vec<char>) -> (r: Option<Source>)
    ensures
        match source_named(src@) {
            Some(sv) => r matches Some(s) && s@ == sv,
            None => r is None,
        },
{
    let pad = chars_of("pad:");
    let axis = chars_of("axis:");
    if let Some(name) = strip_prefix_chars(src, &pad) {
        return Some(source_of(1, &name, false));
    }
    if let Some(name) = strip_prefix_chars(src, &axis) {
        let positive = name.len() > 0 && name[name.len() - 1] == '+';
        let n = trim_signs_chars(&name);
        if n.len() == 0 {
            return None;
        }
        return Some(source_of(2, &n, positive));
    }
    if src.len() == 0 {
        return None;
    }
    let key = chars_of("key:");
    let code = strip_all_chars(src, &key);
    Some(source_of(0, &code, false))
}

/// [`action_named`], executably.
fn action_from(t: &Vec<char>) -> (r: Option<Action>)
    ensures
        r == action_named(t@),
{
    if same_chars(t, &chars_of("up")) {
        Some(Action::Up)
    } else if same_chars(t, &chars_of("down")) {
        Some(Action::Down)
    } else if same_chars(t, &chars_of("left")) {
        Some(Action::Left)
    } else if same_chars(t, &chars_of("right")) {
        Some(Action::Right)
    } else if same_chars(t, &chars_of("fire")) {
        Some(Action::Fire)
    } else {
        None
    }
}

impl Bindings {
    /// Every action a source raises, across every seat.
    pub fn raised_by(&self, src: &Source) -> (out: Vec<(usize, Action)>)
        ensures
            out@ == raised(self.seats@, src@),
    {
        let mut out: Vec<(usize, Action)> = Vec::new();
        let mut i: usize = 0;
        while i < self.seats.len()
            invariant
                i <= self.seats@.len(),
                out@ == raised(self.seats@.take(i as int), src@),
            decreases self.seats@.len() - i,
        {
            let seat = &self.seats[i];
            let mut k: usize = 0;
            while k < 5
                invariant
                    k <= 5,
                    i < self.seats@.len(),
                    *seat == self.seats@[i as int],
                    out@ == raised(self.seats@.take(i as int), src@) + raised_at(*seat, i, src@, k as int),
                decreases 5 - k,
            {
                let a = Action::from_index(k);
                let ghost before = out@;
                if holds(&seat.actions[k], src) {
                    out.push((i, a));
                }
                proof {
                    assert(raised_at(*seat, i, src@, k + 1) == raised_at(*seat, i, src@, k as int)
                        + if seat.sources(Action::at(k as int)).contains(src@) {
                        seq![(i, Action::at(k as int))]
                    } else {
                        seq![]
                    });
                    assert(seat.sources(Action::at(k as int)) == views(seat.actions@[k as int]@));
                    if seat.sources(Action::at(k as int)).contains(src@) {
                        assert(out@ =~= before + seq![(i, Action::at(k as int))]);
                    } else {
                        assert(out@ =~= before + seq![]);
                    }
                }
                k = k + 1;
            }
            proof {
                let t = self.seats@.take(i as int + 1);
                assert(t.drop_last() =~= self.seats@.take(i as int));
                assert(t.last() == self.seats@[i as int]);
            }
            i = i + 1;
        }
        proof {
            assert(self.seats@.take(self.seats@.len() as int) =~= self.seats@);
        }
        out
    }

    /// Points one action at one source, taking that source off whatever else
    /// on the same seat had it. Rebinding is only useful if it cannot leave two
    /// actions fighting over one key. A seat that is not there is left alone.
    pub fn bind(&mut self, seat: usize, action: Action, src: Source)
        ensures
            final(self).calibration == old(self).calibration,
            final(self).seats@.len() == old(self).seats@.len(),
            forall|j: int|
                0 <= j < old(self).seats@.len() && j != seat
                    ==> #[trigger] final(self).seats@[j] == old(self).seats@[j],
            seat < old(self).seats@.len()
                ==> final(self).seats@[seat as int].pad == old(self).seats@[seat as int].pad,
            seat < old(self).seats@.len() ==> forall|a: Action|
                #[trigger] final(self).seats@[seat as int].sources(a)
                    == refiled(old(self).seats@[seat as int].sources(a), src@, a == action),
    {
        if seat >= self.seats.len() {
            return;
        }
        let ai = action.index();
        let s = &self.seats[seat];
        let a0 = refile(&s.actions[0], &src, ai == 0);
        let a1 = refile(&s.actions[1], &src, ai == 1);
        let a2 = refile(&s.actions[2], &src, ai == 2);
        let a3 = refile(&s.actions[3], &src, ai == 3);
        let a4 = refile(&s.actions[4], &src, ai == 4);
        let next = Seat { pad: s.pad, actions: [a0, a1, a2, a3, a4] };
        proof {
            assert forall|a: Action| #[trigger] next.sources(a) == refiled(s.sources(a), src@, a == action) by {
                match a {
                    Action::Up => {},
                    Action::Down => {},
                    Action::Left => {},
                    Action::Right => {},
                    Action::Fire => {},
                }
            }
        }
        self.seats.set(seat, next);
    }

    /// A seat's calibration, or the shipped one for a seat that has none.
    pub fn calibration(&self, seat: usize) -> (c: Calibration)
        ensures
            c == if seat < self.calibration@.len() {
                self.calibration@[seat as int]
            } else {
                Calibration::shipped_spec()
            },
    {
        if seat < self.calibration.len() {
            self.calibration[seat]
        } else {
            Calibration::shipped()
        }
    }

    /// Records a seat's calibration, giving every seat before it that had
    /// none the shipped one.
    pub fn set_calibration(&mut self, seat: usize, c: Calibration)
        requires
            seat < usize::MAX,
        ensures
            final(self).seats == old(self).seats,
            final(self).calibration@.len() == if seat < old(self).calibration@.len() {
                old(self).calibration@.len() as int
            } else {
                seat + 1
            },
            final(self).calibration@[seat as int] == c,
            forall|j: int|
                0 <= j < old(self).calibration@.len() && j != seat
                    ==> #[trigger] final(self).calibration@[j] == old(self).calibration@[j],
            forall|j: int|
                old(self).calibration@.len() <= j < seat ==> final(self).calibration@[j]
                    == Calibration::shipped_spec(),
    {
        let ghost before = self.calibration@;
        while self.calibration.len() <= seat
            invariant
                self.seats == old(self).seats,
                before == old(self).calibration@,
                before.len() <= self.calibration@.len(),
                self.calibration@.len() <= if seat < before.len() {
                    before.len() as int
                } else {
                    seat + 1
                },
                forall|j: int| 0 <= j < before.len() ==> self.calibration@[j] == before[j],
                forall|j: int|
                    before.len() <= j < self.calibration@.len() ==> self.calibration@[j]
                        == Calibration::shipped_spec(),
            decreases seat + 1 - self.calibration@.len(),
        {
            self.calibration.push(Calibration::shipped());
        }
        self.calibration.set(seat, c);
    }

    /// `--bind 0:fire=Space`, `--bind 1:up=pad:DPadUp`,
    /// `--bind 0:left=axis:LeftStickX-`.
    ///
    /// The table is edited from the command line or in the file itself, and
    /// the grammar is deliberately the same names the file uses. Refusals
    /// rather than guesses, so a typo cannot silently unbind a key.
    pub fn parse_bind(spec: &str) -> (r: Option<(usize, Action, Source)>)
        ensures
            match bind_spec(spec@) {
                Some((n, a, sv)) => r matches Some((m, b, s)) && m == n && b == a && s@ == sv,
                None => r is None,
            },
    {
        let all = chars_of(spec);
        let (who, src) = match split_once_chars(&all, '=') {
            Some(p) => p,
            None => return None,
        };
        let (seat, action) = match split_once_chars(&who, ':') {
            Some(p) => p,
            None => return None,
        };
        let seat_t = trim_chars(&seat);
        let widest = usize::MAX as u64;
        proof {
            assert(widest as int == usize::MAX as int);
        }
        let n = match parse_unsigned_chars(&seat_t, widest) {
            Some(n) => n as usize,
            None => return None,
        };

        let action_t = trim_chars(&action);
        let a = match action_from(&action_t) {
            Some(a) => a,
            None => return None,
        };
        let src_t = trim_chars(&src);
        match source_from(&src_t) {
            Some(s) => Some((n, a, s)),
            None => None,
        }
    }
}

impl Default for Bindings {
    /// [`Bindings::shipped`]: the original's ten keys and a pad per seat.
    fn default() -> (b: Bindings)
        ensures
            b.seats@.len() == 2,
            shipped_seat(
                b.seats@[0],
                0,
                seq!["ArrowUp"@, "ArrowDown"@, "ArrowLeft"@, "ArrowRight"@, "Enter"@],
            ),
            shipped_seat(b.seats@[1], 1, seq!["KeyW"@, "KeyX"@, "KeyA"@, "KeyD"@, "Tab"@]),
            b.calibration@ == seq![Calibration::shipped_spec(), Calibration::shipped_spec()],
    {
        Bindings::shipped()
    }
}

/// `JOY_XMIN`, `JOY_XMAX`, `JOY_YMIN`, `JOY_YMAX`.
///
/// Counts, in the same units `JOY0` and `JOY1` produce: how many times round
/// the read loop before the one-shot for that axis fell.
#[derive(Clone, Copy, Debug, PartialEq, Eq, Structural)]
pub struct Calibration {
    pub xmin: i32,
    pub xmax: i32,
    pub ymin: i32,
    pub ymax: i32,
}

/// An eighth of the range from `lo` to `hi`, or nothing for a range read
/// backwards: `AdjustJoy`'s shift is unsigned.
pub open spec fn eighth(lo: int, hi: int) -> int {
    if hi - lo > 0 {
        (hi - lo) / 8
    } else {
        0
    }
}

/// What `GetJoyTL`, `GetJoyBR` and `AdjustJoy` make of two corners.
pub open spec fn corners(tl: (i32, i32), br: (i32, i32)) -> (int, int, int, int) {
    let ex = eighth(tl.0 as int, br.0 as int);
    let ey = eighth(tl.1 as int, br.1 as int);
    (tl.0 + ex, br.0 - ex, tl.1 + ey, br.1 - ey)
}

/// Whether the two corners' ranges can be measured in the original's word.
pub open spec fn measurable(tl: (i32, i32), br: (i32, i32)) -> bool {
    &&& i32::MIN <= br.0 - tl.0 <= i32::MAX
    &&& i32::MIN <= br.1 - tl.1 <= i32::MAX
}

/// The bit one axis comparison contributes.
pub open spec fn when(b: bool, bit: u8) -> u8 {
    if b {
        bit
    } else {
        0
    }
}

impl Calibration {
    /// `cmp bx, 0x400`. A count that gets this far is a stick that is not
    /// plugged in, and the original ignores that axis entirely.
    pub const TIMEOUT: i32 = 0x400;

    /// The thresholds the image ships with, at `DS:0x817e` and `DS:0x8182`
    /// (image `0x1a52e` and `0x1a532`): 16 and 80.
    pub const SHIPPED_MIN: i32 = 16;
    pub const SHIPPED_MAX: i32 = 80;

    /// The corner pair the shipped thresholds are `AdjustJoy` of, 6 and 90,
    /// and therefore the count scale the original's own numbers live on.
    pub const AXIS_LOW: i32 = 6;
    pub const AXIS_HIGH: i32 = 90;

    /// The four words at `DS:0x817e`: 16, 16, 80, 80.
    pub open spec fn shipped_spec() -> Calibration {
        Calibration { xmin: 16, xmax: 80, ymin: 16, ymax: 80 }
    }

    /// **The original's own shipped thresholds**, four constants and not a
    /// derivation: `xmin`, `ymin` 16 and `xmax`, `ymax` 80.
    pub fn shipped() -> (c: Calibration)
        ensures
            c == Calibration::shipped_spec(),
    {
        Calibration {
            xmin: Calibration::SHIPPED_MIN,
            ymin: Calibration::SHIPPED_MIN,
            xmax: Calibration::SHIPPED_MAX,
            ymax: Calibration::SHIPPED_MAX,
        }
    }

    /// The calibration two corners give.
    pub open spec fn from_corners_spec(tl: (i32, i32), br: (i32, i32)) -> Calibration {
        let (xmin, xmax, ymin, ymax) = corners(tl, br);
        Calibration { xmin: xmin as i32, xmax: xmax as i32, ymin: ymin as i32, ymax: ymax as i32 }
    }

    /// `GetJoyTL`, `GetJoyBR` and `AdjustJoy`, in that order.
    ///
    /// The two corners are the raw counts with the stick held top left and
    /// then bottom right. Each threshold is then moved an eighth of the
    /// measured range towards the middle, so the dead zone is the middle
    /// three quarters.
    pub fn from_corners(tl: (i32, i32), br: (i32, i32)) -> (c: Calibration)
        requires
            measurable(tl, br),
        ensures
            c.xmin == corners(tl, br).0,
            c.xmax == corners(tl, br).1,
            c.ymin == corners(tl, br).2,
            c.ymax == corners(tl, br).3,
            c == Calibration::from_corners_spec(tl, br),
    {
        let (mut xmin, mut ymin) = tl;
        let (mut xmax, mut ymax) = br;
        let ex = Calibration::eighth_of(xmin, xmax);
        let ey = Calibration::eighth_of(ymin, ymax);
        xmin = xmin + ex;
        xmax = xmax - ex;
        ymin = ymin + ey;
        ymax = ymax - ey;
        Calibration { xmin, xmax, ymin, ymax }
    }

    /// `sub ax, ...; shr ax, 1` three times: an eighth of the range, and the
    /// shift is unsigned, so a range read backwards gives nothing rather than
    /// a negative nudge.
    fn eighth_of(lo: i32, hi: i32) -> (e: i32)
        requires
            i32::MIN <= hi - lo <= i32::MAX,
        ensures
            e == eighth(lo as int, hi as int),
            0 <= e,
            e > 0 ==> lo + e <= hi - e,
    {
        let d = hi - lo;
        if d > 0 {
            let u = d as u32;
            let e = (u >> 3u32) as i32;
            proof {
                assert((u >> 3u32) == u / 8) by (bit_vector);
            }
            e
        } else {
            0
        }
    }

    /// The word `JOY0`'s four comparisons give, as a value.
    pub open spec fn mask_spec(self, x: i32, y: i32) -> u8 {
        let yl = y != Calibration::TIMEOUT;
        let xl = x != Calibration::TIMEOUT;
        (((0u8 | when(yl && y <= self.ymin, UP)) | when(yl && y >= self.ymax, DOWN)) | when(
            xl && x <= self.xmin,
            LEFT,
        )) | when(xl && x >= self.xmax, RIGHT)
    }

    /// `JOY0`'s four comparisons, and its treatment of a timed out axis.
    pub fn mask(&self, x: i32, y: i32) -> (m: u8)
        ensures
            m == self.mask_spec(x, y),
            m & UP != 0 <==> (y != Calibration::TIMEOUT && y <= self.ymin),
            m & DOWN != 0 <==> (y != Calibration::TIMEOUT && y >= self.ymax),
            m & LEFT != 0 <==> (x != Calibration::TIMEOUT && x <= self.xmin),
            m & RIGHT != 0 <==> (x != Calibration::TIMEOUT && x >= self.xmax),
            m & !(UP | DOWN | LEFT | RIGHT) == 0,
    {
        let mut m: u8 = 0;
        let yl = y != Calibration::TIMEOUT;
        let xl = x != Calibration::TIMEOUT;
        let u = when_exec(yl && y <= self.ymin, UP);
        let d = when_exec(yl && y >= self.ymax, DOWN);
        let l = when_exec(xl && x <= self.xmin, LEFT);
        let r = when_exec(xl && x >= self.xmax, RIGHT);
        m = m | u;
        m = m | d;
        m = m | l;
        m = m | r;
        proof {
            lemma_four_bits(u, d, l, r);
        }
        m
    }
}

/// [`when`], executably.
fn when_exec(b: bool, bit: u8) -> (r: u8)
    ensures
        r == when(b, bit),
{
    if b {
        bit
    } else {
        0
    }
}

proof fn lemma_four_bits(u: u8, d: u8, l: u8, r: u8)
    requires
        u == 0 || u == UP,
        d == 0 || d == DOWN,
        l == 0 || l == LEFT,
        r == 0 || r == RIGHT,
    ensures
        ({
            let m = (((0u8 | u) | d) | l) | r;
            &&& m & UP != 0 <==> u == UP
            &&& m & DOWN != 0 <==> d == DOWN
            &&& m & LEFT != 0 <==> l == LEFT
            &&& m & RIGHT != 0 <==> r == RIGHT
            &&& m & !(UP | DOWN | LEFT | RIGHT) == 0
        }),
{
    assert(((u == 0u8 || u == 8u8) && (d == 0u8 || d == 4u8) && (l == 0u8 || l == 2u8) && (r == 0u8
        || r == 1u8)) ==> ({
        let m = (((0u8 | u) | d) | l) | r;
        &&& (m & 8u8 != 0u8 <==> u == 8u8)
        &&& (m & 4u8 != 0u8 <==> d == 4u8)
        &&& (m & 2u8 != 0u8 <==> l == 2u8)
        &&& (m & 1u8 != 0u8 <==> r == 1u8)
        &&& m & !(8u8 | 4u8 | 2u8 | 1u8) == 0u8
    })) by (bit_vector);
}

impl Default for Calibration {
    /// The original's own shipped thresholds: see [`Calibration::shipped`].
    fn default() -> (c: Calibration)
        ensures
            c == Calibration::shipped_spec(),
    {
        Calibration::shipped()
    }
}

/// `GetInputDevice`'s cancellation, as a value.
pub open spec fn settle_spec(mask: u8) -> u8 {
    let m1 = if mask & (LEFT | RIGHT) == (LEFT | RIGHT) {
        mask & !(LEFT | RIGHT)
    } else {
        mask
    };
    if m1 & (UP | DOWN) == (UP | DOWN) {
        m1 & !(UP | DOWN)
    } else {
        m1
    }
}

/// `GetInputDevice`: left with right, and up with down, are thrown away.
///
/// A stick cannot do it but two keys can, and a knight told to walk both ways
/// at once is worse than one told to stand still.
pub fn settle(mask: u8) -> (m: u8)
    ensures
        m == settle_spec(mask),
        // Never both ends of an axis.
        m & (LEFT | RIGHT) != (LEFT | RIGHT),
        m & (UP | DOWN) != (UP | DOWN),
        // A pair held together goes, and a single direction stays.
        (mask & (LEFT | RIGHT) == (LEFT | RIGHT)) ==> m & (LEFT | RIGHT) == 0,
        (mask & (LEFT | RIGHT) != (LEFT | RIGHT)) ==> m & (LEFT | RIGHT) == mask & (LEFT | RIGHT),
        (mask & (UP | DOWN) == (UP | DOWN)) ==> m & (UP | DOWN) == 0,
        (mask & (UP | DOWN) != (UP | DOWN)) ==> m & (UP | DOWN) == mask & (UP | DOWN),
        // Nothing else is touched: fire, and the three bits above it.
        m & !(LEFT | RIGHT | UP | DOWN) == mask & !(LEFT | RIGHT | UP | DOWN),
{
    let mut m = mask;
    if m & (LEFT | RIGHT) == (LEFT | RIGHT) {
        m = m & !(LEFT | RIGHT);
    }
    if m & (UP | DOWN) == (UP | DOWN) {
        m = m & !(UP | DOWN);
    }
    proof {
        assert((2u8 | 1u8) == 3u8) by (bit_vector);
        assert((8u8 | 4u8) == 12u8) by (bit_vector);
        assert((((2u8 | 1u8) | 8u8) | 4u8) == 15u8) by (bit_vector);
        assert(({
            let m1 = if mask & 3u8 == 3u8 {
                mask & !3u8
            } else {
                mask
            };
            let m2 = if m1 & 12u8 == 12u8 {
                m1 & !12u8
            } else {
                m1
            };
            &&& m2 & 3u8 != 3u8
            &&& m2 & 12u8 != 12u8
            &&& (mask & 3u8 == 3u8) ==> m2 & 3u8 == 0u8
            &&& (mask & 3u8 != 3u8) ==> m2 & 3u8 == mask & 3u8
            &&& (mask & 12u8 == 12u8) ==> m2 & 12u8 == 0u8
            &&& (mask & 12u8 != 12u8) ==> m2 & 12u8 == mask & 12u8
            &&& m2 & !15u8 == mask & !15u8
        })) by (bit_vector);
    }
    m
}

/// `BOUNCEBUTTON`: one press is worth one thing.
///
/// The original blocks in a loop, waiting for fire to go down and then
/// waiting for it to come back up. Here the same rule is kept as an edge:
/// [`Debounce::edge`] answers true on the frame fire goes down and never again
/// until it has been released.
#[derive(Clone, Copy, Debug)]
pub struct Debounce {
    held: bool,
}

impl Debounce {
    /// Whether fire was down on the last frame seen.
    pub closed spec fn held(self) -> bool {
        self.held
    }

    /// True on the frame fire goes down, once per press.
    pub fn edge(&mut self, mask: u8) -> (e: bool)
        ensures
            e == (mask & FIRE != 0 && !old(self).held()),
            final(self).held() == (mask & FIRE != 0),
    {
        let down = mask & FIRE != 0;
        let edge = down && !self.held;
        self.held = down;
        edge
    }

    /// Forgets the press, so the next one is an edge again. What the original
    /// gets for free by returning only once fire has been let go.
    pub fn clear(&mut self)
        ensures
            !final(self).held(),
    {
        self.held = false;
    }
}

impl Default for Debounce {
    /// Nothing held yet.
    fn default() -> (d: Debounce)
        ensures
            !d.held(),
    {
        Debounce { held: false }
    }
}

/// `Fix_JoyStick`, as a state machine rather than as a blocking loop.
///
/// The original asks twice and blocks on `BOUNCEBUTTON` each time. The only
/// thing changed is that this returns to the caller between the two answers.
#[derive(Clone, Copy, Debug, PartialEq, Eq)]
pub enum Calibrating {
    /// Waiting for the stick held to the top left.
    TopLeft,
    /// Top left recorded, waiting for the bottom right.
    BottomRight { tl: (i32, i32) },
}

impl Calibrating {
    /// `joy_mess_to*` and `joy_mess_bo*`, verbatim, one line each.
    pub fn prompt(self) -> (p: [&'static str; 4])
        ensures
            p@ == match self {
                Calibrating::TopLeft => seq![
                    "Move joystick to",
                    "the top left",
                    "and press the",
                    "fire button.",
                ],
                Calibrating::BottomRight { .. } => seq![
                    "Move joystick to",
                    "the bottom right",
                    "and press the",
                    "fire button.",
                ],
            },
    {
        let p = match self {
            Calibrating::TopLeft => ["Move joystick to", "the top left", "and press the", "fire button."],
            Calibrating::BottomRight { .. } => [
                "Move joystick to",
                "the bottom right",
                "and press the",
                "fire button.",
            ],
        };
        proof {
            assert(p@ =~= seq![p[0], p[1], p[2], p[3]]);
        }
        p
    }

    /// What one frame does, as a value: nothing without a press, the first
    /// corner recorded on the first press, the calibration on the second.
    pub open spec fn next(self, raw: (i32, i32), fire: bool) -> Result<Calibrating, Calibration> {
        if !fire {
            Ok(self)
        } else {
            match self {
                Calibrating::TopLeft => Ok(Calibrating::BottomRight { tl: raw }),
                Calibrating::BottomRight { tl } => Err(Calibration::from_corners_spec(tl, raw)),
            }
        }
    }

    /// One frame. `raw` is where the stick is now, `fire` the debounced press.
    /// Answers the next step, or the finished calibration.
    pub fn step(self, raw: (i32, i32), fire: bool) -> (r: Result<Calibrating, Calibration>)
        requires
            fire ==> (self matches Calibrating::BottomRight { tl } ==> measurable(tl, raw)),
        ensures
            r == self.next(raw, fire),
    {
        if !fire {
            return Ok(self);
        }
        match self {
            Calibrating::TopLeft => Ok(Calibrating::BottomRight { tl: raw }),
            Calibrating::BottomRight { tl } => Err(Calibration::from_corners(tl, raw)),
        }
    }
}

/// What a list with one more item on the end holds.
proof fn lemma_push_contains(s: Seq<SourceView>, a: SourceView, y: SourceView)
    ensures
        s.push(a).contains(y) <==> (s.contains(y) || a == y),
{
    if s.contains(y) {
        let j = choose|j: int| 0 <= j < s.len() && s[j] == y;
        assert(s.push(a)[j] == y);
    }
    if a == y {
        assert(s.push(a)[s.len() as int] == y);
    }
    if s.push(a).contains(y) {
        let j = choose|j: int| 0 <= j < s.push(a).len() && s.push(a)[j] == y;
        if j < s.len() {
            assert(s[j] == y);
        }
    }
}

/// A list with a source taken out no longer holds it, and holds everything
/// else it held.
proof fn lemma_without(l: Seq<SourceView>, x: SourceView)
    ensures
        !without(l, x).contains(x),
        forall|y: SourceView| y != x ==> (#[trigger] without(l, x).contains(y) <==> l.contains(y)),
    decreases l.len(),
{
    if l.len() > 0 {
        let rest = l.drop_last();
        let w = without(rest, x);
        lemma_without(rest, x);
        assert(l =~= rest.push(l.last()));
        assert forall|y: SourceView| y != x implies (#[trigger] without(l, x).contains(y) <==> l.contains(y)) by {
            lemma_push_contains(rest, l.last(), y);
            lemma_push_contains(w, l.last(), y);
        }
        lemma_push_contains(w, l.last(), x);
    }
}

/// The actions of one seat a source raises, when exactly one of its five
/// lists holds it.
proof fn lemma_raised_at_one(seat: Seat, i: usize, src: SourceView, only: Action, k: int)
    requires
        0 <= k <= 5,
        forall|a: Action| #[trigger] seat.sources(a).contains(src) <==> a == only,
    ensures
        raised_at(seat, i, src, k) == if only.spec_index() < k {
            seq![(i, only)]
        } else {
            seq![]
        },
    decreases k,
{
    if k > 0 {
        lemma_raised_at_one(seat, i, src, only, k - 1);
        let a = Action::at(k - 1);
        assert(a.spec_index() == k - 1);
        if seat.sources(a).contains(src) {
            assert(a == only);
        } else {
            assert(a != only);
        }
        if only.spec_index() < k - 1 {
            assert(a != only);
        }
    }
}

/// **Binding a source takes it off whatever else on that seat had it.**
/// After `bind(seat, action, src)`, that seat raises `action` for `src` and
/// nothing else, and every other seat answers `src` exactly as before.
pub proof fn binding_moves_a_source(before: Bindings, after: Bindings, seat: usize, action: Action, src: SourceView)
    requires
        seat < before.seats@.len(),
        after.seats@.len() == before.seats@.len(),
        forall|j: int| 0 <= j < before.seats@.len() && j != seat ==> #[trigger] after.seats@[j] == before.seats@[j],
        forall|a: Action|
            #[trigger] after.seats@[seat as int].sources(a)
                == refiled(before.seats@[seat as int].sources(a), src, a == action),
    ensures
        raised_at(after.seats@[seat as int], seat, src, 5) == seq![(seat, action)],
        forall|j: int|
            0 <= j < before.seats@.len() && j != seat ==> raised_at(after.seats@[j], j as usize, src, 5)
                == #[trigger] raised_at(before.seats@[j], j as usize, src, 5),
{
    let s = after.seats@[seat as int];
    assert forall|a: Action| #[trigger] s.sources(a).contains(src) <==> a == action by {
        let l = before.seats@[seat as int].sources(a);
        lemma_without(l, src);
        if a == action {
            assert(refiled(l, src, true).last() == src);
            assert(refiled(l, src, true)[refiled(l, src, true).len() - 1] == src);
        } else {
            assert(refiled(l, src, false) =~= without(l, src));
        }
    }
    lemma_raised_at_one(s, seat, src, action, 5);
}

/// **Three quarters of the travel is dead.** Between the two thresholds a
/// calibration from two corners sets, a stick reads as no direction on that
/// axis at all.
pub proof fn the_middle_is_dead(tl: (i32, i32), br: (i32, i32), x: i32, y: i32)
    requires
        measurable(tl, br),
    ensures
        ({
            let c = Calibration::from_corners_spec(tl, br);
            let m = c.mask_spec(x, y);
            &&& (c.xmin < x < c.xmax ==> m & (LEFT | RIGHT) == 0)
            &&& (c.ymin < y < c.ymax ==> m & (UP | DOWN) == 0)
            &&& (tl.0 < br.0 ==> c.xmin - tl.0 == (br.0 - tl.0) / 8 && br.0 - c.xmax == (br.0 - tl.0) / 8)
            &&& (tl.1 < br.1 ==> c.ymin - tl.1 == (br.1 - tl.1) / 8 && br.1 - c.ymax == (br.1 - tl.1) / 8)
        }),
{
    let c = Calibration::from_corners_spec(tl, br);
    let ex = eighth(tl.0 as int, br.0 as int);
    let ey = eighth(tl.1 as int, br.1 as int);
    assert(0 <= ex && (ex > 0 ==> tl.0 + ex <= br.0 - ex));
    assert(0 <= ey && (ey > 0 ==> tl.1 + ey <= br.1 - ey));
    lemma_mask_bits(c, x, y);
    assert((2u8 | 1u8) == 3u8) by (bit_vector);
    assert((8u8 | 4u8) == 12u8) by (bit_vector);
    let m = c.mask_spec(x, y);
    assert((m & 2u8 == 0u8 && m & 1u8 == 0u8) ==> m & 3u8 == 0u8) by (bit_vector);
    assert((m & 8u8 == 0u8 && m & 4u8 == 0u8) ==> m & 12u8 == 0u8) by (bit_vector);
}

/// What each bit of [`Calibration::mask_spec`] says.
proof fn lemma_mask_bits(c: Calibration, x: i32, y: i32)
    ensures
        ({
            let m = c.mask_spec(x, y);
            &&& m & UP != 0 <==> (y != Calibration::TIMEOUT && y <= c.ymin)
            &&& m & DOWN != 0 <==> (y != Calibration::TIMEOUT && y >= c.ymax)
            &&& m & LEFT != 0 <==> (x != Calibration::TIMEOUT && x <= c.xmin)
            &&& m & RIGHT != 0 <==> (x != Calibration::TIMEOUT && x >= c.xmax)
        }),
{
    let yl = y != Calibration::TIMEOUT;
    let xl = x != Calibration::TIMEOUT;
    lemma_four_bits(
        when(yl && y <= c.ymin, UP),
        when(yl && y >= c.ymax, DOWN),
        when(xl && x <= c.xmin, LEFT),
        when(xl && x >= c.xmax, RIGHT),
    );
}

/// **A backwards calibration does not invert the dead zone.** Corners given
/// the wrong way round put the low threshold above the high one; a stick
/// between them then reads both ends of the axis, and [`settle`] cancels the
/// pair, so it does nothing rather than everything.
pub proof fn a_backwards_calibration_is_dead_between(tl: (i32, i32), br: (i32, i32), x: i32, y: i32)
    requires
        measurable(tl, br),
        br.0 <= x <= tl.0,
        br.1 <= y <= tl.1,
        x != Calibration::TIMEOUT,
        y != Calibration::TIMEOUT,
    ensures
        settle_spec(Calibration::from_corners_spec(tl, br).mask_spec(x, y)) & (LEFT | RIGHT | UP | DOWN) == 0,
{
    let c = Calibration::from_corners_spec(tl, br);
    assert(eighth(tl.0 as int, br.0 as int) == 0);
    assert(eighth(tl.1 as int, br.1 as int) == 0);
    lemma_mask_bits(c, x, y);
    let m = c.mask_spec(x, y);
    assert(m & 1u8 != 0u8 && m & 2u8 != 0u8 && m & 4u8 != 0u8 && m & 8u8 != 0u8);
    assert((((2u8 | 1u8) | 8u8) | 4u8) == 15u8) by (bit_vector);
    assert((m & 1u8 != 0u8 && m & 2u8 != 0u8 && m & 4u8 != 0u8 && m & 8u8 != 0u8) ==> ({
        let m1 = if m & 3u8 == 3u8 {
            m & !3u8
        } else {
            m
        };
        let m2 = if m1 & 12u8 == 12u8 {
            m1 & !12u8
        } else {
            m1
        };
        m2 & 15u8 == 0u8
    })) by (bit_vector);
    assert((2u8 | 1u8) == 3u8) by (bit_vector);
    assert((8u8 | 4u8) == 12u8) by (bit_vector);
}

/// **Settling twice is settling once**: what `GetInputDevice` hands on has
/// no pair left to cancel.
pub proof fn settle_is_idempotent(mask: u8)
    ensures
        settle_spec(settle_spec(mask)) == settle_spec(mask),
{
    assert((2u8 | 1u8) == 3u8) by (bit_vector);
    assert((8u8 | 4u8) == 12u8) by (bit_vector);
    assert(({
        let a = if mask & 3u8 == 3u8 {
            mask & !3u8
        } else {
            mask
        };
        let b = if a & 12u8 == 12u8 {
            a & !12u8
        } else {
            a
        };
        let c = if b & 3u8 == 3u8 {
            b & !3u8
        } else {
            b
        };
        let d = if c & 12u8 == 12u8 {
            c & !12u8
        } else {
            c
        };
        d == b
    })) by (bit_vector);
}

/// **A held button is one press.** Two frames in a row with fire down give
/// at most one edge, whatever else the words hold.
pub proof fn a_held_button_is_one_press(d0: Debounce, d1: Debounce, d2: Debounce, m1: u8, m2: u8, e1: bool, e2: bool)
    requires
        e1 == (m1 & FIRE != 0 && !d0.held()),
        d1.held() == (m1 & FIRE != 0),
        e2 == (m2 & FIRE != 0 && !d1.held()),
        d2.held() == (m2 & FIRE != 0),
        m1 & FIRE != 0,
        m2 & FIRE != 0,
    ensures
        !e2,
        e1 == !d0.held(),
        d2.held(),
{
}

/// **Calibrating asks twice and then hands back a calibration**: frames
/// without a press change nothing, a press with the stick at `tl` moves on
/// to the second corner, and a press there at `br` finishes with exactly
/// what `AdjustJoy` makes of the two corners.
pub proof fn two_presses_calibrate(tl: (i32, i32), br: (i32, i32), idle: (i32, i32), c: Calibrating)
    ensures
        c.next(idle, false) == Ok::<Calibrating, Calibration>(c),
        Calibrating::TopLeft.next(tl, true) == Ok::<Calibrating, Calibration>(Calibrating::BottomRight { tl }),
        (Calibrating::BottomRight { tl }).next(br, true) == Err::<Calibrating, Calibration>(
            Calibration::from_corners_spec(tl, br),
        ),
{
}

} // verus!
