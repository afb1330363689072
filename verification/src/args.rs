//! The command line: the flags the headless modes and the lobby read.
//!
//! Every flag that takes a value takes the word after the first occurrence
//! of the flag, and a value that does not parse is no value at all, so a
//! typo leaves the default in place rather than guessing.

use vstd::prelude::*;
use crate::chars::{
    chars_of, copy_string, parse_signed, parse_signed_chars, parse_unsigned, parse_unsigned_chars,
    split_once, split_once_chars, str_is, string_of, trim_chars, trimmed,
};
use crate::clock::{Mode, PACE_MAX, PACE_MIN};

verus! {

/// The words of a command line, as character sequences.
pub open spec fn texts(a: Seq<String>) -> Seq<Seq<char>> {
    a.map_values(|s: String| s@)
}

/// Where a flag first occurs among the words, if it does.
pub open spec fn flag_index(a: Seq<Seq<char>>, flag: Seq<char>) -> Option<int> {
    if exists|i: int| 0 <= i < a.len() && a[i] == flag {
        Some(choose|i: int| 0 <= i < a.len() && a[i] == flag && forall|k: int| 0 <= k < i ==> a[k] != flag)
    } else {
        None
    }
}

/// The word after the first occurrence of a flag, if there is one.
pub open spec fn after(a: Seq<Seq<char>>, flag: Seq<char>) -> Option<Seq<char>> {
    match flag_index(a, flag) {
        Some(i) => if i + 1 < a.len() {
            Some(a[i + 1])
        } else {
            None
        },
        None => None,
    }
}

/// A flag's value read as a signed number running from `min` to `max`.
pub open spec fn signed_after(a: Seq<Seq<char>>, flag: Seq<char>, min: int, max: int) -> Option<int> {
    match after(a, flag) {
        Some(v) => parse_signed(v, min, max),
        None => None,
    }
}

/// A flag's value read as an unsigned number no larger than `max`.
pub open spec fn unsigned_after(a: Seq<Seq<char>>, flag: Seq<char>, max: int) -> Option<int> {
    match after(a, flag) {
        Some(v) => parse_unsigned(v, max),
        None => None,
    }
}

/// Whether a word begins with `--`, which is how a flag looks.
pub open spec fn looks_like_flag(v: Seq<char>) -> bool {
    v.len() >= 2 && v[0] == '-' && v[1] == '-'
}

/// `x,y`: two signed numbers either side of the first comma, each trimmed.
pub open spec fn point_of(v: Seq<char>) -> Option<(int, int)> {
    match split_once(v, ',') {
        Some((x, y)) => match (parse_signed(trimmed(x), i32::MIN as int, i32::MAX as int), parse_signed(
            trimmed(y),
            i32::MIN as int,
            i32::MAX as int,
        )) {
            (Some(px), Some(py)) => Some((px, py)),
            _ => None,
        },
        None => None,
    }
}

/// The first occurrence of a flag, found.
fn find_flag(a: &[String], flag: &str) -> (r: Option<usize>)
    ensures
        match r {
            Some(i) => flag_index(texts(a@), flag@) == Some(i as int),
            None => flag_index(texts(a@), flag@) is None,
        },
        r matches Some(i) ==> i < a@.len(),
{
    let ghost t = texts(a@);
    let mut i: usize = 0;
    while i < a.len()
        invariant
            i <= a@.len(),
            t == texts(a@),
            t.len() == a@.len(),
            forall|k: int| 0 <= k < i ==> t[k] != flag@,
        decreases a@.len() - i,
    {
        if str_is(a[i].as_str(), flag) {
            proof {
                assert(t[i as int] == flag@);
                let w = flag_index(t, flag@)->0;
                assert(0 <= w < t.len() && t[w] == flag@ && forall|k: int| 0 <= k < w ==> t[k] != flag@);
                if w < i {
                    assert(t[w] != flag@);
                }
                if w > i {
                    assert(t[i as int] != flag@);
                }
            }
            return Some(i);
        }
        i = i + 1;
    }
    proof {
        if exists|j: int| 0 <= j < t.len() && t[j] == flag@ {
            let j = choose|j: int| 0 <= j < t.len() && t[j] == flag@;
            assert(t[j] != flag@);
        }
    }
    None
}

/// The word after a flag, found.
fn value_after<'a>(a: &'a [String], flag: &str) -> (r: Option<&'a String>)
    ensures
        match after(texts(a@), flag@) {
            Some(v) => r matches Some(s) && s@ == v,
            None => r is None,
        },
{
    let n = a.len();
    match find_flag(a, flag) {
        Some(i) => {
            if i < n - 1 {
                Some(&a[i + 1])
            } else {
                None
            }
        },
        None => None,
    }
}

/// A flag's value as an `i32`.
fn i32_after(a: &[String], flag: &str) -> (r: Option<i32>)
    ensures
        match r {
            Some(n) => signed_after(texts(a@), flag@, i32::MIN as int, i32::MAX as int) == Some(n as int),
            None => signed_after(texts(a@), flag@, i32::MIN as int, i32::MAX as int) is None,
        },
{
    match value_after(a, flag) {
        Some(v) => {
            let cs = chars_of(v.as_str());
            match parse_signed_chars(&cs, 0x8000_0000, 0x7fff_ffff) {
                Some(n) => Some(n as i32),
                None => None,
            }
        },
        None => None,
    }
}

/// A flag's value as an unsigned number no larger than `max`.
fn unsigned_flag(a: &[String], flag: &str, max: u64) -> (r: Option<u64>)
    ensures
        match r {
            Some(n) => unsigned_after(texts(a@), flag@, max as int) == Some(n as int),
            None => unsigned_after(texts(a@), flag@, max as int) is None,
        },
{
    match value_after(a, flag) {
        Some(v) => {
            let cs = chars_of(v.as_str());
            parse_unsigned_chars(&cs, max)
        },
        None => None,
    }
}

/// `--hurt <hp>`: start the run already wounded, so a healer has something
/// to do without first having to win and lose a fight.
pub fn hurt_arg(a: &[String]) -> (r: Option<i32>)
    ensures
        match r {
            Some(n) => signed_after(texts(a@), "--hurt"@, i32::MIN as int, i32::MAX as int) == Some(n as int),
            None => signed_after(texts(a@), "--hurt"@, i32::MIN as int, i32::MAX as int) is None,
        },
{
    i32_after(a, "--hurt")
}

/// `--gold <n>`: start the run with coin, so a stall can be reached without
/// first winning the fights that pay for it.
pub fn gold_arg(a: &[String]) -> (r: Option<u32>)
    ensures
        match r {
            Some(n) => unsigned_after(texts(a@), "--gold"@, u32::MAX as int) == Some(n as int),
            None => unsigned_after(texts(a@), "--gold"@, u32::MAX as int) is None,
        },
{
    match unsigned_flag(a, "--gold", 0xffff_ffff) {
        Some(n) => Some(n as u32),
        None => None,
    }
}

/// `--keys <0..4>`: start holding that many of the four lair keys, so the
/// Valley of the Gods can be reached without first clearing four lairs.
pub fn keys_arg(a: &[String]) -> (r: Option<usize>)
    ensures
        match r {
            Some(n) => unsigned_after(texts(a@), "--keys"@, usize::MAX as int) == Some(n as int),
            None => unsigned_after(texts(a@), "--keys"@, usize::MAX as int) is None,
        },
{
    let widest = usize::MAX as u64;
    match unsigned_flag(a, "--keys", widest) {
        Some(n) => Some(n as usize),
        None => None,
    }
}

/// `--lives <n>`: how many life points to ride out with, so the game-over
/// screen is one lost fight away instead of five.
pub fn lives_arg(a: &[String]) -> (r: Option<i32>)
    ensures
        match r {
            Some(n) => signed_after(texts(a@), "--lives"@, i32::MIN as int, i32::MAX as int) == Some(n as int),
            None => signed_after(texts(a@), "--lives"@, i32::MIN as int, i32::MAX as int) is None,
        },
{
    i32_after(a, "--lives")
}

/// `--knight <0..3>`: begin the run as one of the four, without going
/// through the select screen.
pub fn knight_arg(a: &[String]) -> (r: Option<usize>)
    ensures
        match r {
            Some(n) => unsigned_after(texts(a@), "--knight"@, usize::MAX as int) == Some(n as int),
            None => unsigned_after(texts(a@), "--knight"@, usize::MAX as int) is None,
        },
{
    let widest = usize::MAX as u64;
    match unsigned_flag(a, "--knight", widest) {
        Some(n) => Some(n as usize),
        None => None,
    }
}

/// `--foe <actor>`: fill the opponents' seats with that creature, so each of
/// the bestiary can be captured on its own.
pub fn foe_arg(a: &[String]) -> (r: Option<String>)
    ensures
        match after(texts(a@), "--foe"@) {
            Some(v) => r matches Some(s) && s@ == v,
            None => r is None,
        },
{
    match value_after(a, "--foe") {
        Some(v) => Some(copy_string(v)),
        None => None,
    }
}

/// The screen a name on the command line asks for: the original's own, and
/// the lobby, which is ours.
pub open spec fn screen_named(v: Seq<char>) -> Option<Mode> {
    if v == "intro"@ {
        Some(Mode::Intro)
    } else if v == "ending"@ {
        Some(Mode::Ending)
    } else if v == "title"@ {
        Some(Mode::Title)
    } else if v == "select"@ {
        Some(Mode::Select)
    } else if v == "map"@ {
        Some(Mode::Overworld)
    } else if v == "arena"@ || v == "combat"@ {
        Some(Mode::Combat)
    } else if v == "online"@ || v == "lobby"@ {
        Some(Mode::Online)
    } else {
        None
    }
}

/// The names a screen answers to on the command line.
pub open spec fn names_of(m: Mode) -> Set<Seq<char>> {
    match m {
        Mode::Intro => set!["intro"@],
        Mode::Ending => set!["ending"@],
        Mode::Title => set!["title"@],
        Mode::Select => set!["select"@],
        Mode::Overworld => set!["map"@],
        Mode::Combat => set!["arena"@, "combat"@],
        Mode::Online => set!["online"@, "lobby"@],
        Mode::Place => Set::empty(),
    }
}

/// **Each screen is opened by its own names and no other**: a word on the
/// command line opens a screen exactly when it is one of that screen's
/// names, so no two screens share a name and no name opens a screen it does
/// not name; a place is reached by `--at` and has no name here.
pub proof fn each_screen_has_its_own_names(v: Seq<char>, m: Mode)
    ensures
        screen_named(v) == Some(m) <==> names_of(m).contains(v),
{
    reveal_strlit("intro");
    reveal_strlit("ending");
    reveal_strlit("title");
    reveal_strlit("select");
    reveal_strlit("map");
    reveal_strlit("arena");
    reveal_strlit("combat");
    reveal_strlit("online");
    reveal_strlit("lobby");
    assert("intro"@[0] == 'i' && "ending"@[0] == 'e' && "title"@[0] == 't' && "select"@[0] == 's'
        && "map"@[0] == 'm' && "arena"@[0] == 'a' && "combat"@[0] == 'c' && "online"@[0] == 'o'
        && "lobby"@[0] == 'l');
}

/// `--start <screen>`: which screen a headless run opens on. A name that is
/// no screen opens none.
pub fn start_arg(a: &[String]) -> (r: Option<Mode>)
    ensures
        r == match after(texts(a@), "--start"@) {
            Some(v) => screen_named(v),
            None => None,
        },
{
    let v = match value_after(a, "--start") {
        Some(v) => v.as_str(),
        None => return None,
    };
    if str_is(v, "intro") {
        Some(Mode::Intro)
    } else if str_is(v, "ending") {
        Some(Mode::Ending)
    } else if str_is(v, "title") {
        Some(Mode::Title)
    } else if str_is(v, "select") {
        Some(Mode::Select)
    } else if str_is(v, "map") {
        Some(Mode::Overworld)
    } else if str_is(v, "arena") || str_is(v, "combat") {
        Some(Mode::Combat)
    } else if str_is(v, "online") || str_is(v, "lobby") {
        Some(Mode::Online)
    } else {
        None
    }
}

/// [`point_of`], executably.
fn point_from(v: &String) -> (r: Option<(i32, i32)>)
    ensures
        match point_of(v@) {
            Some((x, y)) => r == Some((x as i32, y as i32)) && i32::MIN <= x <= i32::MAX && i32::MIN <= y
                <= i32::MAX,
            None => r is None,
        },
{
    let cs = chars_of(v.as_str());
    let (x, y) = match split_once_chars(&cs, ',') {
        Some(p) => p,
        None => return None,
    };
    let xt = trim_chars(&x);
    let yt = trim_chars(&y);
    let px = parse_signed_chars(&xt, 0x8000_0000, 0x7fff_ffff);
    let py = parse_signed_chars(&yt, 0x8000_0000, 0x7fff_ffff);
    match (px, py) {
        (Some(px), Some(py)) => Some((px as i32, py as i32)),
        _ => None,
    }
}

/// `--point x,y`: put the pointer there, for checking the gadgets
/// headlessly.
pub fn point_arg(a: &[String]) -> (r: Option<(i32, i32)>)
    ensures
        match after(texts(a@), "--point"@) {
            Some(v) => match point_of(v) {
                Some((x, y)) => r == Some((x as i32, y as i32)),
                None => r is None,
            },
            None => r is None,
        },
{
    match value_after(a, "--point") {
        Some(v) => point_from(v),
        None => None,
    }
}

/// A flag's value as a path, or a default.
fn path_after(a: &[String], flag: &str, default: &str) -> (r: String)
    ensures
        r@ == match after(texts(a@), flag@) {
            Some(v) => v,
            None => default@,
        },
{
    match value_after(a, flag) {
        Some(v) => copy_string(v),
        None => string_of(chars_of(default).as_slice()),
    }
}

/// `--save <path>`: where the test harness puts a posed run. Not a game
/// feature: the original has no save, and nothing on any screen reaches
/// this.
pub fn snapshot_path_arg(a: &[String]) -> (r: String)
    ensures
        r@ == match after(texts(a@), "--save"@) {
            Some(v) => v,
            None => "henge-harness.json"@,
        },
{
    path_after(a, "--save", "henge-harness.json")
}

/// `--controls <path>`: where the binding table and the stick calibration
/// live. A file, because the table is a setting rather than part of the
/// game.
pub fn controls_path_arg(a: &[String]) -> (r: String)
    ensures
        r@ == match after(texts(a@), "--controls"@) {
            Some(v) => v,
            None => "henge-controls.json"@,
        },
{
    path_after(a, "--controls", "henge-controls.json")
}

/// The word after a flag, unless it is itself a flag.
pub open spec fn plain_after(a: Seq<Seq<char>>, flag: Seq<char>) -> Option<Seq<char>> {
    match after(a, flag) {
        Some(v) => if looks_like_flag(v) {
            None
        } else {
            Some(v)
        },
        None => None,
    }
}

/// The value after a flag, for the handful of arguments that take one: the
/// word after it, unless that word is itself a flag.
pub fn after_arg(a: &[String], flag: &str) -> (r: Option<String>)
    ensures
        match plain_after(texts(a@), flag@) {
            Some(v) => r matches Some(s) && s@ == v,
            None => r is None,
        },
{
    match value_after(a, flag) {
        Some(v) => {
            let cs = chars_of(v.as_str());
            if cs.len() >= 2 && cs[0] == '-' && cs[1] == '-' {
                None
            } else {
                Some(copy_string(v))
            }
        },
        None => None,
    }
}

/// `--port <n>`: which port to host on. The default is the network layer's
/// own.
pub fn online_port_arg(args: &[String]) -> (r: Option<u16>)
    ensures
        match r {
            Some(n) => unsigned_after(texts(args@), "--port"@, u16::MAX as int) == Some(n as int),
            None => unsigned_after(texts(args@), "--port"@, u16::MAX as int) is None,
        },
{
    match unsigned_flag(args, "--port", 0xffff) {
        Some(n) => Some(n as u16),
        None => None,
    }
}

/// `--delay <ticks>`: the input delay to start a game with, for testing one
/// end of a bad line.
pub fn online_delay_arg(args: &[String]) -> (r: Option<u32>)
    ensures
        match r {
            Some(n) => unsigned_after(texts(args@), "--delay"@, u32::MAX as int) == Some(n as int),
            None => unsigned_after(texts(args@), "--delay"@, u32::MAX as int) is None,
        },
{
    match unsigned_flag(args, "--delay", 0xffff_ffff) {
        Some(n) => Some(n as u32),
        None => None,
    }
}

/// `--pace <percent>`: the speed dial to start at, kept between its least
/// and its most rather than refused, so a recipe cannot fail on it.
pub fn pace_arg(a: &[String]) -> (r: Option<u32>)
    ensures
        match unsigned_after(texts(a@), "--pace"@, u32::MAX as int) {
            Some(p) => r == Some(
                if p < PACE_MIN {
                    PACE_MIN
                } else if p > PACE_MAX {
                    PACE_MAX
                } else {
                    p as u32
                },
            ),
            None => r is None,
        },
{
    match unsigned_flag(a, "--pace", 0xffff_ffff) {
        Some(p) => {
            let p = p as u32;
            Some(
                if p < PACE_MIN {
                    PACE_MIN
                } else if p > PACE_MAX {
                    PACE_MAX
                } else {
                    p
                },
            )
        },
        None => None,
    }
}

/// How many seats a game has.
pub const SEATS: usize = 4;

/// `--begin` with `--players <n>`, as a value: start as soon as that many
/// are in the lobby and all of them are ready, one and four seats at the
/// ends, one when the count is missing or does not read.
pub open spec fn begin_spec(a: Seq<Seq<char>>) -> Option<int> {
    if flag_index(a, "--begin"@) is Some {
        let want = match plain_after(a, "--players"@) {
            Some(v) => match parse_unsigned(v, usize::MAX as int) {
                Some(n) => n,
                None => 1,
            },
            None => 1,
        };
        Some(
            if want < 1 {
                1
            } else if want > SEATS {
                SEATS as int
            } else {
                want
            },
        )
    } else {
        None
    }
}

/// `--begin` with `--players <n>`: how many must be in the lobby and ready
/// before a scripted host begins, when it is asked to begin at all.
pub fn begin_arg(a: &[String]) -> (r: Option<usize>)
    ensures
        match begin_spec(texts(a@)) {
            Some(n) => r == Some(n as usize),
            None => r is None,
        },
{
    match find_flag(a, "--begin") {
        None => None,
        Some(_) => {
            let want: u64 = match after_arg(a, "--players") {
                Some(v) => {
                    let cs = chars_of(v.as_str());
                    match parse_unsigned_chars(&cs, usize::MAX as u64) {
                        Some(n) => n,
                        None => 1,
                    }
                },
                None => 1,
            };
            Some(
                if want < 1 {
                    1
                } else if want > SEATS as u64 {
                    SEATS
                } else {
                    want as usize
                },
            )
        },
    }
}

/// `--sheet`: start with the character sheet up.
pub fn sheet_arg(a: &[String]) -> (b: bool)
    ensures
        b == (flag_index(texts(a@), "--sheet"@) is Some),
{
    find_flag(a, "--sheet").is_some()
}

/// A scripted run for the headless modes, so a screen that needs walking to
/// and a menu driving is reachable without a display.
///
/// `--at <place-id>` starts standing in that place, `--goto <x>,<y>` walks
/// there first, and `--input <script>` is one key press per tick afterwards.
pub struct Script {
    pub goto: Option<(i32, i32)>,
    pub keys: Vec<char>,
    pub at: Option<String>,
}

impl Script {
    /// The script a command line describes.
    pub fn from_args(a: &[String]) -> (s: Script)
        ensures
            match after(texts(a@), "--goto"@) {
                Some(v) => match point_of(v) {
                    Some((x, y)) => s.goto == Some((x as i32, y as i32)),
                    None => s.goto is None,
                },
                None => s.goto is None,
            },
            s.keys@ == match after(texts(a@), "--input"@) {
                Some(v) => v,
                None => Seq::<char>::empty(),
            },
            match after(texts(a@), "--at"@) {
                Some(v) => s.at matches Some(t) && t@ == v,
                None => s.at is None,
            },
    {
        let goto = match value_after(a, "--goto") {
            Some(v) => point_from(v),
            None => None,
        };
        let keys = match value_after(a, "--input") {
            Some(v) => chars_of(v.as_str()),
            None => Vec::new(),
        };
        let at = match value_after(a, "--at") {
            Some(v) => Some(copy_string(v)),
            None => None,
        };
        Script { goto, keys, at }
    }

    /// Whether there is anything to drive.
    pub fn active(&self) -> (b: bool)
        ensures
            b == (self.goto is Some || self.keys@.len() > 0 || self.at is Some),
    {
        self.goto.is_some() || self.keys.len() > 0 || self.at.is_some()
    }
}

/// What a script does on one tick, for the caller to carry out.
#[derive(Clone, Copy, Debug, PartialEq, Eq, Structural)]
pub enum ScriptStep {
    /// Let go of everything and press fire: the between-days screen waits on
    /// fire, so a walk long enough to turn a day over needs someone to press
    /// it.
    Fire,
    /// Let go of everything and hold fire or not: a fight met on the way is
    /// swung at rather than stood in.
    Swing(bool),
    /// Let go of everything and steer towards this map position.
    Steer(i32, i32),
    /// Feed the next scripted key, if there is one left.
    Feed(Option<char>),
}

impl Script {
    /// Feeding the next key, as a value.
    pub open spec fn feed(&self, fed: usize) -> (ScriptStep, usize) {
        if fed < self.keys@.len() {
            (ScriptStep::Feed(Some(self.keys@[fed as int])), (fed + 1) as usize)
        } else {
            (ScriptStep::Feed(None), fed)
        }
    }

    /// One tick of the script, given how many of its keys it has fed: steer
    /// while there is still ground to cover, then feed key presses one a
    /// tick. `at` is the token's place on the map, if there is a map; a flight
    /// is not a walk, so the script does not steer while the token is aloft.
    /// Says what to do and how many keys have now been fed.
    pub fn drive(&self, fed: usize, interlude: bool, mode: Mode, at: Option<(i32, i32)>, flying: bool, tick: u64) -> (r: (ScriptStep, usize))
        ensures
            r == if interlude {
                (ScriptStep::Fire, fed)
            } else {
                match self.goto {
                    Some(g) => if mode == Mode::Combat {
                        (ScriptStep::Swing(tick % 23 < 4), fed)
                    } else if mode == Mode::Overworld && !flying && (at matches Some(p) && p != g) {
                        (ScriptStep::Steer(g.0, g.1), fed)
                    } else {
                        self.feed(fed)
                    },
                    None => self.feed(fed),
                }
            },
    {
        if interlude {
            return (ScriptStep::Fire, fed);
        }
        match self.goto {
            Some((gx, gy)) => {
                if mode == Mode::Combat {
                    return (ScriptStep::Swing(tick % 23 < 4), fed);
                }
                if mode == Mode::Overworld {
                    let there = match at {
                        Some((x, y)) => x == gx && y == gy,
                        None => true,
                    };
                    if !there && !flying {
                        return (ScriptStep::Steer(gx, gy), fed);
                    }
                }
            },
            None => {},
        }
        if fed < self.keys.len() {
            (ScriptStep::Feed(Some(self.keys[fed])), fed + 1)
        } else {
            (ScriptStep::Feed(None), fed)
        }
    }
}

impl Default for Script {
    /// Nothing to drive.
    fn default() -> (s: Script)
        ensures
            s.goto is None,
            s.keys@.len() == 0,
            s.at is None,
    {
        Script { goto: None, keys: Vec::new(), at: None }
    }
}

/// Where the game looks for a list server when nothing else says: ours, a
/// small machine that holds the list of open games. Its address changes when
/// it is stopped and started, which is what the file beside the game is for.
pub const LIST_SERVER: &'static str = "34.51.244.53";

/// A file beside the game holding one line: the list server's address.
pub const LIST_FILE: &'static str = "henge-list.txt";

/// A text cut at every newline, the last piece included even when empty.
pub open spec fn lines_of(s: Seq<char>) -> Seq<Seq<char>>
    decreases s.len(),
{
    if s.len() == 0 {
        seq![Seq::<char>::empty()]
    } else {
        let r = lines_of(s.drop_last());
        if s.last() == '\n' {
            r.push(Seq::<char>::empty())
        } else {
            r.update(r.len() - 1, r.last().push(s.last()))
        }
    }
}

/// Whether a trimmed line names something: it is not blank and not a
/// comment.
pub open spec fn an_entry(l: Seq<char>) -> bool {
    l.len() > 0 && l[0] != '#'
}

/// The first of some lines that, trimmed, names something.
pub open spec fn first_entry(ls: Seq<Seq<char>>) -> Option<Seq<char>>
    decreases ls.len(),
{
    if ls.len() == 0 {
        None
    } else if an_entry(trimmed(ls[0])) {
        Some(trimmed(ls[0]))
    } else {
        first_entry(ls.drop_first())
    }
}

/// Where to look for open games, as values: the flag, then the first entry
/// of the file, then [`LIST_SERVER`].
pub open spec fn list_server_spec(a: Seq<Seq<char>>, file: Option<Seq<char>>) -> Seq<char> {
    match plain_after(a, "--list"@) {
        Some(v) => v,
        None => match file {
            Some(text) => match first_entry(lines_of(text)) {
                Some(l) => l,
                None => LIST_SERVER@,
            },
            None => LIST_SERVER@,
        },
    }
}

proof fn lemma_first_entry_push(ls: Seq<Seq<char>>, l: Seq<char>)
    ensures
        first_entry(ls.push(l)) == match first_entry(ls) {
            Some(e) => Some(e),
            None => if an_entry(trimmed(l)) {
                Some(trimmed(l))
            } else {
                None
            },
        },
    decreases ls.len(),
{
    if ls.len() > 0 {
        assert(ls.push(l)[0] == ls[0]);
        assert(ls.push(l).drop_first() =~= ls.drop_first().push(l));
        lemma_first_entry_push(ls.drop_first(), l);
    } else {
        assert(ls.push(l)[0] == l);
        assert(ls.push(l).drop_first() =~= Seq::<Seq<char>>::empty());
        assert(first_entry(Seq::<Seq<char>>::empty()) is None);
    }
}

/// Where to look for open games: `--list <address>`, then the first line of
/// the list file that is not blank or a comment, then [`LIST_SERVER`].
/// `file` is what the list file holds, if it could be read.
pub fn list_server(a: &[String], file: Option<&str>) -> (r: String)
    ensures
        r@ == list_server_spec(texts(a@), match file {
            Some(t) => Some(t@),
            None => None,
        }),
{
    if let Some(v) = after_arg(a, "--list") {
        return v;
    }
    let text = match file {
        Some(t) => t,
        None => return LIST_SERVER.to_owned(),
    };
    let cs = chars_of(text);
    let ghost mut done: Seq<Seq<char>> = Seq::empty();
    let mut line: Vec<char> = Vec::new();
    let mut i: usize = 0;
    proof {
        assert(cs@.take(0) =~= Seq::<char>::empty());
    }
    while i < cs.len()
        invariant
            i <= cs@.len(),
            cs@ == text@,
            file == Some(text),
            plain_after(texts(a@), "--list"@) is None,
            lines_of(cs@.take(i as int)) == done.push(line@),
            first_entry(done) is None,
        decreases cs@.len() - i,
    {
        let c = cs[i];
        proof {
            assert(cs@.take(i as int + 1).drop_last() =~= cs@.take(i as int));
            assert(cs@.take(i as int + 1).last() == c);
        }
        if c == '\n' {
            let t = trim_chars(&line);
            proof {
                lemma_first_entry_push(done, line@);
            }
            if t.len() > 0 && t[0] != '#' {
                proof {
                    let full = lines_of(cs@);
                    lemma_lines_prefix(cs@, i as int + 1);
                    let upto = lines_of(cs@.take(i as int + 1));
                    assert(upto == done.push(line@).push(Seq::<char>::empty()));
                    assert forall|j: int| 0 <= j < done.push(line@).len() implies #[trigger] done.push(line@)[j]
                        == full[j] by {
                        assert(upto[j] == done.push(line@)[j]);
                    }
                    assert(first_entry(done.push(line@)) == Some(t@));
                    lemma_first_entry_prefix(done.push(line@), full);
                }
                return string_of(t.as_slice());
            }
            proof {
                done = done.push(line@);
                assert(lines_of(cs@.take(i as int + 1)) == done.push(Seq::<char>::empty()));
            }
            line = Vec::new();
        } else {
            line.push(c);
            proof {
                assert(done.push(line@.drop_last()).update(done.len() as int, line@) =~= done.push(line@));
            }
        }
        i = i + 1;
    }
    proof {
        assert(cs@.take(i as int) =~= cs@);
        lemma_first_entry_push(done, line@);
    }
    let t = trim_chars(&line);
    if t.len() > 0 && t[0] != '#' {
        string_of(t.as_slice())
    } else {
        LIST_SERVER.to_owned()
    }
}

/// The lines of a prefix of a text are the text's first lines, but for the
/// last of them, which may be cut short.
proof fn lemma_lines_prefix(s: Seq<char>, k: int)
    requires
        0 <= k <= s.len(),
    ensures
        lines_of(s.take(k)).len() <= lines_of(s).len(),
        forall|j: int| 0 <= j < lines_of(s.take(k)).len() - 1 ==> #[trigger] lines_of(s.take(k))[j] == lines_of(s)[j],
    decreases s.len() - k,
{
    if k == s.len() {
        assert(s.take(k) =~= s);
    } else {
        lemma_lines_prefix(s, k + 1);
        assert(s.take(k + 1).drop_last() =~= s.take(k));
        assert(s.take(k + 1).last() == s[k]);
        let small = lines_of(s.take(k));
        let big = lines_of(s.take(k + 1));
        assert forall|j: int| 0 <= j < small.len() - 1 implies #[trigger] small[j] == lines_of(s)[j] by {
            assert(small[j] == big[j]);
        }
    }
}

/// An entry among the first lines is the entry of all of them.
proof fn lemma_first_entry_prefix(ls: Seq<Seq<char>>, all: Seq<Seq<char>>)
    requires
        ls.len() <= all.len(),
        forall|j: int| 0 <= j < ls.len() ==> ls[j] == all[j],
        first_entry(ls) is Some,
    ensures
        first_entry(all) == first_entry(ls),
    decreases ls.len(),
{
    assert(ls[0] == all[0]);
    if !an_entry(trimmed(ls[0])) {
        lemma_first_entry_prefix(ls.drop_first(), all.drop_first());
    }
}

} // verus!
