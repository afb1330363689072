//! The two clocks the original's loops are paced by, and which loop is on
//! which.
//!
//! Durations are whole nanoseconds. The programmable interval timer is set
//! to divisor 0x5555 over its 1193182 Hz input, and the 320x200 VGA mode's
//! retrace comes every 449 lines of 800 dots at the 25.175 MHz dot clock;
//! both are written as that arithmetic rather than as its answer.

use vstd::prelude::*;
use crate::keys::Key;

verus! {

/// Which screen's loop is running.
#[derive(PartialEq, Eq, Structural, Clone, Copy, Debug)]
pub enum Mode {
    Intro,
    Ending,
    Title,
    Select,
    /// The overworld map, `MapLOOP`.
    Overworld,
    Combat,
    Place,
    /// Ours: the lobby, the only screen in the game that is not the
    /// original's.
    Online,
}

/// One tick of the timer `Install_Timer` programs: divisor 21845 over the
/// 8253's input clock, in nanoseconds. `Combat` waits on this one.
pub const TIMER_TICK: u64 = 21_845 * 1_000_000_000 / 1_193_182;

/// One vertical retrace: 449 lines of 800 dots at a 25.175 MHz dot clock,
/// in nanoseconds. Everything that is not a fight is paced by this.
pub const RETRACE_TICK: u64 = 800 * 449 * 1_000_000_000 / 25_175_000;

/// How many retraces one pass of `MapLOOP` took: the one observed number
/// here. The loop waits for one retrace, but its page blit overran it on
/// the hardware of the day, so each pass caught the next one.
pub const MAP_PASS_RETRACES: u32 = 2;

/// How many timer ticks one pass of a fight takes: `DELAY`'s six, which is
/// two ticks of the BIOS counter.
pub const COMBAT_PASS_TICKS: u32 = 6;

/// A hundred percent on the pace dial: the recovered rate untouched.
pub const PACE_FULL: u32 = 100;

/// What the dial opens at, which is the recovered rate.
pub const PACE_DEFAULT: u32 = 100;

/// The narrowest and widest the dial goes.
pub const PACE_MIN: u32 = 40;
pub const PACE_MAX: u32 = 125;

/// One step of the dial.
pub const PACE_STEP: u32 = 5;

/// How long one tick of a screen's loop lasts, as a value.
pub open spec fn tick_len_spec(mode: Mode) -> int {
    match mode {
        Mode::Combat => TIMER_TICK as int,
        Mode::Overworld => RETRACE_TICK * MAP_PASS_RETRACES,
        _ => RETRACE_TICK as int,
    }
}

/// How long one tick of a screen's loop lasts: the timer in a fight, two
/// retraces on the map, and one retrace everywhere else, the lobby included
/// because it is a menu and every menu in the image is on the retrace.
pub fn tick_len_for(mode: Mode) -> (t: u64)
    ensures
        t == tick_len_spec(mode),
{
    match mode {
        Mode::Combat => TIMER_TICK,
        Mode::Overworld => {
            assert(RETRACE_TICK == 14_268_123);
            RETRACE_TICK * MAP_PASS_RETRACES as u64
        },
        Mode::Intro | Mode::Ending | Mode::Title | Mode::Select | Mode::Place => RETRACE_TICK,
        Mode::Online => RETRACE_TICK,
    }
}

/// How many ticks one pass of this mode's own loop takes: a fight's pass is
/// `DELAY`'s six timer ticks, and every other loop that does per-pass work
/// waits once a tick.
pub fn ticks_per_pass(mode: Mode) -> (n: u32)
    ensures
        n == if mode == Mode::Combat {
            COMBAT_PASS_TICKS
        } else {
            1
        },
{
    match mode {
        Mode::Combat => COMBAT_PASS_TICKS,
        Mode::Intro | Mode::Ending | Mode::Title | Mode::Select | Mode::Overworld | Mode::Place | Mode::Online => 1,
    }
}

/// A tick stretched by the pace dial: untouched at a hundred, and otherwise
/// lengthened in proportion, `base * 100 / pace`, with a dial at zero read
/// as one.
pub open spec fn paced_spec(base: int, pace: int) -> int {
    if pace == PACE_FULL {
        base
    } else if pace < 1 {
        base * PACE_FULL
    } else {
        base * PACE_FULL / pace
    }
}

/// [`paced_spec`]: the wall-clock length of a tick of `base` nanoseconds
/// with the dial at `pace`.
pub fn paced(base: u64, pace: u32) -> (t: u64)
    requires
        base * 100 <= u64::MAX,
    ensures
        t == paced_spec(base as int, pace as int),
{
    if pace == PACE_FULL {
        return base;
    }
    let d: u64 = if pace < 1 {
        1
    } else {
        pace as u64
    };
    base * 100 / d
}

/// Where the dial lands after one press: `-` takes a step off, without
/// going below nothing, `=` adds one, and either way it is held between
/// [`PACE_MIN`] and [`PACE_MAX`].
pub open spec fn pace_after(pace: int, slower: bool) -> int {
    let stepped = if slower {
        if pace >= PACE_STEP {
            pace - PACE_STEP
        } else {
            0
        }
    } else {
        pace + PACE_STEP
    };
    if stepped < PACE_MIN {
        PACE_MIN as int
    } else if stepped > PACE_MAX {
        PACE_MAX as int
    } else {
        stepped
    }
}

/// One press of the pace dial's keys: `slower` for `-`, otherwise `=`.
pub fn pace_step(pace: u32, slower: bool) -> (p: u32)
    requires
        pace + PACE_STEP <= u32::MAX,
    ensures
        p == pace_after(pace as int, slower),
{
    let stepped = if slower {
        pace.saturating_sub(PACE_STEP)
    } else {
        pace + PACE_STEP
    };
    if stepped < PACE_MIN {
        PACE_MIN
    } else if stepped > PACE_MAX {
        PACE_MAX
    } else {
        stepped
    }
}

/// The dial after a key: `-` and `=` going down turn it, unless the binding
/// table has made that key a control, which is never also a developer key;
/// anything else leaves it be.
pub open spec fn paced_by(pace: u32, key: Key, down: bool, control: bool) -> int {
    if down && !control && (key == Key::Minus || key == Key::Equal) {
        pace_after(pace as int, key == Key::Minus)
    } else {
        pace as int
    }
}

/// [`paced_by`]: the dial after a key, given whether the key is a control.
pub fn pace_key(pace: u32, key: Key, down: bool, control: bool) -> (p: u32)
    requires
        pace + PACE_STEP <= u32::MAX,
    ensures
        p == paced_by(pace, key, down, control),
{
    if down && !control && (key == Key::Minus || key == Key::Equal) {
        pace_step(pace, key == Key::Minus)
    } else {
        pace
    }
}

/// Whether Escape means quit, which it does on the options screen and
/// nowhere else: `OptionKeys` tests scancode 0x01 and no other screen in
/// the original reads it.
pub fn quits_on_escape(mode: Mode) -> (b: bool)
    ensures
        b == (mode == Mode::Title),
{
    mode == Mode::Title
}

/// The screen F2 flips to, as a value: between the overworld and the arena,
/// which is how the arena browser stays reachable; out of a place onto the
/// map, so a broken menu can never trap you indoors; out of the select
/// screen, the intro, the ending and the lobby to the title; and from the
/// title onto the map. F2 is a developer key of the arena, so without a
/// world to fight in it does nothing.
pub open spec fn after_f2(mode: Mode, world: bool) -> Mode {
    if !world {
        mode
    } else {
        match mode {
            Mode::Overworld => Mode::Combat,
            Mode::Combat => Mode::Overworld,
            Mode::Place => Mode::Overworld,
            Mode::Select => Mode::Title,
            Mode::Intro => Mode::Title,
            Mode::Ending => Mode::Title,
            Mode::Title => Mode::Overworld,
            Mode::Online => Mode::Title,
        }
    }
}

/// [`after_f2`]: the screen F2 flips to, given whether there is a world.
/// What leaving a screen takes with it (the place, the select screen, the
/// intro or ending cut short, the lobby's socket) is the caller's.
pub fn f2_screen(mode: Mode, world: bool) -> (m: Mode)
    ensures
        m == after_f2(mode, world),
{
    if !world {
        return mode;
    }
    match mode {
        Mode::Overworld => Mode::Combat,
        Mode::Combat => Mode::Overworld,
        Mode::Place => Mode::Overworld,
        Mode::Select => Mode::Title,
        Mode::Intro => Mode::Title,
        Mode::Ending => Mode::Title,
        Mode::Title => Mode::Overworld,
        Mode::Online => Mode::Title,
    }
}

/// **The dial is bounded**: whatever it held, one press leaves it between
/// [`PACE_MIN`] and [`PACE_MAX`], and from inside that range a press moves
/// it by at most one step.
pub proof fn the_dial_is_bounded(pace: int, slower: bool)
    requires
        0 <= pace,
    ensures
        PACE_MIN <= pace_after(pace, slower) <= PACE_MAX,
        PACE_MIN <= pace <= PACE_MAX ==> -5 <= pace_after(pace, slower) - pace <= 5,
{
}

/// **A hundred changes nothing**: at the default dial every screen's tick
/// is the recovered one to the nanosecond, and a pass of a fight is six
/// timer ticks, which is two ticks of the BIOS counter the timer chains to
/// every third.
pub proof fn the_recovered_rate_is_the_default(mode: Mode)
    ensures
        PACE_DEFAULT == PACE_FULL,
        paced_spec(tick_len_spec(mode), PACE_DEFAULT as int) == tick_len_spec(mode),
        tick_len_spec(Mode::Combat) * COMBAT_PASS_TICKS == (TIMER_TICK * 3) * 2,
        tick_len_spec(Mode::Overworld) == RETRACE_TICK * MAP_PASS_RETRACES,
        mode != Mode::Combat && mode != Mode::Overworld ==> tick_len_spec(mode) == RETRACE_TICK,
{
}

} // verus!
