use henge_desktop::clock::{
    f2_screen, pace_key, pace_step, paced, quits_on_escape, tick_len_for, ticks_per_pass, Mode, COMBAT_PASS_TICKS, MAP_PASS_RETRACES,
    PACE_DEFAULT, PACE_FULL, PACE_MAX, PACE_MIN, RETRACE_TICK, TIMER_TICK,
};
use henge_desktop::input::{Action, Bindings, Source};
use henge_desktop::keys::Key;
use henge_desktop::slots::Slots;
use std::time::Duration;

fn timer() -> Duration {
    Duration::from_nanos(TIMER_TICK)
}

fn retrace() -> Duration {
    Duration::from_nanos(RETRACE_TICK)
}

/// The two clocks, derived rather than written out.
#[test]
fn the_two_clocks_are_the_rates_the_hardware_is_set_to() {
    // 1193182 / 21845 = 54.6204 Hz.
    let timer_hz = 1.0 / timer().as_secs_f64();
    assert!((timer_hz - 54.6204).abs() < 0.001, "the timer ticked at {timer_hz} Hz");
    // 25175000 / (800 * 449) = 70.0863 Hz.
    let retrace_hz = 1.0 / retrace().as_secs_f64();
    assert!((retrace_hz - 70.0863).abs() < 0.001, "the retrace came at {retrace_hz} Hz");
    // And the one that used to be the only clock is unchanged to the
    // nanosecond.
    assert_eq!(retrace(), Duration::from_nanos(14_268_123));
}

/// `DELAY`'s six timer ticks are two ticks of the BIOS counter.
#[test]
fn a_combat_frame_is_two_bios_ticks_and_delays_six_timer_ticks() {
    let frame = timer() * 6;
    let ms = frame.as_secs_f64() * 1000.0;
    assert!((ms - 109.849).abs() < 0.01, "a combat frame took {ms} ms");
    let bios_tick = timer() * 3;
    assert_eq!(frame, bios_tick * 2);
    let bios_hz = 1.0 / bios_tick.as_secs_f64();
    assert!((bios_hz - 18.2068).abs() < 0.001, "0000:046c ticked at {bios_hz} Hz");
    let fps = 1.0 / frame.as_secs_f64();
    assert!((fps - 9.1034).abs() < 0.001, "the fight ran at {fps} fps");
}

#[test]
fn per_pass_work_is_gated_to_the_loops_own_pass() {
    assert_eq!(ticks_per_pass(Mode::Combat), 6, "0x357 and 0x369, per pass");
    for mode in [Mode::Overworld, Mode::Select] {
        assert_eq!(ticks_per_pass(mode), 1, "{mode:?} passes once a retrace");
    }
    assert_eq!(
        Duration::from_nanos(tick_len_for(Mode::Combat)) * ticks_per_pass(Mode::Combat),
        timer() * 6
    );
    assert_eq!(
        Duration::from_nanos(tick_len_for(Mode::Overworld)) * ticks_per_pass(Mode::Overworld),
        retrace() * MAP_PASS_RETRACES
    );
}

/// One stride is four script frames of six timer ticks.
#[test]
fn a_stride_lasts_four_combat_frames() {
    const SCRIPT_TICKS: u32 = 6;
    const FRAMES_PER_STRIDE: u32 = 4;
    let stride = timer() * SCRIPT_TICKS * FRAMES_PER_STRIDE;
    let ms = stride.as_secs_f64() * 1000.0;
    assert!((ms - 439.396).abs() < 0.01, "a stride took {ms} ms");
    assert_eq!(stride, (timer() * SCRIPT_TICKS) * FRAMES_PER_STRIDE);
    let was = retrace() * SCRIPT_TICKS * FRAMES_PER_STRIDE;
    let factor = stride.as_secs_f64() / was.as_secs_f64();
    assert!((factor - 1.2832).abs() < 0.001, "it was {factor}x fast");
}

#[test]
fn only_the_arena_runs_on_the_timer() {
    assert_eq!(tick_len_for(Mode::Combat), TIMER_TICK);
    for mode in [Mode::Intro, Mode::Ending, Mode::Title, Mode::Select, Mode::Place, Mode::Online] {
        assert_eq!(tick_len_for(mode), RETRACE_TICK, "{mode:?} was taken off the retrace");
    }
    assert_eq!(tick_len_for(Mode::Overworld), RETRACE_TICK * MAP_PASS_RETRACES as u64);
}

#[test]
fn the_pace_dial_is_ours_and_a_hundred_changes_nothing() {
    let mut pace = PACE_DEFAULT;
    // It opens on the recovered rate, so a combat pass out of the box is
    // `Combat`'s own two BIOS ticks and nothing else.
    let pass = Duration::from_nanos(paced(tick_len_for(Mode::Combat), pace)) * ticks_per_pass(Mode::Combat);
    let ms = pass.as_secs_f64() * 1000.0;
    assert!((ms - 109.849).abs() < 0.1, "a pass out of the box took {ms} ms");
    // Turned down, it is the wall clock that stretches and nothing else.
    let pass = Duration::from_nanos(paced(tick_len_for(Mode::Combat), 80)) * ticks_per_pass(Mode::Combat);
    let ms = pass.as_secs_f64() * 1000.0;
    assert!((ms - 137.31).abs() < 0.1, "a pass at eighty took {ms} ms");
    // A hundred must leave every recovered tick alone to the nanosecond.
    for mode in [Mode::Combat, Mode::Overworld, Mode::Select, Mode::Title] {
        assert_eq!(paced(tick_len_for(mode), PACE_FULL), tick_len_for(mode), "{mode:?} at a hundred");
    }
    // Half speed is twice the wall clock a tick takes, and the tick counts
    // themselves never move.
    assert_eq!(paced(tick_len_for(Mode::Combat), 50), TIMER_TICK * 2);
    assert_eq!(ticks_per_pass(Mode::Combat), 6);
    assert_eq!(PACE_DEFAULT, PACE_FULL, "the default is no dial at all");
    // And it is bounded, so no key press can stop the game or run it away.
    for _ in 0..200 {
        pace = pace_step(pace, true);
    }
    assert_eq!(pace, PACE_MIN);
    for _ in 0..200 {
        pace = pace_step(pace, false);
    }
    assert_eq!(pace, PACE_MAX);
    assert_eq!(pace_step(100, true), 95);
    assert_eq!(pace_step(100, false), 105);
    assert_eq!(pace_step(2, true), PACE_MIN);
    assert_eq!(Duration::from_nanos(paced(TIMER_TICK, 80)) * COMBAT_PASS_TICKS, pass);
    // And it is the Minus and Equal keys that reach it, going down, through
    // the same key handler every other key goes through.
    let b = Bindings::shipped();
    let mut slots = Slots::new();
    let mut pace = PACE_DEFAULT;
    for _ in 0..200 {
        let c = slots.key(&b, &Source::key("Minus"), Key::Minus, true);
        pace = pace_key(pace, Key::Minus, true, c);
        let c = slots.key(&b, &Source::key("Minus"), Key::Minus, false);
        pace = pace_key(pace, Key::Minus, false, c);
    }
    assert_eq!(pace, PACE_MIN);
    for _ in 0..200 {
        let c = slots.key(&b, &Source::key("Equal"), Key::Equal, true);
        pace = pace_key(pace, Key::Equal, true, c);
        let c = slots.key(&b, &Source::key("Equal"), Key::Equal, false);
        pace = pace_key(pace, Key::Equal, false, c);
    }
    assert_eq!(pace, PACE_MAX);
    // A key the binding table has made a control does not also turn the dial.
    let mut rebound = Bindings::shipped();
    rebound.bind(0, Action::Fire, Source::key("Minus"));
    let c = slots.key(&rebound, &Source::key("Minus"), Key::Minus, true);
    assert!(c);
    assert_eq!(pace_key(pace, Key::Minus, true, c), pace);
    assert_eq!(pace_key(100, Key::KeyQ, true, false), 100);
}

/// F2 flips between the map and the arena, gets out of a place onto the map
/// and out of every other screen to the title, and does nothing without a
/// world to fight in.
#[test]
fn f2_is_the_arena_browsers_way_in_and_every_screens_way_out() {
    assert_eq!(f2_screen(Mode::Overworld, true), Mode::Combat);
    assert_eq!(f2_screen(Mode::Combat, true), Mode::Overworld);
    assert_eq!(f2_screen(Mode::Place, true), Mode::Overworld);
    assert_eq!(f2_screen(Mode::Title, true), Mode::Overworld);
    for m in [Mode::Select, Mode::Intro, Mode::Ending, Mode::Online] {
        assert_eq!(f2_screen(m, true), Mode::Title, "{m:?}");
    }
    assert_eq!(f2_screen(Mode::Place, false), Mode::Place);
}

#[test]
fn escape_quits_from_the_title_and_from_nowhere_else() {
    assert!(quits_on_escape(Mode::Title));
    for mode in [Mode::Intro, Mode::Ending, Mode::Select, Mode::Overworld, Mode::Combat, Mode::Place, Mode::Online] {
        assert!(!quits_on_escape(mode), "{mode:?}");
    }
}
