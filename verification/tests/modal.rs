use henge_desktop::modal::{message_tick, run_over_tick, wait_for_fire, Until, FADE_STEPS};

#[test]
fn a_box_waits_for_fire_and_then_fades_out_over_sixteen_frames() {
    let mut out = 0;
    for _ in 0..100 {
        out = wait_for_fire(out, false).expect("nobody pressed anything");
    }
    assert_eq!(out, 0);
    out = wait_for_fire(out, true).unwrap();
    assert_eq!(out, FADE_STEPS);
    let mut frames = 0;
    while let Some(o) = wait_for_fire(out, frames % 2 == 0) {
        out = o;
        frames += 1;
    }
    assert_eq!(frames + 1, FADE_STEPS, "gone on the sixteenth frame, fire or no fire");
}

#[test]
fn a_box_over_a_load_counts_down_and_ignores_fire() {
    assert_eq!(message_tick(Until::Loaded, 3, true), Some(2));
    assert_eq!(message_tick(Until::Loaded, 1, false), None);
    assert_eq!(message_tick(Until::Loaded, 0, false), None);
    assert_eq!(message_tick(Until::Fire, 0, false), Some(0));
    assert_eq!(message_tick(Until::Fire, 0, true), Some(FADE_STEPS));
}

#[test]
fn the_press_that_ends_a_run_does_not_clear_its_message() {
    assert_eq!(run_over_tick(0, true), (1, false));
    assert_eq!(run_over_tick(1, false), (2, false));
    assert_eq!(run_over_tick(2, true), (0, true));
}
