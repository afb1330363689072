use henge_desktop::input::{
    settle, Action, Bindings, Calibrating, Calibration, Debounce, Source, DOWN, FIRE, LEFT, RIGHT, UP,
};

#[test]
fn the_word_is_the_originals_five_bits() {
    assert_eq!((RIGHT, LEFT, DOWN, UP, FIRE), (0x01, 0x02, 0x04, 0x08, 0x10));
    assert_eq!(Action::Up.bit() | Action::Fire.bit(), 0x18);
}

#[test]
fn adjust_joy_pulls_each_threshold_in_by_an_eighth_of_the_range() {
    // A stick reading 100 at the left and 900 at the right: an eighth of
    // 800 is 100, so the thresholds land on 200 and 800.
    let c = Calibration::from_corners((100, 100), (900, 900));
    assert_eq!((c.xmin, c.xmax), (200, 800));
    assert_eq!((c.ymin, c.ymax), (200, 800));
}

#[test]
fn three_quarters_of_the_travel_is_dead() {
    let c = Calibration::from_corners((0, 0), (800, 800));
    // An eighth of 800 is 100, so the live bands are 0..=100 and 700..=800.
    assert_eq!((c.xmin, c.xmax), (100, 700));
    assert_eq!(c.mask(400, 400), 0);
    assert_eq!(c.mask(101, 400), 0);
    assert_eq!(c.mask(100, 400), LEFT);
    assert_eq!(c.mask(699, 400), 0);
    assert_eq!(c.mask(700, 400), RIGHT);
    assert_eq!(c.mask(400, 100), UP);
    assert_eq!(c.mask(400, 700), DOWN);
    assert_eq!(c.mask(100, 700), LEFT | DOWN);
}

#[test]
fn an_axis_that_times_out_is_a_stick_that_is_not_there() {
    let c = Calibration::from_corners((0, 0), (800, 800));
    // 0x400 is the cap the read loop stops at, and the original skips the
    // comparison entirely rather than reading it as hard right.
    assert_eq!(c.mask(Calibration::TIMEOUT, 400), 0);
    assert_eq!(c.mask(400, Calibration::TIMEOUT), 0);
    assert_eq!(c.mask(Calibration::TIMEOUT, Calibration::TIMEOUT), 0);
}

#[test]
fn a_backwards_calibration_does_not_invert_the_dead_zone() {
    // Someone who answers the two prompts the wrong way round should get a
    // stick that does nothing, not one that is live everywhere.
    let c = Calibration::from_corners((900, 900), (100, 100));
    assert_eq!((c.xmin, c.xmax), (900, 100));
    // Everything reads as both directions at once, and `settle` cancels it.
    assert_eq!(settle(c.mask(500, 500)), 0);
}

/// The four words the image ships, verbatim.
#[test]
fn the_default_thresholds_are_the_four_words_the_image_ships() {
    let c = Calibration::default();
    assert_eq!((c.xmin, c.ymin, c.xmax, c.ymax), (16, 16, 80, 80), "image 0x1a52e onwards");
}

/// And they are `AdjustJoy` of the scale's own two ends.
#[test]
fn the_shipped_thresholds_are_adjust_joy_of_the_scale_ends() {
    let from_extremes = Calibration::from_corners(
        (Calibration::AXIS_LOW, Calibration::AXIS_LOW),
        (Calibration::AXIS_HIGH, Calibration::AXIS_HIGH),
    );
    assert_eq!(from_extremes, Calibration::default());
}

#[test]
fn opposites_cancel_and_nothing_else_is_touched() {
    assert_eq!(settle(LEFT | RIGHT), 0);
    assert_eq!(settle(UP | DOWN), 0);
    assert_eq!(settle(LEFT | RIGHT | FIRE), FIRE);
    assert_eq!(settle(UP | DOWN | LEFT | FIRE), LEFT | FIRE);
    assert_eq!(settle(UP | LEFT | FIRE), UP | LEFT | FIRE);
}

#[test]
fn a_held_button_is_one_press() {
    let mut d = Debounce::default();
    assert!(!d.edge(0));
    assert!(d.edge(FIRE));
    assert!(!d.edge(FIRE));
    assert!(!d.edge(FIRE));
    assert!(!d.edge(0));
    assert!(d.edge(FIRE));
    assert!(!d.edge(FIRE));
    d.clear();
    assert!(d.edge(FIRE));
}

#[test]
fn debounce_ignores_the_direction_bits() {
    let mut d = Debounce::default();
    assert!(d.edge(FIRE | LEFT));
    assert!(!d.edge(FIRE | RIGHT));
    assert!(!d.edge(UP));
    assert!(d.edge(FIRE | UP));
}

/// The reader at image `0x81ec`, key for key and bit for bit.
#[test]
fn the_default_bindings_are_the_keys_the_original_reads() {
    let b = Bindings::default();
    assert_eq!(b.seats.len(), 2);
    // Player one, `bx`: 0x1c, 0x48, 0x50, 0x4b, 0x4d.
    for (a, k) in [
        (Action::Fire, "Enter"),
        (Action::Up, "ArrowUp"),
        (Action::Down, "ArrowDown"),
        (Action::Left, "ArrowLeft"),
        (Action::Right, "ArrowRight"),
    ] {
        assert!(b.seats[0].list(a).contains(&Source::key(k)), "seat one {a:?} is {k}");
    }
    // Player two, `dx`: 0x0f, 0x11, 0x2d, 0x1e, 0x20.
    for (a, k) in [
        (Action::Fire, "Tab"),
        (Action::Up, "KeyW"),
        (Action::Down, "KeyX"),
        (Action::Left, "KeyA"),
        (Action::Right, "KeyD"),
    ] {
        assert!(b.seats[1].list(a).contains(&Source::key(k)), "seat two {a:?} is {k}");
    }
    // And nothing else is left in: space and F were never the original's.
    for k in ["Space", "KeyF", "KeyS"] {
        assert!(b.raised_by(&Source::key(k)).is_empty(), "{k} is not one of the original's ten");
    }
    // Each seat still has a pad of its own.
    assert_eq!((b.seats[0].pad, b.seats[1].pad), (0, 1));
    assert!(b.seats[0].list(Action::Up).contains(&Source::button("DPadUp")));
}

#[test]
fn binding_a_key_takes_it_off_whatever_had_it() {
    let mut b = Bindings::default();
    b.bind(0, Action::Fire, Source::key("ArrowUp"));
    assert!(!b.seats[0].list(Action::Up).contains(&Source::key("ArrowUp")));
    assert!(b.seats[0].list(Action::Fire).contains(&Source::key("ArrowUp")));
    assert_eq!(b.raised_by(&Source::key("ArrowUp")), vec![(0, Action::Fire)]);
    // The other seat is a different set of controls and is left alone.
    assert!(b.seats[1].list(Action::Up).contains(&Source::key("KeyW")));
}

#[test]
fn one_source_may_serve_two_seats_because_the_original_ors_them_together() {
    let mut b = Bindings::default();
    b.bind(0, Action::Fire, Source::button("Start"));
    b.bind(1, Action::Fire, Source::button("Start"));
    assert_eq!(b.raised_by(&Source::button("Start")), vec![(0, Action::Fire), (1, Action::Fire)]);
}

#[test]
fn a_binding_spec_reads_the_way_the_file_does() {
    assert_eq!(Bindings::parse_bind("0:fire=Space"), Some((0, Action::Fire, Source::key("Space"))));
    assert_eq!(Bindings::parse_bind("1:up=pad:DPadUp"), Some((1, Action::Up, Source::button("DPadUp"))));
    assert_eq!(
        Bindings::parse_bind("0:left=axis:LeftStickX-"),
        Some((0, Action::Left, Source::axis("LeftStickX", false)))
    );
    assert_eq!(
        Bindings::parse_bind("0:right=axis:LeftStickX+"),
        Some((0, Action::Right, Source::axis("LeftStickX", true)))
    );
    // Refusals rather than guesses, so a typo cannot silently unbind a key.
    assert!(Bindings::parse_bind("0:jump=Space").is_none());
    assert!(Bindings::parse_bind("nonsense").is_none());
    assert!(Bindings::parse_bind("0:fire=").is_none());
}

#[test]
fn calibrating_asks_twice_and_then_hands_back_a_calibration() {
    let mut c = Calibrating::TopLeft;
    assert_eq!(c.prompt()[1], "the top left");
    // Fire not pressed: nothing moves on, however far the stick is pushed.
    c = c.step((30, 40), false).expect("still asking");
    assert_eq!(c, Calibrating::TopLeft);
    c = c.step((30, 40), true).expect("now asking for the other corner");
    assert_eq!(c.prompt()[1], "the bottom right");
    c = c.step((910, 880), false).expect("still asking");
    let done = c.step((910, 880), true).expect_err("that was the second answer");
    assert_eq!(done, Calibration::from_corners((30, 40), (910, 880)));
    // And that is the calibration `AdjustJoy` would have produced.
    assert_eq!((done.xmin, done.xmax), (30 + 110, 910 - 110));
}

#[test]
fn a_calibration_run_end_to_end_gives_a_usable_dead_zone() {
    // Drive it the way a player would, through the debounce.
    let mut d = Debounce::default();
    let mut c = Ok(Calibrating::TopLeft);
    let script = [(0, 0), (0, 0), (60, 70), (60, 70), (500, 500), (940, 930), (940, 930)];
    let fires = [false, true, true, false, false, false, true];
    for (raw, held) in script.into_iter().zip(fires) {
        let edge = d.edge(if held { FIRE } else { 0 });
        if let Ok(state) = c {
            c = state.step(raw, edge);
        }
    }
    let cal = c.expect_err("two presses finish it");
    // The first press was made before the stick moved, and a held button is
    // one press, so the corners are (0,0) and (940,930).
    assert_eq!(cal, Calibration::from_corners((0, 0), (940, 930)));
    assert_eq!(cal.mask(cal.xmin, cal.ymax), LEFT | DOWN);
    assert_eq!(cal.mask(470, 465), 0);
}

#[test]
fn a_seat_that_is_not_there_is_left_alone_by_a_binding() {
    let mut b = Bindings::default();
    b.bind(5, Action::Fire, Source::key("Space"));
    assert!(b.raised_by(&Source::key("Space")).is_empty());
    assert_eq!(b.seats.len(), 2);
}

#[test]
fn a_calibration_set_past_the_end_fills_the_gap_with_the_shipped_one() {
    let mut b = Bindings::default();
    let c = Calibration::from_corners((40, 60), (900, 880));
    b.set_calibration(3, c);
    assert_eq!(b.calibration.len(), 4);
    assert_eq!(b.calibration(3), c);
    assert_eq!(b.calibration(2), Calibration::default());
    // A seat with nothing recorded reads as the shipped thresholds.
    assert_eq!(b.calibration(9), Calibration::default());
}

#[test]
fn a_binding_spec_takes_key_prefixes_and_refuses_an_unnamed_axis() {
    assert_eq!(Bindings::parse_bind(" 1 : down = key:KeyS "), Some((1, Action::Down, Source::key("KeyS"))));
    assert!(Bindings::parse_bind("0:left=axis:+").is_none());
    assert!(Bindings::parse_bind("x:fire=Space").is_none());
    assert!(Bindings::parse_bind("0fire=Space").is_none());
    // Only the first `=` splits, so a key may not contain one but an axis
    // name keeps everything after it.
    assert_eq!(Bindings::parse_bind("0:fire=a=b"), Some((0, Action::Fire, Source::key("a=b"))));
}

#[test]
fn the_mask_never_sets_fire_or_anything_above_it() {
    let c = Calibration::default();
    for x in [0, 16, 17, 79, 80, 1000, Calibration::TIMEOUT] {
        for y in [0, 16, 17, 79, 80, 1000, Calibration::TIMEOUT] {
            assert_eq!(c.mask(x, y) & !(UP | DOWN | LEFT | RIGHT), 0);
        }
    }
}

#[test]
fn settling_twice_is_settling_once() {
    for m in 0u8..=255 {
        assert_eq!(settle(settle(m)), settle(m));
    }
}

#[test]
fn a_source_is_equal_to_a_copy_of_itself_and_not_to_another_kind() {
    let a = Source::axis("LeftStickX", true);
    assert!(a.same(&a.copy()));
    assert!(!a.same(&Source::axis("LeftStickX", false)));
    assert!(!Source::key("South").same(&Source::button("South")));
}
