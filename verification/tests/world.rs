use henge_desktop::framebuffer::{SCREEN_H, SCREEN_W};
use henge_desktop::world::{
    bout_seats, cell_clip, entering_health, fight_scale, glow_plan, knight_numbers, scaled, spoils, humans, knight_at, knight_is_low, main_knight_seat, opposed, player_controls,
    seat_controls, seat_is_creature, second_knight_seat, stamp_cell, step_index, Control, Sheet, Standing, CELL_H,
    CELL_W, MAIN_KNIGHT_AT, SECOND_AT,
};

fn solid(v: u8) -> [u8; CELL_W * CELL_H] {
    [v; CELL_W * CELL_H]
}

#[test]
fn a_cell_above_the_screen_keeps_one_row_more_than_a_clip_would() {
    assert_eq!(cell_clip(-4), (3, 0));
    assert_eq!(cell_clip(-1), (0, 0));
    assert_eq!(cell_clip(-25), (24, 0));
    assert_eq!(cell_clip(0), (0, 0));
    assert_eq!(cell_clip(37), (0, 37));

    let mut screen = vec![0u8; SCREEN_W * SCREEN_H];
    let mut cell = solid(0);
    for col in 0..CELL_W {
        cell[3 * CELL_W + col] = 9;
    }
    stamp_cell(&mut screen, &cell, 0, -4);
    assert_eq!(screen[0], 9, "the fourth row should be the top one");
    assert_eq!(screen[SCREEN_W], 0);
}

#[test]
fn a_cell_left_of_the_screen_is_moved_to_column_zero_whole() {
    let mut screen = vec![0u8; SCREEN_W * SCREEN_H];
    let mut cell = solid(0);
    cell[0] = 7;
    cell[CELL_W - 1] = 8;
    stamp_cell(&mut screen, &cell, -5, 0);
    assert_eq!(screen[0], 7, "the first column is not cut off");
    assert_eq!(screen[CELL_W - 1], 8, "and the last one is still 31 along");
}

#[test]
fn a_column_past_the_right_edge_lands_on_the_row_below() {
    let mut screen = vec![0u8; SCREEN_W * SCREEN_H];
    let mut cell = solid(0);
    cell[0] = 5;
    cell[31] = 6;
    stamp_cell(&mut screen, &cell, 303, 0);
    assert_eq!(screen[303], 5);
    assert_eq!(screen[SCREEN_W + (303 + 31 - SCREEN_W)], 6);
    assert_eq!(screen[SCREEN_W - 1], 0);
}

#[test]
fn index_zero_in_a_cell_leaves_what_is_under_it() {
    let mut screen = vec![3u8; SCREEN_W * SCREEN_H];
    let cell = solid(0);
    stamp_cell(&mut screen, &cell, 10, 10);
    assert!(screen.iter().all(|&v| v == 3));
}

#[test]
fn a_cell_below_the_screen_writes_nothing() {
    let mut screen = vec![0u8; SCREEN_W * SCREEN_H];
    stamp_cell(&mut screen, &solid(9), 0, SCREEN_H as i32 + 1);
    assert!(screen.iter().all(|&v| v == 0));
}

#[test]
fn a_cell_far_above_the_screen_keeps_nothing() {
    assert_eq!(cell_clip(-30), (25, 0));
    let mut screen = vec![0u8; SCREEN_W * SCREEN_H];
    stamp_cell(&mut screen, &solid(9), 0, -30);
    assert!(screen.iter().all(|&v| v == 0));
}

#[test]
fn the_last_row_of_the_screen_runs_off_the_end_and_is_dropped() {
    let mut screen = vec![0u8; SCREEN_W * SCREEN_H];
    stamp_cell(&mut screen, &solid(4), 300, 199);
    assert_eq!(screen[199 * SCREEN_W + 300], 4);
    assert_eq!(screen[SCREEN_W * SCREEN_H - 1], 4);
    assert_eq!(screen.iter().filter(|&&v| v == 4).count(), 20);
}

#[test]
fn the_bout_records_are_plain_values() {
    let s = Sheet { max_health: 60, bonus: 3, fresh_bonus: 1, cursed: false, strength: 2, experience: 0 };
    let t = s;
    assert_eq!(s, t);
    assert_ne!(Control::Local(0), Control::Ai);
}

#[test]
fn one_person_practises_against_one_opponent() {
    assert_eq!(seat_controls(1, 1), vec![Control::Local(0), Control::Ai]);
    assert_eq!(seat_controls(2, 0), vec![Control::Local(0), Control::Local(1)]);
    assert_eq!(seat_controls(0, 0), vec![Control::Local(0), Control::Ai]);
    assert_eq!(seat_controls(3, 5), vec![Control::Local(0), Control::Local(1), Control::Local(2), Control::Ai]);
    assert_eq!(seat_controls(9, 0).len(), 4);
}

#[test]
fn set_players_fills_all_four_seats() {
    assert_eq!(player_controls(1), vec![Control::Local(0), Control::Ai, Control::Ai, Control::Ai]);
    assert_eq!(player_controls(2), vec![Control::Local(0), Control::Local(1), Control::Ai, Control::Ai]);
    assert_eq!(humans(&player_controls(2)), 2);
    assert_eq!(humans(&vec![Control::Ai, Control::Local(3), Control::Ai]), 1);
    assert_eq!(humans(&vec![]), 0);
}

#[test]
fn the_browsers_wrap_at_both_ends() {
    assert_eq!(step_index(0, -1, 5), 4);
    assert_eq!(step_index(4, 1, 5), 0);
    assert_eq!(step_index(2, 1, 5), 3);
    assert_eq!(step_index(0, -6, 5), 4);
    assert_eq!(step_index(0, -5, 5), 0);
}

#[test]
fn a_seat_past_the_roster_has_its_own_knight() {
    let roster = vec![3, 1];
    assert_eq!(knight_at(&roster, 0), 3);
    assert_eq!(knight_at(&roster, 1), 1);
    assert_eq!(knight_at(&roster, 2), 2);
    assert_eq!(knight_at(&roster, 5), 1);
}

#[test]
fn a_knight_can_always_bear_one_point() {
    let s = Sheet { max_health: 0, bonus: 3, fresh_bonus: 1, cursed: true, strength: 2, experience: 7 };
    let c = s.clamped();
    assert_eq!(c.max_health, 1);
    assert_eq!(c.bonus, 3);
    assert!(c.cursed);
    let t = Sheet { max_health: 40, ..s }.clamped();
    assert_eq!(t.max_health, 40);
}

fn knight(x: i32, y: i32) -> Standing {
    Standing { knight: true, alive: true, health: 20, x, y }
}

fn troll(x: i32, y: i32, alive: bool) -> Standing {
    Standing { knight: false, alive, health: if alive { 30 } else { 0 }, x, y }
}

#[test]
fn a_creature_fights_the_nearest_knight_and_never_a_creature() {
    let fs = [knight(100, 150), troll(120, 150, true), troll(101, 150, true), knight(130, 150)];
    assert_eq!(opposed(&fs, 1), Some(3), "ten away beats twenty, and the other troll is no enemy");
    assert_eq!(opposed(&fs, 0), Some(2));
    assert_eq!(opposed(&fs, 9), None);
}

#[test]
fn depth_counts_double_and_the_first_of_equals_is_taken() {
    let fs = [knight(100, 100), troll(110, 100, true), troll(100, 106, true), troll(90, 100, true)];
    assert_eq!(opposed(&fs, 0), Some(1), "ten across is nearer than six deep, and 1 comes before 3");
}

#[test]
fn a_body_is_still_an_opponent_when_no_one_else_is_left() {
    let fs = [knight(0, 0), troll(5, 0, false), troll(50, 0, true)];
    assert_eq!(opposed(&fs, 0), Some(2), "the living first");
    let fs = [knight(0, 0), troll(5, 0, false), troll(50, 0, false)];
    assert_eq!(opposed(&fs, 0), Some(1));
    let fs = [knight(0, 0), knight(5, 0)];
    assert_eq!(opposed(&fs, 0), None);
}

#[test]
fn two_knights_carry_the_palettes_two_banks() {
    let fs = [troll(0, 0, true), knight(1, 1), troll(2, 2, true), knight(3, 3), knight(4, 4)];
    assert_eq!(main_knight_seat(&fs), Some(1));
    assert_eq!(second_knight_seat(&fs), Some(3));
    assert_eq!(glow_plan(&fs, 1), Some((MAIN_KNIGHT_AT, 2)));
    assert_eq!(glow_plan(&fs, 3), Some((SECOND_AT, 1)));
    assert_eq!(glow_plan(&fs, 4), None, "a third knight has no handles");
    assert_eq!(glow_plan(&fs, 0), None);
    assert_eq!(second_knight_seat(&[knight(0, 0)]), None);
    assert_eq!(main_knight_seat(&[troll(0, 0, true)]), None);
}

#[test]
fn a_knight_at_ten_or_under_is_low() {
    let mut k = knight(0, 0);
    k.health = 10;
    let fs = [k, troll(0, 0, true)];
    assert!(knight_is_low(&fs, 0, true, 100));
    let mut k30 = k;
    k30.health = 30;
    assert!(!knight_is_low(&[k30], 0, true, 100), "ten is the line with a sheet");
    assert!(knight_is_low(&[k30], 0, false, 100), "without a sheet the line is fifty");
    assert!(!knight_is_low(&fs, 1, true, 100), "a creature is never low");
    assert!(!knight_is_low(&fs, 5, true, 100));
    let mut k = knight(0, 0);
    k.health = 50;
    assert!(knight_is_low(&[k], 0, false, 100));
    k.health = 51;
    assert!(!knight_is_low(&[k], 0, false, 100));
}

#[test]
fn a_bout_against_a_knight_has_two_seats_and_a_wave_fills_the_rest() {
    let asked = vec![Control::Local(0), Control::Ai, Control::Ai, Control::Ai];
    let (n, c) = bout_seats(&asked, 0, true);
    assert_eq!(n, 2);
    assert_eq!(c, vec![Control::Local(0), Control::Ai]);
    assert!(!seat_is_creature(&c, 1, true));
    let (n, c) = bout_seats(&vec![Control::Local(0), Control::Local(1)], 3, false);
    assert_eq!(n, 5);
    assert_eq!(c, vec![Control::Local(0), Control::Local(1), Control::Ai, Control::Ai, Control::Ai]);
    assert!(seat_is_creature(&c, 2, false));
    assert!(!seat_is_creature(&c, 1, false));
    let (n, c) = bout_seats(&vec![Control::Local(0)], 0, false);
    assert_eq!((n, c.len()), (2, 1), "a seat nobody controls is a knight");
    assert!(!seat_is_creature(&c, 1, false));
}

#[test]
fn a_creature_is_as_many_swings_deep_at_any_scale() {
    assert_eq!(fight_scale(true, 100), 20, "with a sheet, the original's twenty");
    assert_eq!(fight_scale(false, 100), 100);
    assert_eq!(fight_scale(false, 0), 1);
    // A ratman's five points and a slash of one.
    assert_eq!(scaled(5, 20), 5);
    assert_eq!(scaled(5, 100), 25);
    assert_eq!(scaled(1, 20), 1);
    assert_eq!(scaled(1, 10), 1, "never below one");
    assert_eq!(scaled(-40, 20), 1);
}

#[test]
fn the_first_seat_fights_on_the_runs_sheet() {
    let s = Sheet { max_health: 60, bonus: 3, fresh_bonus: 1, cursed: false, strength: 2, experience: 0 };
    assert_eq!(knight_numbers(Some(s), 0, 100), (60, 3));
    assert_eq!(knight_numbers(Some(s), 1, 100), (20, 1));
    assert_eq!(knight_numbers(None, 0, 100), (100, 0));
    assert_eq!(entering_health(70, 60), 60);
    assert_eq!(entering_health(0, 60), 1);
    assert_eq!(entering_health(33, 60), 33);
}

#[test]
fn the_fallen_pay_and_a_man_does_not_loot_himself() {
    let fs = [troll(0, 0, false), troll(0, 0, false), troll(0, 0, true), knight(0, 0)];
    let mut dead_knight = knight(0, 0);
    dead_knight.alive = false;
    let fs2 = [fs[0], fs[1], fs[2], dead_knight];
    assert_eq!(spoils(&fs, &[100, 7, 9, 50]), 7);
    assert_eq!(spoils(&fs2, &[100, 7, 9, 50]), 57);
    assert_eq!(spoils(&[], &[]), 0);
}
