use henge_desktop::args::{
    after_arg, controls_path_arg, foe_arg, gold_arg, hurt_arg, keys_arg, knight_arg, lives_arg, online_delay_arg,
    online_port_arg, point_arg, snapshot_path_arg, start_arg, Script,
};
use henge_desktop::args::{begin_arg, list_server, pace_arg, sheet_arg, ScriptStep, LIST_SERVER};
use henge_desktop::clock::Mode;

fn words(a: &[&str]) -> Vec<String> {
    a.iter().map(|s| s.to_string()).collect()
}

/// The port and delay arguments, which are the two knobs a bad line needs.
#[test]
fn the_online_arguments_are_read() {
    let args: Vec<String> = ["henge", "--port", "25000", "--delay", "9"].iter().map(|s| s.to_string()).collect();
    assert_eq!(online_port_arg(&args), Some(25_000));
    assert_eq!(online_delay_arg(&args), Some(9));
    let none: Vec<String> = vec!["henge".into()];
    assert_eq!(online_port_arg(&none), None);
    assert_eq!(online_delay_arg(&none), None);
}

#[test]
fn a_port_that_does_not_fit_is_no_port() {
    assert_eq!(online_port_arg(&words(&["henge", "--port", "70000"])), None);
    assert_eq!(online_port_arg(&words(&["henge", "--port", "+65535"])), Some(65535));
    assert_eq!(online_port_arg(&words(&["henge", "--port"])), None);
    assert_eq!(online_delay_arg(&words(&["henge", "--delay", "-1"])), None);
}

#[test]
fn the_numbers_a_headless_run_starts_with_are_read() {
    let a = words(&["henge", "--hurt", "-3", "--gold", "250", "--keys", "4", "--lives", "+2", "--knight", "3"]);
    assert_eq!(hurt_arg(&a), Some(-3));
    assert_eq!(gold_arg(&a), Some(250));
    assert_eq!(keys_arg(&a), Some(4));
    assert_eq!(lives_arg(&a), Some(2));
    assert_eq!(knight_arg(&a), Some(3));
    // A value that is not a number is no value, and so is a missing one.
    assert_eq!(hurt_arg(&words(&["--hurt", "lots"])), None);
    assert_eq!(gold_arg(&words(&["--gold", "-5"])), None);
    assert_eq!(lives_arg(&words(&["--lives", "2147483648"])), None);
    assert_eq!(lives_arg(&words(&["--lives", "-2147483648"])), Some(i32::MIN));
    assert_eq!(knight_arg(&words(&["--knight"])), None);
    // The first occurrence of a flag is the one that counts.
    assert_eq!(gold_arg(&words(&["--gold", "1", "--gold", "2"])), Some(1));
}

#[test]
fn a_flag_names_a_screen_or_a_creature() {
    assert_eq!(start_arg(&words(&["--start", "arena"])), Some(Mode::Combat));
    assert_eq!(start_arg(&words(&["--start", "combat"])), Some(Mode::Combat));
    assert_eq!(start_arg(&words(&["--start", "map"])), Some(Mode::Overworld));
    assert_eq!(start_arg(&words(&["--start", "lobby"])), Some(Mode::Online));
    assert_eq!(start_arg(&words(&["--start", "title"])), Some(Mode::Title));
    assert_eq!(start_arg(&words(&["--start", "nowhere"])), None);
    assert_eq!(foe_arg(&words(&["--foe", "troll"])), Some("troll".to_string()));
    assert_eq!(foe_arg(&words(&["--foe"])), None);
}

#[test]
fn a_point_is_two_numbers_either_side_of_a_comma() {
    assert_eq!(point_arg(&words(&["--point", "12, -7"])), Some((12, -7)));
    assert_eq!(point_arg(&words(&["--point", "12"])), None);
    assert_eq!(point_arg(&words(&["--point", "a,b"])), None);
}

#[test]
fn the_two_paths_have_defaults() {
    assert_eq!(snapshot_path_arg(&words(&["henge"])), "henge-harness.json");
    assert_eq!(controls_path_arg(&words(&["henge"])), "henge-controls.json");
    assert_eq!(snapshot_path_arg(&words(&["--save", "pose.json"])), "pose.json");
    assert_eq!(controls_path_arg(&words(&["--controls", "pad.json"])), "pad.json");
}

#[test]
fn a_value_that_looks_like_a_flag_is_no_value() {
    assert_eq!(after_arg(&words(&["--list", "--port", "1"]), "--list"), None);
    assert_eq!(after_arg(&words(&["--list", "10.0.0.1"]), "--list"), Some("10.0.0.1".to_string()));
    assert_eq!(after_arg(&words(&["--list", "-x"]), "--list"), Some("-x".to_string()));
}

#[test]
fn a_script_is_read_off_the_command_line() {
    let s = Script::from_args(&words(&["henge", "--goto", "10,20", "--input", "uds", "--at", "tavern"]));
    assert_eq!(s.goto, Some((10, 20)));
    assert_eq!(s.keys, vec!['u', 'd', 's']);
    assert_eq!(s.at, Some("tavern".to_string()));
    assert!(s.active());
    let none = Script::from_args(&words(&["henge"]));
    assert!(!none.active());
    assert!(!Script::default().active());
}

#[test]
fn the_list_server_is_the_flag_then_the_file_then_ours() {
    let none = words(&["henge"]);
    assert_eq!(list_server(&none, None), LIST_SERVER);
    assert_eq!(list_server(&words(&["--list", "10.1.1.1"]), Some("192.0.2.9")), "10.1.1.1");
    assert_eq!(list_server(&none, Some("# the list\n\n  192.0.2.9  \r\nother\n")), "192.0.2.9");
    assert_eq!(list_server(&none, Some("# nothing here\n   \n")), LIST_SERVER);
    assert_eq!(list_server(&none, Some("last line only")), "last line only");
    assert_eq!(list_server(&words(&["--list", "--port"]), None), LIST_SERVER, "a flag is not an address");
}

#[test]
fn a_script_walks_first_and_then_feeds_one_key_a_tick() {
    let s = Script::from_args(&words(&["henge", "--goto", "10,20", "--input", "us"]));
    // Not there yet: steer.
    assert_eq!(s.drive(0, false, Mode::Overworld, Some((3, 4)), false, 0), (ScriptStep::Steer(10, 20), 0));
    // Aloft, a flight is not a walk.
    assert_eq!(s.drive(0, false, Mode::Overworld, Some((3, 4)), true, 0), (ScriptStep::Feed(Some('u')), 1));
    // There: the keys, one a tick, and then nothing.
    assert_eq!(s.drive(0, false, Mode::Overworld, Some((10, 20)), false, 0), (ScriptStep::Feed(Some('u')), 1));
    assert_eq!(s.drive(1, false, Mode::Title, None, false, 0), (ScriptStep::Feed(Some('s')), 2));
    assert_eq!(s.drive(2, false, Mode::Title, None, false, 0), (ScriptStep::Feed(None), 2));
    // A fight on the way is swung at, four ticks in twenty three.
    assert_eq!(s.drive(0, false, Mode::Combat, None, false, 24), (ScriptStep::Swing(true), 0));
    assert_eq!(s.drive(0, false, Mode::Combat, None, false, 27), (ScriptStep::Swing(false), 0));
    // The between-days screen is pressed through first of all.
    assert_eq!(s.drive(1, true, Mode::Overworld, Some((3, 4)), false, 0), (ScriptStep::Fire, 1));
}

#[test]
fn the_pace_and_the_players_to_begin_with_are_read() {
    assert_eq!(pace_arg(&words(&["henge", "--pace", "80"])), Some(80));
    assert_eq!(pace_arg(&words(&["henge", "--pace", "5"])), Some(40), "kept to the dial's least");
    assert_eq!(pace_arg(&words(&["henge", "--pace", "900"])), Some(125));
    assert_eq!(pace_arg(&words(&["henge", "--pace", "fast"])), None);
    assert_eq!(pace_arg(&words(&["henge"])), None);
    assert_eq!(begin_arg(&words(&["henge"])), None);
    assert_eq!(begin_arg(&words(&["henge", "--begin"])), Some(1));
    assert_eq!(begin_arg(&words(&["henge", "--begin", "--players", "3"])), Some(3));
    assert_eq!(begin_arg(&words(&["henge", "--begin", "--players", "9"])), Some(4));
    assert_eq!(begin_arg(&words(&["henge", "--begin", "--players", "0"])), Some(1));
    assert_eq!(begin_arg(&words(&["henge", "--begin", "--players", "x"])), Some(1));
    assert!(sheet_arg(&words(&["henge", "--sheet"])));
    assert!(!sheet_arg(&words(&["henge"])));
}
