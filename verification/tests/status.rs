use henge_desktop::status::{
    display_acquire, display_dragon, display_gold, display_knight, display_lair, display_magic, display_merchant,
    display_msword, Hoard, Icon, KnightSheet, Panel, Payload, ABORDERS, EXIT_ID, NEXT_ID, SINGLE_DATA, TRADING_DATA,
};

fn hoard() -> Hoard {
    Hoard::empty()
}

#[test]
fn every_pillar_of_the_trading_screen_is_a_way_out() {
    let mut p = Panel::new();
    p.furniture(&TRADING_DATA, 0);
    p.furniture(&SINGLE_DATA, 0);
    assert_eq!(p.plain().len(), 15);
    let exits: Vec<&Icon> = p.icons().iter().filter(|i| i.id == EXIT_ID).collect();
    assert_eq!(exits.len(), 3, "three pillars, three exits");
    assert_eq!((exits[0].x, exits[0].y), (0x128, 0x53));
    assert_eq!(p.icons().len(), p.sides().len());
}

#[test]
fn the_single_arch_is_moved_by_its_offset() {
    let mut p = Panel::new();
    p.furniture(&SINGLE_DATA, 0x4a);
    assert_eq!(p.plain()[1], (0x1a, 0x94 + 0x4a, 0x53, false));
    assert_eq!(p.icons().len(), 2);
}

#[test]
fn four_rings_show_three_and_four_gems_show_four() {
    let mut h = hoard();
    h.rings = 4;
    h.gems = 9;
    let mut p = Panel::new();
    display_magic(&mut p, 1, 0, &h);
    let rings = p.icons().iter().filter(|i| i.id == 0x28).count();
    let gems = p.icons().iter().filter(|i| i.id == 0x26).count();
    assert_eq!((rings, gems), (3, 4));
    // The gems step sixteen along from 0x57.
    let xs: Vec<i32> = p.icons().iter().filter(|i| i.id == 0x26).map(|i| i.x).collect();
    assert_eq!(xs, vec![0x57, 0x67, 0x77, 0x87]);
    assert!(p.sides().iter().all(|&s| s == 1));
}

#[test]
fn the_scrolls_pack_leftward_and_a_second_is_a_sliver() {
    let mut h = hoard();
    h.scrolls = [0, 2, 0, 1, 0];
    let mut p = Panel::new();
    display_magic(&mut p, 0, 0x96, &h);
    let scrolls: Vec<&Icon> = p.icons().iter().filter(|i| i.y == 0xb7).collect();
    assert_eq!(scrolls.len(), 3);
    // The second kind is the first held, so it is first along the row.
    assert_eq!((scrolls[0].cel, scrolls[0].x, scrolls[0].id), (0xc, 0x1e + 0x96, 46));
    assert_eq!((scrolls[1].cel, scrolls[1].x), (0x10, 0x1e + 0xb + 0x96));
    // The fourth kind takes the next place, not its own.
    assert_eq!((scrolls[2].cel, scrolls[2].x, scrolls[2].id), (0xe, 0x1e + 0x19 + 0x96, 50));
    assert_eq!(scrolls[2].payload, Payload::new(5, 0x10));
}

#[test]
fn the_keys_and_a_moonstone_go_on_their_row() {
    let mut h = hoard();
    h.keys = 0b1010;
    h.moonstones = 4;
    let mut p = Panel::new();
    display_magic(&mut p, 0, 0, &h);
    let row: Vec<(usize, i32, usize)> = p.icons().iter().filter(|i| i.y == 0x6f).map(|i| (i.cel, i.x, i.id)).collect();
    assert_eq!(row, vec![(6, 0x5e, 0x22), (8, 0x82, 0x22), (0, 0x67, 0x20)]);
}

#[test]
fn the_stall_is_five_goods_and_thirteen_daggers() {
    let mut p = Panel::new();
    display_merchant(&mut p, 1, 0x96);
    assert_eq!(p.icons().len(), 18);
    assert_eq!(p.icons().iter().filter(|i| i.cel == 0x15).count(), 13);
    assert_eq!(p.icons()[17].x, 0x20 + 0x96 + 12 * 9);
}

#[test]
fn the_purse_says_how_much_in_gold_pieces() {
    let mut p = Panel::new();
    display_gold(&mut p, 1, 0, 250);
    assert_eq!(p.words()[0], ("250 gp.".to_string(), 0x5c, 0x5b));
    let mut q = Panel::new();
    display_gold(&mut q, 1, 0, 0);
    assert_eq!(q.words()[0].0, "0 gp.");
}

#[test]
fn a_lair_has_a_floor_and_its_gold_only_when_there_is_some() {
    let mut h = hoard();
    h.magic_sword = true;
    let mut p = Panel::new();
    display_lair(&mut p, 1, 0x96, &h, 0);
    assert_eq!(p.plain().len(), 3);
    assert!(p.words().is_empty());
    assert_eq!(p.icons().len(), 1);
    assert_eq!(p.icons()[0].id, 0x1a);
    let mut q = Panel::new();
    display_dragon(&mut q, 1, 0x96, &hoard(), 12);
    assert!(q.plain().is_empty());
    assert_eq!(q.words().len(), 1);
    let mut r = Panel::new();
    display_msword(&mut r, 0, 0, &hoard());
    assert!(r.icons().is_empty());
}

#[test]
fn the_acquired_thing_is_the_next_knight_gadget() {
    let mut p = Panel::new();
    display_acquire(&mut p);
    assert_eq!(p.extra().len(), 1);
    assert_eq!(p.extra()[0].id, NEXT_ID);
    assert_eq!(p.extra()[0].label, "Select next knight");
    assert_eq!((p.extra()[0].w, p.extra()[0].h), (0x14, 0x14));
}

#[test]
fn a_knights_sheet_has_his_numbers_and_his_arms() {
    let sheet = KnightSheet {
        strength: 3,
        constitution: 2,
        endurance: 4,
        daggers: 2,
        weapon: "claymore".into(),
        armour: "chain_mail".into(),
        experience: 120,
        gold: 45,
        health: -3,
        max_health: 60,
        lives: 2,
        toad: true,
        hoard: hoard(),
    };
    let mut p = Panel::new();
    display_knight(&mut p, 0, 0x4a, &sheet, 0, "SIR GOLD");
    let words: Vec<String> = p.words().iter().map(|w| w.0.clone()).collect();
    assert_eq!(words, vec!["SIR GOLD", "120", "45", "3", "2", "4", "0/60"]);
    // Two life points, as a toad's head.
    assert_eq!(p.icons().iter().filter(|i| i.id == 6 && i.cel == 0x13).count(), 2);
    assert_eq!(p.icons().iter().filter(|i| i.cel == 0x15).count(), 2);
    // The claymore is the third weapon, the chain mail the second armour.
    assert!(p.icons().iter().any(|i| i.cel == 0x18 && i.id == 0x18 && i.payload == Payload::new(2, 0x40)));
    assert!(p.icons().iter().any(|i| i.cel == 0x1c && i.id == 0xe));
    assert_eq!(p.plain().len(), ABORDERS.len());
    assert_eq!(p.icons().len(), p.sides().len());
}
