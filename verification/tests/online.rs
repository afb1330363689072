use henge_desktop::online::{
    browse_note, dial_address, Ask, Listing, Online, Page, Player, Row, CARET, LOBBY_NAME_MAX, NAME_MAX,
};

/// Walk on to the create page, whichever row it starts on.
fn creating() -> Online {
    let mut o = Online::new();
    while o.selected() != Row::Host {
        o.move_by(1);
    }
    o.take();
    assert_eq!(o.page, Page::Create);
    o
}

fn listing(name: &str, locked: bool) -> Listing {
    Listing {
        id: "g1".into(),
        name: name.into(),
        at: "203.0.113.7:19910".into(),
        code: String::new(),
        players: 1,
        seats: 4,
        locked,
        version: "v".into(),
    }
}

#[test]
fn the_menu_goes_three_ways_and_back() {
    let mut o = Online::new();
    assert_eq!(o.selected(), Row::GoBrowse);
    assert_eq!(o.take(), Some(Ask::Look));
    assert_eq!(o.page, Page::Browse);
    o.move_by(9);
    assert_eq!(o.selected(), Row::Back);
    o.take();
    assert_eq!(o.page, Page::Menu);

    o.move_by(1);
    assert_eq!(o.selected(), Row::Host);
    o.take();
    assert_eq!(o.page, Page::Create);
    o.move_by(9);
    assert_eq!(o.selected(), Row::Back);
    assert_eq!(o.take(), None);
    assert_eq!(o.page, Page::Menu);

    o.move_by(2);
    assert_eq!(o.selected(), Row::GoJoin);
    o.take();
    assert_eq!(o.page, Page::Join);
    o.move_by(9);
    assert_eq!(o.selected(), Row::Back, "and it clamps at the bottom");
    o.take();
    o.move_by(9);
    assert_eq!(o.take(), Some(Ask::Leave));
}

#[test]
fn a_game_is_taken_straight_off_the_list() {
    let mut o = Online::new();
    assert_eq!(o.take(), Some(Ask::Look));
    assert!(!o.looked, "nothing has answered yet");
    o.listed(Vec::new(), "no games open");
    assert!(o.looked);
    assert_eq!(o.rows(), vec![Row::Again, Row::Back]);
    assert_eq!(o.take(), Some(Ask::Look), "and it can be asked again");

    let open = listing("CARLS GAME", false);
    o.listed(vec![open.clone()], "1 open");
    assert_eq!(o.rows(), vec![Row::Game(0), Row::Again, Row::Back]);
    assert_eq!(o.take(), Some(Ask::Take { game: open, you: "KNIGHT".into(), password: String::new() }));
}

#[test]
fn a_locked_game_asks_for_the_word_before_dialling() {
    let mut o = Online::new();
    let locked = listing("LOCKED", true);
    o.take();
    o.listed(vec![locked.clone()], "1 open");
    assert_eq!(o.take(), None, "no word yet");
    assert_eq!(o.page, Page::Join);
    assert_eq!(o.selected(), Row::Password);
    assert_eq!(o.address, "203.0.113.7:19910", "and it kept the address");
    assert!(o.note.contains("password"));
    o.take();
    for c in "portcullis".chars() {
        o.type_char(c);
    }
    o.take();
    o.page = Page::Browse;
    o.row = 0;
    assert_eq!(o.take(), Some(Ask::Take { game: locked, you: "KNIGHT".into(), password: "portcullis".into() }));
}

#[test]
fn a_password_is_masked_and_never_shown_as_itself() {
    let mut o = creating();
    o.move_by(2);
    assert_eq!(o.selected(), Row::Password);
    assert_eq!(o.shown(Row::Password), "None");
    o.take();
    for c in "portcullis".chars() {
        o.type_char(c);
    }
    let masked = o.shown(Row::Password);
    assert_eq!(masked.chars().count(), "portcullis".chars().count() + 1);
    assert!(masked.chars().all(|c| c == CARET), "{masked:?}");
    o.take();
    assert_eq!(o.shown(Row::Password), "Set");
    assert_eq!(o.password, "portcullis", "and it is still the word underneath");
}

#[test]
fn a_name_is_typed_the_way_the_select_screen_types_one() {
    let mut o = creating();
    assert_eq!(o.selected(), Row::LobbyName);
    o.take();
    assert!(o.typing);
    for _ in 0..20 {
        o.backspace();
    }
    assert_eq!(o.game, "");
    assert_eq!(o.shown(Row::LobbyName), "\\");
    for c in "CARLS GAME".chars() {
        o.type_char(c);
    }
    assert_eq!(o.shown(Row::LobbyName), "CARLS GAME\\");
    o.move_by(1);
    assert_eq!(o.selected(), Row::LobbyName);
    o.take();
    assert!(!o.typing);
    assert_eq!(o.shown(Row::LobbyName), "CARLS GAME");
}

#[test]
fn a_name_stops_at_the_length_of_its_field() {
    let mut o = creating();
    o.take();
    for _ in 0..40 {
        o.backspace();
    }
    for _ in 0..60 {
        o.type_char('X');
    }
    assert_eq!(o.game.chars().count(), LOBBY_NAME_MAX);
    o.take();
    o.move_by(1);
    o.take();
    for _ in 0..40 {
        o.backspace();
    }
    for _ in 0..60 {
        o.type_char('Y');
    }
    assert_eq!(o.you.chars().count(), NAME_MAX);
}

#[test]
fn an_emptied_name_goes_back_to_its_default() {
    let mut o = creating();
    o.move_by(1);
    o.take();
    for _ in 0..20 {
        o.backspace();
    }
    assert_eq!(o.you, "");
    o.take();
    assert_eq!(o.you, Online::default().you);
}

#[test]
fn opening_a_game_asks_for_it_by_name() {
    let mut o = creating();
    o.move_by(3);
    assert_eq!(o.selected(), Row::Host);
    assert_eq!(o.take(), Some(Ask::Open { game: "MOONSTONE".into(), you: "KNIGHT".into(), password: String::new() }));
}

#[test]
fn joining_needs_an_address_and_says_so() {
    let mut o = Online::new();
    o.move_by(2);
    assert_eq!(o.selected(), Row::GoJoin);
    o.take();
    o.move_by(3);
    assert_eq!(o.selected(), Row::Dial);
    assert_eq!(o.take(), None, "nothing to dial");
    assert!(o.note.contains("address"));
    o.move_by(-3);
    o.take();
    for c in " 10.0.0.4:19910 ".chars() {
        o.type_char(c);
    }
    o.take();
    o.move_by(3);
    assert_eq!(
        o.take(),
        Some(Ask::Dial { address: "10.0.0.4:19910".into(), you: "KNIGHT".into(), password: String::new() })
    );
}

#[test]
fn the_lobby_has_no_knight_row() {
    let mut o = Online::new();
    o.sat_down(1, false);
    o.roster.players = vec![
        Player { seat: 0, name: "host".into(), ready: true },
        Player { seat: 1, name: "me".into(), ready: false },
    ];
    assert_eq!(o.selected(), Row::Ready);
    assert_eq!(o.adjust(1), None, "and there is nothing here to adjust");
    assert_eq!(o.adjust(-1), None);
}

#[test]
fn ready_is_a_switch_and_the_host_alone_can_begin() {
    let mut o = Online::new();
    o.sat_down(1, false);
    assert_eq!(o.rows(), vec![Row::Ready, Row::Back]);
    assert_eq!(o.take(), Some(Ask::Seat { ready: true }));
    assert!(o.ready);
    o.take();
    assert!(!o.ready, "and it switches back");
    let mut h = Online::new();
    h.sat_down(0, true);
    assert_eq!(h.rows(), vec![Row::Ready, Row::Begin, Row::Back]);
    h.move_by(1);
    assert_eq!(h.take(), Some(Ask::Begin));
}

#[test]
fn leaving_a_lobby_goes_back_to_the_menu_with_a_reason() {
    let mut o = Online::new();
    o.sat_down(2, false);
    o.ready = true;
    o.move_by(9);
    assert_eq!(o.selected(), Row::Back);
    assert_eq!(o.take(), Some(Ask::Leave));
    o.back_to_menu("the host closed the game");
    assert_eq!(o.page, Page::Menu);
    assert_eq!(o.seat, None);
    assert!(!o.ready);
    assert!(o.note.contains("closed"));
}

#[test]
fn every_row_has_a_label_and_only_the_text_ones_type() {
    for row in [
        Row::LobbyName,
        Row::PlayerName,
        Row::Address,
        Row::Password,
        Row::Host,
        Row::GoJoin,
        Row::Dial,
        Row::Ready,
        Row::Begin,
        Row::Back,
    ] {
        assert!(!row.label().is_empty(), "{row:?}");
        assert_eq!(row.is_text(), matches!(row, Row::LobbyName | Row::PlayerName | Row::Address | Row::Password));
    }
}

#[test]
fn an_answered_list_puts_the_arrow_back_on_top() {
    let mut o = Online::new();
    o.take();
    o.listed(vec![listing("ONE", false), listing("TWO", false)], "2 open");
    o.move_by(2);
    assert_eq!(o.selected(), Row::Again);
    o.listed(vec![listing("ONE", false)], "1 open");
    assert_eq!(o.row, 0);
    assert_eq!(o.note, "1 open");
    assert_eq!(o.selected(), Row::Game(0));
}

#[test]
fn typing_outside_a_text_row_or_when_not_typing_does_nothing() {
    let mut o = Online::new();
    o.type_char('Z');
    o.backspace();
    assert_eq!(o.game, "MOONSTONE");
    assert_eq!(o.you, "KNIGHT");
    let mut c = creating();
    c.type_char('Z');
    assert_eq!(c.game, "MOONSTONE", "not typing yet");
    c.take();
    c.type_char('Z');
    assert_eq!(c.game, "MOONSTONEZ");
    assert_eq!(c.shown(Row::LobbyName), "MOONSTONEZ\\");
    assert_eq!(c.shown(Row::PlayerName), "KNIGHT", "only the row being typed has the caret");
    assert_eq!(c.shown(Row::Host), "");
}

#[test]
fn a_bare_address_is_dialled_on_the_usual_port() {
    assert_eq!(dial_address("192.168.1.7", 7710), "192.168.1.7:7710");
    assert_eq!(dial_address("example.org:9000", 7710), "example.org:9000");
    assert_eq!(dial_address("", 5), ":5");
}

#[test]
fn a_list_says_how_many_games_are_open() {
    assert_eq!(browse_note(0, "list.example"), "no games open on list.example");
    assert_eq!(browse_note(3, "list.example"), "3 open on list.example");
    assert_eq!(browse_note(12, "x"), "12 open on x");
}

#[test]
fn a_tick_of_keys_moves_types_and_takes_in_order() {
    let mut o = Online::new();
    // Down to Host and take it, in one tick: the move comes before the take.
    assert_eq!(o.keys(false, true, false, false, false, None, true), None);
    assert_eq!(o.page, Page::Create);
    // Fire on the game's name starts typing; a character and a backspace in
    // the same tick go through in order, the character last.
    o.keys(false, false, false, false, false, None, true);
    let before = o.game.clone();
    o.keys(false, false, true, true, true, Some('X'), false);
    let mut want = before.clone();
    want.pop();
    want.push('X');
    assert_eq!(o.game, want);
    // Up and down do nothing while typing.
    let row = o.row;
    o.keys(true, true, false, false, false, None, false);
    assert_eq!(o.row, row);
}
