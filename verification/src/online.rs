//! The lobby screen: a state machine with no pixels in it.
//!
//! The screen is ours, but the way it is driven is not. It reads the same
//! five bits every other screen reads, it takes fire as "do this row", and a
//! text field on it behaves exactly like `TypeName`: fire starts the typing,
//! fire or Enter ends it, backspace walks back and nothing past a field's
//! length is accepted.
//!
//! It settles who is here and nothing else; which knight a seat plays is
//! the select screen's, after the game begins.
//!
//! Everything that touches a socket is the caller's: the screen answers each
//! key with an [`Ask`], and is told what came of it through
//! [`Online::listed`], [`Online::sat_down`] and [`Online::back_to_menu`].
//!
//! Every method is specified over [`OnlineView`], the screen as values.

use vstd::prelude::*;
use crate::chars::{
    blank, chars_of, copy_string, decimal, decimal_chars, find_char, push_char, string_of, trim_string,
    trimmed,
};

verus! {

/// How long a player's name may be: the select screen's own thirteen.
pub const NAME_MAX: usize = 13;

/// How long a game's name may be on the list.
pub const LOBBY_NAME_MAX: usize = 20;

/// How long an address may be: long enough for a dotted quad and a port,
/// and for a name.
pub const ADDRESS_MAX: usize = 40;

/// How long a password may be.
pub const PASSWORD_MAX: usize = 32;

/// `TypeName`'s caret, drawn after a name being typed. The font draws it as
/// the stroke, which is why a password being typed is masked with it.
pub const CARET: char = '\\';

/// A name nobody has to type before they can play.
pub const DEFAULT_GAME: &'static str = "MOONSTONE";
pub const DEFAULT_YOU: &'static str = "KNIGHT";

/// Which page of the lobby is up.
#[derive(Clone, Copy, Debug, PartialEq, Eq, Structural)]
pub enum Page {
    /// Host a game, or join one.
    Menu,
    /// Naming a game before opening it.
    Create,
    /// The list of games somebody else has opened.
    Browse,
    /// The address of a game to join.
    Join,
    /// In a lobby, waiting for the rest.
    Waiting,
}

/// A row of whichever page is up.
#[derive(Clone, Copy, Debug, PartialEq, Eq, Structural)]
pub enum Row {
    /// The name of the game being hosted.
    LobbyName,
    /// What to call yourself.
    PlayerName,
    /// Where the game is: an address and a port.
    Address,
    /// The word this game wants, if it wants one.
    Password,
    /// Look at the list of open games.
    GoBrowse,
    /// Ask the list server again.
    Again,
    /// One game on the list.
    Game(usize),
    /// Open the lobby.
    Host,
    /// Go to the joining page.
    GoJoin,
    /// Dial the address.
    Dial,
    /// Sitting down.
    Ready,
    /// Begin. The host's row and nobody else's.
    Begin,
    /// Out: back to the title, or out of the lobby.
    Back,
}

impl Row {
    /// The rows fire types into.
    pub open spec fn text(self) -> bool {
        self is LobbyName || self is PlayerName || self is Address || self is Password
    }

    /// Whether fire on this row starts typing rather than doing something.
    pub fn is_text(self) -> (b: bool)
        ensures
            b == self.text(),
    {
        match self {
            Row::LobbyName | Row::PlayerName | Row::Address | Row::Password => true,
            _ => false,
        }
    }

    /// The label a row is drawn with.
    pub open spec fn label_spec(self) -> Seq<char> {
        match self {
            Row::LobbyName => "Game"@,
            Row::PlayerName => "You"@,
            Row::Address => "Address"@,
            Row::Password => "Password"@,
            Row::GoBrowse => "Open games"@,
            Row::Again => "Look again"@,
            Row::Game(_) => ""@,
            Row::Host => "Open a game"@,
            Row::GoJoin => "Join a game"@,
            Row::Dial => "Join"@,
            Row::Ready => "Ready"@,
            Row::Begin => "Begin"@,
            Row::Back => "Back"@,
        }
    }

    /// The label, which is also what the tests read so the two cannot
    /// drift. A game on the list is drawn from the list, so its own label is
    /// empty.
    pub fn label(self) -> (s: &'static str)
        ensures
            s@ == self.label_spec(),
    {
        match self {
            Row::LobbyName => "Game",
            Row::PlayerName => "You",
            Row::Address => "Address",
            Row::Password => "Password",
            Row::GoBrowse => "Open games",
            Row::Again => "Look again",
            Row::Game(_) => "",
            Row::Host => "Open a game",
            Row::GoJoin => "Join a game",
            Row::Dial => "Join",
            Row::Ready => "Ready",
            Row::Begin => "Begin",
            Row::Back => "Back",
        }
    }
}

/// One open game, as the list server says it.
#[derive(Clone, Debug, PartialEq, Eq)]
pub struct Listing {
    pub id: String,
    pub name: String,
    /// Where it can be dialled.
    pub at: String,
    pub code: String,
    pub players: u8,
    pub seats: u8,
    /// Whether it wants a password.
    pub locked: bool,
    pub version: String,
}

/// A listing, as values.
pub struct ListingView {
    pub id: Seq<char>,
    pub name: Seq<char>,
    pub at: Seq<char>,
    pub code: Seq<char>,
    pub players: u8,
    pub seats: u8,
    pub locked: bool,
    pub version: Seq<char>,
}

impl View for Listing {
    type V = ListingView;

    open spec fn view(&self) -> ListingView {
        ListingView {
            id: self.id@,
            name: self.name@,
            at: self.at@,
            code: self.code@,
            players: self.players,
            seats: self.seats,
            locked: self.locked,
            version: self.version@,
        }
    }
}

impl Listing {
    /// A second listing the same as this one.
    pub fn copy(&self) -> (l: Listing)
        ensures
            l@ == self@,
    {
        Listing {
            id: copy_string(&self.id),
            name: copy_string(&self.name),
            at: copy_string(&self.at),
            code: copy_string(&self.code),
            players: self.players,
            seats: self.seats,
            locked: self.locked,
            version: copy_string(&self.version),
        }
    }
}

/// One seat in a lobby, as the host says it.
#[derive(Clone, Debug, PartialEq, Eq)]
pub struct Player {
    pub seat: u8,
    pub name: String,
    pub ready: bool,
}

/// The roster, as the host last said it.
#[derive(Clone, Debug, PartialEq, Eq)]
pub struct Lobby {
    pub players: Vec<Player>,
}

/// What the screen is asking the outside world to do.
#[derive(Clone, Debug, PartialEq, Eq)]
pub enum Ask {
    /// Open a lobby under this name, and lock it if a word was given.
    Open { game: String, you: String, password: String },
    /// Dial this address as this person.
    Dial { address: String, you: String, password: String },
    /// Fetch the list of open games from the list server.
    Look,
    /// Join one of the games on the list, however it has to be reached.
    Take { game: Listing, you: String, password: String },
    /// Tell the host whether this seat is ready.
    Seat { ready: bool },
    /// The host is starting.
    Begin,
    /// Out of the lobby, or off the screen entirely.
    Leave,
}

/// An ask, as values.
pub enum AskView {
    Open { game: Seq<char>, you: Seq<char>, password: Seq<char> },
    Dial { address: Seq<char>, you: Seq<char>, password: Seq<char> },
    Look,
    Take { game: ListingView, you: Seq<char>, password: Seq<char> },
    Seat { ready: bool },
    Begin,
    Leave,
}

impl View for Ask {
    type V = AskView;

    open spec fn view(&self) -> AskView {
        match self {
            Ask::Open { game, you, password } => AskView::Open { game: game@, you: you@, password: password@ },
            Ask::Dial { address, you, password } => AskView::Dial {
                address: address@,
                you: you@,
                password: password@,
            },
            Ask::Look => AskView::Look,
            Ask::Take { game, you, password } => AskView::Take { game: game@, you: you@, password: password@ },
            Ask::Seat { ready } => AskView::Seat { ready: *ready },
            Ask::Begin => AskView::Begin,
            Ask::Leave => AskView::Leave,
        }
    }
}

/// The lobby screen.
pub struct Online {
    pub page: Page,
    /// Which row the arrow is against.
    pub row: usize,
    /// Typing into the highlighted row, which only a text row allows.
    pub typing: bool,
    pub game: String,
    pub you: String,
    pub address: String,
    /// The word this game wants, or the one being offered to join with.
    /// Empty means none. It never reaches the list server: the list carries
    /// only the fact that a game wants one, and the host does the checking.
    pub password: String,
    /// The open games, as the list server last said them.
    pub games: Vec<Listing>,
    /// Whether the list has been answered since this page was opened, so an
    /// empty list can be told apart from one nobody has fetched.
    pub looked: bool,
    pub ready: bool,
    /// The roster, as the host last said it. Empty until there is one.
    pub roster: Lobby,
    /// The seat the host gave, once it has.
    pub seat: Option<u8>,
    /// Whether we are the host, which decides whether [`Row::Begin`] is there.
    pub hosting: bool,
    /// One line under the roster: what the router said, who just joined, why
    /// the last attempt failed.
    pub note: String,
    /// The address to read out to a friend, once the router has been asked.
    pub reachable: String,
    /// What each seat's round trip measured, in milliseconds.
    pub trips: std::collections::BTreeMap<u8, u32>,
}

/// The screen, as values.
pub struct OnlineView {
    pub page: Page,
    pub row: usize,
    pub typing: bool,
    pub game: Seq<char>,
    pub you: Seq<char>,
    pub address: Seq<char>,
    pub password: Seq<char>,
    pub games: Seq<ListingView>,
    pub looked: bool,
    pub ready: bool,
    pub players: Seq<Player>,
    pub seat: Option<u8>,
    pub hosting: bool,
    pub note: Seq<char>,
    pub reachable: Seq<char>,
    pub trips: Map<u8, u32>,
}

impl View for Online {
    type V = OnlineView;

    open spec fn view(&self) -> OnlineView {
        OnlineView {
            page: self.page,
            row: self.row,
            typing: self.typing,
            game: self.game@,
            you: self.you@,
            address: self.address@,
            password: self.password@,
            games: self.games@.map_values(|l: Listing| l@),
            looked: self.looked,
            ready: self.ready,
            players: self.roster.players@,
            seat: self.seat,
            hosting: self.hosting,
            note: self.note@,
            reachable: self.reachable@,
            trips: self.trips@,
        }
    }
}

/// The rows of a page: `games` of them for the list, and the host's
/// [`Row::Begin`] only for the host.
pub open spec fn rows_spec(page: Page, games: nat, hosting: bool) -> Seq<Row> {
    match page {
        Page::Menu => seq![Row::GoBrowse, Row::Host, Row::GoJoin, Row::Back],
        Page::Create => seq![Row::LobbyName, Row::PlayerName, Row::Password, Row::Host, Row::Back],
        Page::Browse => Seq::new(games, |i: int| Row::Game(i as usize)) + seq![Row::Again, Row::Back],
        Page::Join => seq![Row::Address, Row::PlayerName, Row::Password, Row::Dial, Row::Back],
        Page::Waiting => if hosting {
            seq![Row::Ready, Row::Begin, Row::Back]
        } else {
            seq![Row::Ready, Row::Back]
        },
    }
}

impl OnlineView {
    /// The rows of the page that is up.
    pub open spec fn rows(self) -> Seq<Row> {
        rows_spec(self.page, self.games.len(), self.hosting)
    }

    /// The row the arrow is against: the last one if it has run past it.
    pub open spec fn selected(self) -> Row {
        let rows = self.rows();
        if self.row < rows.len() - 1 {
            rows[self.row as int]
        } else {
            rows[rows.len() - 1]
        }
    }

    /// What a text row holds.
    pub open spec fn field(self, row: Row) -> Seq<char> {
        match row {
            Row::LobbyName => self.game,
            Row::PlayerName => self.you,
            Row::Address => self.address,
            _ => self.password,
        }
    }

    /// The longest a text row's field may grow by typing.
    pub open spec fn field_max(row: Row) -> int {
        match row {
            Row::LobbyName => LOBBY_NAME_MAX as int,
            Row::PlayerName => NAME_MAX as int,
            Row::Address => ADDRESS_MAX as int,
            _ => PASSWORD_MAX as int,
        }
    }

    /// This screen with one text row's field replaced.
    pub open spec fn with_field(self, row: Row, s: Seq<char>) -> OnlineView {
        match row {
            Row::LobbyName => OnlineView { game: s, ..self },
            Row::Address => OnlineView { address: s, ..self },
            Row::Password => OnlineView { password: s, ..self },
            _ => OnlineView { you: s, ..self },
        }
    }

    /// What a row shows: a text row's field, with the caret after it while
    /// it is being typed; a password never as itself, but as one caret a
    /// character and one more while it is typed, and then only as whether
    /// there is one.
    pub open spec fn shown(self, row: Row) -> Seq<char> {
        let typing_here = self.typing && self.selected() == row;
        match row {
            Row::Password => if typing_here {
                Seq::new(self.password.len() + 1, |i: int| CARET)
            } else if self.password.len() == 0 {
                "None"@
            } else {
                "Set"@
            },
            Row::LobbyName | Row::PlayerName | Row::Address => if typing_here {
                self.field(row).push(CARET)
            } else {
                self.field(row)
            },
            _ => Seq::empty(),
        }
    }

    /// Up and down, as values: nothing while typing, and otherwise clamped
    /// at both ends.
    pub open spec fn moved(self, delta: int) -> OnlineView {
        if self.typing {
            self
        } else {
            let last = self.rows().len() - 1;
            let to = self.row + delta;
            OnlineView {
                row: (if to < 0 {
                    0
                } else if to > last {
                    last
                } else {
                    to
                }) as usize,
                ..self
            }
        }
    }

    /// Fire, as values: the screen afterwards and what it asks for.
    pub open spec fn taken(self) -> (OnlineView, Option<AskView>) {
        let row = self.selected();
        if row.text() {
            let typing = !self.typing;
            let you = if !typing && row == Row::PlayerName && trimmed(self.you).len() == 0 {
                DEFAULT_YOU@
            } else {
                self.you
            };
            let game = if !typing && row == Row::LobbyName && trimmed(self.game).len() == 0 {
                DEFAULT_GAME@
            } else {
                self.game
            };
            (OnlineView { typing, you, game, ..self }, None)
        } else {
            let password = trimmed(self.password);
            match row {
                Row::GoBrowse => (
                    OnlineView { page: Page::Browse, row: 0, looked: false, ..self },
                    Some(AskView::Look),
                ),
                Row::Again => (OnlineView { row: 0, ..self }, Some(AskView::Look)),
                Row::Game(n) => if n >= self.games.len() {
                    (self, None)
                } else {
                    let g = self.games[n as int];
                    if g.locked && password.len() == 0 {
                        (
                            OnlineView {
                                note: "that game wants a password: set one below"@,
                                page: Page::Join,
                                row: 2,
                                address: g.at,
                                ..self
                            },
                            None,
                        )
                    } else {
                        (self, Some(AskView::Take { game: g, you: self.you, password }))
                    }
                },
                Row::Host => if self.page == Page::Menu {
                    (OnlineView { page: Page::Create, row: 0, ..self }, None)
                } else {
                    (self, Some(AskView::Open { game: self.game, you: self.you, password }))
                },
                Row::GoJoin => (OnlineView { page: Page::Join, row: 0, ..self }, None),
                Row::Dial => if trimmed(self.address).len() == 0 {
                    (OnlineView { note: "an address to join first"@, ..self }, None)
                } else {
                    (self, Some(AskView::Dial { address: trimmed(self.address), you: self.you, password }))
                },
                Row::Ready => (OnlineView { ready: !self.ready, ..self }, Some(AskView::Seat { ready: !self.ready })),
                Row::Begin => (self, Some(AskView::Begin)),
                _ => if self.page == Page::Menu || self.page == Page::Waiting {
                    (self, Some(AskView::Leave))
                } else {
                    (OnlineView { page: Page::Menu, row: 0, ..self }, None)
                },
            }
        }
    }

    /// One character typed, as values: only while typing, only into a text
    /// row, and never past the field's length.
    pub open spec fn typed(self, c: char) -> OnlineView {
        let row = self.selected();
        if !self.typing || !row.text() || self.field(row).len() >= OnlineView::field_max(row) {
            self
        } else {
            self.with_field(row, self.field(row).push(c))
        }
    }

    /// Backspace, as values: the last character of the field being typed
    /// goes, and an empty field stays empty.
    pub open spec fn backspaced(self) -> OnlineView {
        let row = self.selected();
        if !self.typing || !row.text() {
            self
        } else if self.field(row).len() == 0 {
            self
        } else {
            self.with_field(row, self.field(row).drop_last())
        }
    }
}

impl OnlineView {
    /// One tick of keys on the lobby, as values, in the order the shell
    /// reads them: up, down, backspace, the character typed, and fire or
    /// Enter, which is the only one that asks for anything.
    pub open spec fn keyed(self, up: bool, down: bool, back: bool, typed: Option<char>, take: bool) -> (
        OnlineView,
        Option<AskView>,
    ) {
        let a = if up { self.moved(-1) } else { self };
        let b = if down { a.moved(1) } else { a };
        let c = if back { b.backspaced() } else { b };
        let d = match typed {
            Some(ch) => c.typed(ch),
            None => c,
        };
        if take {
            d.taken()
        } else {
            (d, None)
        }
    }
}

/// The characters of a string, counted.
fn count_chars(s: &String) -> (n: usize)
    ensures
        n == s@.len(),
{
    chars_of(s.as_str()).len()
}

/// A string with its last character taken off, if it has one.
fn without_last(s: &String) -> (r: String)
    ensures
        r@ == if s@.len() > 0 {
            s@.drop_last()
        } else {
            s@
        },
{
    let cs = chars_of(s.as_str());
    if cs.len() == 0 {
        return copy_string(s);
    }
    let mut keep: Vec<char> = Vec::new();
    let mut i: usize = 0;
    while i < cs.len() - 1
        invariant
            i < cs@.len(),
            keep@ == cs@.take(i as int),
        decreases cs@.len() - i,
    {
        keep.push(cs[i]);
        proof {
            assert(cs@.take(i as int + 1) =~= cs@.take(i as int).push(cs@[i as int]));
        }
        i = i + 1;
    }
    proof {
        assert(keep@ =~= s@.drop_last());
    }
    string_of(keep.as_slice())
}

impl Online {
    /// The screen as it opens: the menu, with a name for the game and for
    /// you that nobody has to type before they can play.
    pub fn new() -> (o: Online)
        ensures
            o@.page == Page::Menu,
            o@.row == 0,
            !o@.typing,
            o@.game == DEFAULT_GAME@,
            o@.you == DEFAULT_YOU@,
            o@.address.len() == 0,
            o@.password.len() == 0,
            o@.games.len() == 0,
            !o@.looked,
            !o@.ready,
            o@.players.len() == 0,
            o@.seat is None,
            !o@.hosting,
            o@.note.len() == 0,
            o@.reachable.len() == 0,
            o@.trips == Map::<u8, u32>::empty(),
    {
        Online {
            page: Page::Menu,
            row: 0,
            typing: false,
            game: DEFAULT_GAME.to_owned(),
            you: DEFAULT_YOU.to_owned(),
            address: String::new(),
            password: String::new(),
            games: Vec::new(),
            looked: false,
            ready: false,
            roster: Lobby { players: Vec::new() },
            seat: None,
            hosting: false,
            note: String::new(),
            reachable: String::new(),
            trips: std::collections::BTreeMap::new(),
        }
    }

    /// The rows of the page that is up.
    pub fn rows(&self) -> (r: Vec<Row>)
        ensures
            r@ == self@.rows(),
    {
        let mut r: Vec<Row> = Vec::new();
        match self.page {
            Page::Menu => {
                r.push(Row::GoBrowse);
                r.push(Row::Host);
                r.push(Row::GoJoin);
                r.push(Row::Back);
            },
            Page::Create => {
                r.push(Row::LobbyName);
                r.push(Row::PlayerName);
                r.push(Row::Password);
                r.push(Row::Host);
                r.push(Row::Back);
            },
            Page::Browse => {
                let n = self.games.len();
                let mut i: usize = 0;
                while i < n
                    invariant
                        i <= n,
                        n == self.games@.len(),
                        r@ == Seq::new(i as nat, |k: int| Row::Game(k as usize)),
                    decreases n - i,
                {
                    r.push(Row::Game(i));
                    proof {
                        assert(r@ =~= Seq::new((i + 1) as nat, |k: int| Row::Game(k as usize)));
                    }
                    i = i + 1;
                }
                r.push(Row::Again);
                r.push(Row::Back);
                proof {
                    assert(self@.games.len() == n);
                }
            },
            Page::Join => {
                r.push(Row::Address);
                r.push(Row::PlayerName);
                r.push(Row::Password);
                r.push(Row::Dial);
                r.push(Row::Back);
            },
            Page::Waiting => {
                r.push(Row::Ready);
                if self.hosting {
                    r.push(Row::Begin);
                }
                r.push(Row::Back);
            },
        }
        proof {
            assert(r@ =~= self@.rows());
        }
        r
    }

    /// The row the arrow is against.
    pub fn selected(&self) -> (r: Row)
        ensures
            r == self@.selected(),
    {
        let rows = self.rows();
        let n = rows.len();
        if self.row < n - 1 {
            rows[self.row]
        } else {
            rows[n - 1]
        }
    }

    /// What is in a text row, with the caret on it the way `ChooseRefresh`
    /// draws a name being typed. A password is never drawn: the screen is on
    /// somebody's monitor and there may well be somebody else in the room.
    pub fn shown(&self, row: Row) -> (s: String)
        ensures
            s@ == self@.shown(row),
    {
        let here = self.typing && self.selected() == row;
        match row {
            Row::Password => {
                let n = count_chars(&self.password);
                if here {
                    let mut v: Vec<char> = Vec::new();
                    v.push(CARET);
                    proof {
                        assert(v@ =~= Seq::new(1nat, |k: int| CARET));
                    }
                    let mut i: usize = 0;
                    while i < n
                        invariant
                            i <= n,
                            n == self.password@.len(),
                            v@ == Seq::new((i + 1) as nat, |k: int| CARET),
                        decreases n - i,
                    {
                        v.push(CARET);
                        proof {
                            assert(v@ =~= Seq::new((i + 2) as nat, |k: int| CARET));
                        }
                        i = i + 1;
                    }
                    string_of(v.as_slice())
                } else if n == 0 {
                    "None".to_owned()
                } else {
                    "Set".to_owned()
                }
            },
            Row::LobbyName | Row::PlayerName | Row::Address => {
                let text = match row {
                    Row::LobbyName => &self.game,
                    Row::PlayerName => &self.you,
                    _ => &self.address,
                };
                let mut out = copy_string(text);
                if here {
                    push_char(&mut out, CARET);
                }
                out
            },
            _ => String::new(),
        }
    }

    /// Up and down. Clamps at both ends, like the title's own list, and
    /// does nothing while a name is being typed.
    pub fn move_by(&mut self, delta: i32)
        requires
            old(self).row <= i32::MAX,
            i32::MIN <= old(self).row + delta <= i32::MAX,
            old(self).games@.len() + 2 <= i32::MAX,
        ensures
            final(self)@ == old(self)@.moved(delta as int),
    {
        if self.typing {
            return;
        }
        let rows = self.rows();
        let last: i32 = rows.len() as i32 - 1;
        let to: i32 = self.row as i32 + delta;
        let clamped: i32 = if to < 0 {
            0
        } else if to > last {
            last
        } else {
            to
        };
        self.row = clamped as usize;
    }

    /// Left and right. Nothing on this screen adjusts: which knight a seat
    /// plays is settled on the select screen after the game begins, and
    /// everything else is a row you take.
    pub fn adjust(&mut self, delta: i32) -> (r: Option<Ask>)
        ensures
            r is None,
            final(self)@ == old(self)@,
    {
        None
    }

    /// Fire, or Enter. The one key that does things.
    pub fn take(&mut self) -> (r: Option<Ask>)
        ensures
            final(self)@ == old(self)@.taken().0,
            match r {
                Some(a) => old(self)@.taken().1 == Some(a@),
                None => old(self)@.taken().1 is None,
            },
    {
        let row = self.selected();
        if row.is_text() {
            self.typing = !self.typing;
            if !self.typing {
                if row == Row::PlayerName && blank(self.you.as_str()) {
                    self.you = DEFAULT_YOU.to_owned();
                }
                if row == Row::LobbyName && blank(self.game.as_str()) {
                    self.game = DEFAULT_GAME.to_owned();
                }
            }
            return None;
        }
        match row {
            Row::GoBrowse => {
                self.page = Page::Browse;
                self.row = 0;
                self.looked = false;
                Some(Ask::Look)
            },
            Row::Again => {
                self.row = 0;
                Some(Ask::Look)
            },
            Row::Game(n) => {
                if n >= self.games.len() {
                    return None;
                }
                let game = self.games[n].copy();
                proof {
                    assert(self@.games[n as int] == self.games@[n as int]@);
                }
                if game.locked && blank(self.password.as_str()) {
                    self.note = "that game wants a password: set one below".to_owned();
                    self.page = Page::Join;
                    self.row = 2;
                    self.address = copy_string(&game.at);
                    return None;
                }
                Some(Ask::Take { game, you: copy_string(&self.you), password: trim_string(self.password.as_str()) })
            },
            Row::Host => {
                if self.page == Page::Menu {
                    self.page = Page::Create;
                    self.row = 0;
                    None
                } else {
                    Some(
                        Ask::Open {
                            game: copy_string(&self.game),
                            you: copy_string(&self.you),
                            password: trim_string(self.password.as_str()),
                        },
                    )
                }
            },
            Row::GoJoin => {
                self.page = Page::Join;
                self.row = 0;
                None
            },
            Row::Dial => {
                if blank(self.address.as_str()) {
                    self.note = "an address to join first".to_owned();
                    return None;
                }
                Some(
                    Ask::Dial {
                        address: trim_string(self.address.as_str()),
                        you: copy_string(&self.you),
                        password: trim_string(self.password.as_str()),
                    },
                )
            },
            Row::Ready => {
                self.ready = !self.ready;
                Some(Ask::Seat { ready: self.ready })
            },
            Row::Begin => Some(Ask::Begin),
            _ => {
                if self.page == Page::Menu || self.page == Page::Waiting {
                    Some(Ask::Leave)
                } else {
                    self.page = Page::Menu;
                    self.row = 0;
                    None
                }
            },
        }
    }

    /// One character, for the row being typed into.
    pub fn type_char(&mut self, c: char)
        ensures
            final(self)@ == old(self)@.typed(c),
    {
        if !self.typing {
            return;
        }
        let row = self.selected();
        match row {
            Row::LobbyName => {
                if count_chars(&self.game) < LOBBY_NAME_MAX {
                    push_char(&mut self.game, c);
                }
            },
            Row::PlayerName => {
                if count_chars(&self.you) < NAME_MAX {
                    push_char(&mut self.you, c);
                }
            },
            Row::Address => {
                if count_chars(&self.address) < ADDRESS_MAX {
                    push_char(&mut self.address, c);
                }
            },
            Row::Password => {
                if count_chars(&self.password) < PASSWORD_MAX {
                    push_char(&mut self.password, c);
                }
            },
            _ => {},
        }
    }

    /// Backspace, which stops at nothing rather than wrapping.
    pub fn backspace(&mut self)
        ensures
            final(self)@ == old(self)@.backspaced(),
    {
        if !self.typing {
            return;
        }
        let row = self.selected();
        match row {
            Row::LobbyName => {
                self.game = without_last(&self.game);
            },
            Row::PlayerName => {
                self.you = without_last(&self.you);
            },
            Row::Address => {
                self.address = without_last(&self.address);
            },
            Row::Password => {
                self.password = without_last(&self.password);
            },
            _ => {},
        }
    }

    /// The list server has answered.
    pub fn listed(&mut self, games: Vec<Listing>, note: &str)
        ensures
            final(self)@ == (OnlineView {
                games: games@.map_values(|l: Listing| l@),
                looked: true,
                row: 0,
                note: note@,
                ..old(self)@
            }),
    {
        self.games = games;
        self.looked = true;
        self.row = 0;
        self.note = note.to_owned();
    }

    /// We are in a lobby now: the waiting page, with a seat, not yet ready.
    pub fn sat_down(&mut self, seat: u8, hosting: bool)
        ensures
            final(self)@ == (OnlineView {
                page: Page::Waiting,
                row: 0,
                typing: false,
                seat: Some(seat),
                hosting,
                ready: false,
                ..old(self)@
            }),
    {
        self.page = Page::Waiting;
        self.row = 0;
        self.typing = false;
        self.seat = Some(seat);
        self.hosting = hosting;
        self.ready = false;
    }

    /// Back to the menu, with something to show for it: no seat, no roster,
    /// no list and no round trips; only the names and the note survive.
    pub fn back_to_menu(&mut self, note: &str)
        ensures
            final(self)@ == (OnlineView {
                page: Page::Menu,
                row: 0,
                typing: false,
                seat: None,
                hosting: false,
                ready: false,
                players: Seq::empty(),
                reachable: Seq::empty(),
                note: note@,
                games: Seq::empty(),
                looked: false,
                trips: Map::empty(),
                ..old(self)@
            }),
    {
        self.page = Page::Menu;
        self.row = 0;
        self.typing = false;
        self.seat = None;
        self.hosting = false;
        self.ready = false;
        self.roster = Lobby { players: Vec::new() };
        self.reachable = String::new();
        self.note = note.to_owned();
        self.games.clear();
        self.looked = false;
        self.trips.clear();
        proof {
            assert(self@.games =~= Seq::<ListingView>::empty());
        }
    }
}

impl Default for Online {
    /// [`Online::new`].
    fn default() -> (o: Online)
        ensures
            o@.page == Page::Menu,
            o@.row == 0,
            !o@.typing,
            o@.game == DEFAULT_GAME@,
            o@.you == DEFAULT_YOU@,
            o@.password.len() == 0,
            o@.games.len() == 0,
            o@.seat is None,
            !o@.hosting,
    {
        Online::new()
    }
}

/// **A password is never shown as itself**: two screens that differ only in
/// the password's characters, not its length, show the password row alike,
/// and what they show is carets, `None` or `Set`.
pub proof fn a_password_is_never_shown(a: OnlineView, b: OnlineView)
    requires
        a.password.len() == b.password.len(),
        b == (OnlineView { password: b.password, ..a }),
    ensures
        a.shown(Row::Password) == b.shown(Row::Password),
        a.shown(Row::Password) == Seq::new(a.password.len() + 1, |i: int| CARET) || a.shown(Row::Password)
            == "None"@ || a.shown(Row::Password) == "Set"@,
{
    assert(a.selected() == b.selected());
}

/// **A field stops at its length**: typing never takes a text row's field
/// past the longest it may be, and a character typed into a field with
/// room is appended and nothing else changes.
pub proof fn a_field_stops_at_its_length(v: OnlineView, c: char, row: Row)
    requires
        row.text(),
        v.field(row).len() <= OnlineView::field_max(row),
    ensures
        v.typed(c).field(row).len() <= OnlineView::field_max(row),
        v.typing && v.selected() == row && v.field(row).len() < OnlineView::field_max(row) ==> v.typed(c).field(row)
            == v.field(row).push(c),
        v.selected() != row ==> v.typed(c).field(row) == v.field(row),
{
}

/// **The arrow clamps, and stands still while typing**: after a move the
/// arrow is against a row of the page, and a move while a name is being
/// typed changes nothing.
pub proof fn the_arrow_clamps(v: OnlineView, delta: int)
    requires
        v.games.len() + 2 <= usize::MAX,
    ensures
        v.typing ==> v.moved(delta) == v,
        !v.typing && v.row + delta >= 0 && v.row + delta < v.rows().len() ==> v.moved(delta).selected()
            == v.rows()[v.row + delta],
        !v.typing && v.row + delta >= v.rows().len() ==> v.moved(delta).selected() == v.rows().last(),
        !v.typing && v.row + delta < 0 ==> v.moved(delta).selected() == v.rows()[0],
        !v.typing ==> v.moved(delta).row < v.rows().len(),
{
    if v.page == Page::Browse {
        assert(v.rows().len() == v.games.len() + 2);
    }
    assert(v.moved(delta).rows() == v.rows());
}

/// **Fire starts the typing and fire ends it**: on a text row fire flips
/// typing and asks for nothing, and a name left empty comes back as the
/// default rather than going into a roster as a blank.
pub proof fn fire_toggles_typing(v: OnlineView)
    requires
        v.selected().text(),
    ensures
        v.taken().0.typing == !v.typing,
        v.taken().1 is None,
        v.taken().0.page == v.page,
        v.taken().0.row == v.row,
        v.taken().0.password == v.password,
        v.typing && v.selected() == Row::PlayerName && trimmed(v.you).len() == 0 ==> v.taken().0.you == DEFAULT_YOU@,
        v.typing && v.selected() == Row::LobbyName && trimmed(v.game).len() == 0 ==> v.taken().0.game == DEFAULT_GAME@,
{
}

/// **The host alone can begin**: the Begin row is on the waiting page, and
/// only for the host.
pub proof fn the_host_alone_can_begin(v: OnlineView)
    ensures
        v.rows().contains(Row::Begin) <==> (v.page == Page::Waiting && v.hosting),
{
    if v.page == Page::Waiting && v.hosting {
        assert(v.rows()[1] == Row::Begin);
    }
    if v.page == Page::Browse && v.rows().contains(Row::Begin) {
        let i = choose|i: int| 0 <= i < v.rows().len() && v.rows()[i] == Row::Begin;
        if i < v.games.len() {
            assert(v.rows()[i] == Row::Game(i as usize));
        }
    }
}

/// **A locked game asks for the word before dialling**: taking a game that
/// wants a password, with none given, asks for nothing, keeps the game's
/// address, and leaves the arrow on the password row of the joining page.
pub proof fn a_locked_game_asks_for_the_word(v: OnlineView, n: usize)
    requires
        v.selected() == Row::Game(n),
        n < v.games.len(),
        v.games[n as int].locked,
        trimmed(v.password).len() == 0,
    ensures
        v.taken().1 is None,
        v.taken().0.page == Page::Join,
        v.taken().0.selected() == Row::Password,
        v.taken().0.address == v.games[n as int].at,
{
}


/// **What a host or a guest typed is what goes out, trimmed**: taking the
/// Host row off the menu asks to open a game under the typed game name and
/// player name, locked with the password as typed less its surrounding white
/// space; and every ask that carries a password, to open, to dial or to take
/// a listed game, carries exactly that word, so a game set with a password is
/// never opened or joined without it.
pub proof fn what_was_typed_goes_out(v: OnlineView)
    ensures
        v.selected() == Row::Host && v.page != Page::Menu ==> v.taken().1 == Some(
            AskView::Open { game: v.game, you: v.you, password: trimmed(v.password) },
        ),
        match v.taken().1 {
            Some(AskView::Open { game, you, password }) => game == v.game && you == v.you && password == trimmed(
                v.password,
            ),
            Some(AskView::Dial { address, you, password }) => address == trimmed(v.address) && you == v.you
                && password == trimmed(v.password),
            Some(AskView::Take { game, you, password }) => you == v.you && password == trimmed(v.password),
            _ => true,
        },
{
}

/// Characters one after the other.
fn append(a: &mut Vec<char>, b: &Vec<char>)
    ensures
        final(a)@ == old(a)@ + b@,
{
    let ghost start = a@;
    let mut i: usize = 0;
    while i < b.len()
        invariant
            i <= b@.len(),
            a@ == start + b@.take(i as int),
        decreases b@.len() - i,
    {
        a.push(b[i]);
        proof {
            assert(b@.take(i as int + 1) =~= b@.take(i as int).push(b@[i as int]));
        }
        i = i + 1;
    }
    proof {
        assert(b@.take(i as int) =~= b@);
    }
}

/// The address a dial goes to, as a value: a bare address means the usual
/// port, because nobody wants to type a number they were never told.
pub open spec fn dialled(address: Seq<char>, port: u16) -> Seq<char> {
    if address.contains(':') {
        address
    } else {
        address + seq![':'] + decimal(port as nat)
    }
}

/// The address a dial goes to, with the usual `port` put on a bare one.
pub fn dial_address(address: &str, port: u16) -> (r: String)
    ensures
        r@ == dialled(address@, port),
{
    let mut cs = chars_of(address);
    match find_char(&cs, ':') {
        Some(_) => {
            proof {
                assert(address@.contains(':'));
            }
        },
        None => {
            cs.push(':');
            append(&mut cs, &decimal_chars(port as u64));
        },
    }
    string_of(cs.as_slice())
}

/// What the lobby says of a list it was sent, as a value.
pub open spec fn browse_note_spec(count: nat, server: Seq<char>) -> Seq<char> {
    if count == 0 {
        "no games open on "@ + server
    } else {
        decimal(count) + " open on "@ + server
    }
}

/// What the lobby says of a list it was sent: how many games are open on the
/// list server, or that none are.
pub fn browse_note(count: usize, server: &str) -> (r: String)
    ensures
        r@ == browse_note_spec(count as nat, server@),
{
    let mut cs: Vec<char> = if count == 0 {
        chars_of("no games open on ")
    } else {
        let mut d = decimal_chars(count as u64);
        append(&mut d, &chars_of(" open on "));
        d
    };
    append(&mut cs, &chars_of(server));
    string_of(cs.as_slice())
}


impl Online {
    /// One tick of this keyboard's presses on the lobby, in the order the
    /// shell reads them: up, down, left, right, backspace, the character
    /// typed, and fire or Enter. Nothing in the lobby is in lockstep yet, so
    /// these are this machine's own. Says what the screen asks for.
    pub fn keys(
        &mut self,
        up: bool,
        down: bool,
        left: bool,
        right: bool,
        back: bool,
        typed: Option<char>,
        take: bool,
    ) -> (r: Option<Ask>)
        requires
            old(self).row < i32::MAX,
            old(self).games@.len() + 2 <= i32::MAX,
        ensures
            final(self)@ == old(self)@.keyed(up, down, back, typed, take).0,
            match r {
                Some(a) => old(self)@.keyed(up, down, back, typed, take).1 == Some(a@),
                None => old(self)@.keyed(up, down, back, typed, take).1 is None,
            },
    {
        let mut ask: Option<Ask> = None;
        if up {
            self.move_by(-1);
        }
        if down {
            self.move_by(1);
        }
        if left {
            ask = self.adjust(-1);
        }
        if right {
            match ask {
                Some(_) => {},
                None => {
                    ask = self.adjust(1);
                },
            }
        }
        if back {
            self.backspace();
        }
        match typed {
            Some(c) => self.type_char(c),
            None => {},
        }
        if take {
            match ask {
                Some(_) => {},
                None => {
                    ask = self.take();
                },
            }
        }
        ask
    }
}

} // verus!
