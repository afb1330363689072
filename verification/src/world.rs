//! The arena's scenery: 32x25 cells stamped over the backdrop the way
//! `Dump_Tile` stamps them, clipped the way `ClipTile` clips them; the two
//! plain records a bout is set up with; and the bout's decisions that read
//! no more of a fighter than where it stands and what it is: who fights
//! whom, which knights carry the palette's two knight banks, when a knight
//! is low, and how many seats a bout has.

use vstd::prelude::*;

verus! {

/// A scenery cell's width.
pub const CELL_W: usize = 32;

/// A scenery cell's height.
pub const CELL_H: usize = 25;

/// `ClipTile`, as values: how many of a cell's rows the top edge takes off,
/// and the screen row what is left starts on.
pub open spec fn clip(y: int) -> (int, int) {
    if y < 0 {
        let bp = -y - 1;
        (if bp > 25 {
            25
        } else {
            bp
        }, 0)
    } else {
        (0, y)
    }
}

/// How much of a scenery cell the top edge takes off, and the screen row
/// what is left starts on.
///
/// `ClipTile` at image `0x7d5a` computes `not y` where a clip would want
/// `neg y`: a cell placed above the screen keeps one row more than an exact
/// clip would, and sits one row lower than its `y` says. That is the
/// original's own arithmetic, and forty five of the fifty six layouts show
/// it.
pub fn cell_clip(y: i32) -> (r: (usize, i32))
    ensures
        r.0 == clip(y as int).0,
        r.1 == clip(y as int).1,
{
    if y < 0 {
        let bp: i32 = !y;
        proof {
            assert(y < 0 ==> !y == -1 - y) by (bit_vector);
        }
        let kept: i32 = if bp > 25 {
            25
        } else {
            bp
        };
        (kept as usize, 0)
    } else {
        (0, y)
    }
}

/// Where in a cell screen byte `i` comes from when the cell is stamped at
/// `(x, y)`: the cell's own index, or nothing when the cell does not reach
/// it. Rows run 320 bytes apart and nothing tests the right edge, so a
/// column past 319 is the next row's start.
pub open spec fn stamp_source(x: int, y: int, i: int) -> Option<int> {
    let skip = clip(y).0;
    let top = clip(y).1;
    let left = if x > 0 {
        x
    } else {
        0
    };
    let d = i - left;
    let dy = d / 320;
    let col = d % 320;
    let row = dy - top + skip;
    if 0 <= d && 0 <= dy < 200 && col < 32 && skip <= row < 25 {
        Some(row * 32 + col)
    } else {
        None
    }
}

/// What screen byte `i` holds after the stamp: the cell's byte where the
/// cell reaches and is not the hole, and what it held otherwise.
pub open spec fn stamped(old: Seq<u8>, cell: Seq<u8>, x: int, y: int, i: int) -> u8 {
    match stamp_source(x, y, i) {
        Some(k) => if cell[k] != 0 {
            cell[k]
        } else {
            old[i]
        },
        None => old[i],
    }
}

/// The screen row and cell column byte `i` is at, relative to a stamp at
/// `left`, and the cell row that puts there.
pub open spec fn stamp_row(x: int, y: int, i: int) -> int {
    let left = if x > 0 {
        x
    } else {
        0
    };
    (i - left) / 320 - clip(y).1 + clip(y).0
}

pub open spec fn stamp_col(x: int, i: int) -> int {
    let left = if x > 0 {
        x
    } else {
        0
    };
    (i - left) % 320
}

/// Stamps one 32x25 scenery cell into the screen the way `Dump_Tile` stamps
/// it: index 0 is transparent, a cell left of the screen is moved to column
/// zero whole, and there is no right-edge test, so a column past 319 lands
/// at the start of the row below. A byte past the end of the screen is not
/// written.
pub fn stamp_cell(screen: &mut [u8], cell: &[u8; 800], x: i32, y: i32)
    requires
        y + 24 <= i32::MAX,
    ensures
        final(screen)@.len() == old(screen)@.len(),
        forall|i: int|
            0 <= i < final(screen)@.len() ==> #[trigger] final(screen)@[i] == stamped(
                old(screen)@,
                cell@,
                x as int,
                y as int,
                i,
            ),
{
    let (skip, top) = cell_clip(y);
    let left: i32 = if x > 0 {
        x
    } else {
        0
    };
    let ghost before = screen@;
    let n = screen.len();
    let mut row: usize = skip;
    while row < CELL_H
        invariant
            skip == clip(y as int).0,
            top == clip(y as int).1,
            left == (if x > 0 {
                x
            } else {
                0
            }),
            skip <= row <= 25,
            y + 24 <= i32::MAX,
            n == screen@.len(),
            before.len() == n,
            forall|i: int|
                0 <= i < n ==> #[trigger] screen@[i] == if stamp_source(x as int, y as int, i) is Some
                    && stamp_row(x as int, y as int, i) < row {
                    stamped(before, cell@, x as int, y as int, i)
                } else {
                    before[i]
                },
        decreases 25 - row,
    {
        let dy: i32 = top + (row - skip) as i32;
        if 0 <= dy && dy < 200 {
            let base: usize = dy as usize * 320 + left as usize;
            let mut col: usize = 0;
            while col < CELL_W
                invariant
                    skip == clip(y as int).0,
                    top == clip(y as int).1,
                    left == (if x > 0 {
                        x
                    } else {
                        0
                    }),
                    skip <= row < 25,
                    dy == top + row - skip,
                    0 <= dy < 200,
                    base == dy * 320 + left,
                    col <= 32,
                    n == screen@.len(),
                    before.len() == n,
                    forall|i: int|
                        0 <= i < n ==> #[trigger] screen@[i] == if stamp_source(x as int, y as int, i) is Some
                            && (stamp_row(x as int, y as int, i) < row || (stamp_row(x as int, y as int, i)
                            == row && stamp_col(x as int, i) < col)) {
                            stamped(before, cell@, x as int, y as int, i)
                        } else {
                            before[i]
                        },
                decreases 32 - col,
            {
                let v = cell[row * 32 + col];
                let at: usize = base + col;
                proof {
                    vstd::arithmetic::div_mod::lemma_fundamental_div_mod_converse(
                        at - left,
                        320,
                        dy as int,
                        col as int,
                    );
                }
                if v != 0 && at < n {
                    let ghost mid = screen@;
                    screen[at] = v;
                    proof {
                        assert forall|i: int| 0 <= i < n implies #[trigger] screen@[i] == if stamp_source(
                            x as int,
                            y as int,
                            i,
                        ) is Some && (stamp_row(x as int, y as int, i) < row || (stamp_row(x as int, y as int, i)
                            == row && stamp_col(x as int, i) < col + 1)) {
                            stamped(before, cell@, x as int, y as int, i)
                        } else {
                            before[i]
                        } by {
                            vstd::arithmetic::div_mod::lemma_fundamental_div_mod(i - left, 320);
                            assert(mid[i] == if stamp_source(x as int, y as int, i) is Some && (stamp_row(
                                x as int,
                                y as int,
                                i,
                            ) < row || (stamp_row(x as int, y as int, i) == row && stamp_col(x as int, i)
                                < col)) {
                                stamped(before, cell@, x as int, y as int, i)
                            } else {
                                before[i]
                            });
                        }
                    }
                } else {
                    proof {
                        assert forall|i: int| 0 <= i < n implies #[trigger] screen@[i] == if stamp_source(
                            x as int,
                            y as int,
                            i,
                        ) is Some && (stamp_row(x as int, y as int, i) < row || (stamp_row(x as int, y as int, i)
                            == row && stamp_col(x as int, i) < col + 1)) {
                            stamped(before, cell@, x as int, y as int, i)
                        } else {
                            before[i]
                        } by {
                            vstd::arithmetic::div_mod::lemma_fundamental_div_mod(i - left, 320);
                        }
                    }
                }
                col = col + 1;
            }
        } else {
            proof {
                assert forall|i: int| 0 <= i < n implies #[trigger] screen@[i] == if stamp_source(
                    x as int,
                    y as int,
                    i,
                ) is Some && stamp_row(x as int, y as int, i) < row + 1 {
                    stamped(before, cell@, x as int, y as int, i)
                } else {
                    before[i]
                } by {
                    assert(stamp_source(x as int, y as int, i) is Some ==> stamp_row(x as int, y as int, i)
                        != row);
                }
            }
        }
        row = row + 1;
    }
    proof {
        assert forall|i: int| 0 <= i < n implies #[trigger] screen@[i] == stamped(
            before,
            cell@,
            x as int,
            y as int,
            i,
        ) by {
            if stamp_source(x as int, y as int, i) is None {
                assert(stamped(before, cell@, x as int, y as int, i) == before[i]);
            }
        }
    }
}

/// Where a fighter's intent comes from. The bout cannot tell them apart,
/// which is the point: a network peer slots in here without touching
/// combat.
#[derive(Clone, Copy, Debug, PartialEq, Eq, Structural)]
pub enum Control {
    /// Reads a set of keys on this machine. Moonstone was a couch game.
    Local(usize),
    /// The creature's own controller.
    Ai,
}

/// What the run's knight brings into the arena.
#[derive(Clone, Copy, Debug, PartialEq, Eq, Structural)]
pub struct Sheet {
    /// `10 * constitution + armour + rings + 10`.
    pub max_health: i32,
    /// Strength and the sword, `CalcDamage`'s additions.
    pub bonus: i32,
    /// The same for a knight fresh off `SetKnightEquipment`, which is what
    /// the other seats fight with: a strength of one and a long sword.
    pub fresh_bonus: i32,
    /// The backfire flag: the player's joystick reversed for this bout.
    pub cursed: bool,
    /// `+0x2e` and `+0x3c` on the knight record, the two things
    /// `AdjustLevel` reads off him before it decides how many creatures a
    /// fight holds.
    pub strength: i32,
    pub experience: i32,
}

/// The seats of a bout, as values: the people at this keyboard first, each
/// reading their own set of keys, then computer opponents, two to four
/// seats in all.
pub open spec fn seats_spec(humans: int, foes: int) -> Seq<Control> {
    let h = if humans < 1 {
        1
    } else if humans > 4 {
        4
    } else {
        humans
    };
    let t = if h + foes < 2 {
        2
    } else if h + foes > 4 {
        4
    } else {
        h + foes
    };
    Seq::new(t as nat, |i: int| if i < h {
        Control::Local(i as usize)
    } else {
        Control::Ai
    })
}

/// `World::set_seats`'s decision: the people at this keyboard, plus this many
/// computer opponents. One person practises against one, not three.
pub fn seat_controls(humans: usize, foes: usize) -> (c: Vec<Control>)
    requires
        4 + foes <= usize::MAX,
    ensures
        c@ == seats_spec(humans as int, foes as int),
{
    let h: usize = if humans < 1 {
        1
    } else if humans > 4 {
        4
    } else {
        humans
    };
    let sum: usize = h + foes;
    let total: usize = if sum < 2 {
        2
    } else if sum > 4 {
        4
    } else {
        sum
    };
    let mut c: Vec<Control> = Vec::new();
    let mut i: usize = 0;
    while i < total
        invariant
            i <= total <= 4,
            1 <= h <= 4,
            h == (if humans < 1 {
                1
            } else if humans > 4 {
                4
            } else {
                humans as int
            }),
            total == (if h + foes < 2 {
                2
            } else if h + foes > 4 {
                4
            } else {
                h + foes
            }),
            c@ == Seq::new(i as nat, |k: int| if k < h {
                Control::Local(k as usize)
            } else {
                Control::Ai
            }),
        decreases total - i,
    {
        if i < h {
            c.push(Control::Local(i));
        } else {
            c.push(Control::Ai);
        }
        proof {
            assert(c@ =~= Seq::new((i + 1) as nat, |k: int| if k < h {
                Control::Local(k as usize)
            } else {
                Control::Ai
            }));
        }
        i = i + 1;
    }
    c
}

/// `World::set_players`'s decision: every seat filled, the people at the
/// keyboard and computer opponents in the rest of the four.
pub fn player_controls(humans: usize) -> (c: Vec<Control>)
    ensures
        c@ == seats_spec(humans as int, 4 - (if humans < 1 {
            1
        } else if humans > 4 {
            4
        } else {
            humans as int
        })),
{
    let h: usize = if humans < 1 {
        1
    } else if humans > 4 {
        4
    } else {
        humans
    };
    seat_controls(humans, 4 - h)
}

/// How many of the seats are people at this keyboard.
pub open spec fn humans_spec(c: Seq<Control>) -> nat
    decreases c.len(),
{
    if c.len() == 0 {
        0
    } else {
        humans_spec(c.drop_last()) + if c.last() is Local {
            1nat
        } else {
            0nat
        }
    }
}

/// `World::humans`: how many of the seats read keys on this machine.
pub fn humans(control: &Vec<Control>) -> (n: usize)
    ensures
        n == humans_spec(control@),
{
    let mut n: usize = 0;
    let mut i: usize = 0;
    proof {
        assert(control@.take(0) =~= Seq::<Control>::empty());
    }
    while i < control.len()
        invariant
            i <= control@.len(),
            n == humans_spec(control@.take(i as int)),
            n <= i,
        decreases control@.len() - i,
    {
        proof {
            let t = control@.take(i as int + 1);
            assert(t.drop_last() =~= control@.take(i as int));
            assert(t.last() == control@[i as int]);
        }
        if let Control::Local(_) = control[i] {
            n = n + 1;
        }
        i = i + 1;
    }
    proof {
        assert(control@.take(i as int) =~= control@);
    }
    n
}

/// Stepping round a list of `n` by `delta`, wrapping at both ends, as the
/// arena and creature browsers do.
pub open spec fn stepped_spec(at: int, delta: int, n: int) -> int {
    (at + delta) % n
}

/// `World::step_arena`'s and `World::step_foe`'s arithmetic: the place
/// `delta` on from `at` in a ring of `n`. Rust's `%` keeps the sign of the
/// left side, and adding `n` before the second `%` brings a step back past
/// the start round to the end.
pub fn step_index(at: i32, delta: i32, n: i32) -> (r: usize)
    requires
        n > 0,
        i32::MIN <= at + delta <= i32::MAX,
        at + delta >= 0 ==> (at + delta) % (n as int) + n <= i32::MAX,
    ensures
        r == stepped_spec(at as int, delta as int, n as int),
        r < n,
{
    let s: i32 = at + delta;
    let m: i32 = s % n;
    proof {
        vstd::arithmetic::div_mod::lemma_fundamental_div_mod(s as int, n as int);
    }
    let k: i32 = (m + n) % n;
    proof {
        let ni = n as int;
        if s >= 0 {
            assert(m == (s as int) % ni);
            vstd::arithmetic::div_mod::lemma_mod_pos_bound(s as int, ni);
            vstd::arithmetic::div_mod::lemma_fundamental_div_mod_converse(m + ni, ni, 1, m as int);
        } else {
            let a = -(s as int);
            assert(m == -(a % ni));
            vstd::arithmetic::div_mod::lemma_fundamental_div_mod(a, ni);
            vstd::arithmetic::div_mod::lemma_mod_pos_bound(a, ni);
            let r = a % ni;
            let q = a / ni;
            assert((-q) * ni == -(ni * q)) by (nonlinear_arith);
            assert((-q - 1) * ni == -(ni * q) - ni) by (nonlinear_arith);
            if r == 0 {
                vstd::arithmetic::div_mod::lemma_fundamental_div_mod_converse(s as int, ni, -q, 0);
                vstd::arithmetic::div_mod::lemma_fundamental_div_mod_converse(ni, ni, 1, 0);
            } else {
                vstd::arithmetic::div_mod::lemma_fundamental_div_mod_converse(s as int, ni, -q - 1, ni - r);
                vstd::arithmetic::div_mod::lemma_fundamental_div_mod_converse(ni - r, ni, 0, ni - r);
            }
        }
    }
    k as usize
}

/// `World::knight_at`: the knight in a seat, off the roster, or the seat's
/// own knight where the roster does not reach.
pub fn knight_at(roster: &Vec<usize>, seat: usize) -> (k: usize)
    ensures
        k == if seat < roster@.len() {
            roster@[seat as int]
        } else {
            seat % 4
        },
{
    if seat < roster.len() {
        roster[seat]
    } else {
        seat % 4
    }
}

impl Sheet {
    /// The sheet `World::set_sheet` keeps: a knight can always bear at least
    /// one point.
    pub fn clamped(self) -> (s: Sheet)
        ensures
            s == (Sheet {
                max_health: if self.max_health > 1 {
                    self.max_health
                } else {
                    1
                },
                ..self
            }),
    {
        Sheet {
            max_health: if self.max_health > 1 {
                self.max_health
            } else {
                1
            },
            ..self
        }
    }
}

/// **Everyone asked for gets a seat, as far as four go round**: where there
/// are one to four people and, with the opponents asked for, two to four
/// seats in all, the bout has exactly the people and the opponents asked for,
/// no more; fewer than two seats in all are made up to two, and more than
/// four cut to four.
pub proof fn everyone_asked_for_gets_a_seat(humans: int, foes: int)
    requires
        0 <= humans,
        0 <= foes,
    ensures
        1 <= humans <= 4 && 2 <= humans + foes <= 4 ==> seats_spec(humans, foes).len() == humans + foes,
        1 <= humans <= 4 && 2 <= humans + foes <= 4 ==> forall|i: int|
            humans <= i < humans + foes ==> #[trigger] seats_spec(humans, foes)[i] == Control::Ai,
        humans + foes <= 1 ==> seats_spec(humans, foes).len() == 2,
        humans + foes > 4 ==> seats_spec(humans, foes).len() == 4,
{
}

/// **A bout has two to four seats, the people first**: whatever is asked
/// for, the seats number two to four, every person at the keyboard reads
/// their own keys in order, and the rest are computer opponents.
pub proof fn the_seats_are_people_then_opponents(humans: int, foes: int)
    requires
        0 <= humans,
        0 <= foes,
    ensures
        2 <= seats_spec(humans, foes).len() <= 4,
        forall|i: int|
            0 <= i < seats_spec(humans, foes).len() ==> (#[trigger] seats_spec(humans, foes)[i] is Local
                <==> i < (if humans < 1 {
                1
            } else if humans > 4 {
                4
            } else {
                humans
            })),
        forall|i: int|
            0 <= i < seats_spec(humans, foes).len() && #[trigger] seats_spec(humans, foes)[i] is Local
                ==> seats_spec(humans, foes)[i] == Control::Local(i as usize),
{
}


/// What the bout's decisions read of a fighter: whether it is a knight,
/// whether it is alive, its health, and where it stands.
#[derive(Clone, Copy, Debug, PartialEq, Eq, Structural)]
pub struct Standing {
    pub knight: bool,
    pub alive: bool,
    pub health: i32,
    pub x: i32,
    pub y: i32,
}

/// The size of a number.
pub open spec fn mag(v: int) -> int {
    if v < 0 {
        -v
    } else {
        v
    }
}

/// How far apart two fighters are, as the controllers measure it: a row of
/// depth counts double.
pub open spec fn dist(a: Standing, b: Standing) -> int {
    mag(a.x - b.x) + 2 * mag(a.y - b.y)
}

/// Whether fighter `i` could be `seat`'s opponent: another fighter, of the
/// other kind, and alive if only the living will do.
pub open spec fn candidate(fs: Seq<Standing>, seat: int, alive_only: bool, i: int) -> bool {
    &&& 0 <= i < fs.len()
    &&& i != seat
    &&& fs[i].knight != fs[seat].knight
    &&& (!alive_only || fs[i].alive)
}

/// Whether there is anyone for `seat` to fight.
pub open spec fn has_candidate(fs: Seq<Standing>, seat: int, alive_only: bool) -> bool {
    exists|j: int| candidate(fs, seat, alive_only, j)
}

/// Whether `i` is `seat`'s nearest opponent: no candidate is nearer, and
/// every candidate before it is farther, so of equals the first is taken.
pub open spec fn is_nearest(fs: Seq<Standing>, seat: int, alive_only: bool, i: int) -> bool {
    &&& candidate(fs, seat, alive_only, i)
    &&& forall|j: int| #[trigger] candidate(fs, seat, alive_only, j) ==> dist(fs[i], fs[seat]) <= dist(fs[j], fs[seat])
    &&& forall|j: int|
        0 <= j < i && #[trigger] candidate(fs, seat, alive_only, j) ==> dist(fs[j], fs[seat]) > dist(
            fs[i],
            fs[seat],
        )
}

/// Whether every distance the choice of an opponent measures is an `i32`.
pub open spec fn measurable_from(fs: Seq<Standing>, seat: int) -> bool {
    forall|j: int| #[trigger] candidate(fs, seat, false, j) ==> dist(fs[j], fs[seat]) <= i32::MAX
}

/// The nearest fighter of the other kind, living ones only if `alive_only`.
fn nearest(fs: &[Standing], seat: usize, alive_only: bool) -> (r: Option<usize>)
    requires
        seat < fs@.len(),
        measurable_from(fs@, seat as int),
    ensures
        match r {
            Some(i) => is_nearest(fs@, seat as int, alive_only, i as int),
            None => !has_candidate(fs@, seat as int, alive_only),
        },
{
    let me = fs[seat];
    let mut best: Option<usize> = None;
    let mut best_d: i32 = 0;
    let mut i: usize = 0;
    while i < fs.len()
        invariant
            i <= fs@.len(),
            seat < fs@.len(),
            me == fs@[seat as int],
            measurable_from(fs@, seat as int),
            match best {
                Some(b) => {
                    &&& b < i
                    &&& candidate(fs@, seat as int, alive_only, b as int)
                    &&& best_d == dist(fs@[b as int], me)
                    &&& forall|j: int|
                        0 <= j < i && #[trigger] candidate(fs@, seat as int, alive_only, j) ==> best_d <= dist(
                            fs@[j],
                            me,
                        )
                    &&& forall|j: int|
                        0 <= j < b && #[trigger] candidate(fs@, seat as int, alive_only, j) ==> dist(fs@[j], me)
                            > best_d
                },
                None => forall|j: int| 0 <= j < i ==> !#[trigger] candidate(fs@, seat as int, alive_only, j),
            },
        decreases fs@.len() - i,
    {
        let f = fs[i];
        if i != seat && f.knight != me.knight && (!alive_only || f.alive) {
            proof {
                assert(candidate(fs@, seat as int, alive_only, i as int));
                assert(candidate(fs@, seat as int, false, i as int));
            }
            let dx: i32 = if f.x < me.x { me.x - f.x } else { f.x - me.x };
            let dy: i32 = if f.y < me.y { me.y - f.y } else { f.y - me.y };
            let d: i32 = dx + dy * 2;
            match best {
                None => {
                    best = Some(i);
                    best_d = d;
                },
                Some(_) => {
                    if d < best_d {
                        best = Some(i);
                        best_d = d;
                    }
                },
            }
        }
        i = i + 1;
    }
    best
}

/// `seat`'s opponent: a creature's is the nearest knight, a knight's the
/// nearest creature, so a creature never takes another creature for an
/// enemy. The living are preferred; a body is still an opponent when no one
/// else is left, so the finisher goes to whoever is down. A seat that is not
/// there fights no one.
pub fn opposed(fs: &[Standing], seat: usize) -> (r: Option<usize>)
    requires
        seat < fs@.len() ==> measurable_from(fs@, seat as int),
    ensures
        seat >= fs@.len() ==> r is None,
        seat < fs@.len() ==> match r {
            Some(i) => if has_candidate(fs@, seat as int, true) {
                is_nearest(fs@, seat as int, true, i as int)
            } else {
                is_nearest(fs@, seat as int, false, i as int)
            },
            None => !has_candidate(fs@, seat as int, false),
        },
{
    if seat >= fs.len() {
        return None;
    }
    match nearest(fs, seat, true) {
        Some(i) => Some(i),
        None => {
            let r = nearest(fs, seat, false);
            proof {
                if has_candidate(fs@, seat as int, false) && r is None {
                    assert(false);
                }
            }
            r
        },
    }
}

/// **An opponent is of the other kind, and is one fighter**: whoever is
/// chosen is another fighter, a knight for a creature and a creature for a
/// knight, and the nearest of them is only ever one: the first of the
/// closest.
pub proof fn an_opponent_is_of_the_other_kind(fs: Seq<Standing>, seat: int, alive_only: bool, i: int, j: int)
    requires
        0 <= seat < fs.len(),
        is_nearest(fs, seat, alive_only, i),
        is_nearest(fs, seat, alive_only, j),
    ensures
        i != seat,
        fs[i].knight != fs[seat].knight,
        alive_only ==> fs[i].alive,
        i == j,
{
    if i < j {
        assert(candidate(fs, seat, alive_only, i));
    } else if j < i {
        assert(candidate(fs, seat, alive_only, j));
    }
}

/// Whether knight `i` is the first knight in the bout, passing over `skip`.
pub open spec fn first_knight(fs: Seq<Standing>, skip: int, i: int) -> bool {
    &&& 0 <= i < fs.len()
    &&& i != skip
    &&& fs[i].knight
    &&& forall|j: int| 0 <= j < i && j != skip ==> !(#[trigger] fs[j]).knight
}

/// Whether the bout has a knight other than `skip`.
pub open spec fn has_knight(fs: Seq<Standing>, skip: int) -> bool {
    exists|j: int| 0 <= j < fs.len() && j != skip && (#[trigger] fs[j]).knight
}

/// The first knight, passing over `skip`.
fn find_knight(fs: &[Standing], skip: Option<usize>) -> (r: Option<usize>)
    ensures
        match r {
            Some(i) => first_knight(fs@, if skip is Some { skip->0 as int } else { -1 }, i as int),
            None => !has_knight(fs@, if skip is Some { skip->0 as int } else { -1 }),
        },
{
    let ghost sk: int = if skip is Some { skip->0 as int } else { -1 };
    let mut i: usize = 0;
    while i < fs.len()
        invariant
            i <= fs@.len(),
            sk == (if skip is Some { skip->0 as int } else { -1 }),
            forall|j: int| 0 <= j < i && j != sk ==> !(#[trigger] fs@[j]).knight,
        decreases fs@.len() - i,
    {
        let passed = match skip {
            Some(s) => s == i,
            None => false,
        };
        if !passed && fs[i].knight {
            return Some(i);
        }
        i = i + 1;
    }
    None
}

/// The main knight: the first knight in the bout. He wears the main
/// knight's banks of the palette.
pub fn main_knight_seat(fs: &[Standing]) -> (r: Option<usize>)
    ensures
        match r {
            Some(i) => first_knight(fs@, -1, i as int),
            None => !has_knight(fs@, -1),
        },
{
    find_knight(fs, None)
}

/// The first knight who is not the main one. He is drawn from the second
/// knight's banks, as `Colour2ndKnight` colours him.
pub fn second_knight_seat(fs: &[Standing]) -> (r: Option<usize>)
    ensures
        match r {
            Some(i) => exists|m: int| first_knight(fs@, -1, m) && first_knight(fs@, m, i as int),
            None => !has_knight(fs@, -1) || forall|m: int| first_knight(fs@, -1, m) ==> !has_knight(fs@, m),
        },
{
    match main_knight_seat(fs) {
        Some(m) => {
            let r = find_knight(fs, Some(m));
            proof {
                if r is Some {
                    assert(first_knight(fs@, -1, m as int));
                } else {
                    assert forall|m2: int| #[trigger] first_knight(fs@, -1, m2) implies !has_knight(fs@, m2) by {
                        if m2 < m {
                            assert(!fs@[m2].knight);
                        } else if m2 > m {
                            assert(!fs@[m as int].knight);
                        }
                    }
                }
            }
            r
        },
        None => None,
    }
}

/// Where the main knight's three glowing entries start; the first of them
/// glows every other frame.
pub const MAIN_KNIGHT_AT: u8 = 6;

/// Where the second knight's three glowing entries start; all of them glow
/// every frame.
pub const SECOND_AT: u8 = 9;

/// Whether `seat` is the main knight.
pub open spec fn is_main(fs: Seq<Standing>, seat: int) -> bool {
    first_knight(fs, -1, seat)
}

/// Whether `seat` is the second knight: the first knight but the main one.
pub open spec fn is_second(fs: Seq<Standing>, seat: int) -> bool {
    exists|m: int| first_knight(fs, -1, m) && first_knight(fs, m, seat)
}

/// `KnightGlowOn`'s plan for a seat: the first of its three entries and how
/// many frames the first of them takes a step in. The main knight glows in
/// 6 to 8, the first every other frame; a second knight in 9 to 11, all
/// three every frame. A creature, and a third or fourth knight, does not
/// glow: the original has handles for two.
pub fn glow_plan(fs: &[Standing], seat: usize) -> (r: Option<(u8, u8)>)
    ensures
        r == if is_main(fs@, seat as int) {
            Some((MAIN_KNIGHT_AT, 2u8))
        } else if is_second(fs@, seat as int) {
            Some((SECOND_AT, 1u8))
        } else {
            None
        },
{
    let main = main_knight_seat(fs);
    let second = second_knight_seat(fs);
    proof {
        if let Some(m) = main {
            assert forall|k: int| #[trigger] first_knight(fs@, -1, k) implies k == m by {
                if k < m {
                    assert(!fs@[k].knight);
                } else if k > m {
                    assert(!fs@[m as int].knight);
                }
            }
        }
        if let Some(t) = second {
            let m = choose|m: int| first_knight(fs@, -1, m) && first_knight(fs@, m, t as int);
            assert forall|k: int| #[trigger] first_knight(fs@, m, k) implies k == t by {
                if k < t {
                    assert(!fs@[k].knight);
                } else if k > t {
                    assert(!fs@[t as int].knight);
                }
            }
        }
    }
    match main {
        Some(m) => if m == seat {
            return Some((MAIN_KNIGHT_AT, 2));
        },
        None => {},
    }
    match second {
        Some(t) => if t == seat {
            return Some((SECOND_AT, 1));
        },
        None => {},
    }
    proof {
        if is_main(fs@, seat as int) {
            assert(fs@[seat as int].knight);
        }
        if is_second(fs@, seat as int) {
            let m = choose|m: int| first_knight(fs@, -1, m) && first_knight(fs@, m, seat as int);
            assert(fs@[m].knight);
            assert(fs@[seat as int].knight);
            if second is None {
                assert(has_knight(fs@, m));
            }
        }
    }
    None
}


/// The original's knight's health, the scale the creatures' numbers are at.
pub const ORIGINAL_KNIGHT_HEALTH: i32 = 20;

/// Rust's `/` on integers, which rounds toward zero, as a value.
pub open spec fn toward_zero(n: int, d: int) -> int {
    if n >= 0 {
        n / d
    } else {
        -((-n) / d)
    }
}

/// The health at or under which a knight is low: ten of the original's
/// twenty with a sheet; without one the browser's knight stands at his own
/// health, and the line moves with him.
pub open spec fn low_line(sheet: bool, knight_health: int) -> int {
    if sheet {
        10
    } else {
        toward_zero(10 * knight_health, ORIGINAL_KNIGHT_HEALTH as int)
    }
}

/// `KnightGlowOn`'s test, `cmp ax, 0xa; jg` on the knight's health: a knight
/// at or under the line, dead included, which is why a fallen knight keeps
/// breathing until the bout is over. A creature is never low, and neither is
/// a seat that is not there.
pub fn knight_is_low(fs: &[Standing], seat: usize, sheet: bool, knight_health: i32) -> (b: bool)
    requires
        !sheet ==> i32::MIN <= 10 * knight_health <= i32::MAX,
    ensures
        b == (seat < fs@.len() && fs@[seat as int].knight && fs@[seat as int].health <= low_line(
            sheet,
            knight_health as int,
        )),
{
    if seat >= fs.len() {
        return false;
    }
    let f = fs[seat];
    if !f.knight {
        return false;
    }
    let line: i32 = if sheet {
        10
    } else {
        let v: i32 = 10 * knight_health;
        if v >= 0 {
            v / ORIGINAL_KNIGHT_HEALTH
        } else {
            -((-v) / ORIGINAL_KNIGHT_HEALTH)
        }
    };
    f.health <= line
}

/// How many fighters a bout stands up: the people and the wave where a
/// creature comes in waves, two where the foe is a knight, and otherwise the
/// seats asked for, two at the least.
pub open spec fn bout_count(h: int, wave_max: int, foe_is_knight: bool, seats: int) -> int {
    if wave_max > 0 {
        h + wave_max
    } else if foe_is_knight {
        2
    } else if seats < 2 {
        2
    } else {
        seats
    }
}

/// Who controls the seats of a bout, as values: with a wave, the people and
/// then the creatures; against a knight, the seats asked for cut to the two
/// there are; otherwise the seats asked for.
pub open spec fn bout_control(control: Seq<Control>, wave_max: int, foe_is_knight: bool) -> Seq<Control> {
    let h = if humans_spec(control) < 1 { 1 } else { humans_spec(control) as int };
    let n = bout_count(h, wave_max, foe_is_knight, control.len() as int);
    if wave_max > 0 {
        Seq::new(n as nat, |i: int| if i < h { Control::Local(i as usize) } else { Control::Ai })
    } else if foe_is_knight && control.len() > n {
        control.take(n)
    } else {
        control
    }
}

/// Whether seat `i` is a creature: a seat the machine fills, where the foe
/// is not a knight. People are knights, and so is a seat nobody controls.
pub open spec fn creature_spec(control: Seq<Control>, i: int, foe_is_knight: bool) -> bool {
    0 <= i < control.len() && control[i] is Ai && !foe_is_knight
}

/// `World::reset`'s seats: how many fighters the bout stands up and who
/// controls each, from the seats asked for, the creature's wave, and whether
/// the foe is a knight.
pub fn bout_seats(control: &Vec<Control>, wave_max: usize, foe_is_knight: bool) -> (r: (usize, Vec<Control>))
    requires
        (if humans_spec(control@) < 1 { 1 } else { humans_spec(control@) as int }) + wave_max <= usize::MAX,
    ensures
        r.0 == bout_count(
            if humans_spec(control@) < 1 { 1 } else { humans_spec(control@) as int },
            wave_max as int,
            foe_is_knight,
            control@.len() as int,
        ),
        r.1@ == bout_control(control@, wave_max as int, foe_is_knight),
{
    let counted = humans(control);
    let h: usize = if counted < 1 { 1 } else { counted };
    let n: usize = if wave_max > 0 {
        h + wave_max
    } else if foe_is_knight {
        2
    } else if control.len() < 2 {
        2
    } else {
        control.len()
    };
    let mut out: Vec<Control> = Vec::new();
    if wave_max > 0 {
        let mut i: usize = 0;
        while i < n
            invariant
                i <= n,
                out@ == Seq::new(i as nat, |k: int| if k < h { Control::Local(k as usize) } else { Control::Ai }),
            decreases n - i,
        {
            if i < h {
                out.push(Control::Local(i));
            } else {
                out.push(Control::Ai);
            }
            proof {
                assert(out@ =~= Seq::new((i + 1) as nat, |k: int| if k < h { Control::Local(k as usize) } else { Control::Ai }));
            }
            i = i + 1;
        }
    } else {
        let keep: usize = if foe_is_knight && control.len() > n { n } else { control.len() };
        let mut i: usize = 0;
        while i < keep
            invariant
                i <= keep <= control@.len(),
                out@ == control@.take(i as int),
            decreases keep - i,
        {
            out.push(control[i]);
            proof {
                assert(control@.take(i as int + 1) =~= control@.take(i as int).push(control@[i as int]));
            }
            i = i + 1;
        }
        proof {
            assert(control@.take(control@.len() as int) =~= control@);
        }
    }
    (n, out)
}

/// [`creature_spec`], asked of a seat.
pub fn seat_is_creature(control: &Vec<Control>, i: usize, foe_is_knight: bool) -> (b: bool)
    ensures
        b == creature_spec(control@, i as int, foe_is_knight),
{
    if i < control.len() {
        match control[i] {
            Control::Ai => !foe_is_knight,
            Control::Local(_) => false,
        }
    } else {
        false
    }
}

/// **Two knights, and never three**: a bout against a knight with no wave
/// stands up exactly two fighters, asks at most two seats of anyone, and
/// has no creature in it.
pub proof fn two_knights_and_never_three(control: Seq<Control>, i: int)
    ensures
        bout_count(
            if humans_spec(control) < 1 { 1 } else { humans_spec(control) as int },
            0,
            true,
            control.len() as int,
        ) == 2,
        bout_control(control, 0, true).len() <= 2,
        !creature_spec(bout_control(control, 0, true), i, true),
{
}

/// **People are knights, and the wave fills the rest**: with a wave, the
/// first seats are the people at the keyboard, each on their own keys, and
/// every seat after them is a creature.
pub proof fn people_are_knights(control: Seq<Control>, wave_max: int, i: int)
    requires
        wave_max > 0,
        0 <= i < bout_control(control, wave_max, false).len(),
    ensures
        bout_control(control, wave_max, false).len() == (if humans_spec(control) < 1 {
            1
        } else {
            humans_spec(control) as int
        }) + wave_max,
        creature_spec(bout_control(control, wave_max, false), i, false) <==> i >= (if humans_spec(control) < 1 {
            1
        } else {
            humans_spec(control) as int
        }),
        !creature_spec(bout_control(control, wave_max, false), i, false) ==> bout_control(
            control,
            wave_max,
            false,
        )[i] == Control::Local(i as usize),
{
}


/// The health every fight is scaled to: the original's twenty with a sheet;
/// without one the arena browser's knight stands at his own health, at
/// least one.
pub open spec fn scale_spec(sheet: bool, knight_health: int) -> int {
    if sheet {
        ORIGINAL_KNIGHT_HEALTH as int
    } else if knight_health < 1 {
        1
    } else {
        knight_health
    }
}

/// [`scale_spec`], worked out.
pub fn fight_scale(sheet: bool, knight_health: i32) -> (s: i32)
    ensures
        s == scale_spec(sheet, knight_health as int),
{
    if sheet {
        ORIGINAL_KNIGHT_HEALTH
    } else if knight_health < 1 {
        1
    } else {
        knight_health
    }
}

/// A creature's number at the fight's scale, at least one: its hit points and
/// blows are at the scale of a twenty point knight, so a troll is as many
/// swings deep at a hundred as it is at twenty.
pub open spec fn scaled_spec(v: int, scale_to: int) -> int {
    let s = toward_zero(v * scale_to, ORIGINAL_KNIGHT_HEALTH as int);
    if s < 1 {
        1
    } else {
        s
    }
}

/// [`scaled_spec`], worked out.
pub fn scaled(v: i32, scale_to: i32) -> (s: i32)
    requires
        i32::MIN <= v * scale_to <= i32::MAX,
    ensures
        s == scaled_spec(v as int, scale_to as int),
{
    let p: i64 = (v * scale_to) as i64;
    let q: i64 = if p >= 0 {
        p / ORIGINAL_KNIGHT_HEALTH as i64
    } else {
        -((-p) / ORIGINAL_KNIGHT_HEALTH as i64)
    };
    if q < 1 {
        1
    } else {
        q as i32
    }
}

/// A knight's health and additions as he enters a bout: seat zero fights on
/// the run's sheet; every other knight is fresh off `SetKnightEquipment`,
/// twenty health and his fresh additions, because nothing tracks what he
/// has been through; without a sheet, the browser's knight at his own
/// health and no additions.
pub fn knight_numbers(sheet: Option<Sheet>, seat: usize, knight_health: i32) -> (r: (i32, i32))
    ensures
        r == match sheet {
            Some(s) => if seat == 0 {
                (s.max_health, s.bonus)
            } else {
                (ORIGINAL_KNIGHT_HEALTH, s.fresh_bonus)
            },
            None => (knight_health, 0i32),
        },
{
    match sheet {
        Some(s) => if seat == 0 {
            (s.max_health, s.bonus)
        } else {
            (ORIGINAL_KNIGHT_HEALTH, s.fresh_bonus)
        },
        None => (knight_health, 0),
    }
}

/// The health the player's knight enters a bout with: what the run has left
/// him, but at least one and no more than he can bear.
pub fn entering_health(left: i32, max_health: i32) -> (h: i32)
    requires
        max_health >= 1,
    ensures
        h == if left < 1 {
            1
        } else if left > max_health {
            max_health as int
        } else {
            left as int
        },
{
    if left < 1 {
        1
    } else if left > max_health {
        max_health
    } else {
        left
    }
}

/// What the fallen among the first `k` fighters are worth, seat zero left
/// out because a man does not loot himself.
pub open spec fn spoils_spec(fs: Seq<Standing>, worth: Seq<u32>, k: int) -> int
    decreases k,
{
    if k <= 0 {
        0
    } else {
        spoils_spec(fs, worth, k - 1) + if k - 1 != 0 && !fs[k - 1].alive {
            worth[k - 1] as int
        } else {
            0
        }
    }
}

/// What the fallen were worth, in gold or in experience: `worth` names what
/// each fighter's definition says it is worth, and every fighter but the
/// player's own seat that is down counts.
pub fn spoils(fs: &[Standing], worth: &[u32]) -> (n: u32)
    requires
        worth@.len() == fs@.len(),
        forall|k: int| 0 <= k <= fs@.len() ==> #[trigger] spoils_spec(fs@, worth@, k) <= u32::MAX,
    ensures
        n == spoils_spec(fs@, worth@, fs@.len() as int),
{
    let mut n: u32 = 0;
    let mut i: usize = 0;
    while i < fs.len()
        invariant
            i <= fs@.len(),
            worth@.len() == fs@.len(),
            forall|k: int| 0 <= k <= fs@.len() ==> #[trigger] spoils_spec(fs@, worth@, k) <= u32::MAX,
            n == spoils_spec(fs@, worth@, i as int),
        decreases fs@.len() - i,
    {
        proof {
            assert(spoils_spec(fs@, worth@, i as int + 1) <= u32::MAX);
        }
        if i != 0 && !fs[i].alive {
            n = n + worth[i];
        }
        i = i + 1;
    }
    n
}

} // verus!
