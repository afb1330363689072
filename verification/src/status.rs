//! The status panel's layout: what a knight is, and what the other arch
//! holds, as cels placed on the screen and the gadgets they make.
//!
//! Every icon is a gadget: `PlaceIcons` blits it and `AddIconGadget`
//! registers it in the same breath, and which response table a gadget reads
//! rides beside it by index. The furniture is `StatusSetup`'s: eight byte
//! records `[cel][x][y][mirror]` with `StatsOffset` added to each `x`, and
//! every pillar is also the way out.
//!
//! Each routine is specified as what it appends to the panel, in order,
//! over [`PanelView`].

use vstd::prelude::*;
use crate::chars::{decimal, decimal_chars, signed_decimal, signed_string, str_is, string_of};

verus! {

/// `StatusSetup`'s test: the pillar cel is the one that makes an exit
/// gadget.
pub const PILLAR_CEL: usize = 0x1a;

/// The exit gadget's id, which is the first thing `HotGadget` tests.
pub const EXIT_ID: usize = 7;

/// `DisplayKnight`: where the name and the numbers go.
pub const NAME_X: i32 = 0x3c;
pub const NAME_Y: i32 = 0x18;
pub const ABILITY_X: i32 = 0x3f;
pub const COLUMN_X: i32 = 0x70;
pub const ROW_TOP: i32 = 0x23;
pub const ROW_STEP: i32 = 7;

/// The first cel of the weapons, long sword to sword of sharpness, and of
/// the armours, padded to battle.
pub const SWORD_CEL: usize = 0x16;
pub const ARMOUR_CEL: usize = 0x1b;

/// `DisplayAquire`'s one cel, and the twenty by twenty gadget over it whose
/// text record is `NEXT`.
pub const ACQUIRE_X: i32 = 0x92;
pub const ACQUIRE_Y: i32 = 0x47;
pub const ACQUIRE_CEL: usize = 0x2c;
pub const NEXT_LINE: &'static str = "Select next knight";
pub const NEXT_ID: usize = 0xffff;

/// One record of `StatusSetup`'s tables, `[cel, x, y, mirror]`.
pub type Furniture = (usize, i32, i32, bool);

/// `_STATUS:TradingData`: seven records and no terminator, which is why
/// walking it walks the next table too.
pub const TRADING_DATA: [(usize, i32, i32, bool); 7] = [
    (0x1a, 0x128, 0x53, false),
    (0x22, 0x09a, 0x17, false),
    (0x23, 0x0b5, 0x1d, false),
    (0x24, 0x0b5, 0x0a, false),
    (0x22, 0x120, 0x17, true),
    (0x23, 0x111, 0x1d, true),
    (0x24, 0x0eb, 0x0a, true),
];

/// `_STATUS:SingleData`, eight records: one arch on two pillars.
pub const SINGLE_DATA: [(usize, i32, i32, bool); 8] = [
    (0x1a, 0x000, 0x53, false),
    (0x1a, 0x094, 0x53, false),
    (0x22, 0x006, 0x17, false),
    (0x23, 0x021, 0x1d, false),
    (0x24, 0x021, 0x0a, false),
    (0x22, 0x08c, 0x17, true),
    (0x23, 0x07d, 0x1d, true),
    (0x24, 0x057, 0x0a, true),
];

/// `_STATUS:ABorders`, the six label cels: `STR :`, `CON :`, `END :`,
/// `XP :`, `GOLD :` and `HIT :`, in the table's own order.
pub const ABORDERS: [(usize, i32, i32, bool); 6] = [
    (0x29, 0x59, 0x23, false),
    (0x2a, 0x59, 0x2a, false),
    (0x2b, 0x59, 0x31, false),
    (0x26, 0x29, 0x23, false),
    (0x27, 0x29, 0x2a, false),
    (0x28, 0x29, 0x31, false),
];

/// What fire over a gadget does: `STRP`, the operation and its flags, and
/// `STPL`, the field it works on.
#[derive(Clone, Copy, Debug, PartialEq, Eq, Structural)]
pub struct Payload {
    pub strp: u16,
    pub stpl: u16,
}

impl Payload {
    pub fn new(strp: u16, stpl: u16) -> (p: Payload)
        ensures
            p == (Payload { strp, stpl }),
    {
        Payload { strp, stpl }
    }

    /// No operation at all.
    pub open spec fn nothing() -> Payload {
        Payload { strp: 0, stpl: 0 }
    }
}

impl Default for Payload {
    /// No operation at all.
    fn default() -> (p: Payload)
        ensures
            p == Payload::nothing(),
    {
        Payload { strp: 0, stpl: 0 }
    }
}

/// One thing `PlaceIcons` drew and `AddIconGadget` registered.
#[derive(Clone, Copy, Debug, PartialEq, Eq, Structural)]
pub struct Icon {
    pub cel: usize,
    pub x: i32,
    pub y: i32,
    /// `STID`, which is twice the slot. [`EXIT_ID`] for a pillar.
    pub id: usize,
    pub payload: Payload,
}

/// What a party carries besides its arms, as `DisplayMagic` reads it.
#[derive(Clone, Copy, Debug, PartialEq, Eq)]
pub struct Hoard {
    pub gems: u8,
    pub rings: u8,
    pub talismans: u8,
    pub potions: u8,
    /// The four keys of the Valley, one bit each.
    pub keys: u8,
    /// The moonstones, one bit each.
    pub moonstones: u8,
    /// The five kinds of scroll, counted.
    pub scrolls: [u8; 5],
    pub magic_sword: bool,
}

impl Hoard {
    /// Nothing at all.
    pub fn empty() -> (h: Hoard)
        ensures
            h.gems == 0 && h.rings == 0 && h.talismans == 0 && h.potions == 0 && h.keys == 0 && h.moonstones == 0,
            forall|i: int| 0 <= i < 5 ==> h.scrolls@[i] == 0,
            !h.magic_sword,
    {
        Hoard { gems: 0, rings: 0, talismans: 0, potions: 0, keys: 0, moonstones: 0, scrolls: [0; 5], magic_sword: false }
    }
}

/// A gadget with a rectangle of its own rather than a cel's.
#[derive(Clone, Debug, PartialEq, Eq)]
pub struct Gadget {
    pub id: usize,
    pub x: i32,
    pub y: i32,
    pub w: i32,
    pub h: i32,
    pub label: String,
    pub payload: Payload,
    pub lit: bool,
}

/// A gadget, as values.
pub struct GadgetView {
    pub id: usize,
    pub x: i32,
    pub y: i32,
    pub w: i32,
    pub h: i32,
    pub label: Seq<char>,
    pub payload: Payload,
    pub lit: bool,
}

impl View for Gadget {
    type V = GadgetView;

    open spec fn view(&self) -> GadgetView {
        GadgetView {
            id: self.id,
            x: self.x,
            y: self.y,
            w: self.w,
            h: self.h,
            label: self.label@,
            payload: self.payload,
            lit: self.lit,
        }
    }
}

/// A laid out panel: the furniture that is only drawn, the icons that are
/// both drawn and registered with the side each reads its responses from,
/// the lines drawn as text, and the gadgets with a rectangle of their own.
pub struct Panel {
    plain: Vec<(usize, i32, i32, bool)>,
    icons: Vec<Icon>,
    side: Vec<usize>,
    words: Vec<(String, i32, i32)>,
    extra: Vec<Gadget>,
}

/// A panel, as values.
pub struct PanelView {
    pub plain: Seq<(usize, i32, i32, bool)>,
    pub icons: Seq<Icon>,
    pub side: Seq<usize>,
    pub words: Seq<(Seq<char>, i32, i32)>,
    pub extra: Seq<GadgetView>,
}

impl View for Panel {
    type V = PanelView;

    closed spec fn view(&self) -> PanelView {
        PanelView {
            plain: self.plain@,
            icons: self.icons@,
            side: self.side@,
            words: self.words@.map_values(|w: (String, i32, i32)| (w.0@, w.1, w.2)),
            extra: self.extra@.map_values(|g: Gadget| g@),
        }
    }
}

impl PanelView {
    /// Every icon has a side to read its line from: the two run in step,
    /// or every icon after a missing one would read the wrong table.
    pub open spec fn wf(self) -> bool {
        self.icons.len() == self.side.len()
    }

    /// `count` copies of a cel in a row, `step` apart, each a gadget.
    pub open spec fn placed(
        self,
        side: usize,
        count: nat,
        cel: usize,
        x: int,
        y: i32,
        step: int,
        id: usize,
        payload: Payload,
    ) -> PanelView {
        PanelView {
            icons: self.icons + Seq::new(count, |i: int| Icon { cel, x: (x + i * step) as i32, y, id, payload }),
            side: self.side + Seq::new(count, |i: int| side),
            ..self
        }
    }

    /// One of a cel, a gadget.
    pub open spec fn one(self, side: usize, cel: usize, x: int, y: i32, id: usize, payload: Payload) -> PanelView {
        self.placed(side, 1, cel, x, y, 0, id, payload)
    }

    /// A line of text.
    pub open spec fn worded(self, line: Seq<char>, x: i32, y: i32) -> PanelView {
        PanelView { words: self.words.push((line, x, y)), ..self }
    }

    /// A table of furniture, each record's `x` moved by `offset`, and an
    /// exit gadget on every pillar.
    pub open spec fn furnished(self, table: Seq<(usize, i32, i32, bool)>, offset: int) -> PanelView
        decreases table.len(),
    {
        if table.len() == 0 {
            self
        } else {
            let p = self.furnished(table.drop_last(), offset);
            let r = table.last();
            let x = (r.1 + offset) as i32;
            let q = PanelView { plain: p.plain.push((r.0, x, r.2, r.3)), ..p };
            if r.0 == PILLAR_CEL {
                PanelView {
                    icons: q.icons.push(Icon { cel: r.0, x, y: r.2, id: EXIT_ID, payload: Payload::nothing() }),
                    side: q.side.push(0),
                    ..q
                }
            } else {
                q
            }
        }
    }
}

impl Panel {
    /// An empty panel.
    pub fn new() -> (p: Panel)
        ensures
            p@.plain.len() == 0,
            p@.icons.len() == 0,
            p@.side.len() == 0,
            p@.words.len() == 0,
            p@.extra.len() == 0,
    {
        let p = Panel { plain: Vec::new(), icons: Vec::new(), side: Vec::new(), words: Vec::new(), extra: Vec::new() };
        proof {
            assert(p@.words =~= Seq::<(Seq<char>, i32, i32)>::empty());
            assert(p@.extra =~= Seq::<GadgetView>::empty());
        }
        p
    }

    /// The icons placed so far, for a reader of the panel.
    pub fn icons(&self) -> (r: &Vec<Icon>)
        ensures
            r@ == self@.icons,
    {
        &self.icons
    }

    /// Which response table each icon reads, by icon.
    pub fn sides(&self) -> (r: &Vec<usize>)
        ensures
            r@ == self@.side,
    {
        &self.side
    }

    /// The furniture placed so far.
    pub fn plain(&self) -> (r: &Vec<(usize, i32, i32, bool)>)
        ensures
            r@ == self@.plain,
    {
        &self.plain
    }

    /// The lines of text placed so far.
    pub fn words(&self) -> (r: &Vec<(String, i32, i32)>)
        ensures
            r@.map_values(|w: (String, i32, i32)| (w.0@, w.1, w.2)) == self@.words,
    {
        &self.words
    }

    /// The gadgets with a rectangle of their own.
    pub fn extra(&self) -> (r: &Vec<Gadget>)
        ensures
            r@.map_values(|g: Gadget| g@) == self@.extra,
    {
        &self.extra
    }

    /// `StatusSetup`: blit each record and make an exit of every pillar.
    pub fn furniture(&mut self, table: &[(usize, i32, i32, bool)], offset: i32)
        requires
            old(self)@.wf(),
            forall|k: int| 0 <= k < table@.len() ==> i32::MIN <= (#[trigger] table@[k]).1 + offset <= i32::MAX,
        ensures
            final(self)@ == old(self)@.furnished(table@, offset as int),
            final(self)@.wf(),
    {
        let ghost start = self@;
        let mut k: usize = 0;
        proof {
            assert(table@.take(0) =~= Seq::<(usize, i32, i32, bool)>::empty());
        }
        while k < table.len()
            invariant
                k <= table@.len(),
                forall|j: int| 0 <= j < table@.len() ==> i32::MIN <= (#[trigger] table@[j]).1 + offset <= i32::MAX,
                self@ == start.furnished(table@.take(k as int), offset as int),
                self@.wf(),
            decreases table@.len() - k,
        {
            let (cel, x, y, mirror) = table[k];
            proof {
                assert(table@[k as int] == (cel, x, y, mirror));
                let t = table@.take(k as int + 1);
                assert(t.drop_last() =~= table@.take(k as int));
                assert(t.last() == table@[k as int]);
            }
            let at: i32 = x + offset;
            let ghost before = self@;
            self.plain.push((cel, at, y, mirror));
            if cel == PILLAR_CEL {
                self.icons.push(Icon { cel, x: at, y, id: EXIT_ID, payload: Payload { strp: 0, stpl: 0 } });
                self.side.push(0);
            }
            proof {
                assert(self@.words == before.words);
                assert(self@.extra == before.extra);
            }
            k = k + 1;
        }
        proof {
            assert(table@.take(k as int) =~= table@);
        }
    }

    /// `PlaceIcons`: `count` copies of a cel, stepping `step` in x, each
    /// one a gadget of its own that reads `side`'s responses.
    pub fn place(
        &mut self,
        side: usize,
        count: u32,
        cel: usize,
        x: i32,
        y: i32,
        step: i32,
        id: usize,
        payload: Payload,
    )
        requires
            old(self)@.wf(),
            i32::MIN <= x + count * step <= i32::MAX,
        ensures
            final(self)@ == old(self)@.placed(side, count as nat, cel, x as int, y, step as int, id, payload),
            final(self)@.wf(),
    {
        let ghost start = self@;
        let mut at: i32 = x;
        let mut n: u32 = 0;
        while n < count
            invariant
                n <= count,
                i32::MIN <= x + count * step <= i32::MAX,
                at == x + n * step,
                self@ == start.placed(side, n as nat, cel, x as int, y, step as int, id, payload),
                self@.wf(),
            decreases count - n,
        {
            let ghost before = self@;
            self.icons.push(Icon { cel, x: at, y, id, payload });
            self.side.push(side);
            proof {
                assert(x + (n + 1) * step == x + n * step + step) by (nonlinear_arith);
                if step >= 0 {
                    assert(x + (n + 1) * step <= x + count * step) by (nonlinear_arith)
                        requires
                            step >= 0,
                            n + 1 <= count,
                    ;
                    assert(x + (n + 1) * step >= x) by (nonlinear_arith)
                        requires
                            step >= 0,
                            n + 1 >= 0,
                    ;
                } else {
                    assert(x + (n + 1) * step >= x + count * step) by (nonlinear_arith)
                        requires
                            step < 0,
                            n + 1 <= count,
                    ;
                    assert(x + (n + 1) * step <= x) by (nonlinear_arith)
                        requires
                            step < 0,
                            n + 1 >= 0,
                    ;
                }
                assert(self@.icons =~= start.placed(side, (n + 1) as nat, cel, x as int, y, step as int, id, payload).icons);
                assert(self@.side =~= start.placed(side, (n + 1) as nat, cel, x as int, y, step as int, id, payload).side);
            }
            at = at + step;
            n = n + 1;
        }
    }

    /// A line of text at a place.
    pub fn add_words(&mut self, line: String, x: i32, y: i32)
        ensures
            final(self)@ == old(self)@.worded(line@, x, y),
    {
        let ghost before = self@;
        self.words.push((line, x, y));
        proof {
            assert(self@.words =~= before.words.push((line@, x, y)));
        }
    }
}

/// The gems, rings, talismans and potions a hoard shows, each clamped its
/// own way: the gems, talismans and potions to four, and the rings to three
/// once there are four or more.
pub open spec fn shown_gems(h: Hoard) -> nat {
    if h.gems > 4 {
        4
    } else {
        h.gems as nat
    }
}

pub open spec fn shown_rings(h: Hoard) -> nat {
    if h.rings >= 4 {
        3
    } else {
        h.rings as nat
    }
}

pub open spec fn shown_talismans(h: Hoard) -> nat {
    if h.talismans > 4 {
        4
    } else {
        h.talismans as nat
    }
}

pub open spec fn shown_potions(h: Hoard) -> nat {
    if h.potions > 4 {
        4
    } else {
        h.potions as nat
    }
}

/// `StatCheckKeys`, as values: a key for each of the four bits at its own
/// place on row 0x6f, and then the moonstones, all at x 0x67.
pub open spec fn keyed(p: PanelView, side: usize, offset: int, h: Hoard) -> PanelView {
    let k1 = if h.keys & 1 != 0 {
        p.one(side, 5, 0x4c + offset, 0x6f, 0x22, Payload { strp: 0x11, stpl: 0x14 })
    } else {
        p
    };
    let k2 = if h.keys & 2 != 0 {
        k1.one(side, 6, 0x5e + offset, 0x6f, 0x22, Payload { strp: 0x21, stpl: 0x14 })
    } else {
        k1
    };
    let k4 = if h.keys & 4 != 0 {
        k2.one(side, 7, 0x70 + offset, 0x6f, 0x22, Payload { strp: 0x41, stpl: 0x14 })
    } else {
        k2
    };
    let k8 = if h.keys & 8 != 0 {
        k4.one(side, 8, 0x82 + offset, 0x6f, 0x22, Payload { strp: 0x81, stpl: 0x14 })
    } else {
        k4
    };
    let m1 = if h.moonstones & 1 != 0 {
        k8.one(side, 2, 0x67 + offset, 0x6f, 0x1c, Payload { strp: 0x11, stpl: 0x16 })
    } else {
        k8
    };
    let m2 = if h.moonstones & 2 != 0 {
        m1.one(side, 1, 0x67 + offset, 0x6f, 0x1e, Payload { strp: 0x21, stpl: 0x16 })
    } else {
        m1
    };
    let m4 = if h.moonstones & 4 != 0 {
        m2.one(side, 0, 0x67 + offset, 0x6f, 0x20, Payload { strp: 0x41, stpl: 0x16 })
    } else {
        m2
    };
    if h.moonstones & 8 != 0 {
        m4.one(side, 0, 0x67 + offset, 0x6f, 0x1c, Payload { strp: 0x81, stpl: 0x16 })
    } else {
        m4
    }
}

/// `StatPlaceScroll` over the five kinds from kind `n` on, as values, with
/// the next scroll going at `x`: a kind with none is skipped and takes no
/// room, a kind held is its cel, a second one is a sliver eleven to the
/// right, and only a drawn scroll moves `x` on.
pub open spec fn scrolled(p: PanelView, side: usize, offset: int, h: Hoard, n: int, x: int) -> PanelView
    decreases 5 - n,
{
    if n >= 5 || n < 0 {
        p
    } else if h.scrolls@[n] == 0 {
        scrolled(p, side, offset, h, n + 1, x)
    } else {
        let payload = Payload { strp: 5, stpl: (0xa + n * 2) as u16 };
        let id = ((22 + n) * 2) as usize;
        let a = p.one(side, (0xb + n) as usize, x + offset, 0xb7, id, payload);
        let b = if h.scrolls@[n] >= 2 {
            a.placed(side, 1, 0x10, x + 0xb + offset, 0xb7, 4, id, payload)
        } else {
            a
        };
        scrolled(b, side, offset, h, n + 1, x + 0x19)
    }
}

/// `DisplayMagic`, as values: gems, rings, talismans, the keys and the
/// moonstones, potions, and the scrolls.
pub open spec fn magicked(p: PanelView, side: usize, offset: int, h: Hoard) -> PanelView {
    let a = p.placed(side, shown_gems(h), 9, 0x57 + offset, 0xa4, 0x10, 0x26, Payload { strp: 5, stpl: 2 });
    let b = a.placed(side, shown_rings(h), 3, 0x21 + offset, 0x95, 0xc, 0x28, Payload { strp: 1, stpl: 6 });
    let c = b.placed(side, shown_talismans(h), 0xa, 0x45 + offset, 0x85, 0x14, 0x2a, Payload { strp: 1, stpl: 8 });
    let d = keyed(c, side, offset, h);
    let e = d.placed(side, shown_potions(h), 4, 0x1f + offset, 0xa5, 0xd, 0x24, Payload { strp: 5, stpl: 0 });
    scrolled(e, side, offset, h, 0, 0x1e)
}

/// `DisplayMSword`, as values: the hoard's sword of sharpness, if it has
/// one.
pub open spec fn sworded(p: PanelView, side: usize, offset: int, h: Hoard) -> PanelView {
    if h.magic_sword {
        p.one(side, 0x19, 0x2b + offset, 0x5f, 0x1a, Payload { strp: 1, stpl: 4 })
    } else {
        p
    }
}

/// `DisplayGold`, as values: the purse's cel, and `"<n> gp."` under it.
pub open spec fn golded(p: PanelView, side: usize, offset: int, gold: u32) -> PanelView {
    p.one(side, 0x25, 0x57 + offset, 0x40, 8, Payload { strp: 2, stpl: 0x32 }).worded(
        decimal(gold as nat) + " gp."@,
        (0x5c + offset) as i32,
        0x5b,
    )
}

/// `DisplayMagic` at `0xc38e` and `StatCheckKeys` after it, which it also
/// falls into.
pub fn display_magic(panel: &mut Panel, side: usize, offset: i32, hoard: &Hoard)
    requires
        old(panel)@.wf(),
        offset <= i32::MAX - 151,
    ensures
        final(panel)@ == magicked(old(panel)@, side, offset as int, *hoard),
        final(panel)@.wf(),
{
    let gems: u32 = if hoard.gems > 4 {
        4
    } else {
        hoard.gems as u32
    };
    panel.place(side, gems, 9, 0x57 + offset, 0xa4, 0x10, 0x26, Payload::new(5, 2));
    let rings: u32 = if hoard.rings >= 4 {
        3
    } else {
        hoard.rings as u32
    };
    panel.place(side, rings, 3, 0x21 + offset, 0x95, 0xc, 0x28, Payload::new(1, 6));
    let talismans: u32 = if hoard.talismans > 4 {
        4
    } else {
        hoard.talismans as u32
    };
    panel.place(side, talismans, 0xa, 0x45 + offset, 0x85, 0x14, 0x2a, Payload::new(1, 8));
    stat_check_keys(panel, side, offset, hoard);
    let potions: u32 = if hoard.potions > 4 {
        4
    } else {
        hoard.potions as u32
    };
    panel.place(side, potions, 4, 0x1f + offset, 0xa5, 0xd, 0x24, Payload::new(5, 0));
    stat_place_scrolls(panel, side, offset, hoard);
}

/// `StatCheckKeys` at `0xc44e`: the four keys of the Valley and then the
/// moonstones, one slot per bit. A knight holds one moonstone at a time,
/// so they all go in the same place.
fn stat_check_keys(panel: &mut Panel, side: usize, offset: i32, hoard: &Hoard)
    requires
        old(panel)@.wf(),
        offset <= i32::MAX - 151,
    ensures
        final(panel)@ == keyed(old(panel)@, side, offset as int, *hoard),
        final(panel)@.wf(),
{
    if hoard.keys & 1 != 0 {
        panel.place(side, 1, 5, 0x4c + offset, 0x6f, 0, 0x22, Payload::new(0x11, 0x14));
    }
    if hoard.keys & 2 != 0 {
        panel.place(side, 1, 6, 0x5e + offset, 0x6f, 0, 0x22, Payload::new(0x21, 0x14));
    }
    if hoard.keys & 4 != 0 {
        panel.place(side, 1, 7, 0x70 + offset, 0x6f, 0, 0x22, Payload::new(0x41, 0x14));
    }
    if hoard.keys & 8 != 0 {
        panel.place(side, 1, 8, 0x82 + offset, 0x6f, 0, 0x22, Payload::new(0x81, 0x14));
    }
    if hoard.moonstones & 1 != 0 {
        panel.place(side, 1, 2, 0x67 + offset, 0x6f, 0, 0x1c, Payload::new(0x11, 0x16));
    }
    if hoard.moonstones & 2 != 0 {
        panel.place(side, 1, 1, 0x67 + offset, 0x6f, 0, 0x1e, Payload::new(0x21, 0x16));
    }
    if hoard.moonstones & 4 != 0 {
        panel.place(side, 1, 0, 0x67 + offset, 0x6f, 0, 0x20, Payload::new(0x41, 0x16));
    }
    if hoard.moonstones & 8 != 0 {
        panel.place(side, 1, 0, 0x67 + offset, 0x6f, 0, 0x1c, Payload::new(0x81, 0x16));
    }
}

/// The five scroll fields and `StatPlaceScroll` at `0xc633`. The scrolls
/// pack leftward along row 0xb7 rather than keeping fixed places, and a
/// second scroll of a kind is a four pixel sliver eleven to the right of
/// the first: a stack seen edge on.
fn stat_place_scrolls(panel: &mut Panel, side: usize, offset: i32, hoard: &Hoard)
    requires
        old(panel)@.wf(),
        offset <= i32::MAX - 151,
    ensures
        final(panel)@ == scrolled(old(panel)@, side, offset as int, *hoard, 0, 0x1e),
        final(panel)@.wf(),
{
    let ghost start = old(panel)@;
    let mut x: i32 = 0x1e;
    let mut n: usize = 0;
    while n < 5
        invariant
            n <= 5,
            0x1e <= x <= 0x1e + n * 0x19,
            offset <= i32::MAX - 151,
            panel@.wf(),
            scrolled(panel@, side, offset as int, *hoard, n as int, x as int) == scrolled(
                start,
                side,
                offset as int,
                *hoard,
                0,
                0x1e,
            ),
        decreases 5 - n,
    {
        let count = hoard.scrolls[n];
        if count != 0 {
            let payload = Payload::new(5, 0xa + n as u16 * 2);
            let id: usize = (22 + n) * 2;
            panel.place(side, 1, 0xb + n, x + offset, 0xb7, 0, id, payload);
            if count >= 2 {
                panel.place(side, 1, 0x10, x + 0xb + offset, 0xb7, 4, id, payload);
            }
            x = x + 0x19;
        }
        n = n + 1;
    }
}

/// `DisplayMSword` at `0xc70c`: the hoard's own sword of sharpness, cel
/// 0x19 at (0x2b, 0x5f), id 0x1a, which is slot 13.
pub fn display_msword(panel: &mut Panel, side: usize, offset: i32, hoard: &Hoard)
    requires
        old(panel)@.wf(),
        offset <= i32::MAX - 0x2b,
    ensures
        final(panel)@ == sworded(old(panel)@, side, offset as int, *hoard),
        final(panel)@.wf(),
{
    if !hoard.magic_sword {
        return;
    }
    panel.place(side, 1, 0x19, 0x2b + offset, 0x5f, 0, 0x1a, Payload::new(1, 4));
}

/// `DisplayGold` at `0xc743`: cel 0x25 at (0x57, 0x40), id 8, and then
/// `"<n> gp."` at (0x5c, 0x5b).
pub fn display_gold(panel: &mut Panel, side: usize, offset: i32, gold: u32)
    requires
        old(panel)@.wf(),
        offset <= i32::MAX - 0x5c,
    ensures
        final(panel)@ == golded(old(panel)@, side, offset as int, gold),
        final(panel)@.wf(),
{
    panel.place(side, 1, 0x25, 0x57 + offset, 0x40, 0, 8, Payload::new(2, 0x32));
    let mut line = decimal_chars(gold as u64);
    line.push(' ');
    line.push('g');
    line.push('p');
    line.push('.');
    proof {
        reveal_strlit(" gp.");
        assert(line@ =~= decimal(gold as nat) + " gp."@);
    }
    panel.add_words(string_of(line.as_slice()), 0x5c + offset, 0x5b);
}

/// `DisplayMerchant`, as values: five single goods and a row of thirteen
/// daggers.
pub open spec fn stocked(p: PanelView, side: usize, offset: int) -> PanelView {
    p.one(side, 0x1c, 0x17 + offset, 0x91, 0x0e, Payload { strp: 0x1a, stpl: 0x42 }).one(
        side,
        0x1d,
        0x40 + offset,
        0x91,
        0x10,
        Payload { strp: 0x2a, stpl: 0x42 },
    ).one(side, 0x1e, 0x6a + offset, 0x90, 0x12, Payload { strp: 0x4a, stpl: 0x42 }).one(
        side,
        0x17,
        0x32 + offset,
        0x6b,
        0x16,
        Payload { strp: 0x1a, stpl: 0x40 },
    ).one(side, 0x18, 0x2f + offset, 0x7d, 0x18, Payload { strp: 0x2a, stpl: 0x40 }).placed(
        side,
        13,
        0x15,
        0x20 + offset,
        0x59,
        9,
        0xa,
        Payload { strp: 0xa, stpl: 0x34 },
    )
}

/// `DisplayMerchant` at `0xc7ad`: what is on the stall. Chain mail, plate
/// and battle armour, the broad sword and the claymore, and thirteen
/// daggers, each priced by the slot its id is twice of.
pub fn display_merchant(panel: &mut Panel, side: usize, offset: i32)
    requires
        old(panel)@.wf(),
        offset <= i32::MAX - 149,
    ensures
        final(panel)@ == stocked(old(panel)@, side, offset as int),
        final(panel)@.wf(),
{
    panel.place(side, 1, 0x1c, 0x17 + offset, 0x91, 0, 0x0e, Payload::new(0x1a, 0x42));
    panel.place(side, 1, 0x1d, 0x40 + offset, 0x91, 0, 0x10, Payload::new(0x2a, 0x42));
    panel.place(side, 1, 0x1e, 0x6a + offset, 0x90, 0, 0x12, Payload::new(0x4a, 0x42));
    panel.place(side, 1, 0x17, 0x32 + offset, 0x6b, 0, 0x16, Payload::new(0x1a, 0x40));
    panel.place(side, 1, 0x18, 0x2f + offset, 0x7d, 0, 0x18, Payload::new(0x2a, 0x40));
    panel.place(side, 13, 0x15, 0x20 + offset, 0x59, 9, 0xa, Payload::new(0xa, 0x34));
}

/// A lair's floor: three cels of a hoard in the right arch.
pub open spec fn floor(p: PanelView, offset: int) -> PanelView {
    PanelView {
        plain: p.plain.push((0x1f, (0x3a + offset) as i32, 0x2e, false)).push(
            (0x20, (0x4c + offset) as i32, 0x21, false),
        ).push((0x21, (0x3a + offset) as i32, 0x3c, false)),
        ..p
    }
}

/// `DisplayLair` at `0xc67f`: three cels of a hoard on the floor, and then
/// the gold if there is any, the magic sword and the magic on top of them.
pub fn display_lair(panel: &mut Panel, side: usize, offset: i32, hoard: &Hoard, gold: u32)
    requires
        old(panel)@.wf(),
        offset <= i32::MAX - 151,
    ensures
        final(panel)@ == magicked(
            sworded(
                if gold > 0 {
                    golded(floor(old(panel)@, offset as int), side, offset as int, gold)
                } else {
                    floor(old(panel)@, offset as int)
                },
                side,
                offset as int,
                *hoard,
            ),
            side,
            offset as int,
            *hoard,
        ),
        final(panel)@.wf(),
{
    let ghost before = panel@;
    panel.plain.push((0x1f, 0x3a + offset, 0x2e, false));
    panel.plain.push((0x20, 0x4c + offset, 0x21, false));
    panel.plain.push((0x21, 0x3a + offset, 0x3c, false));
    proof {
        assert(panel@ == floor(before, offset as int));
    }
    if gold > 0 {
        display_gold(panel, side, offset, gold);
    }
    display_msword(panel, side, offset, hoard);
    display_magic(panel, side, offset, hoard);
}

/// `DisplayDragon` at `0xc6ea`: the hoard, the sword, and the gold if there
/// is any. No furniture of its own.
pub fn display_dragon(panel: &mut Panel, side: usize, offset: i32, hoard: &Hoard, gold: u32)
    requires
        old(panel)@.wf(),
        offset <= i32::MAX - 151,
    ensures
        final(panel)@ == ({
            let s = sworded(magicked(old(panel)@, side, offset as int, *hoard), side, offset as int, *hoard);
            if gold > 0 {
                golded(s, side, offset as int, gold)
            } else {
                s
            }
        }),
        final(panel)@.wf(),
{
    display_magic(panel, side, offset, hoard);
    display_msword(panel, side, offset, hoard);
    if gold > 0 {
        display_gold(panel, side, offset, gold);
    }
}

/// `DisplayAquire` at `0xc8ce`: one cel of the thing picked up, and a
/// twenty by twenty gadget over it whose text record is `NEXT`, the one
/// gadget on the panel identified by what it says.
pub fn display_acquire(panel: &mut Panel)
    requires
        old(panel)@.wf(),
    ensures
        final(panel)@ == (PanelView {
            plain: old(panel)@.plain.push((ACQUIRE_CEL, ACQUIRE_X, ACQUIRE_Y, false)),
            extra: old(panel)@.extra.push(
                GadgetView {
                    id: NEXT_ID,
                    x: ACQUIRE_X,
                    y: ACQUIRE_Y,
                    w: 0x14,
                    h: 0x14,
                    label: NEXT_LINE@,
                    payload: Payload::nothing(),
                    lit: true,
                },
            ),
            ..old(panel)@
        }),
        final(panel)@.wf(),
{
    let ghost before = panel@;
    panel.plain.push((ACQUIRE_CEL, ACQUIRE_X, ACQUIRE_Y, false));
    panel.extra.push(
        Gadget {
            id: NEXT_ID,
            x: ACQUIRE_X,
            y: ACQUIRE_Y,
            w: 0x14,
            h: 0x14,
            label: NEXT_LINE.to_owned(),
            payload: Payload { strp: 0, stpl: 0 },
            lit: true,
        },
    );
    proof {
        assert(panel@.extra =~= before.extra.push(
            GadgetView {
                id: NEXT_ID,
                x: ACQUIRE_X,
                y: ACQUIRE_Y,
                w: 0x14,
                h: 0x14,
                label: NEXT_LINE@,
                payload: Payload::nothing(),
                lit: true,
            },
        ));
    }
}

/// The fields `DisplayKnight` reads off a knight's record, whichever record
/// it is: the run's own, or a computer knight's on a trading screen.
pub struct KnightSheet {
    pub strength: u8,
    pub constitution: u8,
    pub endurance: u8,
    pub daggers: u32,
    /// The weapon's name: `long_sword`, `broad_sword`, `claymore` or
    /// `sword_of_sharpness`.
    pub weapon: String,
    /// The armour's name: `padded_armour`, `chain_mail`, `plate_armour` or
    /// `battle_armour`.
    pub armour: String,
    pub experience: u32,
    pub gold: u32,
    pub health: i32,
    pub max_health: i32,
    pub lives: i32,
    /// Whether the wizard has made a toad of him.
    pub toad: bool,
    pub hoard: Hoard,
}

/// Which of the four weapons a name is, in cel order.
pub open spec fn sword_index(w: Seq<char>) -> Option<nat> {
    if w == "long_sword"@ {
        Some(0)
    } else if w == "broad_sword"@ {
        Some(1)
    } else if w == "claymore"@ {
        Some(2)
    } else if w == "sword_of_sharpness"@ {
        Some(3)
    } else {
        None
    }
}

/// Which of the four armours a name is, in cel order.
pub open spec fn armour_index(a: Seq<char>) -> Option<nat> {
    if a == "padded_armour"@ {
        Some(0)
    } else if a == "chain_mail"@ {
        Some(1)
    } else if a == "plate_armour"@ {
        Some(2)
    } else if a == "battle_armour"@ {
        Some(3)
    } else {
        None
    }
}

fn sword_of(w: &String) -> (r: Option<usize>)
    ensures
        match sword_index(w@) {
            Some(n) => r == Some(n as usize),
            None => r is None,
        },
{
    if str_is(w.as_str(), "long_sword") {
        Some(0)
    } else if str_is(w.as_str(), "broad_sword") {
        Some(1)
    } else if str_is(w.as_str(), "claymore") {
        Some(2)
    } else if str_is(w.as_str(), "sword_of_sharpness") {
        Some(3)
    } else {
        None
    }
}

fn armour_of(a: &String) -> (r: Option<usize>)
    ensures
        match armour_index(a@) {
            Some(n) => r == Some(n as usize),
            None => r is None,
        },
{
    if str_is(a.as_str(), "padded_armour") {
        Some(0)
    } else if str_is(a.as_str(), "chain_mail") {
        Some(1)
    } else if str_is(a.as_str(), "plate_armour") {
        Some(2)
    } else if str_is(a.as_str(), "battle_armour") {
        Some(3)
    } else {
        None
    }
}

/// The health line: `have/most`, a negative health read as none.
pub open spec fn health_line(health: i32, max_health: i32) -> Seq<char> {
    signed_decimal(if health > 0 {
        health as int
    } else {
        0
    }) + seq!['/'] + signed_decimal(max_health as int)
}

/// `DisplayKnight`, as values, up to where it falls into `DisplayMagic`:
/// the name; the four label gadgets; the labels again as furniture; the
/// experience, the gold, the three abilities and the health as text; a
/// life point each, a knight's head or a toad's; a dagger each; the weapon
/// and the armour.
pub open spec fn knighted(
    p: PanelView,
    side: usize,
    offset: int,
    k: KnightSheet,
    acel: usize,
    name: Seq<char>,
) -> PanelView {
    let a = p.worded(name, (NAME_X + offset) as i32, NAME_Y);
    let b = a.one(side, 0x26, 0x29 + offset, 0x23, 0, Payload { strp: 3, stpl: 0x2e }).one(
        side,
        0x28,
        0x29 + offset,
        0x31,
        4,
        Payload { strp: 3, stpl: 0x30 },
    ).one(side, 0x27, 0x29 + offset, 0x2a, 2, Payload { strp: 3, stpl: 0x2f });
    let c = b.one(side, 0x2a, 0x59 + offset, 0x2a, 8, Payload { strp: 2, stpl: 0x32 });
    let d = c.furnished(ABORDERS@, offset);
    let e = d.worded(decimal(k.experience as nat), (COLUMN_X + offset) as i32, ROW_TOP).worded(
        decimal(k.gold as nat),
        (COLUMN_X + offset) as i32,
        (ROW_TOP + ROW_STEP) as i32,
    ).worded(decimal(k.strength as nat), (ABILITY_X + offset) as i32, ROW_TOP).worded(
        decimal(k.constitution as nat),
        (ABILITY_X + offset) as i32,
        (ROW_TOP + ROW_STEP) as i32,
    ).worded(decimal(k.endurance as nat), (ABILITY_X + offset) as i32, (ROW_TOP + 2 * ROW_STEP) as i32).worded(
        health_line(k.health, k.max_health),
        (COLUMN_X + offset) as i32,
        (ROW_TOP + 2 * ROW_STEP) as i32,
    );
    let lives: nat = if k.lives > 0 {
        k.lives as nat
    } else {
        0
    };
    let f = e.placed(
        side,
        lives,
        (0x11 + acel + if k.toad {
            2int
        } else {
            0int
        }) as usize,
        0x29 + offset,
        0x3b,
        0x13,
        6,
        Payload { strp: 3, stpl: 0x31 },
    );
    let g = f.placed(side, k.daggers as nat, 0x15, 0x26 + offset, 0x4e, 0xa, 0xa, Payload { strp: 3, stpl: 0x34 });
    let h = match sword_index(k.weapon@) {
        Some(n) => g.one(
            side,
            (SWORD_CEL + n) as usize,
            0x2b + offset,
            0x5f,
            (n * 2 + 0x14) as usize,
            if SWORD_CEL + n == 0x19 {
                Payload { strp: 1, stpl: 4 }
            } else {
                Payload { strp: 2, stpl: 0x40 }
            },
        ),
        None => g,
    };
    match armour_index(k.armour@) {
        Some(n) => h.one(
            side,
            (ARMOUR_CEL + n) as usize,
            0x1d + offset,
            0x70,
            (n * 2 + 0xc) as usize,
            Payload { strp: 2, stpl: 0x42 },
        ),
        None => h,
    }
}

/// `DisplayKnight` at `0xc0c2`, and `DisplayMagic` after it because it
/// falls through. `acel` is `StatACEL`: 0 for the knight whose sheet this
/// is and 1 for the second knight in the other arch.
pub fn display_knight(panel: &mut Panel, side: usize, offset: i32, sheet: &KnightSheet, acel: usize, name: &str)
    requires
        old(panel)@.wf(),
        offset <= i32::MAX - 151,
        0x29 + offset + sheet.lives * 0x13 <= i32::MAX,
        0x26 + offset + sheet.daggers * 0xa <= i32::MAX,
        acel + 0x13 <= usize::MAX,
    ensures
        final(panel)@ == magicked(knighted(old(panel)@, side, offset as int, *sheet, acel, name@), side, offset as int, sheet.hoard),
        final(panel)@.wf(),
{
    panel.add_words(name.to_owned(), NAME_X + offset, NAME_Y);
    panel.place(side, 1, 0x26, 0x29 + offset, 0x23, 0, 0, Payload::new(3, 0x2e));
    panel.place(side, 1, 0x28, 0x29 + offset, 0x31, 0, 4, Payload::new(3, 0x30));
    panel.place(side, 1, 0x27, 0x29 + offset, 0x2a, 0, 2, Payload::new(3, 0x2f));
    panel.place(side, 1, 0x2a, 0x59 + offset, 0x2a, 0, 8, Payload::new(2, 0x32));
    let borders = ABORDERS;
    panel.furniture(&borders, offset);
    panel.add_words(string_of(decimal_chars(sheet.experience as u64).as_slice()), COLUMN_X + offset, ROW_TOP);
    panel.add_words(string_of(decimal_chars(sheet.gold as u64).as_slice()), COLUMN_X + offset, ROW_TOP + ROW_STEP);
    panel.add_words(string_of(decimal_chars(sheet.strength as u64).as_slice()), ABILITY_X + offset, ROW_TOP);
    panel.add_words(
        string_of(decimal_chars(sheet.constitution as u64).as_slice()),
        ABILITY_X + offset,
        ROW_TOP + ROW_STEP,
    );
    panel.add_words(
        string_of(decimal_chars(sheet.endurance as u64).as_slice()),
        ABILITY_X + offset,
        ROW_TOP + 2 * ROW_STEP,
    );
    let have: i32 = if sheet.health > 0 {
        sheet.health
    } else {
        0
    };
    let mut line: Vec<char> = Vec::new();
    let a = signed_string(have as i64);
    let b = signed_string(sheet.max_health as i64);
    let ac = crate::chars::chars_of(a.as_str());
    let bc = crate::chars::chars_of(b.as_str());
    let mut i: usize = 0;
    while i < ac.len()
        invariant
            i <= ac@.len(),
            line@ == ac@.take(i as int),
        decreases ac@.len() - i,
    {
        line.push(ac[i]);
        proof {
            assert(ac@.take(i as int + 1) =~= ac@.take(i as int).push(ac@[i as int]));
        }
        i = i + 1;
    }
    line.push('/');
    let ghost head = line@;
    let mut j: usize = 0;
    while j < bc.len()
        invariant
            j <= bc@.len(),
            line@ == head + bc@.take(j as int),
        decreases bc@.len() - j,
    {
        line.push(bc[j]);
        proof {
            assert(bc@.take(j as int + 1) =~= bc@.take(j as int).push(bc@[j as int]));
        }
        j = j + 1;
    }
    proof {
        assert(ac@.take(i as int) =~= ac@);
        assert(bc@.take(j as int) =~= bc@);
        assert(line@ =~= health_line(sheet.health, sheet.max_health));
    }
    panel.add_words(string_of(line.as_slice()), COLUMN_X + offset, ROW_TOP + 2 * ROW_STEP);
    let lives: u32 = if sheet.lives > 0 {
        sheet.lives as u32
    } else {
        0
    };
    let life_cel: usize = 0x11 + acel + if sheet.toad {
        2
    } else {
        0
    };
    panel.place(side, lives, life_cel, 0x29 + offset, 0x3b, 0x13, 6, Payload::new(3, 0x31));
    panel.place(side, sheet.daggers, 0x15, 0x26 + offset, 0x4e, 0xa, 0xa, Payload::new(3, 0x34));
    if let Some(n) = sword_of(&sheet.weapon) {
        let cel = SWORD_CEL + n;
        let payload = if cel == 0x19 {
            Payload::new(1, 4)
        } else {
            Payload::new(2, 0x40)
        };
        panel.place(side, 1, cel, 0x2b + offset, 0x5f, 0, n * 2 + 0x14, payload);
    }
    if let Some(n) = armour_of(&sheet.armour) {
        panel.place(side, 1, ARMOUR_CEL + n, 0x1d + offset, 0x70, 0, n * 2 + 0xc, Payload::new(2, 0x42));
    }
    display_magic(panel, side, offset, &sheet.hoard);
}

/// How many kinds of scroll before kind `n`, from kind `m` on, are held.
pub open spec fn held_between(h: Hoard, m: int, n: int) -> int
    decreases n - m,
{
    if m >= n {
        0
    } else {
        held_between(h, m + 1, n) + if h.scrolls@[m] > 0 {
            1int
        } else {
            0int
        }
    }
}

/// The scroll icon for kind `n` when it is drawn at `x`.
pub open spec fn scroll_icon(offset: int, n: int, x: int) -> Icon {
    Icon {
        cel: (0xb + n) as usize,
        x: (x + offset) as i32,
        y: 0xb7,
        id: ((22 + n) * 2) as usize,
        payload: Payload { strp: 5, stpl: (0xa + n * 2) as u16 },
    }
}

/// Placing only ever adds icons after the ones already there.
proof fn lemma_scrolled_appends(p: PanelView, side: usize, offset: int, h: Hoard, n: int, x: int)
    ensures
        scrolled(p, side, offset, h, n, x).icons.len() >= p.icons.len(),
        forall|i: int| 0 <= i < p.icons.len() ==> #[trigger] scrolled(p, side, offset, h, n, x).icons[i] == p.icons[i],
    decreases 5 - n,
{
    if 0 <= n < 5 {
        if h.scrolls@[n] == 0 {
            lemma_scrolled_appends(p, side, offset, h, n + 1, x);
        } else {
            let payload = Payload { strp: 5, stpl: (0xa + n * 2) as u16 };
            let id = ((22 + n) * 2) as usize;
            let a = p.one(side, (0xb + n) as usize, x + offset, 0xb7, id, payload);
            let b = if h.scrolls@[n] >= 2 {
                a.placed(side, 1, 0x10, x + 0xb + offset, 0xb7, 4, id, payload)
            } else {
                a
            };
            lemma_scrolled_appends(b, side, offset, h, n + 1, x + 0x19);
            assert forall|i: int| 0 <= i < p.icons.len() implies #[trigger] scrolled(p, side, offset, h, n, x).icons[i]
                == p.icons[i] by {
                assert(a.icons[i] == p.icons[i]);
                assert(b.icons[i] == p.icons[i]);
                assert(scrolled(b, side, offset, h, n + 1, x + 0x19).icons[i] == b.icons[i]);
            }
        }
    }
}

/// From kind `m` on, every held kind `n` is drawn at `x` moved on once for
/// each held kind between them.
proof fn lemma_scrolls_pack(p: PanelView, side: usize, offset: int, h: Hoard, m: int, x: int, n: int)
    requires
        0 <= m <= n < 5,
        h.scrolls@[n] > 0,
    ensures
        scrolled(p, side, offset, h, m, x).icons.contains(scroll_icon(offset, n, x + 0x19 * held_between(h, m, n))),
    decreases n - m,
{
    let payload = Payload { strp: 5, stpl: (0xa + m * 2) as u16 };
    let id = ((22 + m) * 2) as usize;
    let a = p.one(side, (0xb + m) as usize, x + offset, 0xb7, id, payload);
    let b = if h.scrolls@[m] >= 2 {
        a.placed(side, 1, 0x10, x + 0xb + offset, 0xb7, 4, id, payload)
    } else {
        a
    };
    if m == n {
        assert(held_between(h, m, n) == 0);
        let at = p.icons.len() as int;
        assert(a.icons[at] == scroll_icon(offset, n, x));
        assert(b.icons[at] == a.icons[at]);
        lemma_scrolled_appends(b, side, offset, h, m + 1, x + 0x19);
        assert(scrolled(p, side, offset, h, m, x).icons[at] == scroll_icon(offset, n, x));
    } else if h.scrolls@[m] == 0 {
        lemma_scrolls_pack(p, side, offset, h, m + 1, x, n);
        assert(held_between(h, m, n) == held_between(h, m + 1, n));
    } else {
        lemma_scrolls_pack(b, side, offset, h, m + 1, x + 0x19, n);
        assert(held_between(h, m, n) == held_between(h, m + 1, n) + 1);
        assert(x + 0x19 + 0x19 * held_between(h, m + 1, n) == x + 0x19 * held_between(h, m, n));
    }
}

/// **The scrolls pack leftward**: `SCROLLX` only moves on when a scroll is
/// actually drawn, so each kind held is drawn one place further along for
/// every kind before it that is held, and none for the kinds that are not.
pub proof fn the_scrolls_pack_leftward(p: PanelView, side: usize, offset: int, h: Hoard, n: int)
    requires
        0 <= n < 5,
        h.scrolls@[n] > 0,
    ensures
        scrolled(p, side, offset, h, 0, 0x1e).icons.contains(scroll_icon(offset, n, 0x1e + 0x19 * held_between(h, 0, n))),
{
    lemma_scrolls_pack(p, side, offset, h, 0, 0x1e, n);
}

/// **Each counted kind clamps its own way**: gems, talismans and potions
/// show at most four, and rings at most three, so four rings show three.
pub proof fn the_counted_kinds_clamp(h: Hoard)
    ensures
        shown_gems(h) <= 4,
        shown_talismans(h) <= 4,
        shown_potions(h) <= 4,
        shown_rings(h) <= 3,
        h.rings == 4 ==> shown_rings(h) == 3,
        h.gems == 4 ==> shown_gems(h) == 4,
{
}

/// The four weapons, in the order their cels stand in the bank.
pub open spec fn swords() -> Seq<Seq<char>> {
    seq!["long_sword"@, "broad_sword"@, "claymore"@, "sword_of_sharpness"@]
}

/// The four armours, in the order their cels stand in the bank.
pub open spec fn armours() -> Seq<Seq<char>> {
    seq!["padded_armour"@, "chain_mail"@, "plate_armour"@, "battle_armour"@]
}

/// **A knight is drawn with his own weapon and his own armour**: a sheet
/// whose weapon is the `n`th of the four weapons gets that weapon's cel,
/// `0x16 + n`, with gadget id `2n + 0x14`, at the weapon's place, just
/// before the armour; and a sheet whose armour is the `m`th of the four
/// armours ends on that armour's cel, `0x1b + m`, with gadget id `2m + 0xc`.
pub proof fn a_knight_carries_his_own_weapon(
    p: PanelView,
    side: usize,
    offset: int,
    k: KnightSheet,
    acel: usize,
    name: Seq<char>,
    n: int,
    m: int,
)
    requires
        0 <= n < 4,
        k.weapon@ == swords()[n],
    ensures
        ({
            let icons = knighted(p, side, offset, k, acel, name).icons;
            let at = icons.len() - 1 - (if armour_index(k.armour@) is Some { 1int } else { 0int });
            icons[at] == Icon {
                cel: (0x16 + n) as usize,
                x: (0x2b + offset) as i32,
                y: 0x5f,
                id: (2 * n + 0x14) as usize,
                payload: if n == 3 {
                    Payload { strp: 1, stpl: 4 }
                } else {
                    Payload { strp: 2, stpl: 0x40 }
                },
            }
        }),
        0 <= m < 4 && k.armour@ == armours()[m] ==> ({
            let icons = knighted(p, side, offset, k, acel, name).icons;
            icons.last() == Icon {
                cel: (0x1b + m) as usize,
                x: (0x1d + offset) as i32,
                y: 0x70,
                id: (2 * m + 0xc) as usize,
                payload: Payload { strp: 2, stpl: 0x42 },
            }
        }),
{
    reveal_strlit("long_sword");
    reveal_strlit("broad_sword");
    reveal_strlit("claymore");
    reveal_strlit("sword_of_sharpness");
    reveal_strlit("padded_armour");
    reveal_strlit("chain_mail");
    reveal_strlit("plate_armour");
    reveal_strlit("battle_armour");
    assert("long_sword"@[0] == 'l' && "broad_sword"@[0] == 'b' && "claymore"@.len() == 8
        && "sword_of_sharpness"@.len() == 18 && "long_sword"@.len() == 10 && "broad_sword"@.len() == 11);
    assert("padded_armour"@[0] == 'p' && "battle_armour"@[0] == 'b' && "chain_mail"@.len() == 10
        && "plate_armour"@.len() == 12 && "padded_armour"@.len() == 13 && "battle_armour"@.len() == 13);
    assert(sword_index(k.weapon@) == Some(n as nat));
    if 0 <= m < 4 && k.armour@ == armours()[m] {
        assert(armour_index(k.armour@) == Some(m as nat));
    }
}

/// **Every pillar is the way out**: each pillar record a table holds puts
/// an exit gadget at the pillar's own place, and each gadget keeps its side.
pub proof fn every_pillar_is_an_exit(p: PanelView, table: Seq<(usize, i32, i32, bool)>, offset: int, k: int)
    requires
        p.wf(),
        0 <= k < table.len(),
        table[k].0 == PILLAR_CEL,
    ensures
        p.furnished(table, offset).wf(),
        p.furnished(table, offset).icons.contains(
            Icon {
                cel: PILLAR_CEL,
                x: (table[k].1 + offset) as i32,
                y: table[k].2,
                id: EXIT_ID,
                payload: Payload::nothing(),
            },
        ),
    decreases table.len(),
{
    lemma_furnished(p, table, offset);
    if k == table.len() - 1 {
        let q = p.furnished(table.drop_last(), offset);
        assert(p.furnished(table, offset).icons.last() == Icon {
            cel: PILLAR_CEL,
            x: (table[k].1 + offset) as i32,
            y: table[k].2,
            id: EXIT_ID,
            payload: Payload::nothing(),
        });
        let r = p.furnished(table, offset).icons;
        assert(r[r.len() - 1] == r.last());
    } else {
        let rest = table.drop_last();
        assert(rest[k] == table[k]);
        every_pillar_is_an_exit(p, rest, offset, k);
        let q = p.furnished(rest, offset);
        let e = Icon {
            cel: PILLAR_CEL,
            x: (table[k].1 + offset) as i32,
            y: table[k].2,
            id: EXIT_ID,
            payload: Payload::nothing(),
        };
        let j = choose|j: int| 0 <= j < q.icons.len() && q.icons[j] == e;
        assert(p.furnished(table, offset).icons[j] == e);
    }
}

/// Furnishing keeps every icon with its side.
proof fn lemma_furnished(p: PanelView, table: Seq<(usize, i32, i32, bool)>, offset: int)
    requires
        p.wf(),
    ensures
        p.furnished(table, offset).wf(),
    decreases table.len(),
{
    if table.len() > 0 {
        lemma_furnished(p, table.drop_last(), offset);
    }
}

} // verus!
