//! A palette-indexed 320x200 framebuffer, the same shape the original drew into.
//!
//! Working in palette indices rather than RGB keeps colour cycling, palette
//! fades and per-area recolouring cheap, all of which the genre leans on
//! heavily. This holds the base palette a screen drew with; the composed one
//! is what reaches the window.
//!
//! Every drawing operation here is specified cell by cell: [`px`] names the
//! index at a row and column, and each function says what every one of the
//! 64000 cells holds afterwards in terms of what it held before.

use vstd::prelude::*;

verus! {

/// The screen's width in pixels.
pub const SCREEN_W: usize = 320;

/// The screen's height in pixels.
pub const SCREEN_H: usize = 200;

/// The cell at row `r`, column `c` of a screen's worth of pixels.
pub open spec fn px(s: Seq<u8>, r: int, c: int) -> u8 {
    s[r * 320 + c]
}

/// Whether a row and column are on the screen.
pub open spec fn on_screen(r: int, c: int) -> bool {
    0 <= r < 200 && 0 <= c < 320
}

/// The sprite pixel that lands on screen cell `(r, c)` when an `sw` by `sh`
/// sprite is drawn with its top left at `(x, y)`, mirrored left to right if
/// `flip`; zero where the sprite does not reach.
pub open spec fn sprite_px(src: Seq<u8>, sw: int, sh: int, x: int, y: int, flip: bool, r: int, c: int) -> u8 {
    let sy = r - y;
    let sx = if flip {
        x + sw - 1 - c
    } else {
        c - x
    };
    if 0 <= sy < sh && 0 <= sx < sw {
        src[sy * sw + sx]
    } else {
        0
    }
}

/// How a sprite's non-zero pixels are put down.
#[derive(Clone, Copy)]
pub enum Ink {
    /// As they are.
    Own,
    /// Through a colour substitution table, by their low five bits.
    Lut([u8; 32]),
    /// All in one colour.
    Flat(u8),
}

/// What a sprite pixel `v` leaves on a cell that held `under`: index 0 is
/// transparent.
pub open spec fn inked(ink: Ink, v: u8, under: u8) -> u8 {
    if v == 0 {
        under
    } else {
        match ink {
            Ink::Own => v,
            Ink::Lut(lut) => lut@[(v & 0x1f) as int],
            Ink::Flat(colour) => colour,
        }
    }
}

/// What a whole sprite leaves on cell `(r, c)`.
pub open spec fn drawn(old: Seq<u8>, src: Seq<u8>, sw: int, sh: int, x: int, y: int, flip: bool, ink: Ink, r: int, c: int) -> u8 {
    inked(ink, sprite_px(src, sw, sh, x, y, flip, r, c), px(old, r, c))
}

/// Whether a sprite of these dimensions at this place can be drawn: its
/// pixels are all there, and its far edges are still `i32` coordinates.
pub open spec fn drawable(src: Seq<u8>, sw: usize, sh: usize, x: i32, y: i32) -> bool {
    &&& sw * sh <= src.len()
    &&& sw <= i32::MAX
    &&& sh <= i32::MAX
    &&& x + sw <= i32::MAX + 1
    &&& y + sh <= i32::MAX + 1
}

/// Two cells are the same cell exactly when their rows and columns are.
proof fn lemma_cell(r1: int, c1: int, r2: int, c2: int)
    requires
        0 <= c1 < 320,
        0 <= c2 < 320,
    ensures
        (r1 * 320 + c1 == r2 * 320 + c2) <==> (r1 == r2 && c1 == c2),
{
    if r1 < r2 {
        assert(r1 * 320 + c1 < r2 * 320 + c2) by (nonlinear_arith)
            requires
                r1 < r2,
                0 <= c1 < 320,
                0 <= c2 < 320,
        ;
    } else if r1 > r2 {
        assert(r1 * 320 + c1 > r2 * 320 + c2) by (nonlinear_arith)
            requires
                r1 > r2,
                0 <= c1 < 320,
                0 <= c2 < 320,
        ;
    }
}

/// An on-screen cell's place in the pixel array is in range.
proof fn lemma_cell_in_range(r: int, c: int)
    requires
        on_screen(r, c),
    ensures
        0 <= r * 320 + c < 64000,
{
    assert(0 <= r * 320 + c < 64000) by (nonlinear_arith)
        requires
            0 <= r < 200,
            0 <= c < 320,
    ;
}

pub struct Framebuffer {
    pub pixels: Vec<u8>,
    pub palette: [u32; 32],
}

impl Framebuffer {
    /// A framebuffer holds exactly one screen.
    pub open spec fn wf(&self) -> bool {
        self.pixels@.len() == SCREEN_W * SCREEN_H
    }

    /// Sets the base palette: the first 32 entries of `p`, and black for any
    /// entry `p` does not reach.
    pub fn set_palette(&mut self, p: &[u32])
        ensures
            final(self).pixels == old(self).pixels,
            forall|i: int| 0 <= i < 32 ==> #[trigger] final(self).palette@[i] == if i < p@.len() {
                p@[i]
            } else {
                0
            },
    {
        self.palette = [0; 32];
        let mut i: usize = 0;
        while i < 32 && i < p.len()
            invariant
                i <= 32,
                self.pixels == old(self).pixels,
                forall|k: int| 0 <= k < 32 ==> #[trigger] self.palette@[k] == if k < i && k < p@.len() {
                    p@[k]
                } else {
                    0
                },
            decreases 32 - i,
        {
            self.palette[i] = p[i];
            i = i + 1;
        }
    }

    /// Fills every pixel with one index.
    pub fn clear(&mut self, index: u8)
        ensures
            final(self).palette == old(self).palette,
            final(self).pixels@.len() == old(self).pixels@.len(),
            forall|i: int| 0 <= i < final(self).pixels@.len() ==> #[trigger] final(self).pixels@[i] == index,
    {
        let n = self.pixels.len();
        let mut i: usize = 0;
        while i < n
            invariant
                i <= n,
                n == self.pixels@.len(),
                n == old(self).pixels@.len(),
                self.palette == old(self).palette,
                forall|k: int| 0 <= k < i ==> #[trigger] self.pixels@[k] == index,
            decreases n - i,
        {
            self.pixels.set(i, index);
            i = i + 1;
        }
    }

    /// Draws a sprite, treating index 0 as transparent: the shared body of
    /// [`Framebuffer::blit`], [`Framebuffer::blit_lut`] and
    /// [`Framebuffer::blit_mask`], which differ only in the ink.
    fn paint(&mut self, src: &[u8], sw: usize, sh: usize, x: i32, y: i32, flip: bool, ink: Ink)
        requires
            old(self).wf(),
            drawable(src@, sw, sh, x, y),
        ensures
            final(self).wf(),
            final(self).palette == old(self).palette,
            forall|r: int, c: int|
                on_screen(r, c) ==> #[trigger] px(final(self).pixels@, r, c) == drawn(
                    old(self).pixels@,
                    src@,
                    sw as int,
                    sh as int,
                    x as int,
                    y as int,
                    flip,
                    ink,
                    r,
                    c,
                ),
    {
        let ghost before = self.pixels@;
        let mut sy: usize = 0;
        while sy < sh
            invariant
                sy <= sh,
                drawable(src@, sw, sh, x, y),
                self.pixels@.len() == 64000,
                self.palette == old(self).palette,
                before == old(self).pixels@,
                before.len() == 64000,
                forall|r: int, c: int|
                    on_screen(r, c) ==> #[trigger] px(self.pixels@, r, c) == if r - y < sy {
                        drawn(before, src@, sw as int, sh as int, x as int, y as int, flip, ink, r, c)
                    } else {
                        px(before, r, c)
                    },
            decreases sh - sy,
        {
            let dy: i32 = y + sy as i32;
            if 0 <= dy && dy < 200 {
                proof {
                    assert(sy * sw <= sh * sw) by (nonlinear_arith)
                        requires
                            sy < sh,
                    ;
                    assert(sh * sw == sw * sh) by (nonlinear_arith);
                    assert(src@.len() == src.len());
                }
                let row: usize = sy * sw;
                let drow: usize = dy as usize * 320;
                let mut sx: usize = 0;
                while sx < sw
                    invariant
                        sy < sh,
                        sx <= sw,
                        dy == y + sy,
                        0 <= dy < 200,
                        row == sy * sw,
                        drow == dy * 320,
                        drawable(src@, sw, sh, x, y),
                        self.pixels@.len() == 64000,
                        self.palette == old(self).palette,
                        before == old(self).pixels@,
                        before.len() == 64000,
                        forall|r: int, c: int|
                            on_screen(r, c) ==> #[trigger] px(self.pixels@, r, c) == if r - y < sy || (
                            r - y == sy && (if flip {
                                x + sw - 1 - c
                            } else {
                                c - x
                            }) < sx) {
                                drawn(before, src@, sw as int, sh as int, x as int, y as int, flip, ink, r, c)
                            } else {
                                px(before, r, c)
                            },
                    decreases sw - sx,
                {
                    let dx: i32 = if flip {
                        x + (sw - 1 - sx) as i32
                    } else {
                        x + sx as i32
                    };
                    if 0 <= dx && dx < 320 {
                        proof {
                            assert(sy * sw + sx < sh * sw) by (nonlinear_arith)
                                requires
                                    sy < sh,
                                    sx < sw,
                            ;
                            assert(sh * sw == sw * sh) by (nonlinear_arith);
                            assert(src@.len() == src.len());
                        }
                        let v = src[row + sx];
                        if v != 0 {
                            let at: usize = drow + dx as usize;
                            let out = ink_of(ink, v);
                            let ghost mid = self.pixels@;
                            proof {
                                lemma_cell_in_range(dy as int, dx as int);
                            }
                            self.pixels.set(at, out);
                            proof {
                                assert forall|r: int, c: int| on_screen(r, c) implies #[trigger] px(
                                    self.pixels@,
                                    r,
                                    c,
                                ) == if r - y < sy || (r - y == sy && (if flip {
                                    x + sw - 1 - c
                                } else {
                                    c - x
                                }) < sx + 1) {
                                    drawn(before, src@, sw as int, sh as int, x as int, y as int, flip, ink, r, c)
                                } else {
                                    px(before, r, c)
                                } by {
                                    lemma_cell(r, c, dy as int, dx as int);
                                    lemma_cell_in_range(r, c);
                                    assert(px(mid, r, c) == mid[r * 320 + c]);
                                }
                            }
                        } else {
                            proof {
                                assert forall|r: int, c: int| on_screen(r, c) implies #[trigger] px(
                                    self.pixels@,
                                    r,
                                    c,
                                ) == if r - y < sy || (r - y == sy && (if flip {
                                    x + sw - 1 - c
                                } else {
                                    c - x
                                }) < sx + 1) {
                                    drawn(before, src@, sw as int, sh as int, x as int, y as int, flip, ink, r, c)
                                } else {
                                    px(before, r, c)
                                } by {
                                    if r == dy && c == dx {
                                        assert(sprite_px(src@, sw as int, sh as int, x as int, y as int, flip, r, c) == 0);
                                    }
                                }
                            }
                        }
                    }
                    sx = sx + 1;
                }
                proof {
                    assert forall|r: int, c: int| on_screen(r, c) implies #[trigger] px(self.pixels@, r, c)
                        == if r - y < sy + 1 {
                        drawn(before, src@, sw as int, sh as int, x as int, y as int, flip, ink, r, c)
                    } else {
                        px(before, r, c)
                    } by {
                        if r - y == sy {
                            let k = if flip {
                                x + sw - 1 - c
                            } else {
                                c - x
                            };
                            if k >= sw {
                                assert(sprite_px(src@, sw as int, sh as int, x as int, y as int, flip, r, c) == 0);
                            }
                        }
                    }
                }
            } else {
                proof {
                    assert forall|r: int, c: int| on_screen(r, c) implies #[trigger] px(self.pixels@, r, c)
                        == if r - y < sy + 1 {
                        drawn(before, src@, sw as int, sh as int, x as int, y as int, flip, ink, r, c)
                    } else {
                        px(before, r, c)
                    } by {
                        assert(r - y != sy);
                    }
                }
            }
            sy = sy + 1;
        }
        proof {
            assert forall|r: int, c: int| on_screen(r, c) implies #[trigger] px(self.pixels@, r, c) == drawn(
                before,
                src@,
                sw as int,
                sh as int,
                x as int,
                y as int,
                flip,
                ink,
                r,
                c,
            ) by {
                if r - y >= sh {
                    assert(sprite_px(src@, sw as int, sh as int, x as int, y as int, flip, r, c) == 0);
                }
            }
        }
    }
}

/// [`inked`] for a pixel that is not transparent, executably.
fn ink_of(ink: Ink, v: u8) -> (o: u8)
    requires
        v != 0,
    ensures
        o == inked(ink, v, 0),
{
    proof {
        assert(v & 0x1f < 32) by (bit_vector);
    }
    match ink {
        Ink::Own => v,
        Ink::Lut(lut) => lut[(v & 0x1f) as usize],
        Ink::Flat(colour) => colour,
    }
}

impl Framebuffer {
    /// Draws an indexed sprite, treating index 0 as transparent: every cell
    /// the sprite covers with a non-zero pixel takes that pixel, and every
    /// other cell keeps what it had. `flip` mirrors the sprite left to right.
    pub fn blit(&mut self, src: &[u8], sw: usize, sh: usize, x: i32, y: i32, flip: bool)
        requires
            old(self).wf(),
            drawable(src@, sw, sh, x, y),
        ensures
            final(self).wf(),
            final(self).palette == old(self).palette,
            forall|r: int, c: int|
                on_screen(r, c) ==> #[trigger] px(final(self).pixels@, r, c) == ({
                    let v = sprite_px(src@, sw as int, sh as int, x as int, y as int, flip, r, c);
                    if v != 0 {
                        v
                    } else {
                        px(old(self).pixels@, r, c)
                    }
                }),
    {
        self.paint(src, sw, sh, x, y, flip, Ink::Own);
    }

    /// Draws a sprite through a colour substitution table, which is how four
    /// knights in identical armour are told apart without adding a colour:
    /// a non-zero pixel `v` puts down `lut[v & 0x1f]`.
    pub fn blit_lut(&mut self, src: &[u8], sw: usize, sh: usize, x: i32, y: i32, flip: bool, lut: &[u8; 32])
        requires
            old(self).wf(),
            drawable(src@, sw, sh, x, y),
        ensures
            final(self).wf(),
            final(self).palette == old(self).palette,
            forall|r: int, c: int|
                on_screen(r, c) ==> #[trigger] px(final(self).pixels@, r, c) == ({
                    let v = sprite_px(src@, sw as int, sh as int, x as int, y as int, flip, r, c);
                    if v != 0 {
                        lut@[(v & 0x1f) as int]
                    } else {
                        px(old(self).pixels@, r, c)
                    }
                }),
    {
        self.paint(src, sw, sh, x, y, flip, Ink::Lut(*lut));
    }

    /// Draws a sprite as a flat silhouette in one colour.
    ///
    /// Text is drawn this way rather than in its own colours: arena palettes
    /// differ, so a glyph's own shades are legible over one backdrop and
    /// invisible over the next. A silhouette in a chosen colour reads
    /// everywhere.
    pub fn blit_mask(&mut self, src: &[u8], sw: usize, sh: usize, x: i32, y: i32, colour: u8)
        requires
            old(self).wf(),
            drawable(src@, sw, sh, x, y),
        ensures
            final(self).wf(),
            final(self).palette == old(self).palette,
            forall|r: int, c: int|
                on_screen(r, c) ==> #[trigger] px(final(self).pixels@, r, c) == if sprite_px(
                    src@,
                    sw as int,
                    sh as int,
                    x as int,
                    y as int,
                    false,
                    r,
                    c,
                ) != 0 {
                    colour
                } else {
                    px(old(self).pixels@, r, c)
                },
    {
        self.paint(src, sw, sh, x, y, false, Ink::Flat(colour));
    }

    /// Fills the rectangle `w` wide and `h` high with its top left at
    /// `(x, y)`, clipped to the screen.
    pub fn rect(&mut self, x: i32, y: i32, w: i32, h: i32, index: u8)
        requires
            old(self).wf(),
            i32::MIN <= x + w <= i32::MAX,
            i32::MIN <= y + h <= i32::MAX,
        ensures
            final(self).wf(),
            final(self).palette == old(self).palette,
            forall|r: int, c: int|
                on_screen(r, c) ==> #[trigger] px(final(self).pixels@, r, c) == if y <= r < y + h && x <= c
                    < x + w {
                    index
                } else {
                    px(old(self).pixels@, r, c)
                },
    {
        let ghost before = self.pixels@;
        let y_end: i32 = y + h;
        let x_end: i32 = x + w;
        let mut yy: i32 = y;
        while yy < y_end
            invariant
                y <= yy,
                y_end == y + h,
                x_end == x + w,
                yy <= y_end || yy == y,
                self.pixels@.len() == 64000,
                self.palette == old(self).palette,
                before == old(self).pixels@,
                before.len() == 64000,
                forall|r: int, c: int|
                    on_screen(r, c) ==> #[trigger] px(self.pixels@, r, c) == if y <= r < yy && x <= c < x + w {
                        index
                    } else {
                        px(before, r, c)
                    },
            decreases y_end - yy,
        {
            if 0 <= yy && yy < 200 {
                let mut xx: i32 = x;
                while xx < x_end
                    invariant
                        y <= yy < y_end,
                        0 <= yy < 200,
                        x <= xx,
                        xx <= x_end || xx == x,
                        x_end == x + w,
                        self.pixels@.len() == 64000,
                        self.palette == old(self).palette,
                        before == old(self).pixels@,
                        before.len() == 64000,
                        forall|r: int, c: int|
                            on_screen(r, c) ==> #[trigger] px(self.pixels@, r, c) == if (y <= r < yy && x <= c
                                < x + w) || (r == yy && x <= c < xx) {
                                index
                            } else {
                                px(before, r, c)
                            },
                    decreases x_end - xx,
                {
                    if 0 <= xx && xx < 320 {
                        let at: usize = yy as usize * 320 + xx as usize;
                        let ghost mid = self.pixels@;
                        proof {
                            lemma_cell_in_range(yy as int, xx as int);
                        }
                        self.pixels.set(at, index);
                        proof {
                            assert forall|r: int, c: int| on_screen(r, c) implies #[trigger] px(self.pixels@, r, c)
                                == if (y <= r < yy && x <= c < x + w) || (r == yy && x <= c < xx + 1) {
                                index
                            } else {
                                px(before, r, c)
                            } by {
                                lemma_cell(r, c, yy as int, xx as int);
                                lemma_cell_in_range(r, c);
                                assert(px(mid, r, c) == mid[r * 320 + c]);
                            }
                        }
                    }
                    xx = xx + 1;
                }
            }
            yy = yy + 1;
        }
    }
}

impl Default for Framebuffer {
    /// A black screen with a black palette.
    fn default() -> (f: Framebuffer)
        ensures
            f.wf(),
            forall|i: int| 0 <= i < 64000 ==> #[trigger] f.pixels@[i] == 0,
            forall|i: int| 0 <= i < 32 ==> #[trigger] f.palette@[i] == 0,
    {
        let mut pixels: Vec<u8> = Vec::new();
        let mut i: usize = 0;
        while i < SCREEN_W * SCREEN_H
            invariant
                i <= 64000,
                pixels@.len() == i,
                forall|k: int| 0 <= k < i ==> #[trigger] pixels@[k] == 0,
            decreases 64000 - i,
        {
            pixels.push(0);
            i = i + 1;
        }
        Framebuffer { pixels, palette: [0; 32] }
    }
}

/// The cell at row `r`, column `c` of a window `w` pixels wide.
pub open spec fn cell(s: Seq<u32>, w: int, r: int, c: int) -> u32 {
    s[r * w + c]
}

/// Where a window position `t` along a viewport `v` long lands on a screen
/// axis `n` long: `t * n / v`, which is how a 320x200 picture is stretched
/// over the viewport.
pub open spec fn scaled(t: int, n: int, v: int) -> int {
    t * n / v
}

/// What a `dw` by `dh` window shows at row `r`, column `c` when the picture
/// fills a `vw` by `vh` viewport centred in it: the palette colour of the
/// screen pixel the cell stretches over, and black in the letterbox.
pub open spec fn shown(pixels: Seq<u8>, palette: Seq<u32>, dw: int, dh: int, vw: int, vh: int, r: int, c: int) -> u32 {
    let ox = (dw - vw) / 2;
    let oy = (dh - vh) / 2;
    if oy <= r < oy + vh && ox <= c < ox + vw {
        palette[(px(pixels, scaled(r - oy, 200, vh), scaled(c - ox, 320, vw)) & 0x1f) as int]
    } else {
        0
    }
}

/// Where window position `(x, y)` lands on the 320x200 screen, or nothing
/// when it is in the letterbox.
pub open spec fn screen_point(dw: int, dh: int, vw: int, vh: int, x: int, y: int) -> Option<(i32, i32)> {
    if dw == 0 || dh == 0 {
        None
    } else {
        let tx = x - (dw - vw) / 2;
        let ty = y - (dh - vh) / 2;
        if tx < 0 || ty < 0 || tx >= vw || ty >= vh {
            None
        } else {
            Some((scaled(tx, 320, vw) as i32, scaled(ty, 200, vh) as i32))
        }
    }
}

/// A position inside a viewport lands inside the screen axis.
proof fn lemma_scaled(t: int, n: int, v: int)
    requires
        0 <= t < v,
        0 < n,
    ensures
        0 <= scaled(t, n, v) < n,
{
    vstd::arithmetic::div_mod::lemma_fundamental_div_mod(t * n, v);
    vstd::arithmetic::div_mod::lemma_mod_pos_bound(t * n, v);
    let q = t * n / v;
    assert(0 <= t * n) by (nonlinear_arith)
        requires
            0 <= t,
            0 < n,
    ;
    assert(t * n < v * n) by (nonlinear_arith)
        requires
            t < v,
            0 < n,
    ;
    assert(0 <= q < n) by (nonlinear_arith)
        requires
            t * n == v * q + (t * n) % v,
            0 <= (t * n) % v < v,
            0 <= t * n < v * n,
            0 < v,
    ;
}

/// Two cells of a window `w` wide are the same exactly when their rows and
/// columns are, and every cell of a `w` by `h` window is inside it.
pub(crate) proof fn lemma_cellw(r1: int, c1: int, r2: int, c2: int, w: int, h: int)
    requires
        0 <= c1 < w,
        0 <= c2 < w,
        0 <= r1 < h,
    ensures
        (r1 * w + c1 == r2 * w + c2) <==> (r1 == r2 && c1 == c2),
        0 <= r1 * w + c1 < w * h,
{
    if r1 < r2 {
        assert(r1 * w + c1 < r2 * w + c2) by (nonlinear_arith)
            requires
                r1 < r2,
                0 <= c1 < w,
                0 <= c2 < w,
        ;
    } else if r1 > r2 {
        assert(r1 * w + c1 > r2 * w + c2) by (nonlinear_arith)
            requires
                r1 > r2,
                0 <= c1 < w,
                0 <= c2 < w,
        ;
    }
    assert(0 <= r1 * w + c1 < w * h) by (nonlinear_arith)
        requires
            0 <= c1 < w,
            0 <= r1 < h,
    ;
}

impl Framebuffer {
    /// Expands to 0RGB into a `dw` by `dh` window, the picture stretched over
    /// the `vw` by `vh` viewport centred in it and the letterbox black.
    ///
    /// The original was shown on a 4:3 display, so 320x200 pixels were not
    /// square; the caller picks the 4:3 viewport that fits the window. A
    /// window with no area is left untouched.
    pub fn present_into(&self, dst: &mut [u32], dw: usize, dh: usize, vw: usize, vh: usize, palette: &[u32; 32])
        requires
            self.wf(),
            vw <= dw,
            vh <= dh,
            dw * dh <= old(dst)@.len(),
            vw * 320 <= usize::MAX,
            vh * 200 <= usize::MAX,
        ensures
            final(dst)@.len() == old(dst)@.len(),
            dw == 0 || dh == 0 ==> final(dst)@ == old(dst)@,
            dw > 0 && dh > 0 ==> forall|r: int, c: int|
                0 <= r < dh && 0 <= c < dw ==> #[trigger] cell(final(dst)@, dw as int, r, c) == shown(
                    self.pixels@,
                    palette@,
                    dw as int,
                    dh as int,
                    vw as int,
                    vh as int,
                    r,
                    c,
                ),
            dw > 0 && dh > 0 ==> forall|i: int| dw * dh <= i < final(dst)@.len() ==> #[trigger] final(dst)@[i] == 0,
    {
        if dw == 0 || dh == 0 {
            return;
        }
        let ox: usize = (dw - vw) / 2;
        let oy: usize = (dh - vh) / 2;
        let n = dst.len();
        let mut i: usize = 0;
        while i < n
            invariant
                i <= n,
                n == dst@.len(),
                forall|k: int| 0 <= k < i ==> #[trigger] dst@[k] == 0,
            decreases n - i,
        {
            dst[i] = 0;
            i = i + 1;
        }
        let ghost pal = palette@;
        proof {
            assert forall|r: int, c: int| 0 <= r < dh && 0 <= c < dw implies #[trigger] cell(dst@, dw as int, r, c)
                == 0 by {
                lemma_cellw(r, c, r, c, dw as int, dh as int);
            }
        }
        let mut y: usize = 0;
        while y < vh
            invariant
                self.wf(),
                y <= vh,
                vw <= dw,
                vh <= dh,
                0 < dw,
                0 < dh,
                ox == (dw - vw) / 2,
                oy == (dh - vh) / 2,
                dw * dh <= n,
                n == dst@.len(),
                vw * 320 <= usize::MAX,
                vh * 200 <= usize::MAX,
                pal == palette@,
                forall|k: int| dw * dh <= k < n ==> #[trigger] dst@[k] == 0,
                forall|r: int, c: int|
                    0 <= r < dh && 0 <= c < dw ==> #[trigger] cell(dst@, dw as int, r, c) == if r - oy < y {
                        shown(self.pixels@, pal, dw as int, dh as int, vw as int, vh as int, r, c)
                    } else {
                        0
                    },
            decreases vh - y,
        {
            proof {
                lemma_scaled(y as int, 200, vh as int);
                assert(y * 200 <= vh * 200) by (nonlinear_arith)
                    requires
                        y < vh,
                ;
            }
            let sy: usize = y * 200 / vh;
            let srow: usize = sy * 320;
            let dr: usize = oy + y;
            proof {
                assert(dr < dh);
                assert(dr * dw <= (dh - 1) * dw) by (nonlinear_arith)
                    requires
                        dr <= dh - 1,
                        0 < dw,
                ;
                assert((dh - 1) * dw + dw == dw * dh) by (nonlinear_arith);
            }
            let drow: usize = dr * dw + ox;
            let mut x: usize = 0;
            while x < vw
                invariant
                    self.wf(),
                    y < vh,
                    x <= vw,
                    vw <= dw,
                    vh <= dh,
                    0 < dw,
                    0 < dh,
                    ox == (dw - vw) / 2,
                    oy == (dh - vh) / 2,
                    dr == oy + y,
                    dr < dh,
                    drow == dr * dw + ox,
                    sy == scaled(y as int, 200, vh as int),
                    0 <= sy < 200,
                    srow == sy * 320,
                    dw * dh <= n,
                    n == dst@.len(),
                    vw * 320 <= usize::MAX,
                    pal == palette@,
                    forall|k: int| dw * dh <= k < n ==> #[trigger] dst@[k] == 0,
                    forall|r: int, c: int|
                        0 <= r < dh && 0 <= c < dw ==> #[trigger] cell(dst@, dw as int, r, c) == if r - oy < y || (
                        r == dr && c - ox < x) {
                            shown(self.pixels@, pal, dw as int, dh as int, vw as int, vh as int, r, c)
                        } else {
                            0
                        },
                decreases vw - x,
            {
                proof {
                    lemma_scaled(x as int, 320, vw as int);
                    assert(x * 320 <= vw * 320) by (nonlinear_arith)
                        requires
                            x < vw,
                    ;
                    lemma_cell_in_range(sy as int, scaled(x as int, 320, vw as int));
                    lemma_cellw(dr as int, ox + x, dr as int, ox + x, dw as int, dh as int);
                }
                let sx: usize = x * 320 / vw;
                let v: u8 = self.pixels[srow + sx];
                proof {
                    assert(v & 0x1f < 32) by (bit_vector);
                }
                let colour = palette[(v & 0x1f) as usize];
                let ghost mid = dst@;
                dst[drow + x] = colour;
                proof {
                    assert forall|r: int, c: int| 0 <= r < dh && 0 <= c < dw implies #[trigger] cell(
                        dst@,
                        dw as int,
                        r,
                        c,
                    ) == if r - oy < y || (r == dr && c - ox < x + 1) {
                        shown(self.pixels@, pal, dw as int, dh as int, vw as int, vh as int, r, c)
                    } else {
                        0
                    } by {
                        lemma_cellw(r, c, dr as int, ox + x, dw as int, dh as int);
                        assert(cell(mid, dw as int, r, c) == mid[r * dw + c]);
                    }
                    assert forall|k: int| dw * dh <= k < n implies #[trigger] dst@[k] == 0 by {
                        assert(mid[k] == 0);
                    }
                }
                x = x + 1;
            }
            y = y + 1;
        }
    }

    /// Where a window position lands on the 320x200 screen, or nothing when
    /// it is in the letterbox: the inverse of
    /// [`Framebuffer::present_into`]'s arithmetic, kept beside it so the two
    /// cannot drift.
    pub fn to_screen(dw: usize, dh: usize, vw: usize, vh: usize, x: i64, y: i64) -> (p: Option<(i32, i32)>)
        requires
            vw <= dw <= i64::MAX,
            vh <= dh <= i64::MAX,
            vw * 320 <= usize::MAX,
            vh * 200 <= usize::MAX,
            x - (dw - vw) / 2 >= i64::MIN,
            y - (dh - vh) / 2 >= i64::MIN,
        ensures
            p == screen_point(dw as int, dh as int, vw as int, vh as int, x as int, y as int),
    {
        if dw == 0 || dh == 0 {
            return None;
        }
        let ox: usize = (dw - vw) / 2;
        let oy: usize = (dh - vh) / 2;
        let tx: i64 = x - ox as i64;
        let ty: i64 = y - oy as i64;
        if tx < 0 || ty < 0 || tx >= vw as i64 || ty >= vh as i64 {
            return None;
        }
        proof {
            lemma_scaled(tx as int, 320, vw as int);
            lemma_scaled(ty as int, 200, vh as int);
            assert(tx * 320 <= vw * 320) by (nonlinear_arith)
                requires
                    0 <= tx < vw,
            ;
            assert(ty * 200 <= vh * 200) by (nonlinear_arith)
                requires
                    0 <= ty < vh,
            ;
        }
        let sx: usize = tx as usize * 320 / vw;
        let sy: usize = ty as usize * 200 / vh;
        Some((sx as i32, sy as i32))
    }
}

/// **The pointer and the picture agree.** A window cell that
/// [`Framebuffer::to_screen`] places on the screen is exactly a cell
/// [`Framebuffer::present_into`] paints from that screen pixel, and a cell it
/// places nowhere is letterbox, painted black.
pub proof fn the_pointer_lands_where_the_picture_is(
    pixels: Seq<u8>,
    palette: Seq<u32>,
    dw: int,
    dh: int,
    vw: int,
    vh: int,
    r: int,
    c: int,
)
    requires
        pixels.len() == 64000,
        0 <= vw <= dw,
        0 <= vh <= dh,
        0 <= r < dh,
        0 <= c < dw,
    ensures
        match screen_point(dw, dh, vw, vh, c, r) {
            Some((sx, sy)) => 0 <= sx < 320 && 0 <= sy < 200 && shown(pixels, palette, dw, dh, vw, vh, r, c)
                == palette[(px(pixels, sy as int, sx as int) & 0x1f) as int],
            None => shown(pixels, palette, dw, dh, vw, vh, r, c) == 0,
        },
{
    let ox = (dw - vw) / 2;
    let oy = (dh - vh) / 2;
    if oy <= r < oy + vh && ox <= c < ox + vw {
        lemma_scaled(c - ox, 320, vw);
        lemma_scaled(r - oy, 200, vh);
    }
}

} // verus!
