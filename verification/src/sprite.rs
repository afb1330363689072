//! Frames lifted out of a sheet, and drawn.

use vstd::prelude::*;
use crate::framebuffer::{lemma_cellw, px, on_screen, Framebuffer};

verus! {

/// Where a frame sits on its sheet.
#[derive(Clone, Copy, Debug, PartialEq, Eq, Structural)]
pub struct Frame {
    pub x: u16,
    pub y: u16,
    pub w: u16,
    pub h: u16,
}

/// A frame lifted out of a sheet: `w` by `h` pixels, row by row.
pub struct Cut {
    pub pixels: Vec<u8>,
    pub w: usize,
    pub h: usize,
}

/// What a frame holds at row `r`, column `c` when it is lifted from
/// `(x, y)` of a sheet `width` pixels wide: the sheet's pixel, or 0 on a
/// row that runs past the end of the sheet.
pub open spec fn lifted(sheet: Seq<u8>, width: int, x: int, y: int, w: int, r: int, c: int) -> u8 {
    let src = (y + r) * width + x;
    if src + w <= sheet.len() {
        sheet[src + c]
    } else {
        0
    }
}

/// Lifts the `w` by `h` frame at `(x, y)` out of a sheet `width` pixels
/// wide. A row that would run past the end of the sheet is left blank
/// rather than read from beyond it.
pub fn cut_frame(sheet: &[u8], width: usize, x: usize, y: usize, w: usize, h: usize) -> (c: Cut)
    requires
        w * h <= usize::MAX,
        y + h <= usize::MAX,
        (y + h) * width + x + w <= usize::MAX,
    ensures
        c.w == w,
        c.h == h,
        c.pixels@.len() == w * h,
        forall|r: int, col: int|
            0 <= r < h && 0 <= col < w ==> #[trigger] c.pixels@[r * w + col] == lifted(
                sheet@,
                width as int,
                x as int,
                y as int,
                w as int,
                r,
                col,
            ),
{
    let n: usize = w * h;
    let mut pixels: Vec<u8> = Vec::new();
    let mut i: usize = 0;
    while i < n
        invariant
            i <= n,
            pixels@.len() == i,
            forall|k: int| 0 <= k < i ==> #[trigger] pixels@[k] == 0,
        decreases n - i,
    {
        pixels.push(0);
        i = i + 1;
    }
    proof {
        assert forall|r: int, col: int| 0 <= r < h && 0 <= col < w implies #[trigger] pixels@[r * w + col] == 0 by {
            lemma_cellw(r, col, r, col, w as int, h as int);
        }
    }
    let mut row: usize = 0;
    while row < h
        invariant
            row <= h,
            y + h <= usize::MAX,
            n == w * h,
            pixels@.len() == n,
            (y + h) * width + x + w <= usize::MAX,
            forall|r: int, col: int|
                0 <= r < h && 0 <= col < w ==> #[trigger] pixels@[r * w + col] == if r < row {
                    lifted(sheet@, width as int, x as int, y as int, w as int, r, col)
                } else {
                    0
                },
        decreases h - row,
    {
        proof {
            assert((y + row) * width <= (y + h) * width) by (nonlinear_arith)
                requires
                    row < h,
            ;
            assert(sheet@.len() == sheet.len());
        }
        let src: usize = (y + row) * width + x;
        if src + w <= sheet.len() {
            let mut col: usize = 0;
            while col < w
                invariant
                    row < h,
                    col <= w,
                    n == w * h,
                    pixels@.len() == n,
                    src == (y + row) * width + x,
                    src + w <= sheet@.len(),
                    sheet@.len() == sheet.len(),
                    forall|r: int, c: int|
                        0 <= r < h && 0 <= c < w ==> #[trigger] pixels@[r * w + c] == if r < row || (r == row
                            && c < col) {
                            lifted(sheet@, width as int, x as int, y as int, w as int, r, c)
                        } else {
                            0
                        },
                decreases w - col,
            {
                proof {
                    lemma_cellw(row as int, col as int, row as int, col as int, w as int, h as int);
                }
                let at: usize = row * w + col;
                let ghost mid = pixels@;
                pixels.set(at, sheet[src + col]);
                proof {
                    assert forall|r: int, c: int| 0 <= r < h && 0 <= c < w implies #[trigger] pixels@[r * w + c]
                        == if r < row || (r == row && c < col + 1) {
                        lifted(sheet@, width as int, x as int, y as int, w as int, r, c)
                    } else {
                        0
                    } by {
                        lemma_cellw(r, c, row as int, col as int, w as int, h as int);
                        assert(mid[r * w + c] == if r < row || (r == row && c < col) {
                            lifted(sheet@, width as int, x as int, y as int, w as int, r, c)
                        } else {
                            0
                        });
                    }
                }
                col = col + 1;
            }
        }
        row = row + 1;
    }
    Cut { pixels, w, h }
}


/// The pixel frame `f` of a sheet `iw` pixels wide puts on screen cell
/// `(r, c)` when its top left is at `(x, y)`, mirrored left to right if
/// `flip`; zero where it does not reach.
pub open spec fn frame_px(image: Seq<u8>, iw: int, f: Frame, x: int, y: int, flip: bool, r: int, c: int) -> u8 {
    let sy = r - y;
    let sx = if flip {
        x + f.w - 1 - c
    } else {
        c - x
    };
    if 0 <= sy < f.h && 0 <= sx < f.w {
        lifted(image, iw, f.x as int, f.y as int, f.w as int, sy, sx)
    } else {
        0
    }
}

/// Whether frame `f` of a sheet `iw` pixels wide can be cut, and drawn with
/// its top left at `(x, y)`.
pub open spec fn frame_fits(f: Frame, iw: int, x: int, y: int) -> bool {
    &&& (f.y + f.h) * iw + f.x + f.w <= usize::MAX
    &&& x + f.w <= i32::MAX + 1
    &&& y + f.h <= i32::MAX + 1
}

/// Draws frame `index` of a sheet in its own colours with its top left at
/// `(x, y)`, mirrored if `mirror`, for artwork authored against the palette
/// already loaded. A sheet without that frame draws nothing.
pub fn draw(fb: &mut Framebuffer, frames: &[Frame], image: &[u8], iw: usize, index: usize, x: i32, y: i32, mirror: bool)
    requires
        old(fb).wf(),
        index < frames@.len() ==> frame_fits(frames@[index as int], iw as int, x as int, y as int),
    ensures
        final(fb).wf(),
        final(fb).palette == old(fb).palette,
        forall|r: int, c: int|
            on_screen(r, c) ==> #[trigger] px(final(fb).pixels@, r, c) == if index < frames@.len() && frame_px(
                image@,
                iw as int,
                frames@[index as int],
                x as int,
                y as int,
                mirror,
                r,
                c,
            ) != 0 {
                frame_px(image@, iw as int, frames@[index as int], x as int, y as int, mirror, r, c)
            } else {
                px(old(fb).pixels@, r, c)
            },
{
    if index < frames.len() {
        let f = frames[index];
        proof {
            assert(f.w * f.h <= 0xffff * 0xffff) by (nonlinear_arith)
                requires
                    f.w <= 0xffff,
                    f.h <= 0xffff,
            ;
        }
        let cut = cut_frame(image, iw, f.x as usize, f.y as usize, f.w as usize, f.h as usize);
        fb.blit(cut.pixels.as_slice(), cut.w, cut.h, x, y, mirror);
        proof {
            assert forall|r: int, c: int| on_screen(r, c) implies #[trigger] px(fb.pixels@, r, c) == if frame_px(
                image@,
                iw as int,
                f,
                x as int,
                y as int,
                mirror,
                r,
                c,
            ) != 0 {
                frame_px(image@, iw as int, f, x as int, y as int, mirror, r, c)
            } else {
                px(old(fb).pixels@, r, c)
            } by {
                let sy = r - y;
                let sx = if mirror { x + f.w - 1 - c } else { c - x };
                if 0 <= sy < f.h && 0 <= sx < f.w {
                    assert(cut.pixels@[sy * (f.w as int) + sx] == lifted(
                        image@,
                        iw as int,
                        f.x as int,
                        f.y as int,
                        f.w as int,
                        sy,
                        sx,
                    ));
                }
            }
        }
    }
}

} // verus!
