//! Bitmap fonts: which glyph a character is, how far a line of them runs,
//! and what a line drawn with them leaves on the screen.

use vstd::prelude::*;
use crate::chars::chars_of;
use crate::framebuffer::{Framebuffer, px, on_screen, SCREEN_W};
use crate::sprite::{cut_frame, frame_px, lifted, Frame};

verus! {

/// The last place a character occurs in a run, if it does: a glyph string
/// read into a map keeps the last index a character is given.
pub open spec fn last_index(s: Seq<char>, c: char) -> Option<int>
    decreases s.len(),
{
    if s.len() == 0 {
        None
    } else if s.last() == c {
        Some(s.len() - 1)
    } else {
        last_index(s.drop_last(), c)
    }
}

/// The glyph a character is drawn with, given the pack's glyph string.
///
/// `TextASCII` sends two characters to glyphs another character already
/// names, so they cannot be written in the glyph string: the underscore
/// shares the space's glyph, and the backslash, the caret name typing
/// writes, shares the slash's.
pub open spec fn glyph_of(glyphs: Seq<char>, c: char) -> Option<int> {
    if c == '_' && last_index(glyphs, ' ') is Some {
        last_index(glyphs, ' ')
    } else if c == '\\' && last_index(glyphs, '/') is Some {
        last_index(glyphs, '/')
    } else {
        last_index(glyphs, c)
    }
}

/// A bitmap font: a sheet of glyph frames and the characters they are.
pub struct Font {
    sheet: String,
    glyphs: Vec<char>,
    space_width: i32,
    tracking: i32,
    /// Carried from the pack for a caller that wants to stack lines itself.
    line_height: i32,
}

impl Font {
    /// The glyph a character is drawn with, if the font has one.
    pub closed spec fn glyph(self, c: char) -> Option<int> {
        glyph_of(self.glyphs@, c)
    }

    /// The sheet the glyph frames are cut from.
    pub closed spec fn sheet_name(self) -> Seq<char> {
        self.sheet@
    }

    pub closed spec fn space(self) -> i32 {
        self.space_width
    }

    pub closed spec fn tracking_spec(self) -> i32 {
        self.tracking
    }

    pub closed spec fn height(self) -> i32 {
        self.line_height
    }

    /// The pack's line height, for a caller that wants to stack lines itself.
    pub fn line_height(&self) -> (h: i32)
        ensures
            h == self.height(),
    {
        self.line_height
    }

    /// A font from the pack's definition: its sheet, its glyph string, the
    /// width of a space, the gap after every glyph, and its line height.
    pub fn new(sheet: &str, glyphs: &str, space_width: i32, tracking: i32, line_height: i32) -> (f: Font)
        ensures
            forall|c: char| #[trigger] f.glyph(c) == glyph_of(glyphs@, c),
            f.sheet_name() == sheet@,
            f.space() == space_width,
            f.tracking_spec() == tracking,
            f.height() == line_height,
    {
        Font {
            sheet: sheet.to_owned(),
            glyphs: chars_of(glyphs),
            space_width,
            tracking,
            line_height,
        }
    }

    /// The sheet the glyph frames are cut from, for the caller to look up.
    pub fn sheet(&self) -> (s: &str)
        ensures
            s@ == self.sheet_name(),
    {
        self.sheet.as_str()
    }

    /// [`Font::glyph`], found.
    fn glyph_at(&self, c: char) -> (g: Option<usize>)
        ensures
            match g {
                Some(i) => self.glyph(c) == Some(i as int),
                None => self.glyph(c) is None,
            },
            g matches Some(i) ==> i < self.glyphs@.len(),
    {
        if c == '_' {
            if let Some(i) = last_at(&self.glyphs, ' ') {
                return Some(i);
            }
        }
        if c == '\\' {
            if let Some(i) = last_at(&self.glyphs, '/') {
                return Some(i);
            }
        }
        last_at(&self.glyphs, c)
    }

    /// How far one character moves the pen, given the widths of the sheet's
    /// frames: a space is the space width, a glyph is its frame's width and
    /// the tracking, and a character with no glyph, or a glyph with no
    /// frame, is nothing.
    pub open spec fn advance_spec(self, frames: Seq<u16>, c: char) -> int {
        if c == ' ' {
            self.space() as int
        } else {
            match self.glyph(c) {
                Some(g) => if g < frames.len() {
                    frames[g] + self.tracking_spec()
                } else {
                    0
                },
                None => 0,
            }
        }
    }

    /// How wide a line is: the sum of its characters' advances.
    pub open spec fn width_spec(self, frames: Seq<u16>, s: Seq<char>) -> int
        decreases s.len(),
    {
        if s.len() == 0 {
            0
        } else {
            self.width_spec(frames, s.drop_last()) + self.advance_spec(frames, s.last())
        }
    }

    /// Whether a line's width can be added up in an `i32`, every step of
    /// the way.
    pub open spec fn measurable(self, frames: Seq<u16>, s: Seq<char>) -> bool {
        &&& forall|g: int| 0 <= g < frames.len() ==> i32::MIN <= #[trigger] frames[g] + self.tracking_spec() <= i32::MAX
        &&& forall|k: int| 0 <= k <= s.len() ==> i32::MIN <= #[trigger] self.width_spec(frames, s.take(k)) <= i32::MAX
    }

    /// How far one character moves the pen.
    fn advance(&self, frames: &[u16], c: char) -> (a: i32)
        requires
            forall|g: int| 0 <= g < frames@.len() ==> i32::MIN <= #[trigger] frames@[g] + self.tracking_spec() <= i32::MAX,
        ensures
            a == self.advance_spec(frames@, c),
    {
        if c == ' ' {
            return self.space_width;
        }
        match self.glyph_at(c) {
            Some(g) => if g < frames.len() {
                proof {
                    assert(frames@.len() == frames.len());
                }
                frames[g] as i32 + self.tracking
            } else {
                0
            },
            None => 0,
        }
    }

    /// How wide a line is drawn, given the widths of the sheet's frames.
    pub fn width(&self, frames: &[u16], s: &str) -> (w: i32)
        requires
            self.measurable(frames@, s@),
        ensures
            w == self.width_spec(frames@, s@),
    {
        let cs = chars_of(s);
        let mut w: i32 = 0;
        let mut i: usize = 0;
        proof {
            assert(s@.take(0) =~= Seq::<char>::empty());
        }
        while i < cs.len()
            invariant
                i <= cs@.len(),
                cs@ == s@,
                self.measurable(frames@, s@),
                w == self.width_spec(frames@, s@.take(i as int)),
            decreases cs@.len() - i,
        {
            let a = self.advance(frames, cs[i]);
            proof {
                let t = s@.take(i as int + 1);
                assert(t.drop_last() =~= s@.take(i as int));
                assert(t.last() == cs@[i as int]);
                assert(i32::MIN <= self.width_spec(frames@, t) <= i32::MAX);
            }
            w = w + a;
            i = i + 1;
        }
        proof {
            assert(s@.take(i as int) =~= s@);
        }
        w
    }
}

impl Font {
    /// How wide a run of characters is drawn, added up exactly: the same
    /// sum as [`Font::width`], with room for any line at all.
    pub fn measure(&self, frames: &[u16], s: &Vec<char>) -> (w: i128)
        ensures
            w == self.width_spec(frames@, s@),
    {
        let mut w: i128 = 0;
        let mut i: usize = 0;
        proof {
            assert(s@.take(0) =~= Seq::<char>::empty());
        }
        while i < s.len()
            invariant
                i <= s@.len(),
                w == self.width_spec(frames@, s@.take(i as int)),
                -0x1_0000_0000 * i <= w <= 0x1_0000_0000 * i,
            decreases s@.len() - i,
        {
            let c = s[i];
            let a: i128 = if c == ' ' {
                self.space_width as i128
            } else {
                match self.glyph_at(c) {
                    Some(g) => if g < frames.len() {
                        proof {
                            assert(frames@.len() == frames.len());
                        }
                        frames[g] as i128 + self.tracking as i128
                    } else {
                        0
                    },
                    None => 0,
                }
            };
            proof {
                let t = s@.take(i as int + 1);
                assert(t.drop_last() =~= s@.take(i as int));
                assert(t.last() == c);
                assert(a == self.advance_spec(frames@, c));
                assert(i < usize::MAX);
            }
            w = w + a;
            i = i + 1;
        }
        proof {
            assert(s@.take(i as int) =~= s@);
        }
        w
    }
}

/// The widths of a sheet's frames, which is all a line's width needs.
pub open spec fn widths(frames: Seq<Frame>) -> Seq<u16> {
    frames.map_values(|f: Frame| f.w)
}

/// Half a line's slack, rounded toward zero, as Rust's `/` rounds.
pub open spec fn half(n: int) -> int {
    if n >= 0 {
        n / 2
    } else {
        -((-n) / 2)
    }
}

impl Font {
    /// The frame a character is drawn with: its glyph's, where the sheet
    /// has one. A space has none; it only moves the pen.
    pub open spec fn frame_of(self, frames: Seq<Frame>, c: char) -> Option<Frame> {
        if c == ' ' {
            None
        } else {
            match self.glyph(c) {
                Some(g) => if g < frames.len() {
                    Some(frames[g])
                } else {
                    None
                },
                None => None,
            }
        }
    }

    /// What screen cell `(r, c)` holds once the line `s` is drawn from
    /// `(x, y)` over `under`: the last glyph that covers the cell with a
    /// non-zero pixel, in `ink` or in the glyph's own colour, and otherwise
    /// what was there.
    pub open spec fn line_cell(
        self,
        frames: Seq<Frame>,
        image: Seq<u8>,
        iw: int,
        s: Seq<char>,
        x: int,
        y: int,
        ink: Option<u8>,
        under: Seq<u8>,
        r: int,
        c: int,
    ) -> u8
        decreases s.len(),
    {
        if s.len() == 0 {
            px(under, r, c)
        } else {
            let before = self.line_cell(frames, image, iw, s.drop_last(), x, y, ink, under, r, c);
            match self.frame_of(frames, s.last()) {
                Some(f) => {
                    let v = frame_px(image, iw, f, x + self.width_spec(widths(frames), s.drop_last()), y, false, r, c);
                    if v == 0 {
                        before
                    } else {
                        match ink {
                            Some(k) => k,
                            None => v,
                        }
                    }
                },
                None => before,
            }
        }
    }

    /// Whether a line can be drawn from `(x, y)`: its width adds up in an
    /// `i32` every step of the way, every pen position is an `i32`, every
    /// glyph's far edges are still `i32` coordinates, and every frame can be
    /// found on a sheet `iw` pixels wide.
    pub open spec fn fits_line(self, frames: Seq<Frame>, iw: int, s: Seq<char>, x: int, y: int) -> bool {
        &&& self.measurable(widths(frames), s)
        &&& forall|k: int|
            0 <= k <= s.len() ==> i32::MIN <= x + #[trigger] self.width_spec(widths(frames), s.take(k))
                <= i32::MAX
        &&& forall|k: int|
            0 <= k < s.len() ==> (#[trigger] self.frame_of(frames, s[k]) matches Some(f) ==> x + self.width_spec(
                widths(frames),
                s.take(k),
            ) + f.w <= i32::MAX + 1 && y + f.h <= i32::MAX + 1)
        &&& forall|g: int|
            0 <= g < frames.len() ==> ((#[trigger] frames[g]).y + frames[g].h) * iw + frames[g].x + frames[g].w
                <= usize::MAX
    }

    /// Draws a line glyph by glyph from `(x, y)`, each cut from `image`, a
    /// sheet `iw` pixels wide, at its frame: in one colour, or in the glyph's
    /// own. A character with no glyph, or a glyph with no frame, is skipped
    /// and takes no room. Says how far the pen went, which is the line's
    /// width.
    fn render(
        &self,
        fb: &mut Framebuffer,
        frames: &[Frame],
        image: &[u8],
        iw: usize,
        s: &str,
        x: i32,
        y: i32,
        ink: Option<u8>,
    ) -> (w: i32)
        requires
            old(fb).wf(),
            self.fits_line(frames@, iw as int, s@, x as int, y as int),
        ensures
            final(fb).wf(),
            final(fb).palette == old(fb).palette,
            w == self.width_spec(widths(frames@), s@),
            forall|r: int, c: int|
                on_screen(r, c) ==> #[trigger] px(final(fb).pixels@, r, c) == self.line_cell(
                    frames@,
                    image@,
                    iw as int,
                    s@,
                    x as int,
                    y as int,
                    ink,
                    old(fb).pixels@,
                    r,
                    c,
                ),
    {
        let cs = chars_of(s);
        let ghost ws = widths(frames@);
        let mut cx: i32 = x;
        let mut i: usize = 0;
        proof {
            assert(s@.take(0) =~= Seq::<char>::empty());
        }
        while i < cs.len()
            invariant
                i <= cs@.len(),
                cs@ == s@,
                ws == widths(frames@),
                fb.wf(),
                fb.palette == old(fb).palette,
                self.fits_line(frames@, iw as int, s@, x as int, y as int),
                cx == x + self.width_spec(ws, s@.take(i as int)),
                forall|r: int, c: int|
                    on_screen(r, c) ==> #[trigger] px(fb.pixels@, r, c) == self.line_cell(
                        frames@,
                        image@,
                        iw as int,
                        s@.take(i as int),
                        x as int,
                        y as int,
                        ink,
                        old(fb).pixels@,
                        r,
                        c,
                    ),
            decreases cs@.len() - i,
        {
            let c = cs[i];
            let ghost t = s@.take(i as int + 1);
            proof {
                assert(t.drop_last() =~= s@.take(i as int));
                assert(t.last() == c);
                assert(i32::MIN <= x + self.width_spec(ws, t) <= i32::MAX);
                assert(frames@.len() == frames.len());
            }
            if c == ' ' {
                cx = cx + self.space_width;
            } else {
                match self.glyph_at(c) {
                    Some(g) => {
                        if g < frames.len() {
                            let f = frames[g];
                            proof {
                                assert(self.frame_of(frames@, s@[i as int]) == Some(f));
                                assert(ws[g as int] == f.w);
                            }
                            proof {
                                assert(f.w * f.h <= 0xffff * 0xffff) by (nonlinear_arith)
                                    requires
                                        f.w <= 0xffff,
                                        f.h <= 0xffff,
                                ;
                            }
                            let cut = cut_frame(image, iw, f.x as usize, f.y as usize, f.w as usize, f.h as usize);
                            let ghost mid = fb.pixels@;
                            match ink {
                                Some(k) => fb.blit_mask(cut.pixels.as_slice(), cut.w, cut.h, cx, y, k),
                                None => fb.blit(cut.pixels.as_slice(), cut.w, cut.h, cx, y, false),
                            }
                            proof {
                                assert forall|r: int, col: int| on_screen(r, col) implies #[trigger] px(
                                    fb.pixels@,
                                    r,
                                    col,
                                ) == self.line_cell(
                                    frames@,
                                    image@,
                                    iw as int,
                                    t,
                                    x as int,
                                    y as int,
                                    ink,
                                    old(fb).pixels@,
                                    r,
                                    col,
                                ) by {
                                    let sy = r - y;
                                    let sx = col - cx;
                                    if 0 <= sy < f.h && 0 <= sx < f.w {
                                        assert(cut.pixels@[sy * (f.w as int) + sx] == lifted(
                                            image@,
                                            iw as int,
                                            f.x as int,
                                            f.y as int,
                                            f.w as int,
                                            sy,
                                            sx,
                                        ));
                                    }
                                    assert(px(mid, r, col) == self.line_cell(
                                        frames@,
                                        image@,
                                        iw as int,
                                        s@.take(i as int),
                                        x as int,
                                        y as int,
                                        ink,
                                        old(fb).pixels@,
                                        r,
                                        col,
                                    ));
                                }
                            }
                            cx = cx + (f.w as i32 + self.tracking);
                        }
                    },
                    None => {},
                }
            }
            i = i + 1;
        }
        proof {
            assert(s@.take(i as int) =~= s@);
        }
        cx - x
    }

    /// Draws a line in one colour, as a silhouette: arena palettes differ,
    /// so a glyph's own shades are legible over one backdrop and invisible
    /// over the next. Says how wide the line was.
    pub fn draw(
        &self,
        fb: &mut Framebuffer,
        frames: &[Frame],
        image: &[u8],
        iw: usize,
        s: &str,
        x: i32,
        y: i32,
        colour: u8,
    ) -> (w: i32)
        requires
            old(fb).wf(),
            self.fits_line(frames@, iw as int, s@, x as int, y as int),
        ensures
            final(fb).wf(),
            final(fb).palette == old(fb).palette,
            w == self.width_spec(widths(frames@), s@),
            forall|r: int, c: int|
                on_screen(r, c) ==> #[trigger] px(final(fb).pixels@, r, c) == self.line_cell(
                    frames@,
                    image@,
                    iw as int,
                    s@,
                    x as int,
                    y as int,
                    Some(colour),
                    old(fb).pixels@,
                    r,
                    c,
                ),
    {
        self.render(fb, frames, image, iw, s, x, y, Some(colour))
    }

    /// Draws a line in the glyphs' own colours rather than as a silhouette,
    /// which keeps the counters of a ringed face open. Says how wide the line
    /// was.
    pub fn draw_own(&self, fb: &mut Framebuffer, frames: &[Frame], image: &[u8], iw: usize, s: &str, x: i32, y: i32) -> (w: i32)
        requires
            old(fb).wf(),
            self.fits_line(frames@, iw as int, s@, x as int, y as int),
        ensures
            final(fb).wf(),
            final(fb).palette == old(fb).palette,
            w == self.width_spec(widths(frames@), s@),
            forall|r: int, c: int|
                on_screen(r, c) ==> #[trigger] px(final(fb).pixels@, r, c) == self.line_cell(
                    frames@,
                    image@,
                    iw as int,
                    s@,
                    x as int,
                    y as int,
                    None,
                    old(fb).pixels@,
                    r,
                    c,
                ),
    {
        self.render(fb, frames, image, iw, s, x, y, None)
    }
}

/// [`widths`], executably.
pub fn frame_widths(frames: &[Frame]) -> (ws: Vec<u16>)
    ensures
        ws@ == widths(frames@),
{
    let mut ws: Vec<u16> = Vec::new();
    let mut i: usize = 0;
    while i < frames.len()
        invariant
            i <= frames@.len(),
            ws@ == widths(frames@.take(i as int)),
        decreases frames@.len() - i,
    {
        proof {
            assert(widths(frames@.take(i as int + 1)) =~= widths(frames@.take(i as int)).push(frames@[i as int].w));
        }
        ws.push(frames[i].w);
        i = i + 1;
    }
    proof {
        assert(frames@.take(i as int) =~= frames@);
    }
    ws
}

impl Font {
    /// Where a line starts to be centred on the screen.
    pub open spec fn centred_x(self, frames: Seq<Frame>, s: Seq<char>) -> int {
        half(SCREEN_W - self.width_spec(widths(frames), s))
    }

    /// Whether a line can be centred: its width and its start are `i32`s,
    /// and it can be drawn from there.
    pub open spec fn fits_centred(self, frames: Seq<Frame>, iw: int, s: Seq<char>, y: int) -> bool {
        &&& self.measurable(widths(frames), s)
        &&& SCREEN_W - self.width_spec(widths(frames), s) <= i32::MAX
        &&& self.fits_line(frames, iw, s, self.centred_x(frames, s), y)
    }

    /// The pen position a centred line starts at.
    fn centre(&self, frames: &[Frame], s: &str) -> (x: i32)
        requires
            self.measurable(widths(frames@), s@),
            SCREEN_W - self.width_spec(widths(frames@), s@) <= i32::MAX,
        ensures
            x == self.centred_x(frames@, s@),
    {
        let ws = frame_widths(frames);
        let w = self.width(ws.as_slice(), s);
        proof {
            assert(s@.take(s@.len() as int) =~= s@);
        }
        let n: i32 = SCREEN_W as i32 - w;
        if n >= 0 {
            n / 2
        } else {
            -((-n) / 2)
        }
    }

    /// Draws a line in one colour, centred across the screen.
    pub fn draw_centred(&self, fb: &mut Framebuffer, frames: &[Frame], image: &[u8], iw: usize, s: &str, y: i32, colour: u8)
        requires
            old(fb).wf(),
            self.fits_centred(frames@, iw as int, s@, y as int),
        ensures
            final(fb).wf(),
            final(fb).palette == old(fb).palette,
            forall|r: int, c: int|
                on_screen(r, c) ==> #[trigger] px(final(fb).pixels@, r, c) == self.line_cell(
                    frames@,
                    image@,
                    iw as int,
                    s@,
                    self.centred_x(frames@, s@),
                    y as int,
                    Some(colour),
                    old(fb).pixels@,
                    r,
                    c,
                ),
    {
        let x = self.centre(frames, s);
        self.draw(fb, frames, image, iw, s, x, y, colour);
    }

    /// Draws a line in the glyphs' own colours, centred the way `TextPTop`
    /// centres a line whose record sets bit 0 of its flag word.
    pub fn draw_own_centred(&self, fb: &mut Framebuffer, frames: &[Frame], image: &[u8], iw: usize, s: &str, y: i32)
        requires
            old(fb).wf(),
            self.fits_centred(frames@, iw as int, s@, y as int),
        ensures
            final(fb).wf(),
            final(fb).palette == old(fb).palette,
            forall|r: int, c: int|
                on_screen(r, c) ==> #[trigger] px(final(fb).pixels@, r, c) == self.line_cell(
                    frames@,
                    image@,
                    iw as int,
                    s@,
                    self.centred_x(frames@, s@),
                    y as int,
                    None,
                    old(fb).pixels@,
                    r,
                    c,
                ),
    {
        let x = self.centre(frames, s);
        self.draw_own(fb, frames, image, iw, s, x, y);
    }
}

/// [`last_index`], found.
fn last_at(s: &Vec<char>, c: char) -> (r: Option<usize>)
    ensures
        match r {
            Some(i) => last_index(s@, c) == Some(i as int),
            None => last_index(s@, c) is None,
        },
        r matches Some(i) ==> i < s@.len(),
{
    let mut j: usize = s.len();
    proof {
        assert(s@.take(j as int) =~= s@);
    }
    while j > 0
        invariant
            j <= s@.len(),
            last_index(s@, c) == last_index(s@.take(j as int), c),
        decreases j,
    {
        let t = Ghost(s@.take(j as int));
        proof {
            assert(t@.drop_last() =~= s@.take(j - 1));
            assert(t@.last() == s@[j - 1]);
        }
        if s[j - 1] == c {
            return Some(j - 1);
        }
        j = j - 1;
    }
    None
}

/// Whichever fonts the packs happen to hold. Both are optional.
pub struct Fonts<'a> {
    pub bold: Option<&'a Font>,
    pub small: Option<&'a Font>,
}

} // verus!
