//! The shell's own pieces that stand apart from the assets: the tick drawn
//! beside a ready name, a note broken into lines, and the lobby's layout.

use vstd::prelude::*;
use crate::chars::{chars_of, is_white, lemma_words_of, slice_chars, split_words, string_of, words_of};
use crate::text::Font;

verus! {

/// The tick drawn beside a name that is ready.
///
/// A cel rather than a letter because there is no letter for it: the bold
/// and small faces carry A to Z, 0 to 9, space and `. , ! ?`, and anything
/// else is drawn as nothing at all. The art is the face; the outline around
/// it is worked out from the face, which is how the bold glyphs are built
/// too.
pub const TICK_ART: [&'static str; 7] = [
    "........#",
    ".......##",
    "......##.",
    "#....##..",
    "##..##...",
    ".####....",
    "..##.....",
];

pub const TICK_W: usize = 9;
pub const TICK_H: usize = 7;

/// The bold face's own two inks: black at 5, the lightest face colour at 9.
/// The tick is the same ink as the lettering it sits beside.
pub const TICK_OUTLINE: u8 = 5;
pub const TICK_FACE: u8 = 9;

/// One pixel of outline on every side, so the cel is the art grown by one.
pub const CEL_W: usize = 11;
pub const CEL_H: usize = 9;

/// Whether the cel's cell at row `r`, column `c` is the tick's face: the
/// art, one pixel in from every side.
pub open spec fn face(r: int, c: int) -> bool {
    1 <= r <= 7 && 1 <= c <= 9 && TICK_ART@[r - 1]@[c - 1] == '#'
}

/// Whether a cell is beside the face, in any of the eight directions or on
/// it.
pub open spec fn near(r: int, c: int) -> bool {
    ||| face(r - 1, c - 1)
    ||| face(r - 1, c)
    ||| face(r - 1, c + 1)
    ||| face(r, c - 1)
    ||| face(r, c)
    ||| face(r, c + 1)
    ||| face(r + 1, c - 1)
    ||| face(r + 1, c)
    ||| face(r + 1, c + 1)
}

/// What the tick's cel holds at a cell: the face ink on the face, the
/// outline ink on every cell touching it, and nothing elsewhere.
pub open spec fn tick_px(r: int, c: int) -> u8 {
    if face(r, c) {
        TICK_FACE
    } else if near(r, c) {
        TICK_OUTLINE
    } else {
        0
    }
}

/// Builds the tick: the art in [`TICK_FACE`], and every cell touching it
/// in [`TICK_OUTLINE`]. Answers the cel, its width and its height.
pub fn tick_cel() -> (t: ([u8; 99], usize, usize))
    ensures
        t.1 == CEL_W,
        t.2 == CEL_H,
        forall|r: int, c: int| 0 <= r < 9 && 0 <= c < 11 ==> #[trigger] t.0@[r * 11 + c] == tick_px(r, c),
{
    proof {
        reveal_strlit("........#");
        reveal_strlit(".......##");
        reveal_strlit("......##.");
        reveal_strlit("#....##..");
        reveal_strlit("##..##...");
        reveal_strlit(".####....");
        reveal_strlit("..##.....");
    }
    let mut cel: [u8; 99] = [0; 99];
    let mut row: usize = 0;
    while row < 7
        invariant
            row <= 7,
            forall|k: int| 0 <= k < 7 ==> (#[trigger] TICK_ART@[k])@.len() == 9,
            forall|r: int, c: int|
                0 <= r < 9 && 0 <= c < 11 ==> #[trigger] cel@[r * 11 + c] == if r <= row && face(r, c) {
                    TICK_FACE
                } else {
                    0
                },
        decreases 7 - row,
    {
        let art = chars_of(TICK_ART[row]);
        let mut col: usize = 0;
        while col < 9
            invariant
                row < 7,
                col <= 9,
                art@ == TICK_ART@[row as int]@,
                art@.len() == 9,
                forall|k: int| 0 <= k < 7 ==> (#[trigger] TICK_ART@[k])@.len() == 9,
                forall|r: int, c: int|
                    0 <= r < 9 && 0 <= c < 11 ==> #[trigger] cel@[r * 11 + c] == if (r <= row && face(r, c)) || (r
                        == row + 1 && 1 <= c <= col && face(r, c)) {
                        TICK_FACE
                    } else {
                        0
                    },
            decreases 9 - col,
        {
            if art[col] == '#' {
                let ghost mid = cel@;
                cel[(row + 1) * 11 + col + 1] = TICK_FACE;
                proof {
                    assert forall|r: int, c: int| 0 <= r < 9 && 0 <= c < 11 implies #[trigger] cel@[r * 11 + c] == if (r
                        <= row && face(r, c)) || (r == row + 1 && 1 <= c <= col + 1 && face(r, c)) {
                        TICK_FACE
                    } else {
                        0
                    } by {
                        if r * 11 + c == (row + 1) * 11 + col + 1 {
                            assert(r == row + 1 && c == col + 1);
                        }
                        assert(mid[r * 11 + c] == if (r <= row && face(r, c)) || (r == row + 1 && 1 <= c <= col
                            && face(r, c)) {
                            TICK_FACE
                        } else {
                            0
                        });
                    }
                }
            }
            col = col + 1;
        }
        row = row + 1;
    }
    let face_cel = cel;
    let mut y: usize = 0;
    while y < 9
        invariant
            y <= 9,
            forall|r: int, c: int|
                0 <= r < 9 && 0 <= c < 11 ==> #[trigger] face_cel@[r * 11 + c] == if face(r, c) {
                    TICK_FACE
                } else {
                    0
                },
            forall|r: int, c: int|
                0 <= r < 9 && 0 <= c < 11 ==> #[trigger] cel@[r * 11 + c] == if r < y {
                    tick_px(r, c)
                } else if face(r, c) {
                    TICK_FACE
                } else {
                    0
                },
        decreases 9 - y,
    {
        let mut x: usize = 0;
        while x < 11
            invariant
                y < 9,
                x <= 11,
                forall|r: int, c: int|
                    0 <= r < 9 && 0 <= c < 11 ==> #[trigger] face_cel@[r * 11 + c] == if face(r, c) {
                        TICK_FACE
                    } else {
                        0
                    },
                forall|r: int, c: int|
                    0 <= r < 9 && 0 <= c < 11 ==> #[trigger] cel@[r * 11 + c] == if r < y || (r == y && c < x) {
                        tick_px(r, c)
                    } else if face(r, c) {
                        TICK_FACE
                    } else {
                        0
                    },
            decreases 11 - x,
        {
            if face_cel[y * 11 + x] == 0 {
                let t = touches(&face_cel, y, x);
                if t {
                    let ghost mid = cel@;
                    cel[y * 11 + x] = TICK_OUTLINE;
                    proof {
                        assert forall|r: int, c: int| 0 <= r < 9 && 0 <= c < 11 implies #[trigger] cel@[r * 11 + c]
                            == if r < y || (r == y && c < x + 1) {
                            tick_px(r, c)
                        } else if face(r, c) {
                            TICK_FACE
                        } else {
                            0
                        } by {
                            if r * 11 + c == y * 11 + x {
                                assert(r == y && c == x);
                            }
                            assert(mid[r * 11 + c] == if r < y || (r == y && c < x) {
                                tick_px(r, c)
                            } else if face(r, c) {
                                TICK_FACE
                            } else {
                                0
                            });
                        }
                    }
                }
            }
            x = x + 1;
        }
        y = y + 1;
    }
    (cel, CEL_W, CEL_H)
}

/// Whether any of the eight cells around `(y, x)`, or the cell itself, is
/// the face in a cel of face alone.
fn touches(face_cel: &[u8; 99], y: usize, x: usize) -> (b: bool)
    requires
        y < 9,
        x < 11,
        forall|r: int, c: int|
            0 <= r < 9 && 0 <= c < 11 ==> #[trigger] face_cel@[r * 11 + c] == if face(r, c) {
                TICK_FACE
            } else {
                0
            },
    ensures
        b == near(y as int, x as int),
{
    let mut dy: i32 = -1;
    let mut found = false;
    while dy <= 1
        invariant
            -1 <= dy <= 2,
            y < 9,
            x < 11,
            forall|r: int, c: int|
                0 <= r < 9 && 0 <= c < 11 ==> #[trigger] face_cel@[r * 11 + c] == if face(r, c) {
                    TICK_FACE
                } else {
                    0
                },
            found == exists|a: int, b: int| -1 <= a < dy && -1 <= b <= 1 && #[trigger] face(y + a, x + b),
        decreases 2 - dy,
    {
        let mut dx: i32 = -1;
        while dx <= 1
            invariant
                -1 <= dy <= 1,
                -1 <= dx <= 2,
                y < 9,
                x < 11,
                forall|r: int, c: int|
                    0 <= r < 9 && 0 <= c < 11 ==> #[trigger] face_cel@[r * 11 + c] == if face(r, c) {
                        TICK_FACE
                    } else {
                        0
                    },
                found == exists|a: int, b: int|
                    ((-1 <= a < dy && -1 <= b <= 1) || (a == dy && -1 <= b < dx)) && #[trigger] face(y + a, x + b),
            decreases 2 - dx,
        {
            let ny: i32 = y as i32 + dy;
            let nx: i32 = x as i32 + dx;
            if 0 <= ny && ny < 9 && 0 <= nx && nx < 11 && face_cel[ny as usize * 11 + nx as usize] != 0 {
                proof {
                    assert(face(y + dy, x + dx));
                }
                found = true;
            } else {
                proof {
                    if 0 <= ny < 9 && 0 <= nx < 11 {
                        assert(face_cel@[ny * 11 + nx] == 0);
                    }
                    assert(!face(y + dy, x + dx));
                }
            }
            dx = dx + 1;
        }
        dy = dy + 1;
    }
    proof {
        if near(y as int, x as int) {
            if face(y - 1, x - 1) {
                assert(face(y + -1, x + -1));
            } else if face(y - 1, x as int) {
                assert(face(y + -1, x + 0));
            } else if face(y - 1, x + 1) {
                assert(face(y + -1, x + 1));
            } else if face(y as int, x - 1) {
                assert(face(y + 0, x + -1));
            } else if face(y as int, x as int) {
                assert(face(y + 0, x + 0));
            } else if face(y as int, x + 1) {
                assert(face(y + 0, x + 1));
            } else if face(y + 1, x - 1) {
                assert(face(y + 1, x + -1));
            } else if face(y + 1, x as int) {
                assert(face(y + 1, x + 0));
            } else {
                assert(face(y + 1, x + 1));
            }
        }
    }
    found
}

/// **The tick is the face inside its own outline**: it is drawn in the
/// bold face's two inks and nothing else, no face cell is on the cel's
/// edge, and every cell around a face cell is inked, so it reads on the
/// title plate rather than only against it.
pub proof fn the_tick_is_outlined(r: int, c: int)
    requires
        0 <= r < 9,
        0 <= c < 11,
    ensures
        tick_px(r, c) == 0 || tick_px(r, c) == TICK_FACE || tick_px(r, c) == TICK_OUTLINE,
        tick_px(r, c) == TICK_FACE ==> 1 <= r <= 7 && 1 <= c <= 9,
        tick_px(r, c) == TICK_FACE ==> forall|dr: int, dc: int|
            -1 <= dr <= 1 && -1 <= dc <= 1 ==> #[trigger] tick_px(r + dr, c + dc) != 0,
{
    if tick_px(r, c) == TICK_FACE {
        assert forall|dr: int, dc: int| -1 <= dr <= 1 && -1 <= dc <= 1 implies #[trigger] tick_px(r + dr, c + dc)
            != 0 by {
            assert(face(r, c));
            let (rr, cc) = (r + dr, c + dc);
            if !face(rr, cc) {
                assert(near(rr, cc)) by {
                    if dr == -1 && dc == -1 {
                        assert(face(rr + 1, cc + 1));
                    } else if dr == -1 && dc == 0 {
                        assert(face(rr + 1, cc));
                    } else if dr == -1 && dc == 1 {
                        assert(face(rr + 1, cc - 1));
                    } else if dr == 0 && dc == -1 {
                        assert(face(rr, cc + 1));
                    } else if dr == 0 && dc == 1 {
                        assert(face(rr, cc - 1));
                    } else if dr == 1 && dc == -1 {
                        assert(face(rr - 1, cc + 1));
                    } else if dr == 1 && dc == 0 {
                        assert(face(rr - 1, cc));
                    } else if dr == 1 && dc == 1 {
                        assert(face(rr - 1, cc - 1));
                    }
                }
            }
        }
    }
}

/// A word put on the end of a line: after a space, unless the line is
/// empty.
pub open spec fn joined(line: Seq<char>, word: Seq<char>) -> Seq<char> {
    if line.len() == 0 {
        word
    } else {
        line + seq![' '] + word
    }
}

/// Lines put back together with a space between each.
pub open spec fn join_all(ls: Seq<Seq<char>>) -> Seq<char>
    decreases ls.len(),
{
    if ls.len() == 0 {
        Seq::empty()
    } else {
        joined(join_all(ls.drop_last()), ls.last())
    }
}

/// The three dots a cut line ends with.
pub open spec fn tail() -> Seq<char> {
    seq!['.', '.', '.']
}

/// The width of a run of characters in a font with these frames.
pub open spec fn wide(font: Font, frames: Seq<u16>, s: Seq<char>) -> int {
    font.width_spec(frames, s)
}

/// Breaking words into lines, as values: the lines finished so far, the
/// line being filled, and whether the words ran out of lines. A word goes
/// on the line if the line still fits with it, or if the line is empty, so a
/// word too wide for any line is kept whole; otherwise the line is finished,
/// unless it is the last there is room for, and then the rest is dropped.
/// A `most` of zero sets no limit at all, which is how a place's
/// description is set; a note given no lines has none, before any filling.
pub open spec fn fill(ws: Seq<Seq<char>>, most: int, room: int, font: Font, frames: Seq<u16>) -> (
    Seq<Seq<char>>,
    Seq<char>,
    bool,
)
    decreases ws.len(),
{
    if ws.len() == 0 {
        (Seq::empty(), Seq::empty(), false)
    } else {
        let (lines, line, dropped) = fill(ws.drop_last(), most, room, font, frames);
        if dropped {
            (lines, line, true)
        } else {
            let word = ws.last();
            let wider = joined(line, word);
            if wide(font, frames, wider) <= room || line.len() == 0 {
                (lines, wider, false)
            } else if lines.len() + 1 == most {
                (lines, line, true)
            } else {
                (lines.push(line), word, false)
            }
        }
    }
}

/// A line too wide for the room loses its last four characters to three
/// dots, again and again, until it fits or is no longer than four.
pub open spec fn cut_tail(last: Seq<char>, room: int, font: Font, frames: Seq<u16>) -> Seq<char>
    decreases last.len(),
{
    if wide(font, frames, last) > room && last.len() > 4 {
        cut_tail(last.take(last.len() - 4) + tail(), room, font, frames)
    } else {
        last
    }
}

/// Lines with three dots put on the last, when the words ran out of lines.
pub open spec fn marked(all: Seq<Seq<char>>, dropped: bool) -> Seq<Seq<char>> {
    if all.len() > 0 && dropped {
        all.update(all.len() - 1, all.last() + tail())
    } else {
        all
    }
}

/// Every line cut to the room with a tail, where it does not fit.
pub open spec fn cut_all(ls: Seq<Seq<char>>, room: int, font: Font, frames: Seq<u16>) -> Seq<Seq<char>> {
    ls.map_values(|l: Seq<char>| cut_tail(l, room, font, frames))
}

/// A sentence broken into at most `most` lines of `room` pixels, as values.
/// A note that lost its tail says so with three dots on its last line, and
/// so does a word wider than the screen, wherever it stands; the dots are put
/// on before the trimming, so the three characters they cost are counted. A
/// note given no lines has none.
pub open spec fn wrap_spec(text: Seq<char>, most: int, room: int, font: Font, frames: Seq<u16>) -> Seq<Seq<char>> {
    if most <= 0 {
        Seq::empty()
    } else {
        cut_all(
            marked(filled(text, most, room, font, frames), fill(words_of(text), most, room, font, frames).2),
            room,
            font,
            frames,
        )
    }
}

/// The character runs of some vectors.
pub open spec fn runs(v: Seq<Vec<char>>) -> Seq<Seq<char>> {
    v.map_values(|x: Vec<char>| x@)
}

/// [`joined`], built.
fn join_word(line: &Vec<char>, word: &Vec<char>) -> (r: Vec<char>)
    ensures
        r@ == joined(line@, word@),
{
    let mut r: Vec<char> = Vec::new();
    let mut i: usize = 0;
    while i < line.len()
        invariant
            i <= line@.len(),
            r@ == line@.take(i as int),
        decreases line@.len() - i,
    {
        r.push(line[i]);
        proof {
            assert(line@.take(i as int + 1) =~= line@.take(i as int).push(line@[i as int]));
        }
        i = i + 1;
    }
    proof {
        assert(line@.take(i as int) =~= line@);
    }
    if line.len() > 0 {
        r.push(' ');
    }
    let ghost head = r@;
    let mut j: usize = 0;
    while j < word.len()
        invariant
            j <= word@.len(),
            r@ == head + word@.take(j as int),
        decreases word@.len() - j,
    {
        r.push(word[j]);
        proof {
            assert(word@.take(j as int + 1) =~= word@.take(j as int).push(word@[j as int]));
        }
        j = j + 1;
    }
    proof {
        assert(word@.take(j as int) =~= word@);
        if line@.len() == 0 {
            assert(r@ =~= word@);
        } else {
            assert(r@ =~= line@ + seq![' '] + word@);
        }
    }
    r
}

/// A line with its last four characters taken off and three dots put on,
/// or just the dots put on when `cut` is false.
fn with_tail(line: &Vec<char>, cut: bool) -> (r: Vec<char>)
    requires
        cut ==> line@.len() > 4,
    ensures
        r@ == if cut {
            line@.take(line@.len() - 4) + tail()
        } else {
            line@ + tail()
        },
{
    let keep: usize = if cut {
        line.len() - 4
    } else {
        line.len()
    };
    let mut r: Vec<char> = Vec::new();
    let mut i: usize = 0;
    while i < keep
        invariant
            i <= keep <= line@.len(),
            r@ == line@.take(i as int),
        decreases keep - i,
    {
        r.push(line[i]);
        proof {
            assert(line@.take(i as int + 1) =~= line@.take(i as int).push(line@[i as int]));
        }
        i = i + 1;
    }
    r.push('.');
    r.push('.');
    r.push('.');
    proof {
        if !cut {
            assert(line@.take(keep as int) =~= line@);
        }
        assert(r@ =~= line@.take(keep as int) + tail());
    }
    r
}

/// The lines [`fill`] makes, the one being filled included, as values.
pub open spec fn filled(text: Seq<char>, most: int, room: int, font: Font, frames: Seq<u16>) -> Seq<Seq<char>> {
    let (lines, line, dropped) = fill(words_of(text), most, room, font, frames);
    if line.len() > 0 {
        lines.push(line)
    } else {
        lines
    }
}

/// [`fill`], run over a sentence's words: the lines, the one being filled
/// included, and whether words were dropped for want of lines.
pub(crate) fn fill_lines(text: &str, most: usize, room: i32, font: &Font, frames: &[u16]) -> (r: (Vec<Vec<char>>, bool))
    ensures
        runs(r.0@) == filled(text@, most as int, room as int, *font, frames@),
        r.1 == fill(words_of(text@), most as int, room as int, *font, frames@).2,
{
    let cs = chars_of(text);
    let words = split_words(&cs);
    let ghost ws = words_of(text@);
    let mut lines: Vec<Vec<char>> = Vec::new();
    let mut line: Vec<char> = Vec::new();
    let mut dropped = false;
    let mut k: usize = 0;
    proof {
        assert(ws.take(0) =~= Seq::<Seq<char>>::empty());
        assert(runs(lines@) =~= Seq::<Seq<char>>::empty());
    }
    while k < words.len()
        invariant
            k <= words@.len(),
            runs(words@) == ws,
            ws == words_of(text@),
            lines@.len() <= k,
            fill(ws.take(k as int), most as int, room as int, *font, frames@) == (runs(lines@), line@, dropped),
        decreases words@.len() - k,
    {
        proof {
            let t = ws.take(k as int + 1);
            assert(t.drop_last() =~= ws.take(k as int));
            assert(t.last() == words@[k as int]@);
        }
        if !dropped {
            let wider = join_word(&line, &words[k]);
            if font.measure(frames, &wider) <= room as i128 || line.len() == 0 {
                line = wider;
            } else if lines.len() + 1 == most {
                dropped = true;
            } else {
                let ghost before = lines@;
                let done = line;
                lines.push(done);
                proof {
                    assert(runs(lines@) =~= runs(before).push(done@));
                }
                let mut fresh: Vec<char> = Vec::new();
                let mut j: usize = 0;
                while j < words[k].len()
                    invariant
                        k < words@.len(),
                        j <= words@[k as int]@.len(),
                        fresh@ == words@[k as int]@.take(j as int),
                    decreases words@[k as int]@.len() - j,
                {
                    fresh.push(words[k][j]);
                    proof {
                        assert(words@[k as int]@.take(j as int + 1) =~= words@[k as int]@.take(j as int).push(
                            words@[k as int]@[j as int],
                        ));
                    }
                    j = j + 1;
                }
                proof {
                    assert(words@[k as int]@.take(j as int) =~= words@[k as int]@);
                }
                line = fresh;
            }
        }
        k = k + 1;
    }
    proof {
        assert(ws.take(k as int) =~= ws);
    }
    if line.len() > 0 {
        let ghost before = lines@;
        lines.push(line);
        proof {
            assert(runs(lines@) =~= runs(before).push(lines@.last()@));
        }
    }
    (lines, dropped)
}

/// Lines of characters made into strings.
pub(crate) fn strings_of(lines: &Vec<Vec<char>>) -> (out: Vec<String>)
    ensures
        out@.map_values(|s: String| s@) == runs(lines@),
{
    let mut out: Vec<String> = Vec::new();
    let mut i: usize = 0;
    while i < lines.len()
        invariant
            i <= lines@.len(),
            out@.map_values(|s: String| s@) == runs(lines@).take(i as int),
        decreases lines@.len() - i,
    {
        let ghost before = out@;
        out.push(string_of(lines[i].as_slice()));
        proof {
            assert(out@.map_values(|s: String| s@) =~= before.map_values(|s: String| s@).push(lines@[i as int]@));
            assert(runs(lines@).take(i as int + 1) =~= runs(lines@).take(i as int).push(lines@[i as int]@));
        }
        i = i + 1;
    }
    proof {
        assert(runs(lines@).take(i as int) =~= runs(lines@));
    }
    out
}

/// Breaks a sentence into at most `most` lines that fit `room` pixels in
/// a font whose glyph frames are `frames` wide.
///
/// Broken on spaces, because the small face is proportional and a break in
/// the middle of a word reads as a typing mistake; a single word too wide to
/// fit is cut with a tail, which is the only case that can lose anything
/// besides what the lines ran out on.
pub fn wrap_to(text: &str, most: usize, room: i32, font: &Font, frames: &[u16]) -> (lines: Vec<String>)
    ensures
        lines@.map_values(|s: String| s@) == wrap_spec(text@, most as int, room as int, *font, frames@),
{
    if most == 0 {
        return Vec::new();
    }
    let (mut lines, dropped) = fill_lines(text, most, room, font, frames);
    let ghost all = runs(lines@);
    let n = lines.len();
    if n > 0 && dropped {
        let last = lines.pop().unwrap();
        lines.push(with_tail(&last, false));
        proof {
            assert(runs(lines@) =~= marked(all, dropped));
        }
    } else {
        proof {
            assert(runs(lines@) =~= marked(all, dropped));
        }
    }
    let ghost m = runs(lines@);
    let mut cut_lines: Vec<Vec<char>> = Vec::new();
    let mut i: usize = 0;
    while i < lines.len()
        invariant
            i <= lines@.len(),
            m == runs(lines@),
            runs(cut_lines@) == cut_all(m, room as int, *font, frames@).take(i as int),
        decreases lines@.len() - i,
    {
        let mut cut = slice_chars(&lines[i], 0, lines[i].len());
        proof {
            assert(cut@ =~= m[i as int]);
        }
        let ghost start = cut@;
        while font.measure(frames, &cut) > room as i128 && cut.len() > 4
            invariant
                cut_tail(cut@, room as int, *font, frames@) == cut_tail(start, room as int, *font, frames@),
            decreases cut@.len(),
        {
            cut = with_tail(&cut, true);
        }
        let ghost before = cut_lines@;
        cut_lines.push(cut);
        proof {
            assert(runs(cut_lines@) =~= runs(before).push(cut@));
            assert(cut_all(m, room as int, *font, frames@).take(i as int + 1) =~= cut_all(
                m,
                room as int,
                *font,
                frames@,
            ).take(i as int).push(cut_tail(m[i as int], room as int, *font, frames@)));
        }
        i = i + 1;
    }
    proof {
        assert(cut_all(m, room as int, *font, frames@).take(i as int) =~= cut_all(m, room as int, *font, frames@));
    }
    let lines = cut_lines;
    strings_of(&lines)
}

/// How many lines [`fill`] has finished stays one short of the room.
proof fn lemma_fill_count(ws: Seq<Seq<char>>, most: int, room: int, font: Font, frames: Seq<u16>)
    requires
        most >= 1,
    ensures
        fill(ws, most, room, font, frames).0.len() + 1 <= most,
    decreases ws.len(),
{
    if ws.len() > 0 {
        lemma_fill_count(ws.drop_last(), most, room, font, frames);
    }
}

/// Every line [`fill`] makes either fits or is one word, and so is the line
/// it is filling.
pub(crate) proof fn lemma_fill_fits(ws: Seq<Seq<char>>, most: int, room: int, font: Font, frames: Seq<u16>)
    requires
        forall|k: int, j: int| 0 <= k < ws.len() && 0 <= j < ws[k].len() ==> !is_white(#[trigger] ws[k][j]),
    ensures
        ({
            let (lines, line, dropped) = fill(ws, most, room, font, frames);
            &&& forall|k: int|
                0 <= k < lines.len() ==> wide(font, frames, #[trigger] lines[k]) <= room || !lines[k].contains(' ')
            &&& wide(font, frames, line) <= room || !line.contains(' ')
        }),
    decreases ws.len(),
{
    if ws.len() > 0 {
        let rest = ws.drop_last();
        assert forall|k: int, j: int| 0 <= k < rest.len() && 0 <= j < rest[k].len() implies !is_white(
            #[trigger] rest[k][j],
        ) by {
            assert(rest[k] == ws[k]);
        }
        lemma_fill_fits(rest, most, room, font, frames);
        let word = ws.last();
        assert(!word.contains(' ')) by {
            if word.contains(' ') {
                let j = choose|j: int| 0 <= j < word.len() && word[j] == ' ';
                assert(ws[ws.len() - 1][j] == ' ');
            }
        }
    } else {
        assert(!Seq::<char>::empty().contains(' '));
    }
}

/// What [`cut_tail`] leaves fits, or is no longer than four.
proof fn lemma_cut_tail(last: Seq<char>, room: int, font: Font, frames: Seq<u16>)
    ensures
        wide(font, frames, cut_tail(last, room, font, frames)) <= room || cut_tail(last, room, font, frames).len() <= 4,
    decreases last.len(),
{
    if wide(font, frames, last) > room && last.len() > 4 {
        lemma_cut_tail(last.take(last.len() - 4) + tail(), room, font, frames);
    }
}

/// A word on the end of a line on the end of lines is the same as the line
/// on the end of the lines and then the word.
proof fn lemma_joined_assoc(a: Seq<char>, l: Seq<char>, w: Seq<char>)
    requires
        l.len() > 0,
    ensures
        joined(a, joined(l, w)) == joined(joined(a, l), w),
{
    if a.len() > 0 {
        assert(a + seq![' '] + (l + seq![' '] + w) =~= a + seq![' '] + l + seq![' '] + w);
    }
}

/// With nothing dropped, what [`fill`] has made puts back together into the
/// words it was given.
pub(crate) proof fn lemma_fill_join(ws: Seq<Seq<char>>, most: int, room: int, font: Font, frames: Seq<u16>)
    requires
        forall|k: int| 0 <= k < ws.len() ==> (#[trigger] ws[k]).len() > 0,
        !fill(ws, most, room, font, frames).2,
    ensures
        ({
            let (lines, line, dropped) = fill(ws, most, room, font, frames);
            &&& ws.len() == 0 ==> lines.len() == 0 && line.len() == 0
            &&& ws.len() > 0 ==> line.len() > 0 && join_all(lines.push(line)) == join_all(ws)
        }),
    decreases ws.len(),
{
    if ws.len() > 0 {
        let rest = ws.drop_last();
        assert forall|k: int| 0 <= k < rest.len() implies (#[trigger] rest[k]).len() > 0 by {
            assert(rest[k] == ws[k]);
        }
        assert(!fill(rest, most, room, font, frames).2);
        lemma_fill_join(rest, most, room, font, frames);
        let (lines, line, dropped) = fill(rest, most, room, font, frames);
        let word = ws.last();
        assert(word.len() > 0);
        assert(join_all(ws) == joined(join_all(rest), word));
        if line.len() > 0 {
            assert(lines.push(line).drop_last() =~= lines);
            assert(join_all(lines.push(line)) == joined(join_all(lines), line));
            let wider = joined(line, word);
            if wide(font, frames, wider) <= room {
                assert(lines.push(wider).drop_last() =~= lines);
                assert(join_all(lines.push(wider)) == joined(join_all(lines), wider));
                lemma_joined_assoc(join_all(lines), line, word);
            } else {
                assert(lines.push(line).push(word).drop_last() =~= lines.push(line));
                assert(join_all(lines.push(line).push(word)) == joined(join_all(lines.push(line)), word));
            }
        } else {
            assert(rest.len() == 0);
            assert(lines.len() == 0);
            assert(lines.push(word).drop_last() =~= lines);
            assert(join_all(lines) == Seq::<char>::empty());
            assert(join_all(rest) == Seq::<char>::empty());
            assert(join_all(lines.push(word)) == joined(join_all(lines), word));
        }
    }
}

/// With no limit on lines, no word is ever dropped.
pub(crate) proof fn lemma_no_limit(ws: Seq<Seq<char>>, room: int, font: Font, frames: Seq<u16>)
    ensures
        !fill(ws, 0, room, font, frames).2,
    decreases ws.len(),
{
    if ws.len() > 0 {
        lemma_no_limit(ws.drop_last(), room, font, frames);
    }
}

/// Every line [`fill`] makes, the one being filled included when it holds
/// anything, is not empty and neither begins nor ends in white space.
proof fn lemma_fill_edges(ws: Seq<Seq<char>>, most: int, room: int, font: Font, frames: Seq<u16>)
    requires
        forall|k: int| 0 <= k < ws.len() ==> (#[trigger] ws[k]).len() > 0,
        forall|k: int, j: int| 0 <= k < ws.len() && 0 <= j < ws[k].len() ==> !is_white(#[trigger] ws[k][j]),
    ensures
        ({
            let (lines, line, dropped) = fill(ws, most, room, font, frames);
            &&& forall|k: int|
                0 <= k < lines.len() ==> (#[trigger] lines[k]).len() > 0 && !is_white(lines[k][0]) && !is_white(
                    lines[k].last(),
                )
            &&& line.len() > 0 ==> !is_white(line[0]) && !is_white(line.last())
        }),
    decreases ws.len(),
{
    if ws.len() > 0 {
        let rest = ws.drop_last();
        assert forall|k: int| 0 <= k < rest.len() implies (#[trigger] rest[k]).len() > 0 by {
            assert(rest[k] == ws[k]);
        }
        assert forall|k: int, j: int| 0 <= k < rest.len() && 0 <= j < rest[k].len() implies !is_white(
            #[trigger] rest[k][j],
        ) by {
            assert(rest[k] == ws[k]);
        }
        lemma_fill_edges(rest, most, room, font, frames);
        let (lines, line, dropped) = fill(rest, most, room, font, frames);
        let word = ws.last();
        assert(word.len() > 0);
        assert(!is_white(ws[ws.len() - 1][0]));
        assert(!is_white(ws[ws.len() - 1][word.len() - 1]));
        if line.len() > 0 {
            let w = line + seq![' '] + word;
            assert(w[0] == line[0]);
            assert(w.last() == word.last());
            assert forall|k: int| 0 <= k < lines.push(line).len() implies (#[trigger] lines.push(line)[k]).len() > 0
                && !is_white(lines.push(line)[k][0]) && !is_white(lines.push(line)[k].last()) by {
                if k < lines.len() {
                    assert(lines.push(line)[k] == lines[k]);
                }
            }
        }
    }
}

/// What [`cut_tail`] leaves of a line that is not empty and neither begins
/// nor ends in white space is the same.
proof fn lemma_cut_tail_edges(l: Seq<char>, room: int, font: Font, frames: Seq<u16>)
    requires
        l.len() > 0,
        !is_white(l[0]),
        !is_white(l.last()),
    ensures
        cut_tail(l, room, font, frames).len() > 0,
        !is_white(cut_tail(l, room, font, frames)[0]),
        !is_white(cut_tail(l, room, font, frames).last()),
    decreases l.len(),
{
    if wide(font, frames, l) > room && l.len() > 4 {
        let c = l.take(l.len() - 4) + tail();
        assert(c[0] == l[0]);
        assert(c.last() == '.');
        lemma_cut_tail_edges(c, room, font, frames);
    }
}

/// How many lines greedy packing with no limit needs.
pub open spec fn greedy_count(ws: Seq<Seq<char>>, room: int, font: Font, frames: Seq<u16>) -> int {
    let (lines, line, dropped) = fill(ws, 0, room, font, frames);
    lines.len() + if line.len() > 0 { 1int } else { 0int }
}

/// Where greedy packing needs no more lines than there are, a limit changes
/// nothing.
proof fn lemma_limit_unreached(ws: Seq<Seq<char>>, most: int, room: int, font: Font, frames: Seq<u16>)
    requires
        most >= 1,
        forall|k: int| 0 <= k < ws.len() ==> (#[trigger] ws[k]).len() > 0,
        greedy_count(ws, room, font, frames) <= most,
    ensures
        fill(ws, most, room, font, frames) == fill(ws, 0, room, font, frames),
    decreases ws.len(),
{
    if ws.len() > 0 {
        let rest = ws.drop_last();
        assert forall|k: int| 0 <= k < rest.len() implies (#[trigger] rest[k]).len() > 0 by {
            assert(rest[k] == ws[k]);
        }
        lemma_no_limit(rest, room, font, frames);
        lemma_no_limit(ws, room, font, frames);
        assert(ws.last().len() > 0);
        assert(greedy_count(rest, room, font, frames) <= greedy_count(ws, room, font, frames));
        lemma_limit_unreached(rest, most, room, font, frames);
    }
}

/// Where every word fits, every line [`fill`] makes fits.
proof fn lemma_fill_fits_all(ws: Seq<Seq<char>>, most: int, room: int, font: Font, frames: Seq<u16>)
    requires
        forall|k: int| 0 <= k < ws.len() ==> wide(font, frames, #[trigger] ws[k]) <= room,
    ensures
        ({
            let (lines, line, dropped) = fill(ws, most, room, font, frames);
            &&& forall|k: int| 0 <= k < lines.len() ==> wide(font, frames, #[trigger] lines[k]) <= room
            &&& line.len() > 0 ==> wide(font, frames, line) <= room
        }),
    decreases ws.len(),
{
    if ws.len() > 0 {
        let rest = ws.drop_last();
        assert forall|k: int| 0 <= k < rest.len() implies wide(font, frames, #[trigger] rest[k]) <= room by {
            assert(rest[k] == ws[k]);
        }
        lemma_fill_fits_all(rest, most, room, font, frames);
        let (lines, line, dropped) = fill(rest, most, room, font, frames);
        assert(wide(font, frames, ws[ws.len() - 1]) <= room);
        if !dropped && line.len() > 0 && !(wide(font, frames, joined(line, ws.last())) <= room) && lines.len() + 1
            != most {
            assert forall|k: int| 0 <= k < lines.push(line).len() implies wide(
                font,
                frames,
                #[trigger] lines.push(line)[k],
            ) <= room by {
                if k < lines.len() {
                    assert(lines.push(line)[k] == lines[k]);
                }
            }
        }
    } else {
        assert(Seq::<char>::empty().len() == 0);
    }
}

/// **A note keeps to the lines it is given**: never more than `most`, and
/// none at all when it is given none.
pub proof fn a_note_keeps_to_its_lines(text: Seq<char>, most: int, room: int, font: Font, frames: Seq<u16>)
    requires
        most >= 0,
    ensures
        wrap_spec(text, most, room, font, frames).len() <= most,
{
    if most >= 1 {
        lemma_fill_count(words_of(text), most, room, font, frames);
    }
}

/// **Every line fits the screen, a word too wide being cut with a tail**:
/// each line fits the room or is no longer than four characters, which is as
/// far as a cut can go, and no line is empty or begins or ends in white
/// space.
pub proof fn every_line_fits(text: Seq<char>, most: int, room: int, font: Font, frames: Seq<u16>)
    ensures
        ({
            let ls = wrap_spec(text, most, room, font, frames);
            forall|k: int|
                0 <= k < ls.len() ==> (wide(font, frames, #[trigger] ls[k]) <= room || ls[k].len() <= 4)
                    && ls[k].len() > 0 && !is_white(ls[k][0]) && !is_white(ls[k].last())
        }),
{
    if most >= 1 {
        let ws = words_of(text);
        lemma_words_of(text);
        lemma_fill_edges(ws, most, room, font, frames);
        let (lines, line, dropped) = fill(ws, most, room, font, frames);
        let all = filled(text, most, room, font, frames);
        let m = marked(all, dropped);
        assert forall|k: int| 0 <= k < m.len() implies (#[trigger] m[k]).len() > 0 && !is_white(m[k][0])
            && !is_white(m[k].last()) by {
            if k < lines.len() {
                assert(all[k] == lines[k]);
            } else {
                assert(all[k] == line);
            }
            if dropped && k == m.len() - 1 {
                assert(m[k] == all[k] + tail());
                assert(m[k][0] == all[k][0]);
                assert(m[k].last() == '.');
            } else {
                assert(m[k] == all[k]);
            }
        }
        let ls = wrap_spec(text, most, room, font, frames);
        assert forall|k: int| 0 <= k < ls.len() implies (wide(font, frames, #[trigger] ls[k]) <= room
            || ls[k].len() <= 4) && ls[k].len() > 0 && !is_white(ls[k][0]) && !is_white(ls[k].last()) by {
            assert(ls[k] == cut_tail(m[k], room, font, frames));
            lemma_cut_tail(m[k], room, font, frames);
            lemma_cut_tail_edges(m[k], room, font, frames);
        }
    }
}

/// **Nothing is lost, cut or added when it fits**: where every word fits the
/// room and packing the words greedily takes no more lines than there are,
/// the lines are that packing, and put back together with a space between
/// each they are the words of the sentence put back together the same way.
pub proof fn nothing_is_lost_when_it_fits(text: Seq<char>, most: int, room: int, font: Font, frames: Seq<u16>)
    requires
        most >= 0,
        forall|k: int| 0 <= k < words_of(text).len() ==> wide(font, frames, #[trigger] words_of(text)[k]) <= room,
        greedy_count(words_of(text), room, font, frames) <= most,
    ensures
        wrap_spec(text, most, room, font, frames) == filled(text, 0, room, font, frames),
        join_all(wrap_spec(text, most, room, font, frames)) == join_all(words_of(text)),
{
    let ws = words_of(text);
    lemma_words_of(text);
    lemma_no_limit(ws, room, font, frames);
    lemma_fill_join(ws, 0, room, font, frames);
    let (lines, line, dropped) = fill(ws, 0, room, font, frames);
    if ws.len() == 0 {
        assert(filled(text, 0, room, font, frames) =~= Seq::<Seq<char>>::empty());
        assert(join_all(Seq::<Seq<char>>::empty()) == Seq::<char>::empty());
        assert(wrap_spec(text, most, room, font, frames) =~= Seq::<Seq<char>>::empty());
    } else {
        assert(most >= 1);
        lemma_limit_unreached(ws, most, room, font, frames);
        lemma_fill_fits_all(ws, 0, room, font, frames);
        let all = lines.push(line);
        assert(filled(text, most, room, font, frames) == all);
        assert(marked(all, false) == all);
        assert forall|k: int| 0 <= k < all.len() implies cut_tail(#[trigger] all[k], room, font, frames) == all[k] by {
            if k < lines.len() {
                assert(all[k] == lines[k]);
            }
            assert(wide(font, frames, all[k]) <= room);
        }
        assert(cut_all(all, room, font, frames) =~= all);
    }
}

/// The lobby's own vertical rhythm, measured from here; the columns are the
/// title's.
pub const LOBBY_TOP: i32 = 84;
/// The drop from the heading to the first line under it.
pub const LOBBY_HEAD: i32 = 18;
/// One line, whether it is a roster entry or a row.
pub const LOBBY_STEP: i32 = 13;
/// The gap between the roster and the rows, so the two blocks read as two.
pub const LOBBY_GAP: i32 = 8;
/// As high as the block will ever go, which is clear of the wordmark: the
/// wordmark is 54 rows blitted at y 10, so it ends at 64.
pub const LOBBY_MIN_TOP: i32 = 86;
/// Where the note's last line sits, and the floor every other line is kept
/// above.
pub const LOBBY_NOTE_Y: i32 = 190;
/// How many lines a note may take, and the step between them: two is what
/// fits between the last row and the bottom of the screen.
pub const LOBBY_NOTE_LINES: usize = 2;
pub const LOBBY_NOTE_STEP: i32 = 8;
/// The right edge everything secondary is set against.
pub const ROSTER_RIGHT: i32 = 300;

/// Where the lobby's lines go.
#[derive(Clone, Copy, Debug, PartialEq, Eq, Structural)]
pub struct LobbyLayout {
    /// The note's first line.
    pub note_top: i32,
    /// The lowest a roster line or a row may start: a line and two pixels
    /// above the note, so a descender does not sit on it.
    pub floor: i32,
    /// Where the first roster line, or the first row, starts; the heading is
    /// [`LOBBY_HEAD`] above it.
    pub top: i32,
    /// What is left of the gap between the roster and the rows.
    pub gap: i32,
}

/// The note's first line, for a note of `n` lines.
pub open spec fn note_top_spec(n: int) -> int {
    LOBBY_NOTE_Y - ((if n < 1 { 1 } else { n }) - 1) * LOBBY_NOTE_STEP
}

/// The floor, for a note of `n` lines.
pub open spec fn floor_spec(n: int) -> int {
    note_top_spec(n) - LOBBY_STEP - 2
}

/// How far the last line starts below the first, for this many roster
/// lines and rows.
pub open spec fn span_spec(roster: int, rows: int) -> int {
    (if roster + rows - 1 < 0 { 0 } else { roster + rows - 1 }) * LOBBY_STEP
}

/// The gap, given up first when the block is taller than the room.
pub open spec fn gap_spec(n: int, roster: int, rows: int) -> int {
    let gap: int = if roster > 0 { LOBBY_GAP as int } else { 0 };
    let short = LOBBY_MIN_TOP - (floor_spec(n) - span_spec(roster, rows) - gap);
    if short > 0 {
        if gap - short < 0 { 0 } else { gap - short }
    } else {
        gap
    }
}

/// The top: as low as the block can sit over the floor, but never above the
/// least top nor below the title's own line.
pub open spec fn top_spec(n: int, roster: int, rows: int) -> int {
    let want = floor_spec(n) - span_spec(roster, rows) - gap_spec(n, roster, rows);
    if want < LOBBY_MIN_TOP {
        LOBBY_MIN_TOP as int
    } else if want > LOBBY_TOP + LOBBY_HEAD {
        (LOBBY_TOP + LOBBY_HEAD) as int
    } else {
        want
    }
}

/// Whether the layout's arithmetic stays in an `i32`, as it has to.
pub open spec fn lobby_fits(n: int, roster: int, rows: int) -> bool {
    &&& n <= i32::MAX
    &&& ((if n < 1 { 1 } else { n }) - 1) * LOBBY_NOTE_STEP <= i32::MAX
    &&& roster + rows <= i32::MAX
    &&& span_spec(roster, rows) <= i32::MAX
    &&& LOBBY_MIN_TOP - (floor_spec(n) - span_spec(roster, rows) - LOBBY_GAP) <= i32::MAX
}

/// `draw_online`'s layout: the note wrapped to `note_lines` lines at the
/// bottom, `roster_lines` people above `row_lines` rows. A lobby with four
/// people and a note of two lines is taller than the room under the
/// wordmark, so the block slides up rather than losing its last row, giving
/// up the gap between the roster and the rows before anything else.
pub fn lobby_layout(note_lines: usize, roster_lines: usize, row_lines: usize) -> (l: LobbyLayout)
    requires
        lobby_fits(note_lines as int, roster_lines as int, row_lines as int),
    ensures
        l.note_top == note_top_spec(note_lines as int),
        l.floor == floor_spec(note_lines as int),
        l.gap == gap_spec(note_lines as int, roster_lines as int, row_lines as int),
        l.top == top_spec(note_lines as int, roster_lines as int, row_lines as int),
{
    let n: i32 = if note_lines < 1 { 1 } else { note_lines as i32 };
    let note_top: i32 = LOBBY_NOTE_Y - (n - 1) * LOBBY_NOTE_STEP;
    let floor: i32 = note_top - LOBBY_STEP - 2;
    let sum: i32 = roster_lines as i32 + row_lines as i32;
    let lines: i32 = if sum - 1 < 0 { 0 } else { (sum - 1) * LOBBY_STEP };
    let mut gap: i32 = if roster_lines > 0 { LOBBY_GAP } else { 0 };
    let short: i32 = LOBBY_MIN_TOP - (floor - lines - gap);
    if short > 0 {
        gap = if gap - short < 0 { 0 } else { gap - short };
    }
    let want: i32 = floor - lines - gap;
    let top: i32 = if want < LOBBY_MIN_TOP {
        LOBBY_MIN_TOP
    } else if want > LOBBY_TOP + LOBBY_HEAD {
        LOBBY_TOP + LOBBY_HEAD
    } else {
        want
    };
    LobbyLayout { note_top, floor, top, gap }
}

/// **The lobby never reaches the wordmark**: its top is never above the
/// least top, nor below the title's own line, and the gap is only ever
/// given up, never grown.
pub proof fn the_lobby_clears_the_wordmark(n: int, roster: int, rows: int)
    requires
        n >= 0,
        roster >= 0,
        rows >= 0,
    ensures
        LOBBY_MIN_TOP <= top_spec(n, roster, rows) <= LOBBY_TOP + LOBBY_HEAD,
        0 <= gap_spec(n, roster, rows) <= (if roster > 0 { LOBBY_GAP } else { 0 }),
        top_spec(n, roster, rows) - LOBBY_HEAD > 64,
{
}

/// **The gap is given up before a row**: whenever the roster and the rows
/// fit between the least top and the floor without the gap, the last of
/// them still starts above the floor; and whenever they fit with it, the
/// gap is kept whole.
pub proof fn the_gap_goes_before_a_row(n: int, roster: int, rows: int)
    requires
        n >= 0,
        roster >= 0,
        rows >= 0,
        floor_spec(n) - span_spec(roster, rows) >= LOBBY_MIN_TOP,
    ensures
        top_spec(n, roster, rows) + span_spec(roster, rows) + gap_spec(n, roster, rows) <= floor_spec(n),
        floor_spec(n) - span_spec(roster, rows) - (if roster > 0 { LOBBY_GAP } else { 0 }) >= LOBBY_MIN_TOP
            ==> gap_spec(n, roster, rows) == (if roster > 0 { LOBBY_GAP } else { 0 }),
{
}

/// The row the arrow stands against: the chosen one, or the last when the
/// choice has run past the end, or the first of none.
pub fn arrow_row(chosen: usize, rows: usize) -> (r: usize)
    ensures
        r == if rows == 0 {
            0
        } else if chosen < rows {
            chosen as int
        } else {
            rows - 1
        },
{
    let last: usize = if rows == 0 { 0 } else { rows - 1 };
    if chosen < last { chosen } else { last }
}

} // verus!
