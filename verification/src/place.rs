//! The places' words: a description set to the width of its panel, and
//! where a place's menu rows are.

use vstd::prelude::*;
use crate::chars::{lemma_words_of, words_of};
use crate::shell::{fill, fill_lines, filled, join_all, lemma_fill_fits, lemma_fill_join, lemma_no_limit, strings_of, wide};
use crate::text::Font;

verus! {

/// A greedy word wrap, as a place's description is set: a word goes on the
/// line if the line still fits with it, or if the line is empty, so a word
/// too wide for any line is kept whole. There is no limit on lines, and
/// nothing is cut.
pub fn wrap(font: &Font, frames: &[u16], text: &str, width: i32) -> (lines: Vec<String>)
    ensures
        lines@.map_values(|s: String| s@) == filled(text@, 0, width as int, *font, frames@),
{
    let (lines, _dropped) = fill_lines(text, 0, width, font, frames);
    strings_of(&lines)
}

/// **A description loses no word**: its lines, put back together with a
/// space between each, are its words put back together the same way.
pub proof fn a_description_loses_no_word(text: Seq<char>, width: int, font: Font, frames: Seq<u16>)
    ensures
        join_all(filled(text, 0, width, font, frames)) == join_all(words_of(text)),
{
    let ws = words_of(text);
    lemma_words_of(text);
    lemma_no_limit(ws, width, font, frames);
    lemma_fill_join(ws, 0, width, font, frames);
    if ws.len() == 0 {
        assert(join_all(Seq::<Seq<char>>::empty()) == Seq::<char>::empty());
    }
}

/// **Every line of a description fits its panel, but for a word too wide
/// for any line**, which has a line of its own.
pub proof fn every_description_line_fits(text: Seq<char>, width: int, font: Font, frames: Seq<u16>)
    ensures
        forall|k: int|
            0 <= k < filled(text, 0, width, font, frames).len() ==> wide(
                font,
                frames,
                #[trigger] filled(text, 0, width, font, frames)[k],
            ) <= width || !filled(text, 0, width, font, frames)[k].contains(' '),
{
    let ws = words_of(text);
    lemma_words_of(text);
    lemma_fill_fits(ws, 0, width, font, frames);
    let (lines, line, dropped) = fill(ws, 0, width, font, frames);
    if line.len() > 0 {
        assert forall|k: int| 0 <= k < lines.push(line).len() implies wide(font, frames, #[trigger] lines.push(line)[k])
            <= width || !lines.push(line)[k].contains(' ') by {
            if k < lines.len() {
                assert(lines.push(line)[k] == lines[k]);
            }
        }
    }
}


/// The gap inside a menu's frame.
pub const MENU_PAD: i32 = 5;

/// One menu row.
pub const MENU_STEP: i32 = 9;

/// Where a menu's rows are, as boxes a pointer can be over, as values: a
/// town's own boxes where it has them, and otherwise one row a step apart
/// under the menu's heading, inset from its frame.
pub open spec fn menu_rects_spec(boxes: Option<Seq<[i32; 4]>>, menu: [i32; 4], options: nat) -> Seq<(usize, i32, i32, i32, i32)> {
    match boxes {
        Some(b) => Seq::new(b.len(), |i: int| (i as usize, b[i][0], b[i][1], b[i][2], b[i][3])),
        None => Seq::new(
            options,
            |i: int|
                (
                    i as usize,
                    (menu[0] + 2) as i32,
                    (menu[1] + MENU_PAD + MENU_STEP + 4 + i * MENU_STEP - 2) as i32,
                    (menu[2] - 4) as i32,
                    MENU_STEP,
                ),
        ),
    }
}

/// Whether a menu's rows are all `i32` boxes.
pub open spec fn menu_fits(menu: [i32; 4], options: nat) -> bool {
    &&& menu[0] + 2 <= i32::MAX
    &&& menu[2] - 4 >= i32::MIN
    &&& options * MENU_STEP <= i32::MAX
    &&& menu[1] + MENU_PAD + MENU_STEP + 4 + options * MENU_STEP <= i32::MAX
}

/// Where a menu's rows are, as boxes a pointer can be over: `(row, x, y, w,
/// h)`. The same arithmetic the menu is drawn with, so a row can never be
/// highlighted in one and hit in the other.
pub fn menu_rects(boxes: Option<&Vec<[i32; 4]>>, menu: [i32; 4], options: usize) -> (r: Vec<(usize, i32, i32, i32, i32)>)
    requires
        boxes is None ==> menu_fits(menu, options as nat),
    ensures
        r@ == menu_rects_spec(
            match boxes {
                Some(b) => Some(b@),
                None => None,
            },
            menu,
            options as nat,
        ),
{
    let mut r: Vec<(usize, i32, i32, i32, i32)> = Vec::new();
    match boxes {
        Some(b) => {
            let ghost want = menu_rects_spec(Some(b@), menu, options as nat);
            let mut i: usize = 0;
            while i < b.len()
                invariant
                    i <= b@.len(),
                    want == menu_rects_spec(Some(b@), menu, options as nat),
                    r@ == want.take(i as int),
                decreases b@.len() - i,
            {
                let bx = b[i];
                r.push((i, bx[0], bx[1], bx[2], bx[3]));
                proof {
                    assert(want.take(i as int + 1) =~= want.take(i as int).push(want[i as int]));
                }
                i = i + 1;
            }
            proof {
                assert(want.take(i as int) =~= want);
            }
        },
        None => {
            let ghost want = menu_rects_spec(None, menu, options as nat);
            let top: i32 = menu[1] + MENU_PAD + MENU_STEP + 4;
            let mut i: usize = 0;
            while i < options
                invariant
                    i <= options,
                    menu_fits(menu, options as nat),
                    top == menu[1] + MENU_PAD + MENU_STEP + 4,
                    want == menu_rects_spec(None, menu, options as nat),
                    r@ == want.take(i as int),
                decreases options - i,
            {
                proof {
                    assert(i * MENU_STEP <= options * MENU_STEP) by (nonlinear_arith)
                        requires
                            i <= options,
                    ;
                    assert(i <= i32::MAX) by (nonlinear_arith)
                        requires
                            i * MENU_STEP <= i32::MAX,
                            MENU_STEP == 9,
                    ;
                }
                let y: i32 = top + (i as i32) * MENU_STEP - 2;
                r.push((i, menu[0] + 2, y, menu[2] - 4, MENU_STEP));
                proof {
                    assert(want.take(i as int + 1) =~= want.take(i as int).push(want[i as int]));
                }
                i = i + 1;
            }
            proof {
                assert(want.take(i as int) =~= want);
            }
        },
    }
    r
}

} // verus!
