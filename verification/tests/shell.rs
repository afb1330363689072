use henge_desktop::shell::{
    arrow_row, lobby_layout, tick_cel, wrap_to, LobbyLayout, LOBBY_GAP, LOBBY_HEAD, LOBBY_MIN_TOP, LOBBY_NOTE_Y, LOBBY_STEP,
    LOBBY_TOP, TICK_FACE, TICK_H, TICK_OUTLINE, TICK_W,
};
use henge_desktop::text::Font;

/// A note given no lines has none, and a word too wide for the screen is cut
/// with a tail wherever it stands, not only on the last line.
#[test]
fn every_line_is_cut_to_the_screen_and_none_past_the_limit() {
    let (font, frames) = six_font();
    assert!(wrap_to("A", 0, 60, &font, &frames).is_empty());
    assert!(wrap_to("ONE TWO", 0, 60, &font, &frames).is_empty());
    let lines = wrap_to("AAAAA A", 2, 24, &font, &frames);
    assert_eq!(lines, vec!["A...".to_string(), "A".to_string()]);
    assert!(lines.iter().all(|l| six(l) <= 24));
    let lines = wrap_to("SUPERCALIFRAGILISTIC ADDRESS HERE", 3, 60, &font, &frames);
    assert!(lines.iter().all(|l| six(l) <= 60), "{lines:?}");
    assert!(lines[0].ends_with("..."), "{lines:?}");
}

/// The tick is drawn in the bold face's own two inks, and every face pixel
/// is surrounded, so it reads on the title plate rather than only against it.
#[test]
fn the_tick_is_the_face_inside_its_own_outline() {
    let (cel, w, h) = tick_cel();
    assert_eq!((w, h), (TICK_W + 2, TICK_H + 2));
    assert!(cel.contains(&TICK_FACE), "it has a face");
    assert!(cel.contains(&TICK_OUTLINE), "and an outline");
    assert!(
        cel.iter().all(|p| *p == 0 || *p == TICK_FACE || *p == TICK_OUTLINE),
        "and nothing else: a third ink would not be the lettering's"
    );
    for y in 0..h {
        for x in 0..w {
            if cel[y * w + x] != TICK_FACE {
                continue;
            }
            assert!(
                y > 0 && y + 1 < h && x > 0 && x + 1 < w,
                "the face touches the edge at {x},{y} and would be drawn unoutlined"
            );
            for (dy, dx) in [(-1i32, -1i32), (-1, 0), (-1, 1), (0, -1), (0, 1), (1, -1), (1, 0), (1, 1)] {
                let n = cel[(y as i32 + dy) as usize * w + (x as i32 + dx) as usize];
                assert_ne!(n, 0, "a gap beside the face at {x},{y}");
            }
        }
    }
}

#[test]
fn the_tick_is_the_art_one_pixel_in() {
    let (cel, w, _) = tick_cel();
    // The art's top right corner is ink, at row one, column nine.
    assert_eq!(cel[1 * w + 9], TICK_FACE);
    // And its top left is not, nor anything it touches.
    assert_eq!(cel[1 * w + 1], 0);
    assert_eq!(cel[0], 0);
    // The corner of the cel beside the top right ink is outline.
    assert_eq!(cel[0 * w + 10], TICK_OUTLINE);
}

/// Six pixels a character, which is near enough the small face and is a
/// number a reader of the test can do in their head: every glyph five wide
/// with one of tracking, and a space of six.
fn six_font() -> (Font, Vec<u16>) {
    let glyphs = "ABCDEFGHIJKLMNOPQRSTUVWXYZ0123456789.,!?";
    (Font::new("small", glyphs, 6, 1, 8), vec![5; glyphs.chars().count()])
}

fn six(s: &str) -> i32 {
    s.chars().count() as i32 * 6
}

/// A note is broken between words and keeps its whole meaning when it fits.
#[test]
fn a_note_is_broken_between_words_and_not_through_them() {
    let (font, frames) = six_font();
    let long = "YOUR ROUTER WOULD NOT OPEN THE PORT, SO THE GAME IS BEING CARRIED BY THE LIST SERVER";
    let lines = wrap_to(long, 2, 312, &font, &frames);
    assert_eq!(lines.len(), 2);
    assert!(lines.iter().all(|l| six(l) <= 312), "{lines:?}");
    assert!(!lines.iter().any(|l| l.ends_with(' ') || l.starts_with(' ')));
    // Nothing was lost: put back together it is the sentence that went in.
    assert_eq!(lines.join(" "), long);
    // A short one stays one line and is not padded out to two.
    assert_eq!(wrap_to("IN SEAT 2", 2, 312, &font, &frames), vec!["IN SEAT 2"]);
}

/// What will not fit in the lines there are loses its tail and says so, and
/// so does a single word wider than the screen.
#[test]
fn a_note_too_long_for_its_lines_is_cut_with_a_tail() {
    let (font, frames) = six_font();
    let lines = wrap_to("ONE TWO THREE FOUR FIVE SIX SEVEN", 1, 60, &font, &frames);
    assert_eq!(lines.len(), 1);
    assert!(lines[0].ends_with("..."), "{lines:?}");
    assert!(six(&lines[0]) <= 60);
    let one = wrap_to("SUPERCALIFRAGILISTIC", 2, 60, &font, &frames);
    assert!(one.last().unwrap().ends_with("..."), "{one:?}");
    assert!(one.iter().all(|l| six(l) <= 60), "{one:?}");
}

#[test]
fn white_space_between_words_is_one_space_and_nothing_is_a_line() {
    let (font, frames) = six_font();
    assert_eq!(wrap_to("  A \t\n  B  ", 3, 312, &font, &frames), vec!["A B"]);
    assert!(wrap_to("   ", 3, 312, &font, &frames).is_empty());
    // Two lines of room, three words that each fill one.
    assert_eq!(wrap_to("AAAA BBBB CCCC", 2, 30, &font, &frames), vec!["AAAA", "BB..."]);
}

#[test]
fn a_full_lobby_gives_up_its_gap_before_a_row() {
    let l = lobby_layout(2, 4, 3);
    assert_eq!(l, LobbyLayout { note_top: 182, floor: 167, top: 86, gap: 3 });
    // The last row still starts above the floor.
    assert!(l.top + 6 * LOBBY_STEP + l.gap <= l.floor);
}

#[test]
fn a_short_page_sits_at_the_titles_own_line() {
    let l = lobby_layout(0, 0, 4);
    assert_eq!(l, LobbyLayout { note_top: LOBBY_NOTE_Y, floor: 175, top: LOBBY_TOP + LOBBY_HEAD, gap: 0 });
    let m = lobby_layout(1, 2, 4);
    assert_eq!(m.gap, LOBBY_GAP, "room enough keeps the gap whole");
    assert_eq!(m.top, 175 - 5 * LOBBY_STEP - LOBBY_GAP);
}

#[test]
fn a_block_too_tall_for_the_room_stops_at_the_least_top() {
    let l = lobby_layout(2, 4, 9);
    assert_eq!(l.top, LOBBY_MIN_TOP);
    assert_eq!(l.gap, 0);
}

#[test]
fn the_arrow_stays_on_a_row() {
    assert_eq!(arrow_row(2, 5), 2);
    assert_eq!(arrow_row(7, 5), 4);
    assert_eq!(arrow_row(3, 0), 0);
}
