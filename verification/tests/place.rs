use henge_desktop::place::{menu_rects, wrap, MENU_STEP};
use henge_desktop::text::Font;

fn font() -> (Font, Vec<u16>) {
    // Every letter is four pixels and a pixel of tracking; a space is two.
    (Font::new("bank.small", "ABCDEFGHIJKLMNOPQRSTUVWXYZ", 2, 1, 8), vec![4; 26])
}

#[test]
fn a_description_is_broken_on_spaces_to_its_width() {
    let (f, frames) = font();
    // "AB CD" is 5 + 5 + 2 + 5 + 5 = 22 wide.
    assert_eq!(wrap(&f, &frames, "AB CD EF", 22), vec!["AB CD".to_string(), "EF".to_string()]);
    assert_eq!(wrap(&f, &frames, "AB CD EF", 21), vec!["AB".to_string(), "CD".to_string(), "EF".to_string()]);
    assert_eq!(wrap(&f, &frames, "  AB   CD  ", 100), vec!["AB CD".to_string()]);
}

#[test]
fn a_word_too_wide_for_any_line_is_kept_whole() {
    let (f, frames) = font();
    assert_eq!(wrap(&f, &frames, "ABCDEFGH IJ", 12), vec!["ABCDEFGH".to_string(), "IJ".to_string()]);
    assert!(wrap(&f, &frames, "", 12).is_empty());
    assert!(wrap(&f, &frames, "   ", 12).is_empty());
}

#[test]
fn a_menus_rows_are_a_step_apart_under_its_heading() {
    let rows = menu_rects(None, [40, 30, 120, 80], 3);
    assert_eq!(rows, vec![(0, 42, 46, 116, MENU_STEP), (1, 42, 55, 116, MENU_STEP), (2, 42, 64, 116, MENU_STEP)]);
    assert!(menu_rects(None, [0, 0, 10, 10], 0).is_empty());
}

#[test]
fn a_towns_own_boxes_are_its_rows() {
    let boxes = vec![[1, 2, 3, 4], [5, 6, 7, 8]];
    assert_eq!(menu_rects(Some(&boxes), [40, 30, 120, 80], 9), vec![(0, 1, 2, 3, 4), (1, 5, 6, 7, 8)]);
}
