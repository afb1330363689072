use henge_desktop::sprite::{cut_frame, draw, Frame};
use henge_desktop::text::{frame_widths, Font};
use henge_desktop::town::Picture;
use henge_desktop::framebuffer::Framebuffer;

#[test]
fn a_line_is_as_wide_as_its_glyphs_and_spaces() {
    let f = Font::new("bank.bold", "AB /", 4, 1, 9);
    let frames = [5u16, 6, 3, 2];
    assert_eq!(f.width(&frames, "AB"), (5 + 1) + (6 + 1));
    assert_eq!(f.width(&frames, "A B"), 6 + 4 + 7, "a space is the space width");
    assert_eq!(f.width(&frames, "AZ"), 6, "a character with no glyph is nothing");
    assert_eq!(f.width(&frames, "_"), 3 + 1, "the underscore is the space's glyph");
    assert_eq!(f.width(&frames, "\\"), 2 + 1, "the caret is the slash's glyph");
    assert_eq!(f.width(&[5u16], "B"), 0, "a glyph with no frame is nothing");
    assert_eq!(f.sheet(), "bank.bold");
    assert_eq!(f.line_height(), 9);
}

#[test]
fn a_frame_is_lifted_row_by_row() {
    // A 4x3 sheet.
    let sheet: Vec<u8> = (0..12).collect();
    let c = cut_frame(&sheet, 4, 1, 1, 2, 2);
    assert_eq!((c.w, c.h), (2, 2));
    assert_eq!(c.pixels, vec![5, 6, 9, 10]);
    // A frame whose rows run past the sheet's end is blank there.
    let d = cut_frame(&sheet, 4, 2, 2, 2, 2);
    assert_eq!(d.pixels, vec![10, 11, 0, 0]);
}

#[test]
fn only_a_full_screen_is_a_picture() {
    assert!(Picture::new(vec![1, 2], 320, 100, vec![0; 32000]).is_none());
    assert!(Picture::new(vec![1, 2], 320, 200, vec![0; 10]).is_none());
    let p = Picture::new(vec![1, 2], 320, 200, vec![3; 64000]).expect("a full screen");
    let mut fb = Framebuffer::default();
    p.show(&mut fb);
    assert!(fb.pixels.iter().all(|&v| v == 3));
    assert_eq!(&fb.palette[..3], &[1, 2, 0]);
}

/// A two-glyph sheet, four pixels wide and two high: `A` is a 2x2 block of
/// 7s with one hole, `B` a 1x2 column of 3s.
fn sheet() -> (Font, Vec<Frame>, Vec<u8>) {
    let f = Font::new("bank.small", "AB", 3, 1, 2);
    let frames = vec![Frame { x: 0, y: 0, w: 2, h: 2 }, Frame { x: 2, y: 0, w: 1, h: 2 }];
    let image = vec![7, 7, 3, 0, 7, 0, 3, 0];
    (f, frames, image)
}

#[test]
fn a_line_is_drawn_glyph_by_glyph_and_says_how_wide_it_was() {
    let (f, frames, image) = sheet();
    let mut fb = Framebuffer::default();
    let w = f.draw_own(&mut fb, &frames, &image, 4, "A B", 10, 20);
    assert_eq!(w, (2 + 1) + 3 + (1 + 1));
    assert_eq!(w, f.width(&frame_widths(&frames), "A B"));
    let at = |x: usize, y: usize| fb.pixels[y * 320 + x];
    assert_eq!((at(10, 20), at(11, 20), at(10, 21), at(11, 21)), (7, 7, 7, 0));
    assert_eq!((at(16, 20), at(16, 21)), (3, 3), "B starts after A, its tracking and the space");
    assert_eq!(at(12, 20), 0);
}

#[test]
fn a_silhouette_puts_one_colour_down_and_keeps_the_holes() {
    let (f, frames, image) = sheet();
    let mut fb = Framebuffer::default();
    fb.clear(9);
    f.draw(&mut fb, &frames, &image, 4, "AZA", 0, 0, 4);
    let at = |x: usize, y: usize| fb.pixels[y * 320 + x];
    assert_eq!((at(0, 0), at(1, 1)), (4, 9));
    assert_eq!(at(3, 0), 4, "Z has no glyph and takes no room");
}

#[test]
fn a_centred_line_is_centred() {
    let (f, frames, image) = sheet();
    let mut fb = Framebuffer::default();
    f.draw_own_centred(&mut fb, &frames, &image, 4, "AA", 50);
    // Six pixels wide, so it starts at (320 - 6) / 2.
    assert_eq!(fb.pixels[50 * 320 + 157], 7);
    assert_eq!(fb.pixels[50 * 320 + 156], 0);
    let mut g = Framebuffer::default();
    f.draw_centred(&mut g, &frames, &image, 4, "B", 0, 5);
    assert_eq!(g.pixels[159], 5, "(320 - 2) / 2");
}

#[test]
fn a_sprite_is_drawn_in_its_own_colours_and_can_be_mirrored() {
    let (_, frames, image) = sheet();
    let mut fb = Framebuffer::default();
    draw(&mut fb, &frames, &image, 4, 0, 5, 5, true);
    assert_eq!(fb.pixels[6 * 320 + 5], 0, "the hole, mirrored to the left");
    assert_eq!(fb.pixels[6 * 320 + 6], 7);
    draw(&mut fb, &frames, &image, 4, 9, 0, 0, false);
    assert_eq!(fb.pixels[0], 0, "a frame the sheet lacks draws nothing");
}
