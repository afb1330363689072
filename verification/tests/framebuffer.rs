use henge_desktop::framebuffer::{Framebuffer, SCREEN_H, SCREEN_W};

fn at(fb: &Framebuffer, x: usize, y: usize) -> u8 {
    fb.pixels[y * SCREEN_W + x]
}

#[test]
fn a_new_framebuffer_is_one_black_screen() {
    let fb = Framebuffer::default();
    assert_eq!(fb.pixels.len(), SCREEN_W * SCREEN_H);
    assert!(fb.pixels.iter().all(|&p| p == 0));
    assert_eq!(fb.palette, [0; 32]);
}

#[test]
fn a_short_palette_leaves_the_rest_black_and_a_long_one_is_cut() {
    let mut fb = Framebuffer::default();
    fb.set_palette(&[1, 2, 3]);
    assert_eq!(&fb.palette[..4], &[1, 2, 3, 0]);
    let long: Vec<u32> = (0..40).collect();
    fb.set_palette(&long);
    assert_eq!(fb.palette[31], 31);
}

#[test]
fn clear_fills_every_pixel() {
    let mut fb = Framebuffer::default();
    fb.clear(7);
    assert!(fb.pixels.iter().all(|&p| p == 7));
}

#[test]
fn a_blit_skips_index_zero_and_clips_at_the_edges() {
    let mut fb = Framebuffer::default();
    fb.clear(1);
    // A 2x2 sprite with a hole in its top right.
    let sprite = [4u8, 0, 5, 6];
    fb.blit(&sprite, 2, 2, 10, 20, false);
    assert_eq!(at(&fb, 10, 20), 4);
    assert_eq!(at(&fb, 11, 20), 1, "index 0 leaves what was under it");
    assert_eq!(at(&fb, 10, 21), 5);
    assert_eq!(at(&fb, 11, 21), 6);
    // Mirrored, the columns swap.
    fb.blit(&sprite, 2, 2, 50, 20, true);
    assert_eq!(at(&fb, 50, 20), 1);
    assert_eq!(at(&fb, 51, 20), 4);
    assert_eq!(at(&fb, 50, 21), 6);
    // Half off the left and the bottom: only the part on screen lands.
    fb.blit(&sprite, 2, 2, -1, 199, false);
    assert_eq!(at(&fb, 0, 199), 1, "the top right is the hole");
    assert_eq!(fb.pixels.len(), SCREEN_W * SCREEN_H);
}

#[test]
fn a_lut_blit_recolours_by_the_low_five_bits() {
    let mut fb = Framebuffer::default();
    let mut lut = [0u8; 32];
    lut[3] = 17;
    fb.blit_lut(&[3u8, 0, 0x23, 0], 2, 2, 0, 0, false, &lut);
    assert_eq!(at(&fb, 0, 0), 17);
    assert_eq!(at(&fb, 0, 1), 17, "0x23 has the same low five bits as 3");
    assert_eq!(at(&fb, 1, 0), 0);
}

#[test]
fn a_mask_blit_is_a_silhouette() {
    let mut fb = Framebuffer::default();
    fb.blit_mask(&[9u8, 0, 12, 3], 2, 2, 5, 5, 2);
    assert_eq!(at(&fb, 5, 5), 2);
    assert_eq!(at(&fb, 6, 5), 0);
    assert_eq!(at(&fb, 5, 6), 2);
    assert_eq!(at(&fb, 6, 6), 2);
}

#[test]
fn a_rect_is_clipped_to_the_screen() {
    let mut fb = Framebuffer::default();
    fb.rect(-5, -5, 10, 10, 3);
    assert_eq!(at(&fb, 0, 0), 3);
    assert_eq!(at(&fb, 4, 4), 3);
    assert_eq!(at(&fb, 5, 5), 0);
    fb.rect(318, 198, 10, 10, 4);
    assert_eq!(at(&fb, 319, 199), 4);
    assert_eq!(fb.pixels.iter().filter(|&&p| p == 4).count(), 4);
    fb.rect(100, 100, -3, 5, 9);
    assert!(!fb.pixels.contains(&9), "a negative width is nothing");
}

#[test]
fn presenting_fills_the_viewport_and_blacks_the_letterbox() {
    let mut fb = Framebuffer::default();
    fb.clear(1);
    fb.pixels[0] = 2;
    let mut palette = [0u32; 32];
    palette[1] = 0x112233;
    palette[2] = 0xff0000;
    // A 700x300 window with a 400x300 viewport: 150 pixels of letterbox on
    // either side.
    let mut dst = vec![0xdead_beefu32; 700 * 300 + 5];
    fb.present_into(&mut dst, 700, 300, 400, 300, &palette);
    assert_eq!(dst[0], 0, "the letterbox is black");
    assert_eq!(dst[149], 0);
    assert_eq!(dst[150], 0xff0000, "the top left pixel is stretched over the viewport's corner");
    assert_eq!(dst[151], 0xff0000);
    assert_eq!(dst[152], 0x112233);
    assert_eq!(dst[549], 0x112233);
    assert_eq!(dst[550], 0);
    assert_eq!(dst[700 * 300 + 4], 0, "and what lies past the window is cleared");
    // A window with no area is left as it was.
    let mut untouched = vec![7u32; 4];
    fb.present_into(&mut untouched, 0, 2, 0, 2, &palette);
    assert_eq!(untouched, vec![7; 4]);
}

#[test]
fn the_pointer_lands_where_the_picture_is() {
    assert_eq!(Framebuffer::to_screen(700, 300, 400, 300, 10, 10), None, "in the letterbox");
    assert_eq!(Framebuffer::to_screen(700, 300, 400, 300, 150, 0), Some((0, 0)));
    assert_eq!(Framebuffer::to_screen(700, 300, 400, 300, 549, 299), Some((319, 199)));
    assert_eq!(Framebuffer::to_screen(700, 300, 400, 300, 550, 100), None);
    assert_eq!(Framebuffer::to_screen(0, 300, 0, 300, 1, 1), None);
}
