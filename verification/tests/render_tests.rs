use pi_dashboard::config::{H, W};
use pi_dashboard::fb::{Framebuffer, Rect};
use pi_dashboard::render::{
    blend_bitmap, blend_over_rgb565, blend_rgb888, draw_line, draw_line_h, fill_rect,
    fill_row_span, rgb565_to_rgb888, rgb888_to_rgb565,
};

fn setup() -> Framebuffer {
    Framebuffer::headless()
}

#[test]
fn bresenham_line_marks_dirty() {
    let mut fb = setup();
    draw_line(&mut fb, 10, 10, 30, 20, 0xffffff);
    let r = fb.dirty_rects();
    assert!(!r.is_empty());
    let union = r.iter().fold(r[0], |a, b| a.union(b));
    assert!(union.width() >= 20);
    assert!(union.height() >= 10);
}

#[test]
fn bresenham_line_zero_length_no_dirty() {
    let mut fb = setup();
    draw_line(&mut fb, 10, 10, 10, 10, 0xffffff);
    assert!(fb.dirty_rects().is_empty());
}

#[test]
fn line_endpoints_are_drawn() {
    let mut fb = setup();
    draw_line(&mut fb, 10, 10, 30, 20, 0xffffff);
    assert_eq!(fb.buffer()[10 * W + 10], 0xffff);
    assert_eq!(fb.buffer()[20 * W + 30], 0xffff);
}

#[test]
fn colour_conversions() {
    assert_eq!(rgb888_to_rgb565(0xffffff), 0xffff);
    assert_eq!(rgb888_to_rgb565(0xff0000), 0xf800);
    assert_eq!(rgb888_to_rgb565(0x3fb950), 0x3dca);
    assert_eq!(rgb565_to_rgb888(0xf800), 0xff0000);
    assert_eq!(rgb565_to_rgb888(0x001f), 0x0000ff);
    for p in [0u16, 1, 0x1234, 0x8000, 0xffff, 0x3dca] {
        assert_eq!(rgb888_to_rgb565(rgb565_to_rgb888(p)), p);
    }
}

#[test]
fn blending() {
    assert_eq!(blend_rgb888(0x000000, 0xffffff, 0), 0x000000);
    assert_eq!(blend_rgb888(0x000000, 0xffffff, 255), 0xffffff);
    assert_eq!(blend_rgb888(0x000000, 0xff0000, 128), 0x800000);
    assert_eq!(blend_over_rgb565(0x0000, 0xffffff, 255), 0xffff);
}

#[test]
fn fill_rect_clips_and_marks_changed_box() {
    let mut fb = setup();
    fill_rect(&mut fb, -5, -5, 10, 10, 0xffffff);
    assert_eq!(fb.dirty_rects(), &[Rect::new(0, 0, 5, 5)]);
    assert_eq!(fb.buffer()[4 * W + 4], 0xffff);
    assert_eq!(fb.buffer()[5 * W + 5], 0);
}

#[test]
fn fill_twice_marks_nothing() {
    let mut fb = setup();
    fill_rect(&mut fb, 100, 100, 50, 20, 0x3fb950);
    fb.clear_dirty();
    fill_rect(&mut fb, 100, 100, 50, 20, 0x3fb950);
    assert!(fb.dirty_rects().is_empty());
}

#[test]
fn merged_dirty_joins_overlaps() {
    let mut fb = setup();
    fb.mark_dirty(Rect::new(0, 0, 10, 10));
    fb.mark_dirty(Rect::new(5, 5, 20, 20));
    fb.mark_dirty(Rect::new(100, 100, 110, 110));
    fb.mark_dirty(Rect::new(400, 300, 600, 400));
    let (merged, bytes) = fb.take_merged_dirty();
    assert_eq!(merged, vec![Rect::new(0, 0, 20, 20), Rect::new(100, 100, 110, 110), Rect::new(400, 300, 480, 320)]);
    assert_eq!(bytes, (400 + 100 + 80 * 20) * 2);
    assert!(fb.dirty_rects().is_empty());
}

#[test]
fn clear_marks_everything() {
    let mut fb = setup();
    fb.set_pixel(3, 3, 0x1234);
    fb.clear();
    assert_eq!(fb.buffer()[3 * W + 3], 0);
    assert_eq!(fb.dirty_rects(), &[Rect::new(0, 0, W, H)]);
}

#[test]
fn row_pixels_of_rect() {
    let mut fb = setup();
    fb.set_pixel(2, 1, 0xabcd);
    let row = fb.row_pixels(Rect::new(1, 1, 4, 2), 1);
    assert_eq!(row, vec![0, 0xabcd, 0]);
}

#[test]
fn drawing_off_screen_changes_nothing() {
    let mut fb = setup();
    fill_rect(&mut fb, -50, 10, 20, 10, 0xffffff);
    fill_rect(&mut fb, 10, -50, 10, 20, 0xffffff);
    fill_rect(&mut fb, 600, 10, 10, 10, 0xffffff);
    fill_rect(&mut fb, i32::MAX - 5, i32::MAX - 5, i32::MAX, i32::MAX, 0xffffff);
    fill_rect(&mut fb, i32::MIN, i32::MIN, 10, 10, 0xffffff);
    draw_line_h(&mut fb, -20, -5, 3, 0xffffff);
    draw_line_h(&mut fb, 500, 600, 3, 0xffffff);
    draw_line_h(&mut fb, 0, 10, -1, 0xffffff);
    assert!(fb.dirty_rects().is_empty());
    assert!(fb.buffer().iter().all(|&p| p == 0));
    // Reaching in from off screen fills the visible part only.
    fill_rect(&mut fb, -5, -5, 10, 10, 0xffffff);
    assert_eq!(fb.dirty_rects(), &[Rect::new(0, 0, 5, 5)]);
}

#[test]
fn horizontal_line_and_spans() {
    let mut fb = setup();
    draw_line_h(&mut fb, -3, 5, 7, 0xffffff);
    assert_eq!(fb.dirty_rects(), &[Rect::new(0, 7, 5, 8)]);
    assert!(fill_row_span(&mut fb, 9, 1, 3, 0x0f0f));
    assert!(!fill_row_span(&mut fb, 9, 1, 3, 0x0f0f));
    assert_eq!(fb.buffer()[9 * W + 2], 0x0f0f);
}

#[test]
fn bitmap_blend_skips_offscreen() {
    let mut fb = setup();
    blend_bitmap(&mut fb, -1, 0, 2, 1, &[255, 255], 0xffffff);
    assert_eq!(fb.buffer()[0], 0xffff);
    assert!(fb.dirty_rects().is_empty());
}

#[test]
fn rect_geometry() {
    let mut r = Rect::new(470, 310, 500, 330);
    assert_eq!(r.width(), 30);
    assert_eq!(r.area(), 600);
    r.clamp_to_screen();
    assert_eq!(r, Rect::new(470, 310, 480, 320));
    assert_eq!(Rect::new(5, 5, 2, 2).width(), 0);
    assert_eq!(Rect::new(0, 0, 1, 1).union(&Rect::new(3, 3, 4, 4)), Rect::new(0, 0, 4, 4));
}
