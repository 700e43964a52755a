use pi_dashboard::config::{ACCENT, BG, H, PANEL, ROW_STRIPE, W};
use pi_dashboard::fb::{Framebuffer, Rect};
use pi_dashboard::pages::detail_common::{clear_value_strip, draw_detail_frame};
use pi_dashboard::pages::monitor::{draw_docker_grid, draw_monitor_base};
use pi_dashboard::render::rgb888_to_rgb565;

fn px(fb: &Framebuffer, x: usize, y: usize) -> u16 {
    fb.buffer()[y * W + x]
}

#[test]
fn detail_frame_layers() {
    let mut fb = Framebuffer::headless();
    draw_detail_frame(&mut fb);
    assert_eq!(px(&fb, 0, 0), rgb888_to_rgb565(PANEL));
    assert_eq!(px(&fb, 479, 27), rgb888_to_rgb565(PANEL));
    assert_eq!(px(&fb, 200, 28), rgb888_to_rgb565(ACCENT));
    assert_eq!(px(&fb, 200, 29), rgb888_to_rgb565(BG));
    assert_eq!(px(&fb, 479, 319), rgb888_to_rgb565(BG));
    assert!(!fb.dirty_rects().is_empty());
}

#[test]
fn value_strip_cleared_and_marked() {
    let mut fb = Framebuffer::headless();
    clear_value_strip(&mut fb, false);
    assert_eq!(fb.dirty_rects().last(), Some(&Rect::new(240, 36, 480, 64)));
    assert_eq!(px(&fb, 240, 36), rgb888_to_rgb565(BG));
    assert_eq!(px(&fb, 239, 36), 0);
    assert_eq!(px(&fb, 300, 64), 0);
    fb.clear_dirty();
    // Already clear: the strip is still reported dirty.
    clear_value_strip(&mut fb, false);
    assert_eq!(fb.dirty_rects(), &[Rect::new(240, 36, 480, 64)]);
    clear_value_strip(&mut fb, true);
    assert_eq!(px(&fb, 0, 63), rgb888_to_rgb565(BG));
}

#[test]
fn monitor_base_and_grid() {
    let mut fb = Framebuffer::headless();
    draw_monitor_base(&mut fb);
    assert_eq!(px(&fb, 10, 31), rgb888_to_rgb565(PANEL));
    assert_eq!(px(&fb, 10, 32), rgb888_to_rgb565(BG));
    draw_docker_grid(&mut fb);
    // Underline under the list header.
    assert_eq!(px(&fb, 12, 172), rgb888_to_rgb565(ACCENT));
    assert_eq!(px(&fb, 467, 172), rgb888_to_rgb565(ACCENT));
    assert_eq!(px(&fb, 468, 172), rgb888_to_rgb565(BG));
    // First row plain, second row striped up to x = 456.
    assert_eq!(px(&fb, 100, 176), rgb888_to_rgb565(BG));
    assert_eq!(px(&fb, 100, 190), rgb888_to_rgb565(ROW_STRIPE));
    assert_eq!(px(&fb, 455, 203), rgb888_to_rgb565(ROW_STRIPE));
    assert_eq!(px(&fb, 456, 203), rgb888_to_rgb565(BG));
    assert_eq!(px(&fb, 100, 204), rgb888_to_rgb565(BG));
    // Eighth row striped, nothing after the list.
    assert_eq!(px(&fb, 100, 274), rgb888_to_rgb565(ROW_STRIPE));
    assert_eq!(px(&fb, 100, 288), rgb888_to_rgb565(BG));
    // Footer panel.
    assert_eq!(px(&fb, 0, H - 20), rgb888_to_rgb565(PANEL));
    assert_eq!(px(&fb, 0, H - 21), rgb888_to_rgb565(BG));
}
