use pi_dashboard::fb::{Framebuffer, Rect};
use pi_dashboard::label::{erase_box, Align, Bar, Label};
use pi_dashboard::render::fill_rect;
use pi_dashboard::text::{
    baseline_for, glyph_top, ink_rect, overlay_box, top_offset_from_metrics, FontWeight, TextStyle,
};

fn setup() -> Framebuffer {
    Framebuffer::headless()
}

#[test]
fn label_unchanged_zero_dirty() {
    let mut fb = setup();
    let style = TextStyle::new(13, 0xffffff, false);
    let mut label = Label::new(8, 51 + 9, style, Align::Left, 0x0d1117);
    assert!(label.set(&mut fb, "TEMP", Rect::new(8, 51, 40, 61)));
    let dirty_after_first = fb.dirty_rects().len();
    assert!(dirty_after_first > 0);
    fb.clear_dirty();
    assert!(!label.set(&mut fb, "TEMP", Rect::new(8, 51, 40, 61)));
    assert!(fb.dirty_rects().is_empty());
}

#[test]
fn label_change_erases_union() {
    let mut fb = setup();
    let style = TextStyle::new(13, 0xffffff, false);
    let mut label = Label::new(8, 60, style, Align::Left, 0x0d1117);
    label.set(&mut fb, "9%", Rect::new(8, 51, 24, 61));
    // The caller inks the glyphs of "9%" inside their box.
    fill_rect(&mut fb, 8, 53, 15, 7, 0xffffff);
    fb.clear_dirty();
    let wide = Rect::new(8, 51, 36, 61);
    label.set(&mut fb, "63%", wide);
    let r = fb.dirty_rects();
    assert!(!r.is_empty());
    // The reported dirty region(s) must cover at least the wider text
    // (28 pixels of advance here).
    let union = r.iter().fold(r[0], |a, b| a.union(b));
    assert!(union.width() >= 28);
    // Nothing outside the erased union is marked.
    assert!(r.iter().all(|d| d.x1 >= 8 && d.x2 <= 36 && d.y1 >= 51 && d.y2 <= 61));
    assert!(union.height() > 0);
    assert_eq!(label.bbox(), Some(wide));
}

#[test]
fn label_clear_and_force_draw() {
    let mut fb = setup();
    let style = TextStyle::new(11, 0xffffff, false).with_weight(FontWeight::Regular);
    let mut label = Label::new(100, 20, style, Align::Right, 0x161b22);
    assert_eq!(label.draw_x(30), 70);
    label.set(&mut fb, "12:00", Rect::new(70, 10, 100, 21));
    label.clear(&mut fb);
    assert_eq!(label.bbox(), None);
    assert!(label.force_draw(&mut fb, "12:00", Rect::new(70, 10, 100, 21)));
    assert!(!label.force_draw(&mut fb, "", Rect::new(70, 10, 70, 11)));
    label.set_x(120);
    assert_eq!(label.x(), 120);
    label.set_style_color(0xff0000);
    assert_eq!(label.style().color, 0xff0000);
    assert_eq!(label.baseline_y(), 20);
}

#[test]
fn label_centre_alignment() {
    let style = TextStyle::new(11, 0, false);
    let label = Label::new(274, 170, style, Align::Center, 0);
    assert_eq!(label.draw_x(41), 254);
}

#[test]
fn bar_unchanged_zero_dirty() {
    let mut fb = setup();
    let mut bar = Bar::new(52, 54, 130, 9, 0x30363d);
    bar.set(&mut fb, 50, 0x3fb950);
    fb.clear_dirty();
    bar.set(&mut fb, 50, 0x3fb950);
    assert!(fb.dirty_rects().is_empty());
}

#[test]
fn bar_draws_fill_and_track() {
    let mut fb = setup();
    let mut bar = Bar::new(10, 10, 100, 4, 0x30363d);
    bar.set(&mut fb, 50, 0xff0000);
    let buf = fb.buffer();
    assert_eq!(buf[10 * 480 + 10], 0xf800);
    assert_eq!(buf[10 * 480 + 59], 0xf800);
    assert_eq!(buf[10 * 480 + 60], 0x31a7);
    bar.set(&mut fb, 20, 0xff0000);
    assert_eq!(fb.buffer()[11 * 480 + 35], 0x31a7);
    assert_eq!(fb.buffer()[11 * 480 + 29], 0xf800);
    bar.force_draw(&mut fb, 100, 0x00ff00);
    assert_eq!(fb.buffer()[13 * 480 + 109], 0x07e0);
    assert_eq!(bar.fill_width(95), 95);
}

#[test]
fn baseline_is_constant_for_line() {
    let off = top_offset_from_metrics(&[(0, 12), (-3, 14), (1, 9)]);
    assert_eq!(off, 11);
    let base = baseline_for(6, off);
    assert_eq!(baseline_for(6, off), base);
    assert_eq!(baseline_for(10, off) - base, 4);
}

#[test]
fn zero_width_text_no_dirty() {
    assert_eq!(ink_rect(i32::MAX, i32::MIN, i32::MAX, i32::MIN), None);
    assert_eq!(ink_rect(-3, 500, 10, 20), Some(Rect::new(0, 10, 480, 20)));
}

#[test]
fn glyph_and_erase_boxes() {
    assert_eq!(glyph_top(60, -2, 10), 53);
    assert_eq!(erase_box(8, 60, 0, 0, 5, 5), Rect::new(8, 60, 8, 61));
    assert_eq!(erase_box(8, 60, -2, 600, 50, 330), Rect::new(0, 50, 480, 320));
    assert_eq!(overlay_box(100, 14), (180, 147, 120, 26));
}

#[test]
fn text_style_weight() {
    let s = TextStyle::new(16, 0xffffff, true);
    assert_eq!(s.weight, FontWeight::Medium);
    assert_eq!(s.with_weight(FontWeight::Regular).weight, FontWeight::Regular);
}

#[test]
fn label_baseline_and_box_follow_operations() {
    let mut fb = setup();
    let style = TextStyle::new(16, 0xffffff, false);
    let mut a = Label::new(8, 60, style, Align::Left, 0x0d1117);
    let mut b = Label::new(200, 60, style, Align::Right, 0x0d1117);
    assert_eq!(a.bbox(), None);
    assert!(a.set(&mut fb, "12:00", Rect::new(8, 48, 50, 62)));
    assert!(b.force_draw(&mut fb, "host", Rect::new(160, 48, 200, 62)));
    assert_eq!(a.bbox(), Some(Rect::new(8, 48, 50, 62)));
    a.set_x(10);
    a.set_style_color(0xff0000);
    assert_eq!(a.bbox(), Some(Rect::new(8, 48, 50, 62)));
    assert!(!a.set(&mut fb, "12:00", Rect::new(10, 48, 52, 62)));
    assert_eq!(a.bbox(), Some(Rect::new(8, 48, 50, 62)));
    assert!(!a.force_draw(&mut fb, "", Rect::new(10, 48, 52, 62)));
    assert_eq!(a.bbox(), None);
    b.clear(&mut fb);
    assert_eq!(b.bbox(), None);
    assert_eq!(a.baseline_y(), 60);
    assert_eq!(a.baseline_y(), b.baseline_y());
}
