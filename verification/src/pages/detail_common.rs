//! Shared geometry and helpers for the detail pages.

use vstd::prelude::*;
use crate::config::{ACCENT, BG, H, PANEL, W};
use crate::fb::{changes_marked, lemma_changes_marked_trans, Framebuffer, Rect, on_screen_pixel};
use crate::label::rect_fits;
use crate::pages::PageAction;
use crate::render::{
    draw_line_h, fill_rect, in_fill, in_hline, lemma_fill_marks_changes, lemma_hline_marks_changes,
    max_int, rgb565_of,
};
use crate::touch::TouchEvent;

verus! {

// ---------------------------------------------------------------------------
// Layout constants (480×320).
// ---------------------------------------------------------------------------
pub const TOP_PANEL_H: i32 = 28;
pub const BACK_X: i32 = 12;
pub const BACK_Y: i32 = 4;
pub const BACK_W: i32 = 64;
pub const BACK_H: i32 = 20;
pub const BACK_R: i32 = 6;
pub const TITLE_X: i32 = 88;
pub const TITLE_Y: i32 = 6;
pub const BIG_VALUE_X: i32 = 12;
pub const BIG_VALUE_Y: i32 = 36;
pub const AUX_X: i32 = 250;
pub const AUX_Y: i32 = 44;
pub const CHART_X: i32 = 12;
pub const CHART_Y: i32 = 72;
pub const CHART_W: i32 = 456;
pub const CHART_H: i32 = 112;
pub const INFO_START_Y: i32 = 192;
pub const INFO_LINE_H: i32 = 14;
pub const INFO_LEFT_LABEL_X: i32 = 12;
pub const INFO_LEFT_VALUE_X: i32 = 130;
pub const INFO_RIGHT_LABEL_X: i32 = 246;
pub const INFO_RIGHT_VALUE_X: i32 = 364;

// ---------------------------------------------------------------------------
// Back button chip.
// ---------------------------------------------------------------------------

/// Whether the touch `ev` activates (tap or long press) inside `r`.
pub open spec fn activates_in(ev: TouchEvent, r: Rect) -> bool {
    &&& (ev.kind is Tap || ev.kind is LongPress)
    &&& r.x1 <= ev.x < r.x2
    &&& r.y1 <= ev.y < r.y2
}

pub struct BackButton {
    pub bbox: Rect,
}

impl BackButton {
    /// The back chip's hit box: its rectangle clipped to the screen.
    pub fn new() -> (b: Self)
        ensures
            b.bbox == (Rect {
                x1: BACK_X as usize,
                y1: BACK_Y as usize,
                x2: (BACK_X + BACK_W) as usize,
                y2: (BACK_Y + BACK_H) as usize,
            }),
    {
        let x2 = if BACK_X + BACK_W < W as i32 { BACK_X + BACK_W } else { W as i32 };
        let y2 = if BACK_Y + BACK_H < H as i32 { BACK_Y + BACK_H } else { H as i32 };
        BackButton {
            bbox: Rect {
                x1: BACK_X as usize,
                y1: BACK_Y as usize,
                x2: x2 as usize,
                y2: y2 as usize,
            },
        }
    }

    /// Whether `ev` activates the back button.
    pub fn hit(&self, ev: &TouchEvent) -> (r: bool)
        requires
            rect_fits(self.bbox),
        ensures
            r == activates_in(*ev, self.bbox),
    {
        ev.is_activate() && ev.x >= self.bbox.x1 as i32 && ev.x < self.bbox.x2 as i32 && ev.y
            >= self.bbox.y1 as i32 && ev.y < self.bbox.y2 as i32
    }
}

/// Touch handling shared by the detail pages: activating the back button
/// returns to the monitor page, anything else does nothing.
pub fn detail_on_touch(back: &BackButton, ev: &TouchEvent) -> (r: PageAction)
    requires
        rect_fits(back.bbox),
    ensures
        activates_in(*ev, back.bbox) ==> (r matches PageAction::Switch(p) && p@ == "monitor"@),
        !activates_in(*ev, back.bbox) ==> r == PageAction::Nothing,
{
    if back.hit(ev) {
        return PageAction::Switch("monitor");
    }
    PageAction::Nothing
}

/// The pixel `(px, py)` lies on the outline of a chip at `x, y` of size
/// `w × h` with corner radius `r`: the top and bottom edges between the
/// corners, and the left and right edges between the corner arcs.
pub open spec fn on_chip_outline(x: int, y: int, w: int, h: int, r: int, px: int, py: int) -> bool {
    ||| in_hline(x + r, x + w - r, y, px, py)
    ||| in_hline(x + r, x + w - r, y + h - 1, px, py)
    ||| in_fill(x, y + r, 1, h - 2 * r, px, py)
    ||| in_fill(x + w - 1, y + r, 1, h - 2 * r, px, py)
}

/// The corner and edge coordinates of a chip outline fit in `i32`.
pub open spec fn chip_fits(x: int, y: int, w: int, h: int, r: int) -> bool {
    &&& -0x100_0000 <= x <= 0x100_0000
    &&& -0x100_0000 <= y <= 0x100_0000
    &&& -0x100_0000 <= w <= 0x100_0000
    &&& -0x100_0000 <= h <= 0x100_0000
    &&& -0x100_0000 <= r <= 0x100_0000
}

/// Draw the 1 px outline of a rounded chip, leaving the corner arcs.
pub fn draw_chip_outline(fb: &mut Framebuffer, x: i32, y: i32, w: i32, h: i32, r: i32, color: u32)
    requires
        old(fb).wf(),
        chip_fits(x as int, y as int, w as int, h as int, r as int),
    ensures
        final(fb).wf(),
        changes_marked(*old(fb), *final(fb)),
        forall|px: int, py: int|
            on_screen_pixel(px, py) ==> #[trigger] final(fb).pixel(px, py) == if on_chip_outline(
                x as int,
                y as int,
                w as int,
                h as int,
                r as int,
                px,
                py,
            ) {
                rgb565_of(color)
            } else {
                old(fb).pixel(px, py)
            },
{
    let ghost f0: Framebuffer = *fb;
    draw_line_h(fb, x + r, x + w - r, y, color);
    let ghost f1: Framebuffer = *fb;
    draw_line_h(fb, x + r, x + w - r, y + h - 1, color);
    let ghost f2: Framebuffer = *fb;
    fill_rect(fb, x, y + r, 1, h - 2 * r, color);
    let ghost f3: Framebuffer = *fb;
    fill_rect(fb, x + w - 1, y + r, 1, h - 2 * r, color);
    proof {
        lemma_hline_marks_changes(f0, f1, (x + r) as i32, (x + w - r) as i32, y, color);
        lemma_hline_marks_changes(f1, f2, (x + r) as i32, (x + w - r) as i32, (y + h - 1) as i32, color);
        lemma_fill_marks_changes(f2, f3, x, (y + r) as i32, 1, (h - 2 * r) as i32, color);
        lemma_fill_marks_changes(f3, *fb, (x + w - 1) as i32, (y + r) as i32, 1, (h - 2 * r) as i32, color);
        lemma_changes_marked_trans(f0, f1, f2);
        lemma_changes_marked_trans(f0, f2, f3);
        lemma_changes_marked_trans(f0, f3, *fb);
    }
    assert forall|px: int, py: int| on_screen_pixel(px, py) implies #[trigger] fb.pixel(px, py)
        == if on_chip_outline(x as int, y as int, w as int, h as int, r as int, px, py) {
        rgb565_of(color)
    } else {
        f0.pixel(px, py)
    } by {
        assert(f1.pixel(px, py) == f1.pixel(px, py));
        assert(f2.pixel(px, py) == f2.pixel(px, py));
        assert(f3.pixel(px, py) == f3.pixel(px, py));
    }
}


// ---------------------------------------------------------------------------
// Page frame and value strips.
// ---------------------------------------------------------------------------

/// Colour of the pixel `(px, py)` in the frame of a detail page: the top
/// panel, the accent line under it, the background below.
pub open spec fn detail_frame_pixel(px: int, py: int) -> u16 {
    if py < TOP_PANEL_H {
        rgb565_of(PANEL)
    } else if py == TOP_PANEL_H {
        rgb565_of(ACCENT)
    } else {
        rgb565_of(BG)
    }
}

/// Paint the frame of a detail page: the background, the top panel and the
/// accent line under it. The back chip is drawn on top by the caller.
pub fn draw_detail_frame(fb: &mut Framebuffer)
    requires
        old(fb).wf(),
    ensures
        final(fb).wf(),
        changes_marked(*old(fb), *final(fb)),
        forall|px: int, py: int|
            on_screen_pixel(px, py) ==> #[trigger] final(fb).pixel(px, py) == detail_frame_pixel(px, py),
{
    let ghost f0 = *fb;
    fill_rect(fb, 0, 0, W as i32, H as i32, BG);
    let ghost f1 = *fb;
    fill_rect(fb, 0, 0, W as i32, TOP_PANEL_H, PANEL);
    let ghost f2 = *fb;
    draw_line_h(fb, 0, W as i32, TOP_PANEL_H, ACCENT);
    proof {
        lemma_fill_marks_changes(f0, f1, 0, 0, W as i32, H as i32, BG);
        lemma_fill_marks_changes(f1, f2, 0, 0, W as i32, TOP_PANEL_H, PANEL);
        lemma_hline_marks_changes(f2, *fb, 0, W as i32, TOP_PANEL_H, ACCENT);
        lemma_changes_marked_trans(f0, f1, f2);
        lemma_changes_marked_trans(f0, f2, *fb);
        assert forall|px: int, py: int| on_screen_pixel(px, py) implies #[trigger] fb.pixel(px, py)
            == detail_frame_pixel(px, py) by {
            assert(f1.pixel(px, py) == rgb565_of(BG));
            assert(f2.pixel(px, py) == if py < TOP_PANEL_H {
                rgb565_of(PANEL)
            } else {
                rgb565_of(BG)
            });
        }
    }
}

/// Strip holding the big value (`left`) or the auxiliary text (right half).
pub open spec fn value_strip(left: bool) -> Rect {
    let x: usize = if left {
        0
    } else {
        240
    };
    Rect { x1: x, y1: 36, x2: (x + 240) as usize, y2: 64 }
}

/// Clear the big-value strip (`left`) or the auxiliary-text strip before new
/// text is drawn there: it is filled with the background and marked dirty
/// as a whole.
pub fn clear_value_strip(fb: &mut Framebuffer, left: bool)
    requires
        old(fb).wf(),
    ensures
        final(fb).wf(),
        changes_marked(*old(fb), *final(fb)),
        final(fb).dirty@.last() == value_strip(left),
        forall|px: int, py: int|
            on_screen_pixel(px, py) ==> #[trigger] final(fb).pixel(px, py) == if value_strip(
                left,
            ).has_pixel(px, py) {
                rgb565_of(BG)
            } else {
                old(fb).pixel(px, py)
            },
{
    let x: i32 = if left {
        0
    } else {
        240
    };
    let ghost f0 = *fb;
    fill_rect(fb, x, 36, 240, 28, BG);
    let ghost f1 = *fb;
    let r = Rect::new(x as usize, 36, x as usize + 240, 64);
    assert(r.clamped() == r);
    fb.mark_dirty(r);
    proof {
        lemma_fill_marks_changes(f0, f1, x, 36, 240, 28, BG);
        assert(fb.dirty@.subrange(0, f1.dirty@.len() as int) =~= f1.dirty@);
        assert forall|px: int, py: int|
            on_screen_pixel(px, py) && #[trigger] fb.pixel(px, py) != f1.pixel(px, py) implies exists|
                k: int,
            | f1.dirty@.len() <= k < fb.dirty@.len() && #[trigger] fb.dirty@[k].has_pixel(px, py) by {
            assert(fb.pixel(px, py) == f1.pixel(px, py));
        }
        lemma_changes_marked_trans(f0, f1, *fb);
        assert forall|px: int, py: int| on_screen_pixel(px, py) implies #[trigger] fb.pixel(px, py)
            == if value_strip(left).has_pixel(px, py) {
            rgb565_of(BG)
        } else {
            f0.pixel(px, py)
        } by {
            assert(fb.pixel(px, py) == f1.pixel(px, py));
        }
    }
}

} // verus!
