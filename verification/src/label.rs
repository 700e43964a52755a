//! Field widgets: Label and Bar.
//!
//! A `Label` owns one mutable text field. It only redraws when its value
//! changes, and it erases the union of the old and new bounding boxes before
//! the new text is drawn. A `Bar` owns one percentage bar and redraws only
//! when the value or colour changes, touching only the part that changed.
//!
//! Glyph shapes come from the font engine: the caller measures the text and
//! computes its ink box, the label decides what to erase and records what is
//! shown, and the caller then draws the glyphs.

use vstd::prelude::*;
use crate::config::{H, W};
use crate::fb::{
    changes_marked, lemma_changes_marked_refl, lemma_changes_marked_trans, Framebuffer, Rect,
    on_screen_pixel,
};
use crate::render::{
    fill_rect, in_fill, lemma_fill_marks_changes, lemma_fill_marks_within, marks_within, max_int,
    min_int, rgb565_of,
};
use crate::text::{TextStyle, div_trunc2};

verus! {

#[derive(Clone, Copy, Debug, PartialEq, Eq)]
pub enum Align {
    Left,
    Center,
    Right,
}

/// The rectangle's coordinates fit the signed 32-bit range of the drawing
/// primitives.
pub open spec fn rect_fits(r: Rect) -> bool {
    r.x1 <= i32::MAX && r.y1 <= i32::MAX && r.x2 <= i32::MAX && r.y2 <= i32::MAX
}

/// The pixel `(px, py)` is painted by filling the rectangle `r` (clipped to
/// the screen).
pub open spec fn rect_covers(r: Rect, px: int, py: int) -> bool {
    in_fill(r.x1 as int, r.y1 as int, r.spec_width() as int, r.spec_height() as int, px, py)
}

/// Erase box for text drawn at `(x, baseline_y)` whose glyph boxes span
/// `[min_x, max_x) × [min_y, max_y)`: the extents clamped to the screen, or a
/// one-row placeholder at the anchor when no glyph is visible.
pub open spec fn erase_box_spec(
    x: i32,
    baseline_y: i32,
    min_x: i32,
    max_x: i32,
    min_y: i32,
    max_y: i32,
) -> Rect {
    if min_y >= max_y {
        let ax = max_int(x as int, 0);
        let ay = max_int(baseline_y as int, 0);
        Rect {
            x1: ax as usize,
            y1: ay as usize,
            x2: ax as usize,
            y2: max_int(baseline_y + 1, 0) as usize,
        }
    } else {
        let x1 = max_int(min_x as int, 0);
        let y1 = max_int(min_y as int, 0);
        Rect {
            x1: x1 as usize,
            y1: y1 as usize,
            x2: max_int(min_int(max_x as int, W as int), x1) as usize,
            y2: max_int(min_int(max_y as int, H as int), y1) as usize,
        }
    }
}

/// The erase box of a run of glyphs from their extents (see `erase_box_spec`).
pub fn erase_box(x: i32, baseline_y: i32, min_x: i32, max_x: i32, min_y: i32, max_y: i32) -> (r:
    Rect)
    requires
        baseline_y < i32::MAX,
    ensures
        r == erase_box_spec(x, baseline_y, min_x, max_x, min_y, max_y),
        rect_fits(r),
{
    if min_y >= max_y {
        let ax: i32 = if x > 0 { x } else { 0 };
        let ay: i32 = if baseline_y > 0 { baseline_y } else { 0 };
        let ay2: i32 = if baseline_y + 1 > 0 { baseline_y + 1 } else { 0 };
        return Rect { x1: ax as usize, y1: ay as usize, x2: ax as usize, y2: ay2 as usize };
    }
    let x1: i32 = if min_x > 0 { min_x } else { 0 };
    let y1: i32 = if min_y > 0 { min_y } else { 0 };
    let cx: i32 = if max_x < W as i32 { max_x } else { W as i32 };
    let cy: i32 = if max_y < H as i32 { max_y } else { H as i32 };
    let x2: i32 = if cx > x1 { cx } else { x1 };
    let y2: i32 = if cy > y1 { cy } else { y1 };
    Rect { x1: x1 as usize, y1: y1 as usize, x2: x2 as usize, y2: y2 as usize }
}

/// Fill `r` with `color`, the way every widget erases a rectangle.
fn fill_box(fb: &mut Framebuffer, r: Rect, color: u32)
    requires
        old(fb).wf(),
        rect_fits(r),
    ensures
        final(fb).wf(),
        changes_marked(*old(fb), *final(fb)),
        marks_within_rect(*old(fb), *final(fb), r),
        forall|px: int, py: int|
            on_screen_pixel(px, py) ==> #[trigger] final(fb).pixel(px, py) == if rect_covers(
                r,
                px,
                py,
            ) {
                rgb565_of(color)
            } else {
                old(fb).pixel(px, py)
            },
{
    let w = r.width();
    let h = r.height();
    let ghost f0 = *fb;
    fill_rect(fb, r.x1 as i32, r.y1 as i32, w as i32, h as i32, color);
    proof {
        lemma_fill_marks_changes(f0, *fb, r.x1 as i32, r.y1 as i32, w as i32, h as i32, color);
        lemma_fill_marks_within(f0, *fb, r.x1 as i32, r.y1 as i32, w as i32, h as i32, color);
    }
}

/// Every rectangle `nfb` adds to the dirty list of `ofb` lies within `r`
/// (clipped to the screen), and the earlier ones are kept.
pub open spec fn marks_within_rect(ofb: Framebuffer, nfb: Framebuffer, r: Rect) -> bool {
    marks_within(ofb, nfb, r.x1 as int, r.y1 as int, r.spec_width() as int, r.spec_height() as int)
}

pub struct Label {
    x: i32,
    baseline_y: i32,
    style: TextStyle,
    align: Align,
    bg: u32,
    last_text: String,
    last_bbox: Option<Rect>,
}

impl Label {
    pub closed spec fn anchor(&self) -> i32 {
        self.x
    }

    pub closed spec fn baseline(&self) -> i32 {
        self.baseline_y
    }

    pub closed spec fn text_style(&self) -> TextStyle {
        self.style
    }

    pub closed spec fn alignment(&self) -> Align {
        self.align
    }

    pub closed spec fn background(&self) -> u32 {
        self.bg
    }

    /// The text currently shown (empty when nothing is).
    pub closed spec fn shown_text(&self) -> Seq<char> {
        self.last_text@
    }

    /// The box of the text currently shown.
    pub closed spec fn shown_box(&self) -> Option<Rect> {
        self.last_bbox
    }

    /// The recorded box, if any, can be erased by the drawing primitives.
    pub closed spec fn wf(&self) -> bool {
        self.last_bbox matches Some(b) ==> rect_fits(b)
    }

    /// Create a label anchored at `x` on the baseline `baseline_y` (the line
    /// top converted by the font metrics), showing nothing yet.
    pub fn new(x: i32, baseline_y: i32, style: TextStyle, align: Align, bg: u32) -> (l: Self)
        ensures
            l.wf(),
            l.anchor() == x,
            l.baseline() == baseline_y,
            l.text_style() == style,
            l.alignment() == align,
            l.background() == bg,
            l.shown_text() == Seq::<char>::empty(),
            l.shown_box() is None,
    {
        Label { x, baseline_y, style, align, bg, last_text: String::new(), last_bbox: None }
    }

    /// Left edge at which text of advance width `text_width` starts for this
    /// label's alignment.
    pub fn draw_x(&self, text_width: i32) -> (r: i32)
        requires
            i32::MIN <= self.anchor() - text_width <= i32::MAX,
            0 <= text_width,
        ensures
            r == match self.alignment() {
                Align::Left => self.anchor() as int,
                Align::Center => self.anchor() - div_trunc2(text_width as int),
                Align::Right => self.anchor() - text_width,
            },
    {
        match self.align {
            Align::Left => self.x,
            Align::Center => self.x - text_width / 2,
            Align::Right => self.x - text_width,
        }
    }

    /// Change the horizontal anchor. Takes effect on the next `set`/`force_draw`.
    pub fn set_x(&mut self, x: i32)
        ensures
            final(self).anchor() == x,
            final(self).baseline() == old(self).baseline(),
            final(self).text_style() == old(self).text_style(),
            final(self).alignment() == old(self).alignment(),
            final(self).background() == old(self).background(),
            final(self).shown_text() == old(self).shown_text(),
            final(self).shown_box() == old(self).shown_box(),
            final(self).wf() == old(self).wf(),
    {
        self.x = x;
    }

    /// Change the foreground colour. Takes effect on the next `set`/`force_draw`.
    pub fn set_style_color(&mut self, color: u32)
        ensures
            final(self).text_style() == (TextStyle { color, ..old(self).text_style() }),
            final(self).anchor() == old(self).anchor(),
            final(self).baseline() == old(self).baseline(),
            final(self).alignment() == old(self).alignment(),
            final(self).background() == old(self).background(),
            final(self).shown_text() == old(self).shown_text(),
            final(self).shown_box() == old(self).shown_box(),
            final(self).wf() == old(self).wf(),
    {
        self.style.color = color;
    }

    /// The rectangle erased when `new_box` replaces what is shown: the union
    /// of the old and new boxes, or the new box alone.
    pub open spec fn erase_for(&self, new_box: Rect) -> Rect {
        match self.shown_box() {
            Some(last) => last.spec_union(new_box),
            None => new_box,
        }
    }

    /// Set the label text whose ink box (from `erase_box`) is `new_box`.
    /// Nothing happens when the text is unchanged. Otherwise the union of the
    /// old and new boxes is filled with the background, the new text and box
    /// are recorded, and `true` tells the caller to draw the glyphs.
    pub fn set(&mut self, fb: &mut Framebuffer, text: &str, new_box: Rect) -> (drawn: bool)
        requires
            old(self).wf(),
            old(fb).wf(),
            rect_fits(new_box),
        ensures
            final(fb).wf(),
            final(self).wf(),
            drawn == (text@ != old(self).shown_text()),
            changes_marked(*old(fb), *final(fb)),
            !drawn ==> *final(fb) == *old(fb) && *final(self) == *old(self),
            drawn ==> {
                &&& marks_within_rect(*old(fb), *final(fb), old(self).erase_for(new_box))
                &&& final(self).shown_text() == text@
                &&& final(self).shown_box() == Some(new_box)
                &&& final(self).anchor() == old(self).anchor()
                &&& final(self).baseline() == old(self).baseline()
                &&& final(self).text_style() == old(self).text_style()
                &&& final(self).alignment() == old(self).alignment()
                &&& final(self).background() == old(self).background()
                &&& forall|px: int, py: int|
                    on_screen_pixel(px, py) ==> #[trigger] final(fb).pixel(px, py) == if rect_covers(
                        old(self).erase_for(new_box),
                        px,
                        py,
                    ) {
                        rgb565_of(old(self).background())
                    } else {
                        old(fb).pixel(px, py)
                    }
            },
    {
        let t = text.to_owned();
        if t == self.last_text {
            proof {
                lemma_changes_marked_refl(*fb);
            }
            return false;
        }
        let erase = match self.last_bbox {
            Some(last) => last.union(&new_box),
            None => new_box,
        };
        fill_box(fb, erase, self.bg);
        self.last_text = t;
        self.last_bbox = Some(new_box);
        true
    }

    /// Forget what is shown, so that the next `set` draws even an unchanged
    /// text and erases only the new box. Used for the first render or after a
    /// full-screen clear.
    pub fn reset(&mut self)
        ensures
            final(self).wf(),
            final(self).shown_text() == Seq::<char>::empty(),
            final(self).shown_box() is None,
            final(self).anchor() == old(self).anchor(),
            final(self).baseline() == old(self).baseline(),
            final(self).text_style() == old(self).text_style(),
            final(self).alignment() == old(self).alignment(),
            final(self).background() == old(self).background(),
    {
        self.last_text = String::new();
        self.last_bbox = None;
    }

    /// Draw even if the text has not changed: erase the new box and record
    /// the text; the caller then draws the glyphs. Returns `false` only for
    /// the empty text, which has nothing to draw.
    pub fn force_draw(&mut self, fb: &mut Framebuffer, text: &str, new_box: Rect) -> (drawn: bool)
        requires
            old(fb).wf(),
            rect_fits(new_box),
        ensures
            final(fb).wf(),
            final(self).wf(),
            drawn == (text@.len() > 0),
            changes_marked(*old(fb), *final(fb)),
            drawn ==> marks_within_rect(*old(fb), *final(fb), new_box),
            !drawn ==> *final(fb) == *old(fb),
            final(self).shown_text() == text@,
            final(self).shown_box() == if drawn {
                Some(new_box)
            } else {
                None
            },
            final(self).anchor() == old(self).anchor(),
            final(self).baseline() == old(self).baseline(),
            final(self).text_style() == old(self).text_style(),
            final(self).alignment() == old(self).alignment(),
            final(self).background() == old(self).background(),
            forall|px: int, py: int|
                on_screen_pixel(px, py) ==> #[trigger] final(fb).pixel(px, py) == if drawn
                    && rect_covers(new_box, px, py) {
                    rgb565_of(old(self).background())
                } else {
                    old(fb).pixel(px, py)
                },
    {
        self.reset();
        proof {
            if text@.len() == 0 {
                assert(text@ =~= Seq::<char>::empty());
            }
        }
        self.set(fb, text, new_box)
    }

    /// Explicitly clear the label area and reset state.
    pub fn clear(&mut self, fb: &mut Framebuffer)
        requires
            old(self).wf(),
            old(fb).wf(),
        ensures
            final(fb).wf(),
            final(self).wf(),
            final(self).shown_text() == Seq::<char>::empty(),
            final(self).shown_box() is None,
            final(self).anchor() == old(self).anchor(),
            final(self).baseline() == old(self).baseline(),
            final(self).text_style() == old(self).text_style(),
            final(self).alignment() == old(self).alignment(),
            final(self).background() == old(self).background(),
            changes_marked(*old(fb), *final(fb)),
            match old(self).shown_box() {
                Some(b) => marks_within_rect(*old(fb), *final(fb), b),
                None => *final(fb) == *old(fb),
            },
            forall|px: int, py: int|
                on_screen_pixel(px, py) ==> #[trigger] final(fb).pixel(px, py) == match old(
                    self,
                ).shown_box() {
                    Some(b) => if rect_covers(b, px, py) {
                        rgb565_of(old(self).background())
                    } else {
                        old(fb).pixel(px, py)
                    },
                    None => old(fb).pixel(px, py),
                },
    {
        if let Some(last) = self.last_bbox {
            fill_box(fb, last, self.bg);
        } else {
            proof {
                lemma_changes_marked_refl(*fb);
            }
        }
        self.reset();
    }

    /// Direct access to the stored baseline for aligning sibling labels.
    pub fn baseline_y(&self) -> (r: i32)
        ensures
            r == self.baseline(),
    {
        self.baseline_y
    }

    /// Direct access to the text style for external measurement alignment.
    pub fn style(&self) -> (r: &TextStyle)
        ensures
            *r == self.text_style(),
    {
        &self.style
    }

    /// The bounding box of the currently displayed text, if any.
    pub fn bbox(&self) -> (r: Option<Rect>)
        ensures
            r == self.shown_box(),
    {
        self.last_bbox
    }

    /// The horizontal anchor.
    pub fn x(&self) -> (r: i32)
        ensures
            r == self.anchor(),
    {
        self.x
    }
}

/// Width of the filled part of a bar `w` pixels wide at `pct` percent:
/// `w * pct / 100`, truncated toward zero.
pub open spec fn fill_of(w: int, pct: int) -> int {
    let p = w * pct;
    if p >= 0 {
        p / 100
    } else {
        -((-p) / 100)
    }
}

/// A fill of `f` pixels from `x`, `h` rows from `y`, is within the range of
/// the drawing primitives.
pub open spec fn span_fits(x: int, y: int, f: int, h: int) -> bool {
    &&& i32::MIN <= x + f <= i32::MAX
    &&& (f > 0 && h > 0 ==> x + f >= 0 && y + h >= 0 && y + h <= i32::MAX)
}

/// Colour of the pixel `(px, py)` after a bar at `x, y` of size `w × h` with
/// track colour `track`, last drawn at `last_pct` in `last_color`, is set to
/// `pct` in `color`; `old` is its colour before.
pub open spec fn bar_pixel(
    x: int,
    y: int,
    w: int,
    h: int,
    track: u32,
    last_pct: int,
    last_color: Option<u32>,
    pct: int,
    color: u32,
    old: u16,
    px: int,
    py: int,
) -> u16 {
    let nw = fill_of(w, pct);
    let ow = fill_of(w, max_int(last_pct, 0));
    if pct == last_pct && last_color == Some(color) {
        old
    } else if last_pct < 0 || last_color != Some(color) {
        if in_fill(x, y, nw, h, px, py) {
            rgb565_of(color)
        } else if in_fill(x, y, w, h, px, py) {
            rgb565_of(track)
        } else {
            old
        }
    } else if nw > ow {
        if in_fill(x + ow, y, nw - ow, h, px, py) {
            rgb565_of(color)
        } else {
            old
        }
    } else if nw < ow {
        if in_fill(x + nw, y, ow - nw, h, px, py) {
            rgb565_of(track)
        } else {
            old
        }
    } else {
        old
    }
}

pub struct Bar {
    x: i32,
    y: i32,
    w: i32,
    h: i32,
    track_color: u32,
    last_pct: i32,
    last_fill_color: Option<u32>,
}

impl Bar {
    pub closed spec fn left(&self) -> i32 {
        self.x
    }

    pub closed spec fn top(&self) -> i32 {
        self.y
    }

    pub closed spec fn span(&self) -> i32 {
        self.w
    }

    pub closed spec fn thickness(&self) -> i32 {
        self.h
    }

    pub closed spec fn track(&self) -> u32 {
        self.track_color
    }

    /// The percentage last drawn (negative before the first draw).
    pub closed spec fn shown_pct(&self) -> i32 {
        self.last_pct
    }

    /// The fill colour last drawn.
    pub closed spec fn shown_color(&self) -> Option<u32> {
        self.last_fill_color
    }

    /// `pct` can be drawn: the product `w * pct` is exact in single precision
    /// and the fill stays within the range of the drawing primitives.
    pub open spec fn pct_fits(&self, pct: int) -> bool {
        &&& -0x100_0000 < self.span() * pct < 0x100_0000
        &&& span_fits(self.left() as int, self.top() as int, fill_of(self.span() as int, pct), self.thickness() as int)
        &&& (fill_of(self.span() as int, pct) < 0 && self.thickness() > 0 ==> self.left() >= 0)
    }

    pub open spec fn wf(&self) -> bool {
        &&& self.span() >= 0
        &&& span_fits(self.left() as int, self.top() as int, self.span() as int, self.thickness() as int)
        &&& self.pct_fits(max_int(self.shown_pct() as int, 0))
    }

    /// The bar region of `fb` shows the last drawn percentage: pixels left of
    /// the fill edge in the fill colour, the rest of the track in the track
    /// colour.
    pub open spec fn shows_on(&self, fb: Framebuffer) -> bool {
        &&& self.shown_color() is Some
        &&& forall|px: int, py: int|
            on_screen_pixel(px, py) && self.left() <= px < self.left() + self.span() && self.top()
                <= py < self.top() + self.thickness() ==> #[trigger] fb.pixel(px, py) == if px
                < self.left() + fill_of(self.span() as int, self.shown_pct() as int) {
                rgb565_of(self.shown_color().unwrap())
            } else {
                rgb565_of(self.track())
            }
    }

    pub fn new(x: i32, y: i32, w: i32, h: i32, track_color: u32) -> (b: Self)
        requires
            w >= 0,
            span_fits(x as int, y as int, w as int, h as int),
        ensures
            b.wf(),
            b.left() == x,
            b.top() == y,
            b.span() == w,
            b.thickness() == h,
            b.track() == track_color,
            b.shown_pct() == -1,
            b.shown_color() is None,
    {
        assert(fill_of(w as int, 0) == 0);
        Bar { x, y, w, h, track_color, last_pct: -1, last_fill_color: None }
    }

    /// Width of the filled part at `pct` percent.
    pub fn fill_width(&self, pct: i32) -> (r: i32)
        requires
            -0x100_0000 < self.span() * pct < 0x100_0000,
        ensures
            r == fill_of(self.span() as int, pct as int),
    {
        let p: i64 = self.w as i64 * pct as i64;
        let q: i64 = if p >= 0 {
            p / 100
        } else {
            -((-p) / 100)
        };
        q as i32
    }

    /// Set the bar percentage (0–100). Redraws only on change: the whole bar
    /// on the first draw or a colour change, else only the strip between the
    /// old and the new fill edge.
    pub fn set(&mut self, fb: &mut Framebuffer, pct: i32, fill_color: u32)
        requires
            old(self).wf(),
            old(fb).wf(),
            old(self).pct_fits(pct as int),
        ensures
            final(fb).wf(),
            final(self).wf(),
            final(self).shown_pct() == pct,
            final(self).shown_color() == Some(fill_color),
            final(self).left() == old(self).left(),
            final(self).top() == old(self).top(),
            final(self).span() == old(self).span(),
            final(self).thickness() == old(self).thickness(),
            final(self).track() == old(self).track(),
            pct == old(self).shown_pct() && old(self).shown_color() == Some(fill_color)
                ==> *final(fb) == *old(fb),
            changes_marked(*old(fb), *final(fb)),
            forall|px: int, py: int|
                on_screen_pixel(px, py) ==> #[trigger] final(fb).pixel(px, py) == bar_pixel(
                    old(self).left() as int,
                    old(self).top() as int,
                    old(self).span() as int,
                    old(self).thickness() as int,
                    old(self).track(),
                    old(self).shown_pct() as int,
                    old(self).shown_color(),
                    pct as int,
                    fill_color,
                    old(fb).pixel(px, py),
                    px,
                    py,
                ),
            old(self).shows_on(*old(fb)) || old(self).shown_color() is None
                ==> final(self).shows_on(*final(fb)),
    {
        let color_changed = match self.last_fill_color {
            Some(c) => c != fill_color,
            None => true,
        };
        if pct == self.last_pct && !color_changed {
            proof {
                lemma_changes_marked_refl(*fb);
            }
            return;
        }
        let ghost f0 = *fb;
        let last = if self.last_pct > 0 { self.last_pct } else { 0 };
        let old_fill_w = self.fill_width(last);
        let new_fill_w = self.fill_width(pct);
        assert(self.w * last >= 0) by (nonlinear_arith)
            requires
                self.w >= 0,
                last >= 0,
        ;
        let full_redraw = self.last_pct < 0 || color_changed;
        if full_redraw {
            fill_rect(fb, self.x, self.y, self.w, self.h, self.track_color);
            let ghost f1 = *fb;
            proof {
                lemma_fill_marks_changes(f0, f1, self.x, self.y, self.w, self.h, self.track_color);
            }
            if new_fill_w > 0 {
                fill_rect(fb, self.x, self.y, new_fill_w, self.h, fill_color);
                proof {
                    lemma_fill_marks_changes(f1, *fb, self.x, self.y, new_fill_w, self.h, fill_color);
                    lemma_changes_marked_trans(f0, f1, *fb);
                }
            }
        } else if new_fill_w > old_fill_w {
            fill_rect(fb, self.x + old_fill_w, self.y, new_fill_w - old_fill_w, self.h, fill_color);
            proof {
                lemma_fill_marks_changes(
                    f0,
                    *fb,
                    (self.x + old_fill_w) as i32,
                    self.y,
                    (new_fill_w - old_fill_w) as i32,
                    self.h,
                    fill_color,
                );
            }
        } else if new_fill_w < old_fill_w {
            proof {
                if self.w == 0 {
                    let w = self.w;
                    assert(w * pct == 0 && w * last == 0) by (nonlinear_arith)
                        requires
                            w == 0,
                    ;
                }
            }
            fill_rect(fb, self.x + new_fill_w, self.y, old_fill_w - new_fill_w, self.h, self.track_color);
            proof {
                lemma_fill_marks_changes(
                    f0,
                    *fb,
                    (self.x + new_fill_w) as i32,
                    self.y,
                    (old_fill_w - new_fill_w) as i32,
                    self.h,
                    self.track_color,
                );
            }
        } else {
            proof {
                lemma_changes_marked_refl(*fb);
            }
        }
        self.last_pct = pct;
        self.last_fill_color = Some(fill_color);
        assert(fill_of(self.w as int, 0) == 0);
    }

    /// Redraw the whole bar at `pct` regardless of what was shown.
    pub fn force_draw(&mut self, fb: &mut Framebuffer, pct: i32, fill_color: u32)
        requires
            old(self).wf(),
            old(fb).wf(),
            old(self).pct_fits(pct as int),
        ensures
            final(fb).wf(),
            final(self).wf(),
            final(self).shown_pct() == pct,
            final(self).shown_color() == Some(fill_color),
            final(self).left() == old(self).left(),
            final(self).top() == old(self).top(),
            final(self).span() == old(self).span(),
            final(self).thickness() == old(self).thickness(),
            final(self).track() == old(self).track(),
            final(self).shows_on(*final(fb)),
            changes_marked(*old(fb), *final(fb)),
            forall|px: int, py: int|
                on_screen_pixel(px, py) ==> #[trigger] final(fb).pixel(px, py) == bar_pixel(
                    old(self).left() as int,
                    old(self).top() as int,
                    old(self).span() as int,
                    old(self).thickness() as int,
                    old(self).track(),
                    -1,
                    None,
                    pct as int,
                    fill_color,
                    old(fb).pixel(px, py),
                    px,
                    py,
                ),
    {
        self.last_pct = -1;
        self.last_fill_color = None;
        assert(fill_of(self.w as int, 0) == 0);
        self.set(fb, pct, fill_color);
    }
}

} // verus!
