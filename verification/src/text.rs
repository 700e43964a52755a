//! Text appearance and the integer side of text layout.
//!
//! Glyph rasterisation and advance widths come from the font engine; what is
//! decided here is how glyph metrics turn into a baseline, where each glyph
//! bitmap lands on the screen, and which rectangle the drawn ink covers.

use vstd::prelude::*;
use crate::config::{H, W};
use crate::fb::Rect;

verus! {

/// Font weight selector. The dashboard keeps a loaded instance for each weight
/// so small sizes can pick the weight that remains legible on the 480×320 panel.
#[derive(Clone, Copy, Debug, PartialEq, Eq, Hash)]
pub enum FontWeight {
    Regular,
    Medium,
}

/// Text appearance.
#[derive(Clone, Copy, Debug, PartialEq, Eq)]
pub struct TextStyle {
    pub size: u16,
    pub color: u32,
    pub mono: bool,
    pub weight: FontWeight,
}

impl TextStyle {
    /// A style of the given size and colour in the medium weight.
    pub fn new(size: u16, color: u32, mono: bool) -> (s: Self)
        ensures
            s == (TextStyle { size, color, mono, weight: FontWeight::Medium }),
    {
        Self { size, color, mono, weight: FontWeight::Medium }
    }

    /// The same style in another weight.
    pub fn with_weight(self, weight: FontWeight) -> (s: Self)
        ensures
            s == (TextStyle { weight, ..self }),
    {
        let mut s = self;
        s.weight = weight;
        s
    }
}

/// Largest glyph top (`ymin + height`) among `metrics`, starting from 0.
pub open spec fn max_top(metrics: Seq<(i32, usize)>) -> int
    decreases metrics.len(),
{
    if metrics.len() == 0 {
        0
    } else {
        let rest = max_top(metrics.drop_last());
        let t = metrics.last().0 + metrics.last().1;
        if t > rest {
            t
        } else {
            rest
        }
    }
}

/// Distance from the nominal line top to the baseline for a style, given the
/// `(ymin, height)` metrics of its representative glyphs: the top of the
/// tallest glyph, less one because rows are 0-indexed.
pub fn top_offset_from_metrics(metrics: &[(i32, usize)]) -> (r: i32)
    requires
        forall|k: int|
            0 <= k < metrics@.len() ==> #[trigger] metrics@[k].1 <= i32::MAX && metrics@[k].0
                + metrics@[k].1 <= i32::MAX && metrics@[k].0 + metrics@[k].1 >= i32::MIN + 1,
    ensures
        r == max_top(metrics@) - 1,
{
    let mut best: i32 = 0;
    let mut i: usize = 0;
    while i < metrics.len()
        invariant
            i <= metrics@.len(),
            best == max_top(metrics@.subrange(0, i as int)),
            i32::MIN + 1 <= best,
            forall|k: int|
                0 <= k < metrics@.len() ==> #[trigger] metrics@[k].1 <= i32::MAX && metrics@[k].0
                    + metrics@[k].1 <= i32::MAX && metrics@[k].0 + metrics@[k].1 >= i32::MIN + 1,
        decreases metrics@.len() - i,
    {
        let (ymin, height) = metrics[i];
        let t: i32 = ymin + height as i32;
        assert(metrics@.subrange(0, i as int + 1).drop_last() =~= metrics@.subrange(0, i as int));
        if t > best {
            best = t;
        }
        i = i + 1;
    }
    assert(metrics@.subrange(0, metrics@.len() as int) =~= metrics@);
    best - 1
}

/// Baseline of a line whose nominal top is `y`, for a font whose line top
/// lies `top_offset` above the baseline (a property of size and face only).
pub open spec fn baseline_of(y: int, top_offset: int) -> int {
    y + top_offset
}

/// Baseline for a line whose nominal top is `y`.
pub fn baseline_for(y: i32, top_offset: i32) -> (r: i32)
    requires
        i32::MIN <= y + top_offset <= i32::MAX,
    ensures
        r == baseline_of(y as int, top_offset as int),
{
    y + top_offset
}

/// Text on one line shares one baseline whatever it says, and moving the
/// line down by `d` moves its baseline down by `d`.
pub proof fn law_baseline_follows_line(y: int, d: int, top_offset: int)
    ensures
        baseline_of(y + d, top_offset) == baseline_of(y, top_offset) + d,
{
}

/// Screen row of the top of a glyph bitmap drawn on `baseline_y`: `ymin` is
/// the offset from the baseline to the bitmap bottom (y up), so the bitmap
/// top is `baseline_y - (ymin + height) + 1`.
pub fn glyph_top(baseline_y: i32, ymin: i32, height: usize) -> (r: i32)
    requires
        i32::MIN <= baseline_y - ymin - height + 1 <= i32::MAX,
    ensures
        r == baseline_y - ymin - height + 1,
{
    let r: i64 = baseline_y as i64 - ymin as i64 - height as i64 + 1;
    r as i32
}

/// The on-screen rectangle covered by ink whose extents are
/// `[min_x, max_x) × [min_y, max_y)`, clamped to the screen; `None` when the
/// extents are empty.
pub open spec fn ink_rect_spec(min_x: i32, max_x: i32, min_y: i32, max_y: i32) -> Option<Rect> {
    if min_x < max_x && min_y < max_y {
        let x1: int = if min_x < 0 { 0 } else { min_x as int };
        let y1: int = if min_y < 0 { 0 } else { min_y as int };
        let cx: int = if max_x > W { W as int } else { max_x as int };
        let cy: int = if max_y > H { H as int } else { max_y as int };
        Some(
            Rect {
                x1: x1 as usize,
                y1: y1 as usize,
                x2: (if cx < x1 { x1 } else { cx }) as usize,
                y2: (if cy < y1 { y1 } else { cy }) as usize,
            },
        )
    } else {
        None
    }
}

/// Dirty rectangle of a drawn run of glyphs from the extents of their boxes.
pub fn ink_rect(min_x: i32, max_x: i32, min_y: i32, max_y: i32) -> (r: Option<Rect>)
    ensures
        r == ink_rect_spec(min_x, max_x, min_y, max_y),
        r matches Some(b) ==> b.x1 <= b.x2 && b.y1 <= b.y2,
{
    if min_x < max_x && min_y < max_y {
        let x1: i32 = if min_x < 0 { 0 } else { min_x };
        let y1: i32 = if min_y < 0 { 0 } else { min_y };
        let cx: i32 = if max_x > W as i32 { W as i32 } else { max_x };
        let cy: i32 = if max_y > H as i32 { H as i32 } else { max_y };
        let x2: i32 = if cx < x1 { x1 } else { cx };
        let y2: i32 = if cy < y1 { y1 } else { cy };
        Some(Rect { x1: x1 as usize, y1: y1 as usize, x2: x2 as usize, y2: y2 as usize })
    } else {
        None
    }
}

/// Placement of the centred overlay box for text of advance width `tw` at
/// font size `size`: `(x, y, w, h)` of the box, with 10 px horizontal and
/// 6 px vertical padding.
pub fn overlay_box(tw: i32, size: u16) -> (r: (i32, i32, i32, i32))
    requires
        -1_000_000 <= tw <= 1_000_000,
    ensures
        r.0 == div_trunc2(W - tw) - 10,
        r.1 == div_trunc2(H - size) - 6,
        r.2 == tw + 20,
        r.3 == size + 12,
{
    let th = size as i32;
    let ox = (W as i32 - tw) / 2 - 10;
    let oy = (H as i32 - th) / 2 - 6;
    (ox, oy, tw + 20, th + 12)
}

/// Half of `a`, rounded toward zero.
pub open spec fn div_trunc2(a: int) -> int {
    if a >= 0 {
        a / 2
    } else {
        -((-a) / 2)
    }
}

} // verus!
