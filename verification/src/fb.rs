//! Framebuffer shadow.
//!
//! Maintains an in-memory RGB565 shadow buffer of the 480×320 panel. Every
//! draw call reports the affected rectangle; at flush time the dirty regions
//! are merged and handed to the caller, which writes their rows to the device.

use vstd::prelude::*;
use crate::config::{H, W};

verus! {

/// Axis-aligned rectangle with exclusive right/bottom edges.
#[derive(Debug, Clone, Copy, PartialEq, Eq)]
pub struct Rect {
    pub x1: usize,
    pub y1: usize,
    pub x2: usize,
    pub y2: usize,
}

impl Rect {
    pub open spec fn spec_width(self) -> nat {
        if self.x2 >= self.x1 {
            (self.x2 - self.x1) as nat
        } else {
            0
        }
    }

    pub open spec fn spec_height(self) -> nat {
        if self.y2 >= self.y1 {
            (self.y2 - self.y1) as nat
        } else {
            0
        }
    }

    /// The rectangle lies on the screen and is normalised (`x1 <= x2`, `y1 <= y2`).
    pub open spec fn on_screen(self) -> bool {
        self.x1 <= self.x2 <= W && self.y1 <= self.y2 <= H
    }

    /// The rectangle contains `other`.
    pub open spec fn contains(self, other: Rect) -> bool {
        self.x1 <= other.x1 && other.x2 <= self.x2 && self.y1 <= other.y1 && other.y2 <= self.y2
    }

    /// The pixel `(px, py)` lies inside the rectangle.
    pub open spec fn has_pixel(self, px: int, py: int) -> bool {
        self.x1 <= px < self.x2 && self.y1 <= py < self.y2
    }

    pub open spec fn spec_union(self, other: Rect) -> Rect {
        Rect {
            x1: if self.x1 <= other.x1 { self.x1 } else { other.x1 },
            y1: if self.y1 <= other.y1 { self.y1 } else { other.y1 },
            x2: if self.x2 >= other.x2 { self.x2 } else { other.x2 },
            y2: if self.y2 >= other.y2 { self.y2 } else { other.y2 },
        }
    }

    pub open spec fn spec_overlaps(self, other: Rect) -> bool {
        self.x1 < other.x2 && self.x2 > other.x1 && self.y1 < other.y2 && self.y2 > other.y1
    }

    pub open spec fn clamped(self) -> Rect {
        let x1 = if self.x1 <= W { self.x1 } else { W };
        let y1 = if self.y1 <= H { self.y1 } else { H };
        let x2 = if self.x2 <= W { self.x2 } else { W };
        let y2 = if self.y2 <= H { self.y2 } else { H };
        Rect {
            x1,
            y1,
            x2: if x2 < x1 { x1 } else { x2 },
            y2: if y2 < y1 { y1 } else { y2 },
        }
    }

    pub fn new(x1: usize, y1: usize, x2: usize, y2: usize) -> (r: Self)
        ensures
            r == (Rect { x1, y1, x2, y2 }),
    {
        Self { x1, y1, x2, y2 }
    }

    pub fn width(&self) -> (r: usize)
        ensures
            r == self.spec_width(),
    {
        self.x2.saturating_sub(self.x1)
    }

    pub fn height(&self) -> (r: usize)
        ensures
            r == self.spec_height(),
    {
        self.y2.saturating_sub(self.y1)
    }

    pub fn area(&self) -> (r: usize)
        requires
            self.spec_width() * self.spec_height() <= usize::MAX,
        ensures
            r == self.spec_width() * self.spec_height(),
    {
        self.width() * self.height()
    }

    pub fn clamp_to_screen(&mut self)
        ensures
            *final(self) == old(self).clamped(),
            final(self).on_screen(),
    {
        self.x1 = if self.x1 <= W { self.x1 } else { W };
        self.y1 = if self.y1 <= H { self.y1 } else { H };
        self.x2 = if self.x2 <= W { self.x2 } else { W };
        self.y2 = if self.y2 <= H { self.y2 } else { H };
        if self.x2 < self.x1 {
            self.x2 = self.x1;
        }
        if self.y2 < self.y1 {
            self.y2 = self.y1;
        }
    }

    pub fn union(&self, other: &Rect) -> (r: Rect)
        ensures
            r == self.spec_union(*other),
    {
        Rect {
            x1: if self.x1 <= other.x1 { self.x1 } else { other.x1 },
            y1: if self.y1 <= other.y1 { self.y1 } else { other.y1 },
            x2: if self.x2 >= other.x2 { self.x2 } else { other.x2 },
            y2: if self.y2 >= other.y2 { self.y2 } else { other.y2 },
        }
    }
}

/// Index of the pixel `(px, py)` in the row-major buffer.
pub open spec fn pixel_index(px: int, py: int) -> int {
    py * (W as int) + px
}

/// The pixel lies on the screen.
pub open spec fn on_screen_pixel(px: int, py: int) -> bool {
    0 <= px < W && 0 <= py < H
}

/// A dirty rectangle as the framebuffer keeps it: on screen and non-empty.
pub open spec fn dirty_ok(r: Rect) -> bool {
    r.on_screen() && r.x1 < r.x2 && r.y1 < r.y2
}

/// Bytes of one rectangle's pixels (two per RGB565 pixel).
pub open spec fn rect_bytes(r: Rect) -> nat {
    r.spec_width() * r.spec_height() * 2
}

pub open spec fn bytes_sum(rs: Seq<Rect>) -> nat
    decreases rs.len(),
{
    if rs.len() == 0 {
        0
    } else {
        bytes_sum(rs.drop_last()) + rect_bytes(rs.last())
    }
}

// ---------------------------------------------------------------------------
// Merging of dirty rectangles.
// ---------------------------------------------------------------------------

/// Insert `ins` into `merged`, scanning from index `i`: every rectangle that
/// overlaps the (growing) inserted rectangle is removed and absorbed.
pub open spec fn merge_into(merged: Seq<Rect>, ins: Rect, i: int) -> Seq<Rect>
    decreases merged.len() - i,
{
    if i < 0 || i >= merged.len() {
        merged.push(ins)
    } else if ins.spec_overlaps(merged[i]) {
        merge_into(merged.remove(i), ins.spec_union(merged[i]), i)
    } else {
        merge_into(merged, ins, i + 1)
    }
}

/// The merged list of a sequence of dirty rectangles, inserted in order.
pub open spec fn merge_all(rs: Seq<Rect>) -> Seq<Rect>
    decreases rs.len(),
{
    if rs.len() == 0 {
        Seq::empty()
    } else {
        merge_into(merge_all(rs.drop_last()), rs.last(), 0)
    }
}

/// `r` lies inside some rectangle of `out`.
#[verifier::opaque]
pub open spec fn covered_by(r: Rect, out: Seq<Rect>) -> bool {
    exists|j: int| 0 <= j < out.len() && #[trigger] out[j].contains(r)
}

/// Every edge of `m` is an edge of a rectangle of `rs` that `m` contains.
#[verifier::opaque]
pub open spec fn tight(m: Rect, rs: Seq<Rect>) -> bool {
    &&& exists|k: int| 0 <= k < rs.len() && m.contains(#[trigger] rs[k]) && rs[k].x1 == m.x1
    &&& exists|k: int| 0 <= k < rs.len() && m.contains(#[trigger] rs[k]) && rs[k].y1 == m.y1
    &&& exists|k: int| 0 <= k < rs.len() && m.contains(#[trigger] rs[k]) && rs[k].x2 == m.x2
    &&& exists|k: int| 0 <= k < rs.len() && m.contains(#[trigger] rs[k]) && rs[k].y2 == m.y2
}

/// Every rectangle of `rs` lies inside some rectangle of `out`, and every
/// rectangle of `out` is tight over `rs`: `out` covers `rs` tightly.
pub open spec fn covers_tightly(out: Seq<Rect>, rs: Seq<Rect>) -> bool {
    &&& forall|k: int| 0 <= k < rs.len() ==> covered_by(#[trigger] rs[k], out)
    &&& forall|j: int| 0 <= j < out.len() ==> tight(#[trigger] out[j], rs)
}

proof fn lemma_covered_push(r: Rect, out: Seq<Rect>, x: Rect)
    requires
        covered_by(r, out) || x.contains(r),
    ensures
        covered_by(r, out.push(x)),
{
    reveal(covered_by);
    if x.contains(r) {
        assert(out.push(x)[out.len() as int] == x);
    } else {
        let j = choose|j: int| 0 <= j < out.len() && #[trigger] out[j].contains(r);
        assert(out.push(x)[j] == out[j]);
    }
}

proof fn lemma_covered_remove(r: Rect, out: Seq<Rect>, i: int, big: Rect)
    requires
        covered_by(r, out),
        0 <= i < out.len(),
        big.contains(out[i]),
    ensures
        covered_by(r, out.remove(i)) || big.contains(r),
{
    reveal(covered_by);
    let j = choose|j: int| 0 <= j < out.len() && #[trigger] out[j].contains(r);
    let m2 = out.remove(i);
    if j < i {
        assert(m2[j] == out[j]);
    } else if j > i {
        assert(m2[j - 1] == out[j]);
    }
}

proof fn lemma_tight_extend(m: Rect, rs: Seq<Rect>, r: Rect)
    requires
        tight(m, rs),
    ensures
        tight(m, rs.push(r)),
{
    reveal(tight);
    let k1 = choose|k: int| 0 <= k < rs.len() && m.contains(#[trigger] rs[k]) && rs[k].x1 == m.x1;
    let k2 = choose|k: int| 0 <= k < rs.len() && m.contains(#[trigger] rs[k]) && rs[k].y1 == m.y1;
    let k3 = choose|k: int| 0 <= k < rs.len() && m.contains(#[trigger] rs[k]) && rs[k].x2 == m.x2;
    let k4 = choose|k: int| 0 <= k < rs.len() && m.contains(#[trigger] rs[k]) && rs[k].y2 == m.y2;
    let rs2 = rs.push(r);
    assert(rs2[k1] == rs[k1]);
    assert(rs2[k2] == rs[k2]);
    assert(rs2[k3] == rs[k3]);
    assert(rs2[k4] == rs[k4]);
}

proof fn lemma_tight_self(rs: Seq<Rect>, n: int)
    requires
        0 <= n < rs.len(),
    ensures
        tight(rs[n], rs),
{
    reveal(tight);
    let m = rs[n];
    assert(m.contains(rs[n]));
}

proof fn lemma_tight_union(a: Rect, b: Rect, rs: Seq<Rect>)
    requires
        tight(a, rs),
        tight(b, rs),
    ensures
        tight(a.spec_union(b), rs),
{
    reveal(tight);
    let u = a.spec_union(b);
    let ka1 = choose|k: int| 0 <= k < rs.len() && a.contains(#[trigger] rs[k]) && rs[k].x1 == a.x1;
    let ka2 = choose|k: int| 0 <= k < rs.len() && a.contains(#[trigger] rs[k]) && rs[k].y1 == a.y1;
    let ka3 = choose|k: int| 0 <= k < rs.len() && a.contains(#[trigger] rs[k]) && rs[k].x2 == a.x2;
    let ka4 = choose|k: int| 0 <= k < rs.len() && a.contains(#[trigger] rs[k]) && rs[k].y2 == a.y2;
    let kb1 = choose|k: int| 0 <= k < rs.len() && b.contains(#[trigger] rs[k]) && rs[k].x1 == b.x1;
    let kb2 = choose|k: int| 0 <= k < rs.len() && b.contains(#[trigger] rs[k]) && rs[k].y1 == b.y1;
    let kb3 = choose|k: int| 0 <= k < rs.len() && b.contains(#[trigger] rs[k]) && rs[k].x2 == b.x2;
    let kb4 = choose|k: int| 0 <= k < rs.len() && b.contains(#[trigger] rs[k]) && rs[k].y2 == b.y2;
    if a.x1 <= b.x1 {
        assert(u.contains(rs[ka1]) && rs[ka1].x1 == u.x1);
    } else {
        assert(u.contains(rs[kb1]) && rs[kb1].x1 == u.x1);
    }
    if a.y1 <= b.y1 {
        assert(u.contains(rs[ka2]) && rs[ka2].y1 == u.y1);
    } else {
        assert(u.contains(rs[kb2]) && rs[kb2].y1 == u.y1);
    }
    if a.x2 >= b.x2 {
        assert(u.contains(rs[ka3]) && rs[ka3].x2 == u.x2);
    } else {
        assert(u.contains(rs[kb3]) && rs[kb3].x2 == u.x2);
    }
    if a.y2 >= b.y2 {
        assert(u.contains(rs[ka4]) && rs[ka4].y2 == u.y2);
    } else {
        assert(u.contains(rs[kb4]) && rs[kb4].y2 == u.y2);
    }
}

/// Invariant of the inner merge scan: `merged` plus the pending rectangle
/// `ins` cover `rs` tightly.
pub open spec fn scan_inv(merged: Seq<Rect>, ins: Rect, rs: Seq<Rect>) -> bool {
    &&& forall|k: int| 0 <= k < rs.len() ==> (ins.contains(#[trigger] rs[k]) || covered_by(rs[k], merged))
    &&& forall|j: int| 0 <= j < merged.len() ==> tight(#[trigger] merged[j], rs)
    &&& tight(ins, rs)
}

proof fn lemma_merge_into(merged: Seq<Rect>, ins: Rect, i: int, rs: Seq<Rect>)
    requires
        0 <= i <= merged.len(),
        scan_inv(merged, ins, rs),
    ensures
        covers_tightly(merge_into(merged, ins, i), rs),
        merge_into(merged, ins, i).len() <= merged.len() + 1,
    decreases merged.len() - i,
{
    if i >= merged.len() {
        let out = merged.push(ins);
        assert forall|k: int| 0 <= k < rs.len() implies covered_by(#[trigger] rs[k], out) by {
            lemma_covered_push(rs[k], merged, ins);
        }
        assert forall|j: int| 0 <= j < out.len() implies tight(#[trigger] out[j], rs) by {
            if j < merged.len() {
                assert(out[j] == merged[j]);
            }
        }
    } else if ins.spec_overlaps(merged[i]) {
        let m2 = merged.remove(i);
        let ins2 = ins.spec_union(merged[i]);
        lemma_tight_union(ins, merged[i], rs);
        assert forall|k: int| 0 <= k < rs.len() implies (ins2.contains(#[trigger] rs[k]) || covered_by(rs[k], m2)) by {
            if !ins.contains(rs[k]) {
                lemma_covered_remove(rs[k], merged, i, ins2);
            }
        }
        assert forall|j: int| 0 <= j < m2.len() implies tight(#[trigger] m2[j], rs) by {
            if j < i {
                assert(m2[j] == merged[j]);
            } else {
                assert(m2[j] == merged[j + 1]);
            }
        }
        lemma_merge_into(m2, ins2, i, rs);
    } else {
        lemma_merge_into(merged, ins, i + 1, rs);
    }
}

/// The merged list covers the given dirty rectangles tightly and is no
/// longer than the given list.
pub proof fn lemma_merge_all_covers(rs: Seq<Rect>)
    ensures
        covers_tightly(merge_all(rs), rs),
        merge_all(rs).len() <= rs.len(),
    decreases rs.len(),
{
    if rs.len() > 0 {
        let prev = rs.drop_last();
        let r = rs.last();
        lemma_merge_all_covers(prev);
        let m = merge_all(prev);
        assert(rs =~= prev.push(r));
        assert forall|j: int| 0 <= j < m.len() implies tight(#[trigger] m[j], rs) by {
            lemma_tight_extend(m[j], prev, r);
        }
        lemma_tight_self(rs, prev.len() as int);
        assert forall|k: int| 0 <= k < rs.len() implies (r.contains(#[trigger] rs[k]) || covered_by(rs[k], m)) by {
            if k < prev.len() {
                assert(rs[k] == prev[k]);
            } else {
                assert(rs[k] == r);
            }
        }
        lemma_merge_into(m, r, 0, rs);
    }
}

/// A rectangle that tightly covers on-screen rectangles lies on the screen.
pub proof fn lemma_tight_on_screen(m: Rect, rs: Seq<Rect>)
    requires
        tight(m, rs),
        forall|k: int| 0 <= k < rs.len() ==> dirty_ok(#[trigger] rs[k]),
    ensures
        dirty_ok(m),
{
    reveal(tight);
    let k1 = choose|k: int| 0 <= k < rs.len() && m.contains(#[trigger] rs[k]) && rs[k].x1 == m.x1;
    let k3 = choose|k: int| 0 <= k < rs.len() && m.contains(#[trigger] rs[k]) && rs[k].x2 == m.x2;
    let k2 = choose|k: int| 0 <= k < rs.len() && m.contains(#[trigger] rs[k]) && rs[k].y1 == m.y1;
    let k4 = choose|k: int| 0 <= k < rs.len() && m.contains(#[trigger] rs[k]) && rs[k].y2 == m.y2;
    assert(dirty_ok(rs[k1]) && dirty_ok(rs[k2]) && dirty_ok(rs[k3]) && dirty_ok(rs[k4]));
}

// ---------------------------------------------------------------------------
// The framebuffer shadow.
// ---------------------------------------------------------------------------

pub struct Framebuffer {
    pub width: usize,
    pub height: usize,
    /// RGB565 pixels, row-major, `W * H` of them.
    pub buffer: Vec<u16>,
    /// Regions changed since the last flush.
    pub dirty: Vec<Rect>,
}

/// `nfb` keeps the dirty list of `ofb` as a prefix, and every on-screen pixel
/// that differs between the two lies in one of the rectangles appended
/// after it: nothing that changed goes unreported at the next flush.
pub open spec fn changes_marked(ofb: Framebuffer, nfb: Framebuffer) -> bool {
    &&& ofb.dirty@.len() <= nfb.dirty@.len()
    &&& nfb.dirty@.subrange(0, ofb.dirty@.len() as int) == ofb.dirty@
    &&& forall|px: int, py: int|
        on_screen_pixel(px, py) && #[trigger] nfb.pixel(px, py) != ofb.pixel(px, py) ==> exists|
            k: int,
        |
            ofb.dirty@.len() <= k < nfb.dirty@.len() && #[trigger] nfb.dirty@[k].has_pixel(px, py)
}

/// A step that changes nothing reports nothing and loses nothing.
pub proof fn lemma_changes_marked_refl(a: Framebuffer)
    ensures
        changes_marked(a, a),
{
    assert(a.dirty@.subrange(0, a.dirty@.len() as int) =~= a.dirty@);
}

/// Reporting changes composes: what two steps changed, the two steps marked.
pub proof fn lemma_changes_marked_trans(a: Framebuffer, b: Framebuffer, c: Framebuffer)
    requires
        changes_marked(a, b),
        changes_marked(b, c),
    ensures
        changes_marked(a, c),
{
    assert(c.dirty@.subrange(0, a.dirty@.len() as int) =~= a.dirty@) by {
        assert forall|k: int| 0 <= k < a.dirty@.len() implies c.dirty@[k] == a.dirty@[k] by {
            assert(c.dirty@[k] == c.dirty@.subrange(0, b.dirty@.len() as int)[k]);
            assert(b.dirty@[k] == b.dirty@.subrange(0, a.dirty@.len() as int)[k]);
        }
    }
    assert forall|px: int, py: int|
        on_screen_pixel(px, py) && #[trigger] c.pixel(px, py) != a.pixel(px, py) implies exists|
            k: int,
        | a.dirty@.len() <= k < c.dirty@.len() && #[trigger] c.dirty@[k].has_pixel(px, py) by {
        if c.pixel(px, py) != b.pixel(px, py) {
            let k = choose|k: int|
                b.dirty@.len() <= k < c.dirty@.len() && #[trigger] c.dirty@[k].has_pixel(px, py);
            assert(c.dirty@[k].has_pixel(px, py));
        } else {
            assert(b.pixel(px, py) != a.pixel(px, py));
            let k = choose|k: int|
                a.dirty@.len() <= k < b.dirty@.len() && #[trigger] b.dirty@[k].has_pixel(px, py);
            assert(c.dirty@[k] == c.dirty@.subrange(0, b.dirty@.len() as int)[k]);
            assert(c.dirty@[k].has_pixel(px, py));
        }
    }
}

impl Framebuffer {
    /// Well-formedness: screen-sized buffer and on-screen, non-empty dirty regions.
    pub open spec fn wf(&self) -> bool {
        &&& self.width == W
        &&& self.height == H
        &&& self.buffer@.len() == W * H
        &&& forall|k: int| 0 <= k < self.dirty@.len() ==> dirty_ok(#[trigger] self.dirty@[k])
    }

    /// The pixel at `(px, py)`.
    pub open spec fn pixel(&self, px: int, py: int) -> u16 {
        self.buffer@[pixel_index(px, py)]
    }

    /// Create a headless framebuffer (no device file): all pixels black, no
    /// dirty regions.
    pub fn headless() -> (fb: Self)
        ensures
            fb.wf(),
            fb.dirty@.len() == 0,
            forall|i: int| 0 <= i < W * H ==> fb.buffer@[i] == 0,
    {
        let mut buffer: Vec<u16> = Vec::new();
        let n = W * H;
        while buffer.len() < n
            invariant
                n == W * H,
                buffer@.len() <= n,
                forall|i: int| 0 <= i < buffer@.len() ==> buffer@[i] == 0,
            decreases n - buffer@.len(),
        {
            buffer.push(0);
        }
        Framebuffer { width: W, height: H, buffer, dirty: Vec::new() }
    }

    /// Borrow the shadow buffer (read-only).
    pub fn buffer(&self) -> (r: &[u16])
        ensures
            r@ == self.buffer@,
    {
        self.buffer.as_slice()
    }

    /// Mark the entire screen dirty: the dirty list becomes the whole screen alone.
    pub fn mark_full_dirty(&mut self)
        requires
            old(self).wf(),
        ensures
            final(self).wf(),
            final(self).buffer@ == old(self).buffer@,
            final(self).dirty@ == seq![Rect { x1: 0, y1: 0, x2: W, y2: H }],
    {
        self.dirty.clear();
        self.dirty.push(Rect::new(0, 0, W, H));
    }

    /// Mark a rectangular region dirty. Coordinates are clamped to the screen;
    /// an empty region is dropped.
    pub fn mark_dirty(&mut self, rect: Rect)
        requires
            old(self).wf(),
        ensures
            final(self).wf(),
            final(self).buffer@ == old(self).buffer@,
            final(self).dirty@ == if dirty_ok(rect.clamped()) {
                old(self).dirty@.push(rect.clamped())
            } else {
                old(self).dirty@
            },
    {
        let mut r = rect;
        r.clamp_to_screen();
        if r.width() == 0 || r.height() == 0 {
            return;
        }
        self.dirty.push(r);
        assert forall|k: int| 0 <= k < self.dirty@.len() implies dirty_ok(#[trigger] self.dirty@[k]) by {
            if k < old(self).dirty@.len() {
                assert(self.dirty@[k] == old(self).dirty@[k]);
            }
        }
    }

    /// Draw a single pixel in RGB565; off-screen coordinates are ignored. A
    /// changed pixel is marked dirty.
    pub fn set_pixel(&mut self, x: usize, y: usize, rgb565: u16)
        requires
            old(self).wf(),
        ensures
            final(self).wf(),
            final(self).buffer@ == if x < W && y < H {
                old(self).buffer@.update(pixel_index(x as int, y as int), rgb565)
            } else {
                old(self).buffer@
            },
            final(self).dirty@ == if x < W && y < H && old(self).pixel(x as int, y as int)
                != rgb565 {
                old(self).dirty@.push(Rect { x1: x, y1: y, x2: (x + 1) as usize, y2: (y + 1) as usize })
            } else {
                old(self).dirty@
            },
    {
        if x >= W || y >= H {
            return;
        }
        let idx = y * W + x;
        if self.buffer[idx] != rgb565 {
            self.buffer.set(idx, rgb565);
            self.mark_dirty(Rect::new(x, y, x + 1, y + 1));
        } else {
            assert(self.buffer@.update(idx as int, rgb565) =~= self.buffer@);
        }
    }

    /// Clear the buffer to black and mark the whole screen dirty.
    pub fn clear(&mut self)
        requires
            old(self).wf(),
        ensures
            final(self).wf(),
            forall|i: int| 0 <= i < W * H ==> final(self).buffer@[i] == 0,
            final(self).dirty@ == seq![Rect { x1: 0, y1: 0, x2: W, y2: H }],
    {
        let n = self.buffer.len();
        let mut i: usize = 0;
        while i < n
            invariant
                n == self.buffer@.len(),
                n == W * H,
                i <= n,
                self.width == W,
                self.height == H,
                forall|k: int| 0 <= k < i ==> self.buffer@[k] == 0,
                forall|k: int| 0 <= k < self.dirty@.len() ==> dirty_ok(#[trigger] self.dirty@[k]),
            decreases n - i,
        {
            self.buffer.set(i, 0);
            i = i + 1;
        }
        self.mark_full_dirty();
    }

    /// Read-only view of the current dirty regions.
    pub fn dirty_rects(&self) -> (r: &[Rect])
        ensures
            r@ == self.dirty@,
    {
        self.dirty.as_slice()
    }

    /// Clear the dirty list without flushing.
    pub fn clear_dirty(&mut self)
        requires
            old(self).wf(),
        ensures
            final(self).wf(),
            final(self).buffer@ == old(self).buffer@,
            final(self).dirty@.len() == 0,
    {
        self.dirty.clear();
    }

    /// Whether two rectangles overlap (share at least one pixel).
    pub fn rects_overlap(a: &Rect, b: &Rect) -> (r: bool)
        ensures
            r == a.spec_overlaps(*b),
    {
        a.x1 < b.x2 && a.x2 > b.x1 && a.y1 < b.y2 && a.y2 > b.y1
    }

    /// Take the dirty regions for a flush: the dirty list is emptied and the
    /// regions are returned merged (rectangles that overlap are joined into
    /// their bounding box, in insertion order), together with the number of
    /// bytes they cover. The merged regions lie on the screen and cover the
    /// dirty regions tightly.
    pub fn take_merged_dirty(&mut self) -> (r: (Vec<Rect>, usize))
        requires
            old(self).wf(),
        ensures
            final(self).wf(),
            final(self).buffer@ == old(self).buffer@,
            final(self).dirty@.len() == 0,
            r.0@ == merge_all(old(self).dirty@),
            covers_tightly(r.0@, old(self).dirty@),
            forall|j: int| 0 <= j < r.0@.len() ==> dirty_ok(#[trigger] r.0@[j]),
            bytes_sum(r.0@) <= usize::MAX ==> r.1 == bytes_sum(r.0@),
    {
        let ghost rs = self.dirty@;
        let mut merged: Vec<Rect> = Vec::new();
        let mut n: usize = 0;
        while n < self.dirty.len()
            invariant
                n <= self.dirty@.len(),
                self.dirty@ == rs,
                merged@ == merge_all(rs.take(n as int)),
            decreases self.dirty@.len() - n,
        {
            let mut ins = self.dirty[n];
            let mut i: usize = 0;
            let ghost base = merged@;
            assert(rs.take(n + 1).drop_last() =~= rs.take(n as int));
            assert(rs.take(n + 1).last() == ins);
            while i < merged.len()
                invariant
                    n < rs.len(),
                    i <= merged@.len(),
                    merge_into(merged@, ins, i as int) == merge_into(base, rs[n as int], 0),
                decreases merged@.len() - i,
            {
                if Self::rects_overlap(&ins, &merged[i]) {
                    let m = merged.remove(i);
                    ins = ins.union(&m);
                } else {
                    i = i + 1;
                }
            }
            merged.push(ins);
            n = n + 1;
        }
        assert(rs.take(n as int) =~= rs);
        proof {
            lemma_merge_all_covers(rs);
            assert forall|j: int| 0 <= j < merged@.len() implies dirty_ok(#[trigger] merged@[j]) by {
                lemma_tight_on_screen(merged@[j], rs);
            }
        }
        self.dirty.clear();
        let mut total: usize = 0;
        let mut j: usize = 0;
        while j < merged.len()
            invariant
                j <= merged@.len(),
                forall|q: int| 0 <= q < merged@.len() ==> dirty_ok(#[trigger] merged@[q]),
                bytes_sum(merged@.take(j as int)) <= usize::MAX ==> total == bytes_sum(merged@.take(j as int)),
                total <= usize::MAX,
            decreases merged@.len() - j,
        {
            let r = merged[j];
            assert(dirty_ok(merged@[j as int]));
            assert(r.spec_width() <= W && r.spec_height() <= H);
            assert(r.spec_width() * r.spec_height() <= W * H) by (nonlinear_arith)
                requires r.spec_width() <= W, r.spec_height() <= H;
            let b = r.area() * 2;
            assert(merged@.take(j + 1).drop_last() =~= merged@.take(j as int));
            total = total.saturating_add(b);
            j = j + 1;
            assert(bytes_sum(merged@.take(j as int)) == bytes_sum(merged@.take(j - 1)) + rect_bytes(r));
        }
        assert(merged@.take(j as int) =~= merged@);
        (merged, total)
    }
    /// The pixels of row `y` of the on-screen rectangle `rect`, left to
    /// right: what a flush writes to the device at byte offset
    /// `(y * W + rect.x1) * 2`, each pixel in the machine's byte order.
    pub fn row_pixels(&self, rect: Rect, y: usize) -> (r: Vec<u16>)
        requires
            self.wf(),
            dirty_ok(rect),
            rect.y1 <= y < rect.y2,
        ensures
            r@.len() == rect.spec_width(),
            forall|px: int| rect.x1 <= px < rect.x2 ==> r@[px - rect.x1] == #[trigger] self.pixel(px, y as int),
    {
        let mut out: Vec<u16> = Vec::new();
        let mut x = rect.x1;
        while x < rect.x2
            invariant
                self.wf(),
                dirty_ok(rect),
                rect.y1 <= y < rect.y2,
                rect.x1 <= x <= rect.x2,
                out@.len() == x - rect.x1,
                forall|px: int| rect.x1 <= px < x ==> out@[px - rect.x1] == #[trigger] self.pixel(px, y as int),
            decreases rect.x2 - x,
        {
            assert(y * W + x < W * H) by (nonlinear_arith)
                requires
                    y < H,
                    x < W,
            ;
            out.push(self.buffer[y * W + x]);
            x = x + 1;
        }
        out
    }
}

} // verus!
