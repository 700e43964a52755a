//! 2D drawing primitives on the framebuffer shadow.
//!
//! RGB888 colours (0xRRGGBB) are converted to RGB565 on write. Every primitive
//! writes only the pixels it covers and marks the changed area dirty.

use vstd::prelude::*;
use crate::config::{H, W};
use crate::fb::{changes_marked, dirty_ok, on_screen_pixel, pixel_index, Framebuffer, Rect};

verus! {

// ---------------------------------------------------------------------------
// Colour conversion and blending.
// ---------------------------------------------------------------------------

/// Channel `shift/8` (0 = blue, 1 = green, 2 = red) of an 0xRRGGBB colour.
pub open spec fn channel(c: u32, shift: nat) -> nat {
    ((c as nat) / pow2_nat(shift)) % 256
}

pub open spec fn pow2_nat(shift: nat) -> nat {
    if shift == 16 {
        65536
    } else if shift == 8 {
        256
    } else {
        1
    }
}

/// RGB565 of an 0xRRGGBB colour: the top 5 bits of red, 6 of green, 5 of blue.
pub open spec fn rgb565_of(c: u32) -> u16 {
    ((channel(c, 16) / 8) * 2048 + (channel(c, 8) / 4) * 32 + channel(c, 0) / 8) as u16
}

/// 0xRRGGBB of an RGB565 pixel, each channel widened by repeating its top bits.
pub open spec fn rgb888_of(p: u16) -> u32 {
    let r5 = (p as nat) / 2048;
    let g6 = ((p as nat) / 32) % 64;
    let b5 = (p as nat) % 32;
    ((r5 * 8 + r5 / 4) * 65536 + (g6 * 4 + g6 / 16) * 256 + (b5 * 8 + b5 / 4)) as u32
}

/// One blended channel: `(bg * (255 - a) + fg * a) / 255`.
pub open spec fn blend_channel(bg: nat, fg: nat, a: nat) -> nat {
    ((bg * (255 - a) + fg * a) / 255) as nat
}

/// Alpha blend of `fg` over `bg` (both 0xRRGGBB).
pub open spec fn blend_of(bg: u32, fg: u32, alpha: u8) -> u32 {
    if alpha == 0 {
        bg
    } else if alpha == 255 {
        fg
    } else {
        (blend_channel(channel(bg, 16), channel(fg, 16), alpha as nat) * 65536 + blend_channel(
            channel(bg, 8),
            channel(fg, 8),
            alpha as nat,
        ) * 256 + blend_channel(channel(bg, 0), channel(fg, 0), alpha as nat)) as u32
    }
}

/// Convert 0xRRGGBB to RGB565.
pub fn rgb888_to_rgb565(c: u32) -> (r: u16)
    ensures
        r == rgb565_of(c),
{
    let r = ((c >> 16) & 0xff) as u16;
    let g = ((c >> 8) & 0xff) as u16;
    let b = (c & 0xff) as u16;
    let out = ((r & 0xf8) << 8) | ((g & 0xfc) << 3) | (b >> 3);
    assert(((c >> 16) & 0xff) == (c / 65536) % 256) by (bit_vector);
    assert(((c >> 8) & 0xff) == (c / 256) % 256) by (bit_vector);
    assert((c & 0xff) == c % 256) by (bit_vector);
    assert(r < 256 && g < 256 && b < 256);
    assert(((r & 0xf8) << 8) | ((g & 0xfc) << 3) | (b >> 3) == (r / 8) * 2048 + (g / 4) * 32 + b
        / 8) by (bit_vector)
        requires
            r < 256,
            g < 256,
            b < 256,
    ;
    out
}

/// Convert RGB565 to 0xRRGGBB.
pub fn rgb565_to_rgb888(c: u16) -> (r: u32)
    ensures
        r == rgb888_of(c),
{
    let r5 = (c >> 11) & 0x1f;
    let g6 = (c >> 5) & 0x3f;
    let b5 = c & 0x1f;
    let r = (r5 << 3) | (r5 >> 2);
    let g = (g6 << 2) | (g6 >> 4);
    let b = (b5 << 3) | (b5 >> 2);
    assert((c >> 11) & 0x1f == c / 2048) by (bit_vector);
    assert((c >> 5) & 0x3f == (c / 32) % 64) by (bit_vector);
    assert(c & 0x1f == c % 32) by (bit_vector);
    assert((r5 << 3) | (r5 >> 2) == r5 * 8 + r5 / 4) by (bit_vector)
        requires
            r5 < 32,
    ;
    assert((g6 << 2) | (g6 >> 4) == g6 * 4 + g6 / 16) by (bit_vector)
        requires
            g6 < 64,
    ;
    assert((b5 << 3) | (b5 >> 2) == b5 * 8 + b5 / 4) by (bit_vector)
        requires
            b5 < 32,
    ;
    let out = ((r as u32) << 16) | ((g as u32) << 8) | (b as u32);
    let (r32, g32, b32) = (r as u32, g as u32, b as u32);
    assert((r32 << 16) | (g32 << 8) | b32 == r32 * 65536 + g32 * 256 + b32) by (bit_vector)
        requires
            r32 < 256,
            g32 < 256,
            b32 < 256,
    ;
    out
}

/// Alpha blend `fg` (0xRRGGBB) over `bg` (0xRRGGBB), return 0xRRGGBB.
pub fn blend_rgb888(bg: u32, fg: u32, alpha: u8) -> (r: u32)
    ensures
        r == blend_of(bg, fg, alpha),
{
    if alpha == 0 {
        return bg;
    }
    if alpha == 255 {
        return fg;
    }
    let a = alpha as u32;
    let inv = 255 - a;
    let (br, bgc, bb) = ((bg >> 16) & 0xff, (bg >> 8) & 0xff, bg & 0xff);
    let (fr, fgc, fb) = ((fg >> 16) & 0xff, (fg >> 8) & 0xff, fg & 0xff);
    assert(((bg >> 16) & 0xff) == (bg / 65536) % 256) by (bit_vector);
    assert(((bg >> 8) & 0xff) == (bg / 256) % 256) by (bit_vector);
    assert((bg & 0xff) == bg % 256) by (bit_vector);
    assert(((fg >> 16) & 0xff) == (fg / 65536) % 256) by (bit_vector);
    assert(((fg >> 8) & 0xff) == (fg / 256) % 256) by (bit_vector);
    assert((fg & 0xff) == fg % 256) by (bit_vector);
    assert(br * inv + fr * a <= 255 * 255) by (nonlinear_arith)
        requires
            br < 256,
            fr < 256,
            inv + a == 255,
    ;
    assert(bgc * inv + fgc * a <= 255 * 255) by (nonlinear_arith)
        requires
            bgc < 256,
            fgc < 256,
            inv + a == 255,
    ;
    assert(bb * inv + fb * a <= 255 * 255) by (nonlinear_arith)
        requires
            bb < 256,
            fb < 256,
            inv + a == 255,
    ;
    let r = (br * inv + fr * a) / 255;
    let g = (bgc * inv + fgc * a) / 255;
    let b = (bb * inv + fb * a) / 255;
    assert((r << 16) | (g << 8) | b == r * 65536 + g * 256 + b) by (bit_vector)
        requires
            r < 256,
            g < 256,
            b < 256,
    ;
    (r << 16) | (g << 8) | b
}

/// Alpha blend of `fg` (0xRRGGBB) over an RGB565 pixel.
pub open spec fn blend_over_of(dst: u16, fg: u32, alpha: u8) -> u16 {
    if alpha == 0 {
        dst
    } else {
        rgb565_of(blend_of(rgb888_of(dst), fg, alpha))
    }
}

/// Alpha blend `fg` over the RGB565 pixel `dst`, returning RGB565.
pub fn blend_over_rgb565(dst: u16, fg: u32, alpha: u8) -> (r: u16)
    ensures
        r == blend_over_of(dst, fg, alpha),
{
    if alpha == 0 {
        return dst;
    }
    let bg = rgb565_to_rgb888(dst);
    rgb888_to_rgb565(blend_rgb888(bg, fg, alpha))
}

// ---------------------------------------------------------------------------
// Filled rectangles.
// ---------------------------------------------------------------------------

pub open spec fn max_int(a: int, b: int) -> int {
    if a >= b {
        a
    } else {
        b
    }
}

pub open spec fn min_int(a: int, b: int) -> int {
    if a <= b {
        a
    } else {
        b
    }
}

/// The pixel `(px, py)` is covered by the rectangle `x, y, w, h` (clipped to
/// the screen).
pub open spec fn in_fill(x: int, y: int, w: int, h: int, px: int, py: int) -> bool {
    &&& w > 0 && h > 0
    &&& max_int(x, 0) <= px < min_int(x + w, W as int)
    &&& max_int(y, 0) <= py < min_int(y + h, H as int)
}

/// `r` is the bounding box of the pixels inside `in_region` whose old value in
/// `ob` differs from `c`.
pub open spec fn changed_bbox(
    ob: Seq<u16>,
    c: u16,
    x1: int,
    y1: int,
    x2: int,
    y2: int,
    r: Rect,
) -> bool {
    &&& forall|px: int, py: int|
        x1 <= px < x2 && y1 <= py < y2 && ob[#[trigger] pixel_index(px, py)] != c ==> r.has_pixel(
            px,
            py,
        )
    &&& exists|px: int, py: int|
        x1 <= px < x2 && y1 <= py < y2 && ob[#[trigger] pixel_index(px, py)] != c && px == r.x1
    &&& exists|px: int, py: int|
        x1 <= px < x2 && y1 <= py < y2 && ob[#[trigger] pixel_index(px, py)] != c && px + 1 == r.x2
    &&& exists|px: int, py: int|
        x1 <= px < x2 && y1 <= py < y2 && ob[#[trigger] pixel_index(px, py)] != c && py == r.y1
    &&& exists|px: int, py: int|
        x1 <= px < x2 && y1 <= py < y2 && ob[#[trigger] pixel_index(px, py)] != c && py + 1 == r.y2
}

pub open spec fn any_changed(ob: Seq<u16>, c: u16, x1: int, y1: int, x2: int, y2: int) -> bool {
    exists|px: int, py: int|
        x1 <= px < x2 && y1 <= py < y2 && ob[#[trigger] pixel_index(px, py)] != c
}

/// Pixels of the screen in row-major order: `(px, py)` with `py * W + px == i`.
pub proof fn lemma_pixel_index(px: int, py: int)
    requires
        on_screen_pixel(px, py),
    ensures
        0 <= pixel_index(px, py) < W * H,
{
    assert(py * 480 + px < 480 * 320) by (nonlinear_arith)
        requires
            0 <= px < 480,
            0 <= py < 320,
    ;
    assert(0 <= py * 480 + px) by (nonlinear_arith)
        requires
            0 <= px < 480,
            0 <= py < 320,
    ;
}

pub proof fn lemma_pixel_index_inj(px: int, py: int, qx: int, qy: int)
    requires
        on_screen_pixel(px, py),
        on_screen_pixel(qx, qy),
        pixel_index(px, py) == pixel_index(qx, qy),
    ensures
        px == qx && py == qy,
{
    if py < qy {
        assert(py * 480 + px < qy * 480 + qx) by (nonlinear_arith)
            requires
                py < qy,
                0 <= px < 480,
                0 <= qx < 480,
        ;
    } else if py > qy {
        assert(py * 480 + px > qy * 480 + qx) by (nonlinear_arith)
            requires
                py > qy,
                0 <= px < 480,
                0 <= qx < 480,
        ;
    }
}

/// Processing order of a row-major scan: `(px, py)` comes before `(col, row)`.
pub open spec fn scanned(px: int, py: int, col: int, row: int) -> bool {
    py < row || (py == row && px < col)
}

/// The scan state of `fill_rect`: the dirty box covers exactly the changed
/// pixels scanned so far.
pub open spec fn scan_box(
    ob: Seq<u16>,
    c: u16,
    x1: int,
    y1: int,
    x2: int,
    y2: int,
    col: int,
    row: int,
    changed: bool,
    r: Rect,
) -> bool {
    &&& changed == exists|px: int, py: int|
        x1 <= px < x2 && y1 <= py < y2 && scanned(px, py, col, row) && ob[#[trigger] pixel_index(
            px,
            py,
        )] != c
    &&& changed ==> forall|px: int, py: int|
        x1 <= px < x2 && y1 <= py < y2 && scanned(px, py, col, row) && ob[#[trigger] pixel_index(
            px,
            py,
        )] != c ==> r.has_pixel(px, py)
    &&& changed ==> exists|px: int, py: int|
        x1 <= px < x2 && y1 <= py < y2 && scanned(px, py, col, row) && ob[#[trigger] pixel_index(
            px,
            py,
        )] != c && px == r.x1
    &&& changed ==> exists|px: int, py: int|
        x1 <= px < x2 && y1 <= py < y2 && scanned(px, py, col, row) && ob[#[trigger] pixel_index(
            px,
            py,
        )] != c && px + 1 == r.x2
    &&& changed ==> exists|px: int, py: int|
        x1 <= px < x2 && y1 <= py < y2 && scanned(px, py, col, row) && ob[#[trigger] pixel_index(
            px,
            py,
        )] != c && py == r.y1
    &&& changed ==> exists|px: int, py: int|
        x1 <= px < x2 && y1 <= py < y2 && scanned(px, py, col, row) && ob[#[trigger] pixel_index(
            px,
            py,
        )] != c && py + 1 == r.y2
}

/// Buffer state during the scan of `fill_rect`: scanned pixels of the region
/// hold `c`, all others their old value.
pub open spec fn filled_upto(
    buf: Seq<u16>,
    ob: Seq<u16>,
    c: u16,
    x1: int,
    y1: int,
    x2: int,
    y2: int,
    col: int,
    row: int,
) -> bool {
    &&& buf.len() == ob.len()
    &&& forall|px: int, py: int|
        on_screen_pixel(px, py) ==> #[trigger] buf[pixel_index(px, py)] == if x1 <= px < x2 && y1
            <= py < y2 && scanned(px, py, col, row) {
            c
        } else {
            ob[pixel_index(px, py)]
        }
}

/// `b` grown to include the pixel `(px, py)`.
pub open spec fn grow_box(b: Rect, px: usize, py: usize) -> Rect {
    Rect {
        x1: if px < b.x1 { px } else { b.x1 },
        x2: if px + 1 > b.x2 { (px + 1) as usize } else { b.x2 },
        y1: if py < b.y1 { py } else { b.y1 },
        y2: if py + 1 > b.y2 { (py + 1) as usize } else { b.y2 },
    }
}

pub open spec fn pixel_box(px: usize, py: usize) -> Rect {
    Rect { x1: px, x2: (px + 1) as usize, y1: py, y2: (py + 1) as usize }
}

proof fn lemma_filled_step(
    buf: Seq<u16>,
    ob: Seq<u16>,
    c: u16,
    x1: int,
    y1: int,
    x2: int,
    y2: int,
    pc: int,
    pr: int,
    nbuf: Seq<u16>,
)
    requires
        filled_upto(buf, ob, c, x1, y1, x2, y2, pc, pr),
        x1 <= pc < x2,
        y1 <= pr < y2,
        on_screen_pixel(pc, pr),
        ob.len() == W * H,
        nbuf == buf.update(pixel_index(pc, pr), c) || (nbuf == buf && ob[pixel_index(pc, pr)]
            == c),
    ensures
        filled_upto(nbuf, ob, c, x1, y1, x2, y2, pc + 1, pr),
{
    lemma_pixel_index(pc, pr);
    assert forall|px: int, py: int| on_screen_pixel(px, py) implies #[trigger] nbuf[pixel_index(
        px,
        py,
    )] == if x1 <= px < x2 && y1 <= py < y2 && scanned(px, py, pc + 1, pr) {
        c
    } else {
        ob[pixel_index(px, py)]
    } by {
        lemma_pixel_index(px, py);
        if pixel_index(px, py) == pixel_index(pc, pr) {
            lemma_pixel_index_inj(px, py, pc, pr);
        }
    }
}

proof fn lemma_scan_step(
    ob: Seq<u16>,
    c: u16,
    x1: int,
    y1: int,
    x2: int,
    y2: int,
    pc: usize,
    pr: usize,
    was: bool,
    b: Rect,
    now: bool,
    nb: Rect,
)
    requires
        scan_box(ob, c, x1, y1, x2, y2, pc as int, pr as int, was, b),
        x1 <= pc < x2,
        y1 <= pr < y2,
        0 <= x1,
        0 <= y1,
        x2 <= W,
        y2 <= H,
        ob.len() == W * H,
        now == (was || ob[pixel_index(pc as int, pr as int)] != c),
        ob[pixel_index(pc as int, pr as int)] != c ==> nb == if was {
            grow_box(b, pc, pr)
        } else {
            pixel_box(pc, pr)
        },
        ob[pixel_index(pc as int, pr as int)] == c ==> nb == b,
    ensures
        scan_box(ob, c, x1, y1, x2, y2, pc + 1, pr as int, now, nb),
{
    let pci = pc as int;
    let pri = pr as int;
    lemma_pixel_index(pci, pri);
    assert forall|px: int, py: int| #![trigger pixel_index(px, py)]
        scanned(px, py, pci + 1, pri) <==> (scanned(px, py, pci, pri) || (px == pci && py
            == pri)) by {}
    let hit = ob[pixel_index(pci, pri)] != c;
    if hit {
        assert(x1 <= pci < x2 && y1 <= pri < y2 && scanned(pci, pri, pci + 1, pri) && ob[pixel_index(pci, pri)] != c);
    }
    if was {
        let a1 = choose|px: int, py: int|
            x1 <= px < x2 && y1 <= py < y2 && scanned(px, py, pci, pri) && ob[#[trigger] pixel_index(px, py)] != c && px == b.x1;
        let a2 = choose|px: int, py: int|
            x1 <= px < x2 && y1 <= py < y2 && scanned(px, py, pci, pri) && ob[#[trigger] pixel_index(px, py)] != c && px + 1 == b.x2;
        let a3 = choose|px: int, py: int|
            x1 <= px < x2 && y1 <= py < y2 && scanned(px, py, pci, pri) && ob[#[trigger] pixel_index(px, py)] != c && py == b.y1;
        let a4 = choose|px: int, py: int|
            x1 <= px < x2 && y1 <= py < y2 && scanned(px, py, pci, pri) && ob[#[trigger] pixel_index(px, py)] != c && py + 1 == b.y2;
        assert(scanned(a1.0, a1.1, pci + 1, pri));
        assert(scanned(a2.0, a2.1, pci + 1, pri));
        assert(scanned(a3.0, a3.1, pci + 1, pri));
        assert(scanned(a4.0, a4.1, pci + 1, pri));
        assert(b.has_pixel(a1.0, a1.1));
        assert(b.has_pixel(a3.0, a3.1));
        if hit {
            if nb.x1 == b.x1 {
                assert(ob[pixel_index(a1.0, a1.1)] != c && a1.0 == nb.x1);
            }
            if nb.x2 == b.x2 {
                assert(ob[pixel_index(a2.0, a2.1)] != c && a2.0 + 1 == nb.x2);
            }
            if nb.y1 == b.y1 {
                assert(ob[pixel_index(a3.0, a3.1)] != c && a3.1 == nb.y1);
            }
            if nb.y2 == b.y2 {
                assert(ob[pixel_index(a4.0, a4.1)] != c && a4.1 + 1 == nb.y2);
            }
        }
        assert forall|px: int, py: int|
            x1 <= px < x2 && y1 <= py < y2 && scanned(px, py, pci + 1, pri) && ob[#[trigger] pixel_index(px, py)] != c implies nb.has_pixel(px, py) by {
            if !(px == pci && py == pri) {
                assert(scanned(px, py, pci, pri));
                assert(b.has_pixel(px, py));
            } else {
                assert(hit);
                assert(nb == grow_box(b, pc, pr));
            }
        }
    } else {
        if hit {
            assert forall|px: int, py: int|
                x1 <= px < x2 && y1 <= py < y2 && scanned(px, py, pci + 1, pri) && ob[#[trigger] pixel_index(px, py)] != c implies nb.has_pixel(px, py) by {
                if !(px == pci && py == pri) {
                    assert(scanned(px, py, pci, pri));
                    assert(x1 <= px < x2 && y1 <= py < y2 && scanned(px, py, pci, pri) && ob[pixel_index(px, py)] != c);
                    assert(false);
                } else {
                    assert(nb == pixel_box(pc, pr));
                }
            }
        } else {
            assert forall|px: int, py: int|
                !(x1 <= px < x2 && y1 <= py < y2 && scanned(px, py, pci + 1, pri) && ob[#[trigger] pixel_index(px, py)] != c) by {
                if x1 <= px < x2 && y1 <= py < y2 && scanned(px, py, pci + 1, pri) && !(px == pci && py == pri) {
                    assert(scanned(px, py, pci, pri));
                }
            }
        }
    }
}

proof fn lemma_scan_row(
    ob: Seq<u16>,
    buf: Seq<u16>,
    c: u16,
    x1: int,
    y1: int,
    x2: int,
    y2: int,
    row: int,
    changed: bool,
    b: Rect,
)
    requires
        scan_box(ob, c, x1, y1, x2, y2, x2, row, changed, b),
        filled_upto(buf, ob, c, x1, y1, x2, y2, x2, row),
        x1 < x2,
    ensures
        scan_box(ob, c, x1, y1, x2, y2, x1, row + 1, changed, b),
        filled_upto(buf, ob, c, x1, y1, x2, y2, x1, row + 1),
{
    assert forall|px: int, py: int| #![trigger pixel_index(px, py)]
        x1 <= px < x2 ==> (scanned(px, py, x1, row + 1) <==> scanned(px, py, x2, row)) by {}
    if changed {
        let a1 = choose|px: int, py: int|
            x1 <= px < x2 && y1 <= py < y2 && scanned(px, py, x2, row) && ob[#[trigger] pixel_index(px, py)] != c && px == b.x1;
        let a2 = choose|px: int, py: int|
            x1 <= px < x2 && y1 <= py < y2 && scanned(px, py, x2, row) && ob[#[trigger] pixel_index(px, py)] != c && px + 1 == b.x2;
        let a3 = choose|px: int, py: int|
            x1 <= px < x2 && y1 <= py < y2 && scanned(px, py, x2, row) && ob[#[trigger] pixel_index(px, py)] != c && py == b.y1;
        let a4 = choose|px: int, py: int|
            x1 <= px < x2 && y1 <= py < y2 && scanned(px, py, x2, row) && ob[#[trigger] pixel_index(px, py)] != c && py + 1 == b.y2;
        assert(scanned(a1.0, a1.1, x1, row + 1));
        assert(scanned(a2.0, a2.1, x1, row + 1));
        assert(scanned(a3.0, a3.1, x1, row + 1));
        assert(scanned(a4.0, a4.1, x1, row + 1));
    }
}

proof fn lemma_scan_done(
    ob: Seq<u16>,
    c: u16,
    x1: int,
    y1: int,
    x2: int,
    y2: int,
    changed: bool,
    b: Rect,
)
    requires
        scan_box(ob, c, x1, y1, x2, y2, x1, y2, changed, b),
    ensures
        changed == any_changed(ob, c, x1, y1, x2, y2),
        changed ==> changed_bbox(ob, c, x1, y1, x2, y2, b),
{
    assert forall|px: int, py: int| #![trigger pixel_index(px, py)]
        y1 <= py < y2 ==> scanned(px, py, x1, y2) by {}
    if changed {
        let a1 = choose|px: int, py: int|
            x1 <= px < x2 && y1 <= py < y2 && scanned(px, py, x1, y2) && ob[#[trigger] pixel_index(px, py)] != c && px == b.x1;
        let a2 = choose|px: int, py: int|
            x1 <= px < x2 && y1 <= py < y2 && scanned(px, py, x1, y2) && ob[#[trigger] pixel_index(px, py)] != c && px + 1 == b.x2;
        let a3 = choose|px: int, py: int|
            x1 <= px < x2 && y1 <= py < y2 && scanned(px, py, x1, y2) && ob[#[trigger] pixel_index(px, py)] != c && py == b.y1;
        let a4 = choose|px: int, py: int|
            x1 <= px < x2 && y1 <= py < y2 && scanned(px, py, x1, y2) && ob[#[trigger] pixel_index(px, py)] != c && py + 1 == b.y2;
        assert(ob[pixel_index(a1.0, a1.1)] != c);
        assert(ob[pixel_index(a2.0, a2.1)] != c);
        assert(ob[pixel_index(a3.0, a3.1)] != c);
        assert(ob[pixel_index(a4.0, a4.1)] != c);
    }
}

proof fn lemma_fill_final(
    buf: Seq<u16>,
    ob: Seq<u16>,
    c: u16,
    x: int,
    y: int,
    w: int,
    h: int,
    x1: int,
    y1: int,
    x2: int,
    y2: int,
)
    requires
        filled_upto(buf, ob, c, x1, y1, x2, y2, x1, y2),
        w > 0 && h > 0,
        x1 == max_int(x, 0),
        y1 == max_int(y, 0),
        x2 == min_int(x + w, W as int),
        y2 == min_int(y + h, H as int),
    ensures
        forall|px: int, py: int|
            on_screen_pixel(px, py) ==> #[trigger] buf[pixel_index(px, py)] == if in_fill(x, y, w, h, px, py) {
                c
            } else {
                ob[pixel_index(px, py)]
            },
{
    assert forall|px: int, py: int| on_screen_pixel(px, py) implies #[trigger] buf[pixel_index(px, py)] == if in_fill(x, y, w, h, px, py) {
        c
    } else {
        ob[pixel_index(px, py)]
    } by {
        if y1 <= py < y2 {
            assert(scanned(px, py, x1, y2));
        }
    }
}

/// What `fill_rect(x, y, w, h, color)` does to a framebuffer `ofb`, giving
/// `nfb`: the covered on-screen pixels take the colour, the others keep
/// theirs, and when any covered pixel changed, the bounding box of the
/// changed pixels is appended to the dirty list (else it is unchanged).
pub open spec fn fill_rect_post(
    ofb: Framebuffer,
    nfb: Framebuffer,
    x: i32,
    y: i32,
    w: i32,
    h: i32,
    color: u32,
) -> bool {
    &&& nfb.wf()
    &&& forall|px: int, py: int|
        on_screen_pixel(px, py) ==> #[trigger] nfb.pixel(px, py) == if in_fill(
            x as int,
            y as int,
            w as int,
            h as int,
            px,
            py,
        ) {
            rgb565_of(color)
        } else {
            ofb.pixel(px, py)
        }
    &&& ({
        let x1 = max_int(x as int, 0);
        let y1 = max_int(y as int, 0);
        let x2 = min_int(x + w, W as int);
        let y2 = min_int(y + h, H as int);
        if w > 0 && h > 0 && any_changed(ofb.buffer@, rgb565_of(color), x1, y1, x2, y2) {
            nfb.dirty@.len() == ofb.dirty@.len() + 1 && nfb.dirty@.drop_last() == ofb.dirty@
                && changed_bbox(ofb.buffer@, rgb565_of(color), x1, y1, x2, y2, nfb.dirty@.last())
        } else {
            nfb.dirty@ == ofb.dirty@
        }
    })
}

/// Draw a filled rectangle in RGB888 colour, clipped to the screen. Only
/// pixels whose value changes are written; the bounding box of the changed
/// pixels is marked dirty.
#[verifier::rlimit(40)]
pub fn fill_rect(fb: &mut Framebuffer, x: i32, y: i32, w: i32, h: i32, color: u32)
    requires
        old(fb).wf(),
    ensures
        fill_rect_post(*old(fb), *final(fb), x, y, w, h, color),
{
    let ghost ob = fb.buffer@;
    let ghost od = fb.dirty@;
    let c = rgb888_to_rgb565(color);
    if w <= 0 || h <= 0 {
        return;
    }
    let x1: usize = if x > 0 { x as usize } else { 0 };
    let y1: usize = if y > 0 { y as usize } else { 0 };
    let xe: i64 = x as i64 + w as i64;
    let ye: i64 = y as i64 + h as i64;
    let x2: usize = if xe <= 0 { 0 } else if xe < W as i64 { xe as usize } else { W };
    let y2: usize = if ye <= 0 { 0 } else if ye < H as i64 { ye as usize } else { H };
    if x1 >= x2 || y1 >= y2 {
        return;
    }
    let mut changed = false;
    let mut dx1: usize = x2;
    let mut dx2: usize = x1;
    let mut dy1: usize = y2;
    let mut dy2: usize = y1;
    let mut row = y1;
    while row < y2
        invariant
            x1 < x2 <= W,
            y1 <= row <= y2 <= H,
            fb.wf(),
            fb.dirty@ == od,
            ob.len() == W * H,
            filled_upto(fb.buffer@, ob, c, x1 as int, y1 as int, x2 as int, y2 as int, x1 as int, row as int),
            scan_box(ob, c, x1 as int, y1 as int, x2 as int, y2 as int, x1 as int, row as int, changed, Rect { x1: dx1, y1: dy1, x2: dx2, y2: dy2 }),
            dx1 <= W && dx2 <= W && dy1 <= H && dy2 <= H,
        decreases y2 - row,
    {
        let mut col = x1;
        while col < x2
            invariant
                x1 <= col <= x2 <= W,
                y1 <= row < y2 <= H,
                fb.wf(),
                fb.dirty@ == od,
                ob.len() == W * H,
                filled_upto(fb.buffer@, ob, c, x1 as int, y1 as int, x2 as int, y2 as int, col as int, row as int),
                scan_box(ob, c, x1 as int, y1 as int, x2 as int, y2 as int, col as int, row as int, changed, Rect { x1: dx1, y1: dy1, x2: dx2, y2: dy2 }),
                dx1 <= W && dx2 <= W && dy1 <= H && dy2 <= H,
            decreases x2 - col,
        {
            proof {
                lemma_pixel_index(col as int, row as int);
            }
            let idx = row * W + col;
            let ghost buf0 = fb.buffer@;
            let ghost was = changed;
            let ghost b0 = Rect { x1: dx1, y1: dy1, x2: dx2, y2: dy2 };
            let old_px = fb.buffer[idx];
            assert(old_px == ob[pixel_index(col as int, row as int)]);
            if old_px != c {
                fb.buffer.set(idx, c);
                if !changed {
                    dx1 = col;
                    dx2 = col + 1;
                    dy1 = row;
                    dy2 = row + 1;
                } else {
                    if col < dx1 {
                        dx1 = col;
                    }
                    if col + 1 > dx2 {
                        dx2 = col + 1;
                    }
                    if row < dy1 {
                        dy1 = row;
                    }
                    if row + 1 > dy2 {
                        dy2 = row + 1;
                    }
                }
                changed = true;
            }
            proof {
                lemma_filled_step(buf0, ob, c, x1 as int, y1 as int, x2 as int, y2 as int, col as int, row as int, fb.buffer@);
                lemma_scan_step(ob, c, x1 as int, y1 as int, x2 as int, y2 as int, col, row, was, b0, changed, Rect { x1: dx1, y1: dy1, x2: dx2, y2: dy2 });
            }
            col = col + 1;
        }
        proof {
            lemma_scan_row(ob, fb.buffer@, c, x1 as int, y1 as int, x2 as int, y2 as int, row as int, changed, Rect { x1: dx1, y1: dy1, x2: dx2, y2: dy2 });
        }
        row = row + 1;
    }
    proof {
        lemma_scan_done(ob, c, x1 as int, y1 as int, x2 as int, y2 as int, changed, Rect { x1: dx1, y1: dy1, x2: dx2, y2: dy2 });
        lemma_fill_final(fb.buffer@, ob, c, x as int, y as int, w as int, h as int, x1 as int, y1 as int, x2 as int, y2 as int);
    }
    if changed {
        let r = Rect::new(dx1, dy1, dx2, dy2);
        proof {
            let a1 = choose|px: int, py: int| x1 <= px < x2 && y1 <= py < y2 && ob[#[trigger] pixel_index(px, py)] != c && px == r.x1;
            let a3 = choose|px: int, py: int| x1 <= px < x2 && y1 <= py < y2 && ob[#[trigger] pixel_index(px, py)] != c && py == r.y1;
            assert(r.has_pixel(a1.0, a1.1));
            assert(r.has_pixel(a3.0, a3.1));
            assert(dirty_ok(r));
            assert(r.clamped() == r);
        }
        fb.mark_dirty(r);
        assert(fb.dirty@.drop_last() =~= od);
    }
}

// ---------------------------------------------------------------------------
// Lines.
// ---------------------------------------------------------------------------

pub open spec fn abs_int(a: int) -> int {
    if a < 0 {
        -a
    } else {
        a
    }
}

pub open spec fn step_dir(from: int, to: int) -> int {
    if from < to {
        1
    } else {
        -1
    }
}

/// One Bresenham step from the state `(x, y, err)` towards `(x2, y2)`.
pub open spec fn line_step(s: (int, int, int), x1: int, y1: int, x2: int, y2: int) -> (int, int, int) {
    let dx = abs_int(x2 - x1);
    let dy = abs_int(y2 - y1);
    let e2 = 2 * s.2;
    let (x, err1) = if e2 > -dy {
        (s.0 + step_dir(x1, x2), s.2 - dy)
    } else {
        (s.0, s.2)
    };
    if e2 < dx {
        (x, s.1 + step_dir(y1, y2), err1 + dx)
    } else {
        (x, s.1, err1)
    }
}

/// Bresenham state after `k` steps of the line from `(x1, y1)` to `(x2, y2)`.
pub open spec fn line_pos(x1: int, y1: int, x2: int, y2: int, k: nat) -> (int, int, int)
    decreases k,
{
    if k == 0 {
        (x1, y1, abs_int(x2 - x1) - abs_int(y2 - y1))
    } else {
        line_step(line_pos(x1, y1, x2, y2, (k - 1) as nat), x1, y1, x2, y2)
    }
}

/// The line from `(x1, y1)` reaches `(x2, y2)` after exactly `n` steps.
pub open spec fn line_ends_at(x1: int, y1: int, x2: int, y2: int, n: nat) -> bool {
    &&& line_pos(x1, y1, x2, y2, n).0 == x2 && line_pos(x1, y1, x2, y2, n).1 == y2
    &&& forall|k: nat| k < n ==> !(#[trigger] line_pos(x1, y1, x2, y2, k).0 == x2 && line_pos(x1, y1, x2, y2, k).1 == y2)
}

/// The pixel `(px, py)` is one of the first `n + 1` points of the line.
pub open spec fn on_line(x1: int, y1: int, x2: int, y2: int, n: nat, px: int, py: int) -> bool {
    exists|k: nat| k <= n && #[trigger] line_pos(x1, y1, x2, y2, k).0 == px && line_pos(x1, y1, x2, y2, k).1 == py
}

/// Dirty box used by `draw_line`: the endpoints' bounding box, clamped.
pub open spec fn line_box(x1: int, y1: int, x2: int, y2: int) -> Rect {
    Rect {
        x1: max_int(min_int(x1, x2), 0) as usize,
        y1: max_int(min_int(y1, y2), 0) as usize,
        x2: min_int(max_int(max_int(x1, x2), 0) + 1, W as int) as usize,
        y2: min_int(max_int(max_int(y1, y2), 0) + 1, H as int) as usize,
    }
}

/// Invariant of the Bresenham loop after `k` steps: `i`/`j` steps taken along x/y.
pub open spec fn line_inv(x1: int, y1: int, x2: int, y2: int, k: nat, i: int, j: int) -> bool {
    let dx = abs_int(x2 - x1);
    let dy = abs_int(y2 - y1);
    let s = line_pos(x1, y1, x2, y2, k);
    &&& 0 <= i <= dx
    &&& 0 <= j <= dy
    &&& s.0 == x1 + step_dir(x1, x2) * i
    &&& s.1 == y1 + step_dir(y1, y2) * j
    &&& s.2 == dx - dy - i * dy + j * dx
    &&& -2 * dy <= s.2 <= 2 * dx
}

proof fn lemma_line_step(x1: int, y1: int, x2: int, y2: int, k: nat, i: int, j: int)
    requires
        line_inv(x1, y1, x2, y2, k, i, j),
        !(i == abs_int(x2 - x1) && j == abs_int(y2 - y1)),
    ensures
        ({
            let s = line_pos(x1, y1, x2, y2, k);
            let dx = abs_int(x2 - x1);
            let dy = abs_int(y2 - y1);
            let xi = if 2 * s.2 > -dy { i + 1 } else { i };
            let yj = if 2 * s.2 < dx { j + 1 } else { j };
            &&& line_inv(x1, y1, x2, y2, k + 1, xi, yj)
            &&& xi + yj > i + j
        }),
{
    let s = line_pos(x1, y1, x2, y2, k);
    let dx = abs_int(x2 - x1);
    let dy = abs_int(y2 - y1);
    let sx = step_dir(x1, x2);
    let sy = step_dir(y1, y2);
    let err = s.2;
    let s2 = line_pos(x1, y1, x2, y2, k + 1);
    assert(s2 == line_step(s, x1, y1, x2, y2));
    let xstep = 2 * err > -dy;
    let ystep = 2 * err < dx;
    let xi = if xstep { i + 1 } else { i };
    let yj = if ystep { j + 1 } else { j };
    if i == dx && j < dy {
        assert(dx * (1 + j - dy) <= 0) by (nonlinear_arith)
            requires
                dx >= 0,
                1 + j - dy <= 0,
        ;
        assert(err == dx * (1 + j - dy) - dy) by (nonlinear_arith)
            requires
                err == dx - dy - i * dy + j * dx,
                i == dx,
        ;
        assert(!xstep);
    }
    if j == dy && i < dx {
        assert(dy * (1 + i) <= dy * dx) by (nonlinear_arith)
            requires
                dy >= 0,
                1 + i <= dx,
        ;
        assert(err >= dx) by (nonlinear_arith)
            requires
                err == dx - dy - i * dy + j * dx,
                j == dy,
                dy * (1 + i) <= dy * dx,
        ;
        assert(!ystep);
    }
    assert(xi <= dx);
    assert(yj <= dy);
    assert(xstep || ystep);
    let err2 = (if xstep { err - dy } else { err }) + (if ystep { dx } else { 0 });
    assert(s2.2 == err2);
    assert(s2.0 == s.0 + (if xstep { sx } else { 0 }));
    assert(s2.1 == s.1 + (if ystep { sy } else { 0 }));
    assert(sx * (i + 1) == sx * i + sx) by (nonlinear_arith);
    assert(sy * (j + 1) == sy * j + sy) by (nonlinear_arith);
    assert(s2.0 == x1 + sx * xi);
    assert(s2.1 == y1 + sy * yj);
    assert((i + 1) * dy == i * dy + dy) by (nonlinear_arith);
    assert((j + 1) * dx == j * dx + dx) by (nonlinear_arith);
    assert(err2 == dx - dy - xi * dy + yj * dx);
    assert(-2 * dy <= err2 <= 2 * dx);
}

proof fn lemma_line_done(x1: int, y1: int, x2: int, y2: int, k: nat, i: int, j: int)
    requires
        line_inv(x1, y1, x2, y2, k, i, j),
    ensures
        (line_pos(x1, y1, x2, y2, k).0 == x2 && line_pos(x1, y1, x2, y2, k).1 == y2) <==> (i
            == abs_int(x2 - x1) && j == abs_int(y2 - y1)),
{
    let sx = step_dir(x1, x2);
    let sy = step_dir(y1, y2);
    if x1 < x2 {
        assert(sx == 1);
        assert(sx * i == i) by (nonlinear_arith)
            requires
                sx == 1,
        ;
    } else {
        assert(sx == -1);
        assert(sx * i == -i) by (nonlinear_arith)
            requires
                sx == -1,
        ;
    }
    if y1 < y2 {
        assert(sy == 1);
        assert(sy * j == j) by (nonlinear_arith)
            requires
                sy == 1,
        ;
    } else {
        assert(sy == -1);
        assert(sy * j == -j) by (nonlinear_arith)
            requires
                sy == -1,
        ;
    }
}

/// Draw a line from `(x1, y1)` to `(x2, y2)` with Bresenham's algorithm: the
/// on-screen points of the line take the colour, every other pixel keeps its
/// value. When a pixel changed, the endpoints' bounding box (clamped) is
/// marked dirty. A zero-length line draws nothing.
pub fn draw_line(fb: &mut Framebuffer, x1: i32, y1: i32, x2: i32, y2: i32, color: u32)
    requires
        old(fb).wf(),
    ensures
        final(fb).wf(),
        x1 == x2 && y1 == y2 ==> final(fb).buffer@ == old(fb).buffer@ && final(fb).dirty@ == old(fb).dirty@,
        !(x1 == x2 && y1 == y2) ==> exists|n: nat| {
            &&& line_ends_at(x1 as int, y1 as int, x2 as int, y2 as int, n)
            &&& forall|px: int, py: int|
                on_screen_pixel(px, py) ==> #[trigger] final(fb).pixel(px, py) == if on_line(
                    x1 as int,
                    y1 as int,
                    x2 as int,
                    y2 as int,
                    n,
                    px,
                    py,
                ) {
                    rgb565_of(color)
                } else {
                    old(fb).pixel(px, py)
                }
            &&& final(fb).dirty@ == if (exists|px: int, py: int|
                on_screen_pixel(px, py) && on_line(x1 as int, y1 as int, x2 as int, y2 as int, n, px, py)
                    && old(fb).pixel(px, py) != rgb565_of(color)) && dirty_ok(
                line_box(x1 as int, y1 as int, x2 as int, y2 as int),
            ) {
                old(fb).dirty@.push(line_box(x1 as int, y1 as int, x2 as int, y2 as int))
            } else {
                old(fb).dirty@
            }
        },
{
    if x1 == x2 && y1 == y2 {
        return;
    }
    let ghost ob = fb.buffer@;
    let ghost od = fb.dirty@;
    let ghost (gx1, gy1, gx2, gy2) = (x1 as int, y1 as int, x2 as int, y2 as int);
    let c = rgb888_to_rgb565(color);
    let dx: i64 = if x2 as i64 >= x1 as i64 { x2 as i64 - x1 as i64 } else { x1 as i64 - x2 as i64 };
    let dy: i64 = if y2 as i64 >= y1 as i64 { y2 as i64 - y1 as i64 } else { y1 as i64 - y2 as i64 };
    let sx: i32 = if x1 < x2 { 1 } else { -1 };
    let sy: i32 = if y1 < y2 { 1 } else { -1 };
    let mut err: i64 = dx - dy;
    let mut x = x1;
    let mut y = y1;
    let mut changed = false;
    let ghost mut k: nat = 0;
    let ghost mut i: int = 0;
    let ghost mut j: int = 0;
    let ghost mut p: nat = 0;
    loop
        invariant_except_break
            p == k,
        invariant
            fb.wf(),
            fb.dirty@ == od,
            ob.len() == W * H,
            gx1 == x1 && gy1 == y1 && gx2 == x2 && gy2 == y2,
            !(x1 == x2 && y1 == y2),
            dx == abs_int(gx2 - gx1),
            dy == abs_int(gy2 - gy1),
            sx == step_dir(gx1, gx2),
            sy == step_dir(gy1, gy2),
            line_inv(gx1, gy1, gx2, gy2, k, i, j),
            line_pos(gx1, gy1, gx2, gy2, k) == (x as int, y as int, err as int),
            forall|q: nat| q < k ==> !(#[trigger] line_pos(gx1, gy1, gx2, gy2, q).0 == gx2 && line_pos(gx1, gy1, gx2, gy2, q).1 == gy2),
            forall|px: int, py: int|
                on_screen_pixel(px, py) ==> #[trigger] fb.buffer@[pixel_index(px, py)] == if (exists|q: nat|
                    q < p && #[trigger] line_pos(gx1, gy1, gx2, gy2, q).0 == px && line_pos(gx1, gy1, gx2, gy2, q).1 == py) {
                    c
                } else {
                    ob[pixel_index(px, py)]
                },
            changed == exists|px: int, py: int|
                on_screen_pixel(px, py) && (exists|q: nat|
                    q < p && #[trigger] line_pos(gx1, gy1, gx2, gy2, q).0 == px && line_pos(gx1, gy1, gx2, gy2, q).1 == py)
                    && ob[#[trigger] pixel_index(px, py)] != c,
        ensures
            p == k + 1,
            x == x2 && y == y2,
        decreases (dx - i) + (dy - j),
    {
        let ghost before = fb.buffer@;
        if x >= 0 && x < W as i32 && y >= 0 && y < H as i32 {
            proof {
                lemma_pixel_index(x as int, y as int);
            }
            let idx = (y as usize) * W + (x as usize);
            if fb.buffer[idx] != c {
                fb.buffer.set(idx, c);
                changed = true;
            }
        }
        proof {
            let (px0, py0) = (x as int, y as int);
            assert(line_pos(gx1, gy1, gx2, gy2, k).0 == px0 && line_pos(gx1, gy1, gx2, gy2, k).1 == py0);
            assert forall|px: int, py: int| on_screen_pixel(px, py) implies #[trigger] fb.buffer@[pixel_index(px, py)] == if (exists|q: nat|
                q < k + 1 && #[trigger] line_pos(gx1, gy1, gx2, gy2, q).0 == px && line_pos(gx1, gy1, gx2, gy2, q).1 == py) {
                c
            } else {
                ob[pixel_index(px, py)]
            } by {
                lemma_pixel_index(px, py);
                if px == px0 && py == py0 {
                } else {
                    if on_screen_pixel(px0, py0) {
                        lemma_pixel_index(px0, py0);
                        if pixel_index(px, py) == pixel_index(px0, py0) {
                            lemma_pixel_index_inj(px, py, px0, py0);
                        }
                    }
                    if exists|q: nat| q < k + 1 && #[trigger] line_pos(gx1, gy1, gx2, gy2, q).0 == px && line_pos(gx1, gy1, gx2, gy2, q).1 == py {
                        let q = choose|q: nat| q < k + 1 && #[trigger] line_pos(gx1, gy1, gx2, gy2, q).0 == px && line_pos(gx1, gy1, gx2, gy2, q).1 == py;
                        assert(q < k);
                    }
                }
            }
            let new_changed = exists|px: int, py: int|
                on_screen_pixel(px, py) && (exists|q: nat|
                    q < k + 1 && #[trigger] line_pos(gx1, gy1, gx2, gy2, q).0 == px && line_pos(gx1, gy1, gx2, gy2, q).1 == py)
                    && ob[#[trigger] pixel_index(px, py)] != c;
            if new_changed {
                let (px, py) = choose|px: int, py: int|
                    on_screen_pixel(px, py) && (exists|q: nat|
                        q < k + 1 && #[trigger] line_pos(gx1, gy1, gx2, gy2, q).0 == px && line_pos(gx1, gy1, gx2, gy2, q).1 == py)
                        && ob[#[trigger] pixel_index(px, py)] != c;
                let q = choose|q: nat| q < k + 1 && #[trigger] line_pos(gx1, gy1, gx2, gy2, q).0 == px && line_pos(gx1, gy1, gx2, gy2, q).1 == py;
                if q == k {
                    assert(px == px0 && py == py0);
                    lemma_pixel_index(px, py);
                    if !(exists|q2: nat| q2 < k && #[trigger] line_pos(gx1, gy1, gx2, gy2, q2).0 == px && line_pos(gx1, gy1, gx2, gy2, q2).1 == py) {
                        assert(before[pixel_index(px, py)] == ob[pixel_index(px, py)]);
                        assert(changed);
                    } else {
                        assert(changed);
                    }
                } else {
                    assert(changed);
                }
            } else {
                if changed {
                    let (px, py) = choose|px: int, py: int|
                        on_screen_pixel(px, py) && (exists|q: nat|
                            q < k && #[trigger] line_pos(gx1, gy1, gx2, gy2, q).0 == px && line_pos(gx1, gy1, gx2, gy2, q).1 == py)
                            && ob[#[trigger] pixel_index(px, py)] != c;
                    let q = choose|q: nat| q < k && #[trigger] line_pos(gx1, gy1, gx2, gy2, q).0 == px && line_pos(gx1, gy1, gx2, gy2, q).1 == py;
                    assert(q < k + 1);
                    assert(false);
                }
            }
            assert(changed == new_changed);
            lemma_line_done(gx1, gy1, gx2, gy2, k, i, j);
            p = k + 1;
        }
        if x == x2 && y == y2 {
            break;
        }
        proof {
            lemma_line_step(gx1, gy1, gx2, gy2, k, i, j);
        }
        let e2 = 2 * err;
        if e2 > -dy {
            err = err - dy;
            x = x + sx;
            proof {
                i = i + 1;
            }
        }
        if e2 < dx {
            err = err + dx;
            y = y + sy;
            proof {
                j = j + 1;
            }
        }
        proof {
            k = k + 1;
        }
    }
    proof {
        lemma_line_done(gx1, gy1, gx2, gy2, k, i, j);
    }
    let dirty_x1: usize = if x1 < x2 { if x1 > 0 { x1 as usize } else { 0 } } else { if x2 > 0 { x2 as usize } else { 0 } };
    let dirty_y1: usize = if y1 < y2 { if y1 > 0 { y1 as usize } else { 0 } } else { if y2 > 0 { y2 as usize } else { 0 } };
    let mx: i32 = if x1 > x2 { x1 } else { x2 };
    let my: i32 = if y1 > y2 { y1 } else { y2 };
    let mut dirty_x2: usize = (if mx > 0 { mx as usize } else { 0 }) + 1;
    let mut dirty_y2: usize = (if my > 0 { my as usize } else { 0 }) + 1;
    if changed {
        dirty_x2 = if dirty_x2 < W { dirty_x2 } else { W };
        dirty_y2 = if dirty_y2 < H { dirty_y2 } else { H };
        if dirty_x1 < dirty_x2 && dirty_y1 < dirty_y2 {
            let r = Rect::new(dirty_x1, dirty_y1, dirty_x2, dirty_y2);
            assert(r == line_box(gx1, gy1, gx2, gy2));
            assert(r.clamped() == r);
            fb.mark_dirty(r);
        }
    }
    proof {
        let n = k;
        assert(line_ends_at(gx1, gy1, gx2, gy2, n));
        assert forall|px: int, py: int| #![trigger pixel_index(px, py)]
            (exists|q: nat| q < k + 1 && #[trigger] line_pos(gx1, gy1, gx2, gy2, q).0 == px && line_pos(gx1, gy1, gx2, gy2, q).1 == py)
            <==> on_line(gx1, gy1, gx2, gy2, n, px, py) by {}
        assert(forall|px: int, py: int|
            on_screen_pixel(px, py) ==> #[trigger] fb.pixel(px, py) == if on_line(gx1, gy1, gx2, gy2, n, px, py) {
                c
            } else {
                ob[pixel_index(px, py)]
            });
    }
}

// ---------------------------------------------------------------------------
// Row spans and horizontal lines.
// ---------------------------------------------------------------------------

/// Fill the pixels `a..b` of `row` with the RGB565 value `c` unless they all
/// hold it already. Returns whether anything changed; the dirty list is left
/// to the caller.
pub fn fill_row_span(fb: &mut Framebuffer, row: usize, a: usize, b: usize, c: u16) -> (changed: bool)
    requires
        old(fb).wf(),
        row < H,
        a <= b <= W,
    ensures
        final(fb).wf(),
        final(fb).dirty@ == old(fb).dirty@,
        changed == exists|px: int| a <= px < b && #[trigger] old(fb).pixel(px, row as int) != c,
        forall|px: int, py: int|
            on_screen_pixel(px, py) ==> #[trigger] final(fb).pixel(px, py) == if py == row && a
                <= px < b {
                c
            } else {
                old(fb).pixel(px, py)
            },
{
    let ghost ob = fb.buffer@;
    let mut all_same = true;
    let mut col = a;
    while col < b
        invariant
            a <= col <= b <= W,
            row < H,
            fb.wf(),
            fb.buffer@ == ob,
            all_same == forall|px: int| a <= px < col ==> #[trigger] fb.pixel(px, row as int) == c,
        decreases b - col,
    {
        proof {
            lemma_pixel_index(col as int, row as int);
        }
        let ghost prev = all_same;
        if fb.buffer[row * W + col] != c {
            all_same = false;
        }
        assert(fb.pixel(col as int, row as int) == fb.buffer@[(row * W + col) as int]);
        assert(all_same == (prev && fb.pixel(col as int, row as int) == c));
        col = col + 1;
        assert(all_same == forall|px: int| a <= px < col ==> #[trigger] fb.pixel(px, row as int) == c) by {
            if prev && fb.pixel((col - 1) as int, row as int) == c {
                assert forall|px: int| a <= px < col implies #[trigger] fb.pixel(px, row as int) == c by {
                    if px < col - 1 {
                    }
                }
            }
        }
    }
    if all_same {
        return false;
    }
    let mut col = a;
    while col < b
        invariant
            a <= col <= b <= W,
            row < H,
            fb.wf(),
            fb.dirty@ == old(fb).dirty@,
            ob.len() == W * H,
            forall|px: int, py: int|
                on_screen_pixel(px, py) ==> #[trigger] fb.buffer@[pixel_index(px, py)] == if py
                    == row && a <= px < col {
                    c
                } else {
                    ob[pixel_index(px, py)]
                },
        decreases b - col,
    {
        proof {
            lemma_pixel_index(col as int, row as int);
        }
        let ghost before = fb.buffer@;
        fb.buffer.set(row * W + col, c);
        proof {
            assert forall|px: int, py: int| on_screen_pixel(px, py) implies #[trigger] fb.buffer@[pixel_index(px, py)] == if py
                == row && a <= px < col + 1 {
                c
            } else {
                ob[pixel_index(px, py)]
            } by {
                lemma_pixel_index(px, py);
                if pixel_index(px, py) == pixel_index(col as int, row as int) {
                    lemma_pixel_index_inj(px, py, col as int, row as int);
                }
            }
        }
        col = col + 1;
    }
    true
}

/// The pixel `(px, py)` is covered by the horizontal line `x1..x2` on row `y`.
pub open spec fn in_hline(x1: int, x2: int, y: int, px: int, py: int) -> bool {
    0 <= y < H && py == y && max_int(x1, 0) <= px < min_int(x2, W as int)
}

/// Draw a horizontal line on row `y` from `x1` (inclusive) to `x2`
/// (exclusive), clipped to the screen. When any covered pixel changes, the
/// covered span is marked dirty.
pub fn draw_line_h(fb: &mut Framebuffer, x1: i32, x2: i32, y: i32, color: u32)
    requires
        old(fb).wf(),
    ensures
        final(fb).wf(),
        forall|px: int, py: int|
            on_screen_pixel(px, py) ==> #[trigger] final(fb).pixel(px, py) == if in_hline(
                x1 as int,
                x2 as int,
                y as int,
                px,
                py,
            ) {
                rgb565_of(color)
            } else {
                old(fb).pixel(px, py)
            },
        final(fb).dirty@ == if exists|px: int|
            in_hline(x1 as int, x2 as int, y as int, px, y as int) && #[trigger] old(fb).pixel(
                px,
                y as int,
            ) != rgb565_of(color) {
            old(fb).dirty@.push(
                Rect {
                    x1: max_int(x1 as int, 0) as usize,
                    y1: y as usize,
                    x2: min_int(x2 as int, W as int) as usize,
                    y2: (y + 1) as usize,
                },
            )
        } else {
            old(fb).dirty@
        },
{
    if y < 0 || y >= H as i32 {
        return;
    }
    let x1c: usize = if x1 > 0 { x1 as usize } else { 0 };
    let x2m: usize = if x2 <= 0 { 0 } else if x2 < W as i32 { x2 as usize } else { W };
    let x2c: usize = if x2m > x1c { x2m } else { x1c };
    let yc = y as usize;
    let c = rgb888_to_rgb565(color);
    if x1c >= W {
        assert(!exists|px: int| in_hline(x1 as int, x2 as int, y as int, px, y as int));
        return;
    }
    let ghost ofb = fb.buffer@;
    let changed = fill_row_span(fb, yc, x1c, x2c, c);
    let ghost fb1: Framebuffer = *fb;
    assert forall|px: int, py: int| on_screen_pixel(px, py) implies #[trigger] fb1.pixel(px, py) == if in_hline(
                x1 as int,
                x2 as int,
                y as int,
                px,
                py,
            ) {
                rgb565_of(color)
            } else {
                ofb[pixel_index(px, py)]
            } by {
        assert(in_hline(x1 as int, x2 as int, y as int, px, py) <==> (py == yc && x1c <= px < x2c));
    }
    if !changed {
        return;
    }
    let r = Rect::new(x1c, yc, x2c, yc + 1);
    assert(r.clamped() == r);
    let ghost mid = fb.buffer@;
    fb.mark_dirty(r);
    assert(fb.buffer@ == mid);
    assert forall|px: int, py: int| on_screen_pixel(px, py) implies #[trigger] fb.pixel(px, py) == if in_hline(
                x1 as int,
                x2 as int,
                y as int,
                px,
                py,
            ) {
                rgb565_of(color)
            } else {
                ofb[pixel_index(px, py)]
            } by {
        assert(fb.pixel(px, py) == fb1.pixel(px, py));
    }
}

/// Blend an alpha bitmap of `width × height` coverage bytes (row-major) in the
/// colour `color` onto the screen with its top-left corner at `(gx, gy)`.
/// Off-screen parts are skipped; the dirty list is left to the caller.
pub fn blend_bitmap(
    fb: &mut Framebuffer,
    gx: i32,
    gy: i32,
    width: usize,
    height: usize,
    data: &[u8],
    color: u32,
)
    requires
        old(fb).wf(),
        data@.len() >= width * height,
        width <= i32::MAX,
        height <= i32::MAX,
        gx + width <= i32::MAX,
        gy + height <= i32::MAX,
    ensures
        final(fb).wf(),
        final(fb).dirty@ == old(fb).dirty@,
        forall|px: int, py: int|
            on_screen_pixel(px, py) ==> #[trigger] final(fb).pixel(px, py) == if gx <= px < gx
                + width && gy <= py < gy + height {
                blend_over_of(
                    old(fb).pixel(px, py),
                    color,
                    data@[(py - gy) * width + (px - gx)],
                )
            } else {
                old(fb).pixel(px, py)
            },
{
    let ghost ob = fb.buffer@;
    let mut row: usize = 0;
    assert(data@.len() == data.len());
    while row < height
        invariant
            row <= height,
            fb.wf(),
            fb.dirty@ == old(fb).dirty@,
            ob.len() == W * H,
            ob == old(fb).buffer@,
            data@.len() >= width * height,
            data@.len() == data.len(),
            width <= i32::MAX,
            height <= i32::MAX,
            gx + width <= i32::MAX,
            gy + height <= i32::MAX,
            forall|px: int, py: int|
                on_screen_pixel(px, py) ==> #[trigger] fb.buffer@[pixel_index(px, py)] == if gx
                    <= px < gx + width && gy <= py < gy + row {
                    blend_over_of(ob[pixel_index(px, py)], color, data@[(py - gy) * width + (px - gx)])
                } else {
                    ob[pixel_index(px, py)]
                },
        decreases height - row,
    {
        let sy: i32 = gy + row as i32;
        let mut col: usize = 0;
        while col < width
            invariant
                row < height,
                col <= width,
                sy == gy + row,
                fb.wf(),
                fb.dirty@ == old(fb).dirty@,
                ob.len() == W * H,
                data@.len() >= width * height,
                data@.len() == data.len(),
                width <= i32::MAX,
                height <= i32::MAX,
                gx + width <= i32::MAX,
                gy + height <= i32::MAX,
                forall|px: int, py: int|
                    on_screen_pixel(px, py) ==> #[trigger] fb.buffer@[pixel_index(px, py)] == if gx
                        <= px < gx + width && (gy <= py < gy + row || (py == gy + row && px < gx
                        + col)) {
                        blend_over_of(ob[pixel_index(px, py)], color, data@[(py - gy) * width + (px - gx)])
                    } else {
                        ob[pixel_index(px, py)]
                    },
            decreases width - col,
        {
            let sx: i32 = gx + col as i32;
            assert(row * width + col < width * height) by (nonlinear_arith)
                requires
                    row < height,
                    col < width,
            ;
            assert(row * width + col < data.len());
            if sx >= 0 && sx < W as i32 && sy >= 0 && sy < H as i32 {
                let alpha = data[row * width + col];
                proof {
                    lemma_pixel_index(sx as int, sy as int);
                }
                let idx = (sy as usize) * W + (sx as usize);
                let ghost before = fb.buffer@;
                if alpha != 0 {
                    let dst = fb.buffer[idx];
                    let v = blend_over_rgb565(dst, color, alpha);
                    fb.buffer.set(idx, v);
                }
                proof {
                    assert((sy - gy) * width + (sx - gx) == row * width + col);
                    assert forall|px: int, py: int| on_screen_pixel(px, py) implies #[trigger] fb.buffer@[pixel_index(px, py)] == if gx
                        <= px < gx + width && (gy <= py < gy + row || (py == gy + row && px < gx
                        + col + 1)) {
                        blend_over_of(ob[pixel_index(px, py)], color, data@[(py - gy) * width + (px - gx)])
                    } else {
                        ob[pixel_index(px, py)]
                    } by {
                        lemma_pixel_index(px, py);
                        if pixel_index(px, py) == pixel_index(sx as int, sy as int) {
                            lemma_pixel_index_inj(px, py, sx as int, sy as int);
                        }
                    }
                }
            } else {
                proof {
                    assert forall|px: int, py: int| on_screen_pixel(px, py) implies #[trigger] fb.buffer@[pixel_index(px, py)] == if gx
                        <= px < gx + width && (gy <= py < gy + row || (py == gy + row && px < gx
                        + col + 1)) {
                        blend_over_of(ob[pixel_index(px, py)], color, data@[(py - gy) * width + (px - gx)])
                    } else {
                        ob[pixel_index(px, py)]
                    } by {
                        if px == sx && py == sy {
                            assert(!on_screen_pixel(px, py));
                        }
                    }
                }
            }
            col = col + 1;
        }
        row = row + 1;
    }
}


// ---------------------------------------------------------------------------
// Shapes drawn as row spans.
// ---------------------------------------------------------------------------

/// The pixel lies in one of the spans `(row, from, to)` (`to` exclusive).
pub open spec fn span_covers(spans: Seq<(usize, usize, usize)>, px: int, py: int) -> bool {
    exists|k: int| 0 <= k < spans.len() && #[trigger] spans[k].0 == py && spans[k].1 <= px < spans[k].2
}

/// Fill a shape given as row spans `(row, from, to)` in RGB888 colour. When
/// any covered pixel changes, `bbox` (clamped to the screen) is marked
/// dirty; pixels already in the colour are not written again.
pub fn fill_span_rows(fb: &mut Framebuffer, spans: &[(usize, usize, usize)], color: u32, bbox: Rect)
    requires
        old(fb).wf(),
        forall|k: int|
            0 <= k < spans@.len() ==> #[trigger] spans@[k].0 < H && spans@[k].1 <= spans@[k].2
                <= W,
    ensures
        final(fb).wf(),
        forall|px: int, py: int|
            on_screen_pixel(px, py) ==> #[trigger] final(fb).pixel(px, py) == if span_covers(
                spans@,
                px,
                py,
            ) {
                rgb565_of(color)
            } else {
                old(fb).pixel(px, py)
            },
        final(fb).dirty@ == if exists|px: int, py: int|
            on_screen_pixel(px, py) && span_covers(spans@, px, py) && #[trigger] old(fb).pixel(
                px,
                py,
            ) != rgb565_of(color) {
            if dirty_ok(bbox.clamped()) {
                old(fb).dirty@.push(bbox.clamped())
            } else {
                old(fb).dirty@
            }
        } else {
            old(fb).dirty@
        },
{
    let ghost f0: Framebuffer = *fb;
    let c = rgb888_to_rgb565(color);
    let mut changed = false;
    let mut k: usize = 0;
    while k < spans.len()
        invariant
            k <= spans@.len(),
            fb.wf(),
            f0.wf(),
            fb.dirty@ == f0.dirty@,
            c == rgb565_of(color),
            forall|j: int|
                0 <= j < spans@.len() ==> #[trigger] spans@[j].0 < H && spans@[j].1 <= spans@[j].2
                    <= W,
            forall|px: int, py: int|
                on_screen_pixel(px, py) ==> #[trigger] fb.pixel(px, py) == if span_covers(
                    spans@.take(k as int),
                    px,
                    py,
                ) {
                    c
                } else {
                    f0.pixel(px, py)
                },
            changed == exists|px: int, py: int|
                on_screen_pixel(px, py) && span_covers(spans@.take(k as int), px, py)
                    && #[trigger] f0.pixel(px, py) != c,
        decreases spans@.len() - k,
    {
        let (row, a, b) = spans[k];
        let ghost f1: Framebuffer = *fb;
        let ghost pre = spans@.take(k as int);
        let ghost post = spans@.take(k + 1);
        assert(post =~= pre.push(spans@[k as int]));
        assert forall|px: int, py: int| #[trigger] span_covers(post, px, py) == (span_covers(pre, px, py) || (py == row && a <= px < b)) by {
            if span_covers(post, px, py) {
                let j = choose|j: int| 0 <= j < post.len() && #[trigger] post[j].0 == py && post[j].1 <= px < post[j].2;
                if j < k {
                    assert(pre[j] == post[j]);
                }
            }
            if span_covers(pre, px, py) {
                let j = choose|j: int| 0 <= j < pre.len() && #[trigger] pre[j].0 == py && pre[j].1 <= px < pre[j].2;
                assert(post[j] == pre[j]);
            }
            if py == row && a <= px < b {
                assert(post[k as int] == (row, a, b));
            }
        }
        let ch = fill_row_span(fb, row, a, b, c);
        proof {
            if ch {
                let px = choose|px: int| a <= px < b && #[trigger] f1.pixel(px, row as int) != c;
                assert(on_screen_pixel(px, row as int));
                assert(span_covers(post, px, row as int));
                if !span_covers(pre, px, row as int) {
                    assert(f0.pixel(px, row as int) != c);
                } else {
                    assert(f1.pixel(px, row as int) == c);
                }
            }
            if !ch && !changed {
                assert forall|px: int, py: int|
                    on_screen_pixel(px, py) && span_covers(post, px, py) implies #[trigger] f0.pixel(px, py) == c by {
                    if !span_covers(pre, px, py) {
                        assert(py == row && a <= px < b);
                        assert(f1.pixel(px, row as int) == c);
                        assert(f1.pixel(px, py) == f0.pixel(px, py));
                    }
                }
            }
        }
        changed = changed || ch;
        k = k + 1;
    }
    assert(spans@.take(k as int) =~= spans@);
    let ghost f2: Framebuffer = *fb;
    if changed {
        fb.mark_dirty(bbox);
    }
    assert forall|px: int, py: int| on_screen_pixel(px, py) implies #[trigger] fb.pixel(px, py)
        == f2.pixel(px, py) by {
    }
}

// ---------------------------------------------------------------------------
// Laws of colour conversion and filling.
// ---------------------------------------------------------------------------

/// Widening an RGB565 pixel to RGB888 and narrowing it again gives the same
/// pixel back.
pub proof fn law_rgb565_roundtrip(p: u16)
    ensures
        rgb565_of(rgb888_of(p)) == p,
{
    let pn = p as nat;
    let r5 = pn / 2048;
    let g6 = (pn / 32) % 64;
    let b5 = pn % 32;
    assert(pn == r5 * 2048 + g6 * 32 + b5 && r5 < 32) by (nonlinear_arith)
        requires
            pn < 65536,
            r5 == pn / 2048,
            g6 == (pn / 32) % 64,
            b5 == pn % 32,
    ;
    let r8 = r5 * 8 + r5 / 4;
    let g8 = g6 * 4 + g6 / 16;
    let b8 = b5 * 8 + b5 / 4;
    assert(r8 < 256 && g8 < 256 && b8 < 256 && r8 / 8 == r5 && g8 / 4 == g6 && b8 / 8 == b5)
        by (nonlinear_arith)
        requires
            r5 < 32,
            g6 < 64,
            b5 < 32,
            r8 == r5 * 8 + r5 / 4,
            g8 == g6 * 4 + g6 / 16,
            b8 == b5 * 8 + b5 / 4,
    ;
    let cn = r8 * 65536 + g8 * 256 + b8;
    assert((cn / 65536) % 256 == r8 && (cn / 256) % 256 == g8 && cn % 256 == b8)
        by (nonlinear_arith)
        requires
            r8 < 256,
            g8 < 256,
            b8 < 256,
            cn == r8 * 65536 + g8 * 256 + b8,
    ;
    let c = rgb888_of(p);
    assert(c as nat == cn);
    assert(channel(c, 16) == r8);
    assert(channel(c, 8) == g8);
    assert(channel(c, 0) == b8);
}

/// Filling a rectangle whose covered pixels all hold the colour already
/// changes nothing: no pixel and no dirty region.
pub proof fn law_fill_unchanged_is_clean(
    ofb: Framebuffer,
    nfb: Framebuffer,
    x: i32,
    y: i32,
    w: i32,
    h: i32,
    color: u32,
)
    requires
        ofb.wf(),
        fill_rect_post(ofb, nfb, x, y, w, h, color),
        forall|px: int, py: int|
            on_screen_pixel(px, py) && in_fill(x as int, y as int, w as int, h as int, px, py)
                ==> #[trigger] ofb.pixel(px, py) == rgb565_of(color),
    ensures
        nfb.buffer@ == ofb.buffer@,
        nfb.dirty@ == ofb.dirty@,
{
    assert forall|i: int| 0 <= i < W * H implies nfb.buffer@[i] == ofb.buffer@[i] by {
        let px = i % (W as int);
        let py = i / (W as int);
        assert(on_screen_pixel(px, py));
        assert(pixel_index(px, py) == i);
        assert(nfb.pixel(px, py) == ofb.pixel(px, py));
    }
    assert(nfb.buffer@ =~= ofb.buffer@);
    let x1 = max_int(x as int, 0);
    let y1 = max_int(y as int, 0);
    let x2 = min_int(x + w, W as int);
    let y2 = min_int(y + h, H as int);
    if w > 0 && h > 0 && any_changed(ofb.buffer@, rgb565_of(color), x1, y1, x2, y2) {
        let (px, py) = choose|px: int, py: int|
            x1 <= px < x2 && y1 <= py < y2 && ofb.buffer@[#[trigger] pixel_index(px, py)]
                != rgb565_of(color);
        assert(on_screen_pixel(px, py));
        assert(in_fill(x as int, y as int, w as int, h as int, px, py));
        assert(ofb.pixel(px, py) == rgb565_of(color));
    }
}

/// Filling the same rectangle twice in the same colour: the second fill
/// changes nothing and marks nothing dirty.
pub proof fn law_fill_twice_is_clean(
    f0: Framebuffer,
    f1: Framebuffer,
    f2: Framebuffer,
    x: i32,
    y: i32,
    w: i32,
    h: i32,
    color: u32,
)
    requires
        f0.wf(),
        fill_rect_post(f0, f1, x, y, w, h, color),
        fill_rect_post(f1, f2, x, y, w, h, color),
    ensures
        f2.buffer@ == f1.buffer@,
        f2.dirty@ == f1.dirty@,
{
    law_fill_unchanged_is_clean(f1, f2, x, y, w, h, color);
}


/// Every pixel a fill changes lies inside the rectangle the fill marks
/// dirty, which is appended to the dirty list behind the earlier ones.
pub proof fn law_fill_changes_are_dirty(
    ofb: Framebuffer,
    nfb: Framebuffer,
    x: i32,
    y: i32,
    w: i32,
    h: i32,
    color: u32,
    px: int,
    py: int,
)
    requires
        ofb.wf(),
        fill_rect_post(ofb, nfb, x, y, w, h, color),
        on_screen_pixel(px, py),
        nfb.pixel(px, py) != ofb.pixel(px, py),
    ensures
        nfb.dirty@.len() == ofb.dirty@.len() + 1,
        nfb.dirty@.drop_last() == ofb.dirty@,
        nfb.dirty@.last().has_pixel(px, py),
{
    assert(in_fill(x as int, y as int, w as int, h as int, px, py));
    assert(ofb.buffer@[pixel_index(px, py)] != rgb565_of(color));
    let x1 = max_int(x as int, 0);
    let y1 = max_int(y as int, 0);
    let x2 = min_int(x + w, W as int);
    let y2 = min_int(y + h, H as int);
    assert(any_changed(ofb.buffer@, rgb565_of(color), x1, y1, x2, y2));
}


/// A fill reports what it changed.
pub proof fn lemma_fill_marks_changes(
    ofb: Framebuffer,
    nfb: Framebuffer,
    x: i32,
    y: i32,
    w: i32,
    h: i32,
    color: u32,
)
    requires
        ofb.wf(),
        fill_rect_post(ofb, nfb, x, y, w, h, color),
    ensures
        changes_marked(ofb, nfb),
{
    if nfb.dirty@.len() == ofb.dirty@.len() {
        assert(nfb.dirty@ == ofb.dirty@) by {
            if exists|px: int, py: int| on_screen_pixel(px, py) && nfb.pixel(px, py) != ofb.pixel(px, py) {
                let (px, py) = choose|px: int, py: int|
                    on_screen_pixel(px, py) && nfb.pixel(px, py) != ofb.pixel(px, py);
                law_fill_changes_are_dirty(ofb, nfb, x, y, w, h, color, px, py);
            } else {
                let x1 = max_int(x as int, 0);
                let y1 = max_int(y as int, 0);
                let x2 = min_int(x + w, W as int);
                let y2 = min_int(y + h, H as int);
                if w > 0 && h > 0 && any_changed(ofb.buffer@, rgb565_of(color), x1, y1, x2, y2) {
                    let (qx, qy) = choose|qx: int, qy: int|
                        x1 <= qx < x2 && y1 <= qy < y2 && ofb.buffer@[#[trigger] pixel_index(qx, qy)]
                            != rgb565_of(color);
                    assert(on_screen_pixel(qx, qy));
                    assert(nfb.pixel(qx, qy) == rgb565_of(color));
                }
            }
        }
        assert(nfb.dirty@.subrange(0, ofb.dirty@.len() as int) =~= ofb.dirty@);
    } else {
        assert(nfb.dirty@.subrange(0, ofb.dirty@.len() as int) =~= nfb.dirty@.drop_last());
    }
    assert forall|px: int, py: int|
        on_screen_pixel(px, py) && #[trigger] nfb.pixel(px, py) != ofb.pixel(px, py) implies exists|
            k: int,
        | ofb.dirty@.len() <= k < nfb.dirty@.len() && #[trigger] nfb.dirty@[k].has_pixel(px, py) by {
        law_fill_changes_are_dirty(ofb, nfb, x, y, w, h, color, px, py);
        let k = nfb.dirty@.len() - 1;
        assert(nfb.dirty@[k].has_pixel(px, py));
    }
}


/// A horizontal line reports what it changed (stated over what
/// `draw_line_h` promises).
pub proof fn lemma_hline_marks_changes(
    ofb: Framebuffer,
    nfb: Framebuffer,
    x1: i32,
    x2: i32,
    y: i32,
    color: u32,
)
    requires
        ofb.wf(),
        forall|px: int, py: int|
            on_screen_pixel(px, py) ==> #[trigger] nfb.pixel(px, py) == if in_hline(
                x1 as int,
                x2 as int,
                y as int,
                px,
                py,
            ) {
                rgb565_of(color)
            } else {
                ofb.pixel(px, py)
            },
        nfb.dirty@ == if exists|px: int|
            in_hline(x1 as int, x2 as int, y as int, px, y as int) && #[trigger] ofb.pixel(
                px,
                y as int,
            ) != rgb565_of(color) {
            ofb.dirty@.push(
                Rect {
                    x1: max_int(x1 as int, 0) as usize,
                    y1: y as usize,
                    x2: min_int(x2 as int, W as int) as usize,
                    y2: (y + 1) as usize,
                },
            )
        } else {
            ofb.dirty@
        },
    ensures
        changes_marked(ofb, nfb),
{
    if exists|px: int|
        in_hline(x1 as int, x2 as int, y as int, px, y as int) && #[trigger] ofb.pixel(px, y as int)
            != rgb565_of(color) {
        assert(nfb.dirty@.subrange(0, ofb.dirty@.len() as int) =~= ofb.dirty@);
        assert forall|px: int, py: int|
            on_screen_pixel(px, py) && #[trigger] nfb.pixel(px, py) != ofb.pixel(px, py) implies exists|
                k: int,
            | ofb.dirty@.len() <= k < nfb.dirty@.len() && #[trigger] nfb.dirty@[k].has_pixel(px, py) by {
            let k = ofb.dirty@.len() as int;
            assert(nfb.dirty@[k].has_pixel(px, py));
        }
    } else {
        assert(nfb.dirty@.subrange(0, ofb.dirty@.len() as int) =~= ofb.dirty@);
        assert forall|px: int, py: int|
            on_screen_pixel(px, py) implies #[trigger] nfb.pixel(px, py) == ofb.pixel(px, py) by {
            if in_hline(x1 as int, x2 as int, y as int, px, py) {
                assert(py == y);
                assert(!(ofb.pixel(px, y as int) != rgb565_of(color)));
            }
        }
    }
}


/// The rectangle `r` lies within the on-screen part of the `w × h` box at
/// `(x, y)`.
pub open spec fn box_holds(x: int, y: int, w: int, h: int, r: Rect) -> bool {
    &&& max_int(x, 0) <= r.x1
    &&& r.x2 <= min_int(x + w, W as int)
    &&& max_int(y, 0) <= r.y1
    &&& r.y2 <= min_int(y + h, H as int)
}

/// `nfb` keeps the dirty list of `ofb` as a prefix, and every rectangle
/// appended after it lies within the on-screen part of the `w × h` box at
/// `(x, y)`: a drawing step there marks nothing outside it.
pub open spec fn marks_within(ofb: Framebuffer, nfb: Framebuffer, x: int, y: int, w: int, h: int) -> bool {
    &&& ofb.dirty@.len() <= nfb.dirty@.len()
    &&& nfb.dirty@.subrange(0, ofb.dirty@.len() as int) == ofb.dirty@
    &&& forall|k: int|
        ofb.dirty@.len() <= k < nfb.dirty@.len() ==> box_holds(x, y, w, h, #[trigger] nfb.dirty@[k])
}

/// A fill marks nothing outside the rectangle it fills.
pub proof fn lemma_fill_marks_within(
    ofb: Framebuffer,
    nfb: Framebuffer,
    x: i32,
    y: i32,
    w: i32,
    h: i32,
    color: u32,
)
    requires
        ofb.wf(),
        fill_rect_post(ofb, nfb, x, y, w, h, color),
    ensures
        marks_within(ofb, nfb, x as int, y as int, w as int, h as int),
{
    lemma_fill_marks_changes(ofb, nfb, x, y, w, h, color);
    let x1 = max_int(x as int, 0);
    let y1 = max_int(y as int, 0);
    let x2 = min_int(x + w, W as int);
    let y2 = min_int(y + h, H as int);
    if w > 0 && h > 0 && any_changed(ofb.buffer@, rgb565_of(color), x1, y1, x2, y2) {
        let r = nfb.dirty@.last();
        let c = rgb565_of(color);
        let ob = ofb.buffer@;
        let (ax, ay) = choose|px: int, py: int|
            x1 <= px < x2 && y1 <= py < y2 && ob[#[trigger] pixel_index(px, py)] != c && px == r.x1;
        let (bx, by) = choose|px: int, py: int|
            x1 <= px < x2 && y1 <= py < y2 && ob[#[trigger] pixel_index(px, py)] != c && px + 1 == r.x2;
        let (cx, cy) = choose|px: int, py: int|
            x1 <= px < x2 && y1 <= py < y2 && ob[#[trigger] pixel_index(px, py)] != c && py == r.y1;
        let (dx, dy) = choose|px: int, py: int|
            x1 <= px < x2 && y1 <= py < y2 && ob[#[trigger] pixel_index(px, py)] != c && py + 1 == r.y2;
        assert(box_holds(x as int, y as int, w as int, h as int, nfb.dirty@[ofb.dirty@.len() as int]));
    }
}

} // verus!
