//! Screenshots: the RGB565 shadow buffer as RGB888 bytes, encoded as a PNG
//! and then as base64 text.

use vstd::prelude::*;
use base64::Engine;
use crate::config::{H, W};
use crate::render::{channel, rgb565_to_rgb888, rgb888_of};

verus! {

/// The PNG file that the `png` encoder writes for 8-bit RGB pixel data
/// `rgb` of a `width × height` image (`None` when it refuses the input).
pub uninterp spec fn png_rgb8(rgb: Seq<u8>, width: u32, height: u32) -> Option<Seq<u8>>;

/// Digit `v` (0 to 63) of the standard base64 alphabet.
pub open spec fn b64_digit(v: int) -> char {
    if v < 26 {
        (65 + v) as char
    } else if v < 52 {
        (97 + v - 26) as char
    } else if v < 62 {
        (48 + v - 52) as char
    } else if v == 62 {
        '+'
    } else {
        '/'
    }
}

/// Standard base64 with padding (RFC 4648): every group of three bytes
/// becomes four digits of six bits each; a final group of one or two bytes
/// is padded with `=` to four characters.
pub open spec fn base64_standard(data: Seq<u8>) -> Seq<char>
    decreases data.len(),
{
    if data.len() == 0 {
        Seq::empty()
    } else if data.len() == 1 {
        let a = data[0] as int;
        seq![b64_digit(a / 4), b64_digit((a % 4) * 16), '=', '=']
    } else if data.len() == 2 {
        let a = data[0] as int;
        let b = data[1] as int;
        seq![b64_digit(a / 4), b64_digit((a % 4) * 16 + b / 16), b64_digit((b % 16) * 4), '=']
    } else {
        let a = data[0] as int;
        let b = data[1] as int;
        let c = data[2] as int;
        seq![
            b64_digit(a / 4),
            b64_digit((a % 4) * 16 + b / 16),
            b64_digit((b % 16) * 4 + c / 64),
            b64_digit(c % 64),
        ] + base64_standard(data.subrange(3, data.len() as int))
    }
}

/// Encodes 8-bit RGB pixel data as a PNG with `png::Encoder` (colour type
/// RGB, depth 8, default filter and compression). The result is whatever
/// the encoder produced for exactly these arguments; beyond that, only that
/// a zero width or height is refused (`write_header` checks it) is stated.
/// The encoder computes the row length `3 * width + 1` and the image size
/// `3 * width * height` without overflow checks, so those must fit.
#[verifier::external_body]
fn png_encode_rgb8(rgb: &[u8], width: u32, height: u32) -> (r: Option<Vec<u8>>)
    requires
        width > 0 && height > 0 ==> 3 * width + 1 <= usize::MAX && 3 * width * height
            <= usize::MAX,
    ensures
        width == 0 || height == 0 ==> r is None,
        match r {
            Some(v) => png_rgb8(rgb@, width, height) == Some(v@),
            None => png_rgb8(rgb@, width, height) is None,
        },
{
    let mut out = Vec::new();
    {
        let mut encoder = png::Encoder::new(&mut out, width, height);
        encoder.set_color(png::ColorType::Rgb);
        encoder.set_depth(png::BitDepth::Eight);
        let mut writer = encoder.write_header().ok()?;
        writer.write_image_data(rgb).ok()?;
    }
    Some(out)
}

/// `base64::engine::general_purpose::STANDARD.encode`: standard base64 with
/// padding, as the `STANDARD` engine is documented to produce (it panics
/// only when the encoded length overflows `usize`).
#[verifier::external_body]
fn base64_encode(data: &[u8]) -> (r: String)
    requires
        data@.len() / 3 * 4 + 4 <= usize::MAX,
    ensures
        r@ == base64_standard(data@),
{
    base64::engine::general_purpose::STANDARD.encode(data)
}

/// Byte `k` of the RGB888 image of `buf` padded with black to `n` pixels:
/// red, green and blue of each pixel in turn.
pub open spec fn rgb_byte(buf: Seq<u16>, k: int) -> u8 {
    let i = k / 3;
    if i < buf.len() {
        let c = rgb888_of(buf[i]);
        (if k % 3 == 0 {
            channel(c, 16)
        } else if k % 3 == 1 {
            channel(c, 8)
        } else {
            channel(c, 0)
        }) as u8
    } else {
        0
    }
}

/// The RGB888 bytes of `n` pixels taken from `buf` (black past its end).
pub open spec fn rgb_bytes(buf: Seq<u16>, n: nat) -> Seq<u8> {
    Seq::new(3 * n, |k: int| rgb_byte(buf, k))
}

/// RGB888 bytes of the first `n` pixels, black past the end of `rgb565`.
pub fn rgb565_to_rgb_bytes(rgb565: &[u16], n: usize) -> (r: Vec<u8>)
    requires
        rgb565@.len() <= n,
        3 * n <= usize::MAX,
    ensures
        r@ == rgb_bytes(rgb565@, n as nat),
{
    let mut out: Vec<u8> = Vec::new();
    let mut i: usize = 0;
    while i < n
        invariant
            i <= n,
            rgb565@.len() <= n,
            3 * n <= usize::MAX,
            out@.len() == 3 * i,
            forall|k: int| 0 <= k < 3 * i ==> out@[k] == rgb_byte(rgb565@, k),
        decreases n - i,
    {
        if i < rgb565.len() {
            let c = rgb565_to_rgb888(rgb565[i]);
            out.push(((c / 65536) % 256) as u8);
            out.push(((c / 256) % 256) as u8);
            out.push((c % 256) as u8);
        } else {
            out.push(0);
            out.push(0);
            out.push(0);
        }
        assert forall|k: int| 0 <= k < 3 * (i + 1) implies out@[k] == rgb_byte(rgb565@, k) by {
            if k >= 3 * i {
                assert(k / 3 == i);
            }
        }
        i = i + 1;
    }
    assert(out@ =~= rgb_bytes(rgb565@, n as nat));
    out
}

/// Convert an RGB565 buffer of a `width × height` image (row-major; black
/// past its end) to RGB888 bytes and encode it as a PNG. A width or height
/// beyond `u32::MAX` gives no image (the encoder would see other
/// dimensions and a mismatched buffer), nor does a zero width or height.
pub fn encode_png(rgb565: &[u16], width: usize, height: usize) -> (r: Option<Vec<u8>>)
    requires
        rgb565@.len() <= width * height,
        3 * (width * height) <= usize::MAX,
        width <= u32::MAX && 0 < height <= u32::MAX ==> 3 * width + 1 <= usize::MAX,
    ensures
        width > u32::MAX || height > u32::MAX || width == 0 || height == 0 ==> r is None,
        width <= u32::MAX && height <= u32::MAX ==> match r {
            Some(v) => png_rgb8(rgb_bytes(rgb565@, (width * height) as nat), width as u32, height as u32)
                == Some(v@),
            None => png_rgb8(rgb_bytes(rgb565@, (width * height) as nat), width as u32, height as u32) is None,
        },
{
    if width > u32::MAX as usize || height > u32::MAX as usize {
        return None;
    }
    assert(width * height <= 3 * (width * height)) by (nonlinear_arith)
        requires
            width >= 0,
            height >= 0,
    ;
    assert(width > 0 && height > 0 ==> 3 * width * height == 3 * (width * height)) by (nonlinear_arith);
    let rgb = rgb565_to_rgb_bytes(rgb565, width * height);
    png_encode_rgb8(rgb.as_slice(), width as u32, height as u32)
}

/// A screenshot of the shadow buffer as base64 PNG text; `None` when the
/// encoder refused the image (or its text would not fit in memory).
pub fn screenshot_base64(buffer: &[u16]) -> (r: Option<String>)
    requires
        buffer@.len() <= W * H,
    ensures
        match png_rgb8(rgb_bytes(buffer@, (W * H) as nat), W as u32, H as u32) {
            Some(p) => if p.len() / 3 * 4 + 4 <= usize::MAX {
                r matches Some(s) && s@ == base64_standard(p)
            } else {
                r is None
            },
            None => r is None,
        },
{
    match encode_png(buffer, W, H) {
        None => None,
        Some(png) => {
            if png.len() / 3 > (usize::MAX - 4) / 4 {
                return None;
            }
            Some(base64_encode(png.as_slice()))
        },
    }
}

} // verus!
