//! Frame normalization: working-area extraction from a raw captured frame,
//! fixed-point grayscale conversion, brightness boosting (through the
//! `image` crate), and rectangular cropping.

use vstd::prelude::*;
use crate::pixelbuf_wrapper::PixbufWrapper;

verus! {

/// A 3-bytes-per-pixel RGB image held as plain row-major bytes.
#[derive(Debug, Clone)]
pub struct RgbFrame {
    /// Width in pixels.
    pub width: u32,
    /// Height in pixels.
    pub height: u32,
    /// Row-major pixel bytes: red, green, blue for each pixel.
    pub data: Vec<u8>,
}

impl RgbFrame {
    /// The buffer holds exactly three bytes per pixel.
    pub open spec fn wf(&self) -> bool {
        self.data@.len() == 3 * self.width * self.height
    }

    /// Channel `c` (0 red, 1 green, 2 blue) of the pixel at `(x, y)`.
    pub open spec fn pixel(&self, x: int, y: int, c: int) -> u8 {
        self.data@[3 * (y * self.width + x) + c]
    }
}

/// A single-channel grayscale image held as plain row-major bytes.
#[derive(Debug, Clone)]
pub struct GrayFrame {
    /// Width in pixels.
    pub width: u32,
    /// Height in pixels.
    pub height: u32,
    /// Row-major pixel bytes, one per pixel.
    pub data: Vec<u8>,
}

impl GrayFrame {
    /// The buffer holds exactly one byte per pixel.
    pub open spec fn wf(&self) -> bool {
        self.data@.len() == self.width * self.height
    }
}

/// Integer luma of one RGB pixel: the BT.601 weighting (0.299, 0.587,
/// 0.114) in fixed point, scaled by two to the fourteenth and rounded.  The
/// three weights sum to exactly the divisor, so a gray pixel keeps its value.
pub open spec fn spec_luma(r: u8, g: u8, b: u8) -> u8 {
    ((4899 * (r as int) + 9617 * (g as int) + 1868 * (b as int) + 8192) / 16384) as u8
}

/// One brightened byte: the channel value moved by `v` and clamped to `0..=255`.
pub open spec fn spec_brighten_byte(b: u8, v: int) -> u8 {
    if b + v < 0 {
        0u8
    } else if b + v > 255 {
        255u8
    } else {
        (b + v) as u8
    }
}

proof fn lemma_row_major_bound(yy: int, xx: int, w: int, y: int)
    by (nonlinear_arith)
    requires
        0 <= yy < y,
        0 <= xx < w,
    ensures
        0 <= yy * w + xx,
        yy * w + xx < y * w,
{
}

proof fn lemma_src_index_bound(y: int, x: int, st: int, h: int, w: int)
    by (nonlinear_arith)
    requires
        0 <= y < h,
        0 <= x < w,
        st >= 4 * w,
    ensures
        0 <= y * st + 4 * x + 3 < h * st,
{
}

/// Whether the raw frame can be interpreted at its claimed dimensions and the
/// rectangle `(x0, y0, cw, ch)` lies inside it with positive area.
pub open spec fn spec_extract_ok(
    frame: crate::pixelbuf_wrapper::FrameView,
    x0: int,
    y0: int,
    cw: int,
    ch: int,
) -> bool {
    &&& frame.width > 0
    &&& frame.height > 0
    &&& frame.stride >= 4 * frame.width
    &&& frame.bytes.len() >= frame.stride * frame.height
    &&& cw > 0
    &&& ch > 0
    &&& x0 + cw <= frame.width
    &&& y0 + ch <= frame.height
}

/// Copies the rectangle `(x0, y0, cw, ch)` out of a raw 4-bytes-per-pixel
/// frame, dropping the unused fourth channel and swapping the blue-first byte
/// order into red-first.  A frame that cannot be interpreted at its claimed
/// dimensions, or a rectangle that does not fit in it, yields `None`.
pub fn extract_rgb_region(
    frame: &PixbufWrapper,
    x0: usize,
    y0: usize,
    cw: usize,
    ch: usize,
) -> (r: Option<RgbFrame>)
    ensures
        r is Some <==> spec_extract_ok(frame@, x0 as int, y0 as int, cw as int, ch as int),
        r is Some ==> {
            &&& r->Some_0.wf()
            &&& r->Some_0.width == cw
            &&& r->Some_0.height == ch
            &&& forall|x: int, y: int, c: int|
                0 <= x < cw && 0 <= y < ch && 0 <= c < 3
                    ==> r->Some_0.pixel(x, y, c) == frame@.bytes[(y0 + y) * frame@.stride + 4 * (
                    x0 + x) + (2 - c)]
        },
{
    if frame.width <= 0 || frame.height <= 0 {
        return None;
    }
    let w = frame.width as usize;
    let h = frame.height as usize;
    if frame.stride < 0 {
        return None;
    }
    let st = frame.stride as usize;
    if st / 4 < w {
        assert(frame@.stride < 4 * frame@.width) by {
            if frame@.stride >= 4 * frame@.width {
                assert(st / 4 >= (4 * w) / 4) by {
                    vstd::arithmetic::div_mod::lemma_div_is_ordered(4 * w as int, st as int, 4);
                };
                assert((4 * w) / 4 == w) by {
                    vstd::arithmetic::div_mod::lemma_div_by_multiple(w as int, 4);
                };
            }
        };
        return None;
    }
    assert(st >= 4 * w) by {
        assert(st / 4 >= w);
        assert(st >= 4 * (st / 4)) by {
            vstd::arithmetic::div_mod::lemma_fundamental_div_mod(st as int, 4);
        };
        assert(4 * (st / 4) >= 4 * w) by (nonlinear_arith)
            requires st / 4 >= w;
    };
    let buflen = frame.bgr_buffer.len();
    if buflen / h < st {
        assert(buflen < st * h) by (nonlinear_arith)
            requires buflen / h < st && h > 0 && buflen >= 0;
        return None;
    }
    assert(st * h <= buflen) by (nonlinear_arith)
        requires buflen / h >= st && h > 0 && buflen >= 0;
    if cw == 0 || ch == 0 || cw > w || x0 > w - cw || ch > h || y0 > h - ch {
        return None;
    }
    assert(3 * cw * ch <= st * h) by (nonlinear_arith)
        requires 0 < cw <= w && 0 < ch <= h && st >= 4 * w;

    let mut data: Vec<u8> = Vec::new();
    let mut y: usize = 0;
    while y < ch
        invariant
            0 <= y <= ch,
            spec_extract_ok(frame@, x0 as int, y0 as int, cw as int, ch as int),
            w == frame@.width,
            h == frame@.height,
            st == frame@.stride,
            buflen == frame@.bytes.len(),
            x0 + cw <= w,
            y0 + ch <= h,
            data@.len() == 3 * (y * cw),
            forall|xx: int, yy: int, c: int|
                0 <= xx < cw && 0 <= yy < y && 0 <= c < 3
                    ==> #[trigger] data@[3 * (yy * cw + xx) + c] == frame@.bytes[(y0 + yy) * st + 4
                    * (x0 + xx) + (2 - c)],
        decreases ch - y,
    {
        let mut x: usize = 0;
        while x < cw
            invariant
                0 <= y < ch,
                0 <= x <= cw,
                spec_extract_ok(frame@, x0 as int, y0 as int, cw as int, ch as int),
                w == frame@.width,
                h == frame@.height,
                st == frame@.stride,
                buflen == frame@.bytes.len(),
                x0 + cw <= w,
                y0 + ch <= h,
                data@.len() == 3 * (y * cw) + 3 * x,
                forall|xx: int, yy: int, c: int|
                    0 <= xx < cw && 0 <= yy < y && 0 <= c < 3
                        ==> #[trigger] data@[3 * (yy * cw + xx) + c] == frame@.bytes[(y0 + yy) * st
                        + 4 * (x0 + xx) + (2 - c)],
                forall|xx: int, c: int|
                    0 <= xx < x && 0 <= c < 3
                        ==> #[trigger] data@[3 * (y * cw + xx) + c] == frame@.bytes[(y0 + y) * st
                        + 4 * (x0 + xx) + (2 - c)],
            decreases cw - x,
        {
            let sy = y0 + y;
            let sx = x0 + x;
            proof {
                lemma_src_index_bound(sy as int, sx as int, st as int, h as int, w as int);
                assert(h * st == st * h) by (nonlinear_arith);
                assert(sy * st + 4 * sx + 3 < frame@.bytes.len());
                assert(sy * st + 4 * sx + 3 <= usize::MAX);
            }
            let base = sy * st + 4 * sx;
            data.push(frame.bgr_buffer[base + 2]);
            data.push(frame.bgr_buffer[base + 1]);
            data.push(frame.bgr_buffer[base]);
            proof {
                assert forall|xx: int, yy: int, c: int|
                    0 <= xx < cw && 0 <= yy < y && 0 <= c < 3 implies #[trigger] data@[3 * (yy * cw
                    + xx) + c] == frame@.bytes[(y0 + yy) * st + 4 * (x0 + xx) + (2 - c)] by {
                    lemma_row_major_bound(yy, xx, cw as int, y as int);
                    assert(3 * (yy * cw + xx) + c < 3 * (y * cw) + 3 * x);
                }
                assert forall|xx: int, c: int|
                    0 <= xx < x + 1 && 0 <= c < 3 implies #[trigger] data@[3 * (y * cw + xx) + c]
                    == frame@.bytes[(y0 + y) * st + 4 * (x0 + xx) + (2 - c)] by {
                    if xx < x {
                        assert(3 * (y * cw + xx) + c < 3 * (y * cw) + 3 * x);
                    } else {
                        assert(3 * (y * cw + xx) + c == 3 * (y * cw) + 3 * x + c);
                    }
                }
            }
            x = x + 1;
        }
        proof {
            assert(3 * (y * cw) + 3 * cw == 3 * ((y + 1) * cw)) by (nonlinear_arith);
        }
        y = y + 1;
    }
    let res = RgbFrame { width: cw as u32, height: ch as u32, data };
    proof {
        assert(res.data@.len() == 3 * res.width * res.height) by (nonlinear_arith)
            requires res.data@.len() == 3 * (ch * cw) && res.width == cw && res.height == ch;
        assert forall|x: int, y: int, c: int|
            0 <= x < cw && 0 <= y < ch && 0 <= c < 3 implies res.pixel(x, y, c) == frame@.bytes[(y0
            + y) * frame@.stride + 4 * (x0 + x) + (2 - c)] by {
            assert(res.pixel(x, y, c) == res.data@[3 * (y * cw + x) + c]);
        }
    }
    Some(res)
}

/// Copies the rectangle `(x0, y0, cw, ch)` out of an RGB image.  A rectangle
/// with zero area or one not contained in the image yields `None`.
pub fn crop_rgb(img: &RgbFrame, x0: usize, y0: usize, cw: usize, ch: usize) -> (r: Option<
    RgbFrame,
>)
    requires
        img.wf(),
    ensures
        r is Some <==> (cw > 0 && ch > 0 && x0 + cw <= img.width && y0 + ch <= img.height),
        r is Some ==> {
            &&& r->Some_0.wf()
            &&& r->Some_0.width == cw
            &&& r->Some_0.height == ch
            &&& forall|x: int, y: int, c: int|
                0 <= x < cw && 0 <= y < ch && 0 <= c < 3
                    ==> r->Some_0.pixel(x, y, c) == img.pixel(x0 + x, y0 + y, c)
        },
{
    let w = img.width as usize;
    let h = img.height as usize;
    if cw == 0 || ch == 0 || cw > w || x0 > w - cw || ch > h || y0 > h - ch {
        return None;
    }
    let total = img.data.len();
    proof {
        assert(total == 3 * w * h);
        assert(3 * (h * w) == 3 * w * h) by (nonlinear_arith);
    }
    let mut data: Vec<u8> = Vec::new();
    let mut y: usize = 0;
    while y < ch
        invariant
            0 <= y <= ch,
            img.wf(),
            total == img.data@.len(),
            total == 3 * (h * w),
            w == img.width,
            h == img.height,
            cw > 0,
            ch > 0,
            x0 + cw <= w,
            y0 + ch <= h,
            data@.len() == 3 * (y * cw),
            forall|xx: int, yy: int, c: int|
                0 <= xx < cw && 0 <= yy < y && 0 <= c < 3
                    ==> #[trigger] data@[3 * (yy * cw + xx) + c] == img.pixel(x0 + xx, y0 + yy, c),
        decreases ch - y,
    {
        let mut x: usize = 0;
        while x < cw
            invariant
                0 <= y < ch,
                0 <= x <= cw,
                img.wf(),
                total == img.data@.len(),
                total == 3 * (h * w),
                w == img.width,
                h == img.height,
                cw > 0,
                ch > 0,
                x0 + cw <= w,
                y0 + ch <= h,
                data@.len() == 3 * (y * cw) + 3 * x,
                forall|xx: int, yy: int, c: int|
                    0 <= xx < cw && 0 <= yy < y && 0 <= c < 3
                        ==> #[trigger] data@[3 * (yy * cw + xx) + c] == img.pixel(
                        x0 + xx,
                        y0 + yy,
                        c,
                    ),
                forall|xx: int, c: int|
                    0 <= xx < x && 0 <= c < 3
                        ==> #[trigger] data@[3 * (y * cw + xx) + c] == img.pixel(x0 + xx, y0 + y, c),
            decreases cw - x,
        {
            let sy = y0 + y;
            let sx = x0 + x;
            proof {
                lemma_row_major_bound(sy as int, sx as int, w as int, h as int);
                assert(3 * (sy * w + sx) + 2 < 3 * (h * w)) by (nonlinear_arith)
                    requires 0 <= sy * w + sx && sy * w + sx < h * w;
            }
            let base = 3 * (sy * w + sx);
            data.push(img.data[base]);
            data.push(img.data[base + 1]);
            data.push(img.data[base + 2]);
            proof {
                assert forall|xx: int, yy: int, c: int|
                    0 <= xx < cw && 0 <= yy < y && 0 <= c < 3 implies #[trigger] data@[3 * (yy * cw
                    + xx) + c] == img.pixel(x0 + xx, y0 + yy, c) by {
                    lemma_row_major_bound(yy, xx, cw as int, y as int);
                    assert(3 * (yy * cw + xx) + c < 3 * (y * cw) + 3 * x);
                }
                assert forall|xx: int, c: int|
                    0 <= xx < x + 1 && 0 <= c < 3 implies #[trigger] data@[3 * (y * cw + xx) + c]
                    == img.pixel(x0 + xx, y0 + y, c) by {
                    if xx < x {
                        assert(3 * (y * cw + xx) + c < 3 * (y * cw) + 3 * x);
                    } else {
                        assert(3 * (y * cw + xx) + c == 3 * (y * cw) + 3 * x + c);
                    }
                }
            }
            x = x + 1;
        }
        proof {
            assert(3 * (y * cw) + 3 * cw == 3 * ((y + 1) * cw)) by (nonlinear_arith);
        }
        y = y + 1;
    }
    let res = RgbFrame { width: cw as u32, height: ch as u32, data };
    proof {
        assert(res.data@.len() == 3 * res.width * res.height) by (nonlinear_arith)
            requires res.data@.len() == 3 * (ch * cw) && res.width == cw && res.height == ch;
        assert forall|x: int, y: int, c: int|
            0 <= x < cw && 0 <= y < ch && 0 <= c < 3 implies res.pixel(x, y, c) == img.pixel(
            x0 + x,
            y0 + y,
            c,
        ) by {
            assert(res.pixel(x, y, c) == res.data@[3 * (y * cw + x) + c]);
        }
    }
    Some(res)
}

/// Replicates a grayscale image into a three-channel RGB image whose channels
/// all carry the gray value.
pub fn gray_to_rgb(img: &GrayFrame) -> (r: RgbFrame)
    requires
        img.wf(),
        3 * img.width * img.height <= usize::MAX,
    ensures
        r.wf(),
        r.width == img.width,
        r.height == img.height,
        forall|i: int|
            0 <= i < img.data@.len() ==> {
                &&& #[trigger] r.data@[3 * i] == img.data@[i]
                &&& r.data@[3 * i + 1] == img.data@[i]
                &&& r.data@[3 * i + 2] == img.data@[i]
            },
{
    let n = img.data.len();
    let mut data: Vec<u8> = Vec::new();
    let mut i: usize = 0;
    while i < n
        invariant
            0 <= i <= n,
            n == img.data@.len(),
            data@.len() == 3 * i,
            forall|j: int|
                0 <= j < i ==> {
                    &&& #[trigger] data@[3 * j] == img.data@[j]
                    &&& data@[3 * j + 1] == img.data@[j]
                    &&& data@[3 * j + 2] == img.data@[j]
                },
        decreases n - i,
    {
        let b = img.data[i];
        let ghost pre = data@;
        data.push(b);
        data.push(b);
        data.push(b);
        proof {
            assert(data@ =~= pre + seq![b, b, b]);
            assert forall|j: int|
                0 <= j < i + 1 implies {
                &&& #[trigger] data@[3 * j] == img.data@[j]
                &&& data@[3 * j + 1] == img.data@[j]
                &&& data@[3 * j + 2] == img.data@[j]
            } by {
                if j < i {
                    assert(3 * j + 2 < 3 * i);
                    assert(data@[3 * j] == pre[3 * j]);
                    assert(data@[3 * j + 1] == pre[3 * j + 1]);
                    assert(data@[3 * j + 2] == pre[3 * j + 2]);
                } else {
                    assert(data@[3 * i] == b);
                    assert(data@[3 * i + 1] == b);
                    assert(data@[3 * i + 2] == b);
                }
            }
        }
        i = i + 1;
    }
    proof {
        assert(data@.len() == 3 * img.width * img.height) by (nonlinear_arith)
            requires data@.len() == 3 * (img.width * img.height);
    }
    RgbFrame { width: img.width, height: img.height, data }
}

/// Converts an RGB image to grayscale: each output pixel is the fixed-point
/// BT.601 luma of the matching input pixel.
pub fn grayscale_frame(img: &RgbFrame) -> (r: GrayFrame)
    requires
        img.wf(),
    ensures
        r.wf(),
        r.width == img.width,
        r.height == img.height,
        forall|i: int|
            0 <= i < r.data@.len() ==> #[trigger] r.data@[i] == spec_luma(
                img.data@[3 * i],
                img.data@[3 * i + 1],
                img.data@[3 * i + 2],
            ),
{
    let total = img.data.len();
    let n = total / 3;
    proof {
        assert(3 * (img.width * img.height) == 3 * img.width * img.height) by (nonlinear_arith);
        vstd::arithmetic::div_mod::lemma_div_multiples_vanish(
            (img.width * img.height) as int,
            3,
        );
        assert(n == img.width * img.height);
    }
    let mut data: Vec<u8> = Vec::new();
    let mut j: usize = 0;
    while j < n
        invariant
            0 <= j <= n,
            total == img.data@.len(),
            total == 3 * n,
            data@.len() == j,
            forall|k: int|
                0 <= k < j ==> #[trigger] data@[k] == spec_luma(
                    img.data@[3 * k],
                    img.data@[3 * k + 1],
                    img.data@[3 * k + 2],
                ),
        decreases n - j,
    {
        let base = 3 * j;
        let red = img.data[base];
        let green = img.data[base + 1];
        let blue = img.data[base + 2];
        let sum: u32 = 4899 * (red as u32) + 9617 * (green as u32) + 1868 * (blue as u32) + 8192;
        proof {
            assert(sum < 16384 * 256);
            assert(sum / 16384 < 256) by (nonlinear_arith)
                requires sum < 16384 * 256 && sum >= 0;
        }
        let y = sum / 16384;
        data.push(y as u8);
        j = j + 1;
    }
    GrayFrame { width: img.width, height: img.height, data }
}

/// Relies on `image::imageops::colorops::brighten_in_place`: every channel
/// byte is moved by `value` and clamped to `0..=255`.  The crate adds
/// `value` to each byte in machine `i32` before clamping, so `value` must be
/// small enough that the sum cannot overflow.
#[verifier::external_body]
pub fn brighten_frame(img: &RgbFrame, value: i32) -> (r: RgbFrame)
    requires
        img.wf(),
        -255 <= value <= 255,
    ensures
        r.wf(),
        r.width == img.width,
        r.height == img.height,
        forall|i: int|
            0 <= i < img.data@.len() ==> #[trigger] r.data@[i] == spec_brighten_byte(
                img.data@[i],
                value as int,
            ),
{
    let mut buf = image::RgbImage::from_raw(img.width, img.height, img.data.clone()).unwrap();
    image::imageops::colorops::brighten_in_place(&mut buf, value);
    RgbFrame { width: img.width, height: img.height, data: buf.into_raw() }
}

/// Crops one stat region out of the brightened image and converts it to
/// grayscale for template matching.  A region not contained in the image
/// yields `None`.
pub fn prepare_region(img: &RgbFrame, x0: usize, y0: usize, cw: usize, ch: usize) -> (r: Option<
    GrayFrame,
>)
    requires
        img.wf(),
    ensures
        r is Some <==> (cw > 0 && ch > 0 && x0 + cw <= img.width && y0 + ch <= img.height),
        r is Some ==> {
            &&& r->Some_0.wf()
            &&& r->Some_0.width == cw
            &&& r->Some_0.height == ch
            &&& forall|x: int, y: int|
                0 <= x < cw && 0 <= y < ch ==> #[trigger] r->Some_0.data@[y * cw + x] == spec_luma(
                    img.pixel(x0 + x, y0 + y, 0),
                    img.pixel(x0 + x, y0 + y, 1),
                    img.pixel(x0 + x, y0 + y, 2),
                )
        },
{
    match crop_rgb(img, x0, y0, cw, ch) {
        None => None,
        Some(sub) => {
            let gray = grayscale_frame(&sub);
            proof {
                assert forall|x: int, y: int|
                    0 <= x < cw && 0 <= y < ch implies #[trigger] gray.data@[y * cw + x]
                    == spec_luma(
                    img.pixel(x0 + x, y0 + y, 0),
                    img.pixel(x0 + x, y0 + y, 1),
                    img.pixel(x0 + x, y0 + y, 2),
                ) by {
                    lemma_row_major_bound(y, x, cw as int, ch as int);
                    assert(gray.data@[y * cw + x] == spec_luma(
                        sub.data@[3 * (y * cw + x)],
                        sub.data@[3 * (y * cw + x) + 1],
                        sub.data@[3 * (y * cw + x) + 2],
                    ));
                    assert(sub.pixel(x, y, 0) == img.pixel(x0 + x, y0 + y, 0));
                    assert(sub.pixel(x, y, 1) == img.pixel(x0 + x, y0 + y, 1));
                    assert(sub.pixel(x, y, 2) == img.pixel(x0 + x, y0 + y, 2));
                }
            }
            Some(gray)
        },
    }
}

} // verus!
