//! Preview geometry: output size, bilinear source taps, and the loops that
//! fill an 8-bit preview from a linear image.

use vstd::prelude::*;
use crate::error::Cancelled;
use crate::linear::{lemma_pixel_in_buffer, LinearPixel, LoadedExr, LoadedExrView};

verus! {

/// How a preview is resampled.
#[derive(Debug, Clone, Copy, PartialEq, Eq, Structural)]
pub enum PreviewQuality {
    /// Bilinear interpolation.
    Fast,
    /// Lanczos-3.
    High,
}

/// One display pixel: encoded colour and quantized alpha.
#[derive(Debug, Clone, Copy, PartialEq, Eq, Structural)]
pub struct Rgba8 {
    pub r: u8,
    pub g: u8,
    pub b: u8,
    pub a: u8,
}

/// An 8-bit RGBA image, interleaved, row by row.
#[derive(Debug, Clone)]
pub struct PreviewImage {
    pub width: u32,
    pub height: u32,
    pub rgba8: Vec<u8>,
}

impl PreviewImage {
    /// There are four bytes for each pixel.
    pub open spec fn wf(&self) -> bool {
        self.rgba8@.len() == 4 * self.width * self.height
    }

    /// The pixel in column `x` of row `y`.
    pub open spec fn pixel(&self, x: int, y: int) -> Rgba8 {
        quad(self.rgba8@, y * self.width + x)
    }
}

/// The `k`-th group of four bytes of an interleaved buffer, read as a pixel.
pub open spec fn quad(rgba: Seq<u8>, k: int) -> Rgba8 {
    Rgba8 { r: rgba[4 * k], g: rgba[4 * k + 1], b: rgba[4 * k + 2], a: rgba[4 * k + 3] }
}

/// `a / b` rounded to the nearest integer, halves upwards.
pub open spec fn round_ratio(a: int, b: int) -> int {
    (2 * a + b) / (2 * b)
}

/// The scale of a preview as a fraction `(num, den)`: 1 when the image fits
/// into a square of side `max_size`, else the factor that brings its longer
/// side to `max_size`.
pub open spec fn preview_scale(width: int, height: int, max_size: int) -> (int, int) {
    if width <= max_size && height <= max_size {
        (1, 1)
    } else if width >= height {
        (max_size, width)
    } else {
        (max_size, height)
    }
}

/// A length scaled by `num / den` and rounded, but never less than 1.
pub open spec fn scaled_len(len: int, num: int, den: int) -> int {
    let r = round_ratio(len * num, den);
    if r < 1 {
        1
    } else {
        r
    }
}

/// Width and height of the preview of a `width` by `height` image.
pub open spec fn preview_dims(width: int, height: int, max_size: int) -> (int, int) {
    let (num, den) = preview_scale(width, height, max_size);
    (scaled_len(width, num, den), scaled_len(height, num, den))
}

/// A scaled length is at least 1, at most the length it came from (or 1), and
/// at most the numerator when the length does not exceed the denominator.
pub proof fn lemma_scaled_len_bounds(len: int, num: int, den: int)
    requires
        0 <= len,
        0 <= num <= den,
        0 < den,
    ensures
        1 <= scaled_len(len, num, den),
        scaled_len(len, num, den) <= if len < 1 {
            1
        } else {
            len
        },
        len <= den ==> scaled_len(len, num, den) <= if num < 1 {
            1
        } else {
            num
        },
        len == den && num >= 1 ==> scaled_len(len, num, den) == num,
{
    let r = round_ratio(len * num, den);
    let a = 2 * (len * num) + den;
    let b = 2 * den;
    vstd::arithmetic::div_mod::lemma_fundamental_div_mod(a, b);
    vstd::arithmetic::div_mod::lemma_mod_bound(a, b);
    assert(b * r <= a < b * r + b);
    assert(r <= len) by (nonlinear_arith)
        requires
            b * r <= a,
            a == 2 * (len * num) + den,
            b == 2 * den,
            0 <= num <= den,
            0 < den,
            0 <= len,
    ;
    if len <= den {
        assert(r <= num) by (nonlinear_arith)
            requires
                b * r <= a,
                a == 2 * (len * num) + den,
                b == 2 * den,
                0 <= num <= den,
                0 < den,
                0 <= len <= den,
        ;
    }
    if len == den && num >= 1 {
        assert(r == num) by (nonlinear_arith)
            requires
                b * r <= a < b * r + b,
                a == 2 * (len * num) + den,
                b == 2 * den,
                len == den,
                0 < den,
        ;
    }
}

/// Neither side of a preview is less than 1 or more than `max_size` (or 1),
/// nor more than the side it came from (or 1); and when the image does not
/// fit, its longer side becomes exactly `max_size`.
pub proof fn lemma_preview_dims_bounds(width: int, height: int, max_size: int)
    requires
        0 <= width,
        0 <= height,
        0 <= max_size,
    ensures
        ({
            let (w, h) = preview_dims(width, height, max_size);
            let cap = if max_size < 1 {
                1
            } else {
                max_size
            };
            &&& 1 <= w <= cap
            &&& 1 <= h <= cap
            &&& w <= if width < 1 {
                1
            } else {
                width
            }
            &&& h <= if height < 1 {
                1
            } else {
                height
            }
            &&& (width <= max_size && height <= max_size && width >= 1 ==> w == width)
            &&& (width <= max_size && height <= max_size && height >= 1 ==> h == height)
            &&& (!(width <= max_size && height <= max_size) && max_size >= 1 && width >= height
                ==> w == max_size)
            &&& (!(width <= max_size && height <= max_size) && max_size >= 1 && height >= width
                ==> h == max_size)
        }),
{
    let (num, den) = preview_scale(width, height, max_size);
    if width <= max_size && height <= max_size {
        assert(width * 1 == width && height * 1 == height);
        vstd::arithmetic::div_mod::lemma_fundamental_div_mod_converse(2 * width + 1, 2, width as int, 1);
        vstd::arithmetic::div_mod::lemma_fundamental_div_mod_converse(2 * height + 1, 2, height as int, 1);
    } else {
        lemma_scaled_len_bounds(width, num, den);
        lemma_scaled_len_bounds(height, num, den);
    }
}

/// Computes `scaled_len` where the result is known to fit.
fn scale_len(len: usize, num: u32, den: usize) -> (r: u32)
    requires
        num <= den,
        0 < den,
        len <= den,
    ensures
        r == scaled_len(len as int, num as int, den as int),
{
    proof {
        lemma_scaled_len_bounds(len as int, num as int, den as int);
        assert(0 <= len * num <= 0xffff_ffff_ffff_ffff * 0xffff_ffff) by (nonlinear_arith)
            requires
                0 <= len <= 0xffff_ffff_ffff_ffff,
                0 <= num <= 0xffff_ffff,
        ;
    }
    let a: u128 = 2 * ((len as u128) * (num as u128)) + (den as u128);
    let b: u128 = 2 * (den as u128);
    let r: u128 = a / b;
    if r < 1 {
        1
    } else {
        r as u32
    }
}

/// Computes the width and height of the preview of a `width` by `height` image
/// that has to fit into a square of side `max_size`.
pub fn preview_size(width: usize, height: usize, max_size: u32) -> (r: (u32, u32))
    ensures
        (r.0 as int, r.1 as int) == preview_dims(width as int, height as int, max_size as int),
        1 <= r.0,
        1 <= r.1,
{
    proof {
        lemma_preview_dims_bounds(width as int, height as int, max_size as int);
    }
    if width <= max_size as usize && height <= max_size as usize {
        let w: u32 = if width < 1 {
            1
        } else {
            width as u32
        };
        let h: u32 = if height < 1 {
            1
        } else {
            height as u32
        };
        (w, h)
    } else {
        let den = if width >= height {
            width
        } else {
            height
        };
        (scale_len(width, max_size, den), scale_len(height, max_size, den))
    }
}

/// A position between two neighbouring source samples: `num / den` of the way
/// from sample `lo` to sample `hi`.
#[derive(Debug, Clone, Copy, PartialEq, Eq, Structural)]
pub struct Tap {
    pub lo: usize,
    pub hi: usize,
    pub num: u32,
    pub den: u32,
}

/// Where output coordinate `o` falls on a source axis of `len` samples that
/// was scaled by `num / den`: at `o * den / num`, split into the sample below,
/// the sample above (the last one at most) and the fraction between them.
pub open spec fn tap_at(o: int, len: int, num: int, den: int) -> Tap {
    if num <= 0 {
        Tap { lo: 0, hi: (if 1 < len { 1int } else { len - 1 }) as usize, num: 0, den: 1 }
    } else {
        let lo = (o * den) / num;
        Tap {
            lo: lo as usize,
            hi: (if lo + 1 < len { lo + 1 } else { len - 1 }) as usize,
            num: ((o * den) % num) as u32,
            den: num as u32,
        }
    }
}

/// The source position of every output coordinate lies on the source axis.
pub proof fn lemma_tap_in_range(o: int, len: int, num: int, den: int)
    requires
        1 <= len <= usize::MAX,
        0 <= num <= den,
        num <= u32::MAX,
        0 < den,
        0 <= o < scaled_len(len, num, den),
    ensures
        ({
            let t = tap_at(o, len, num, den);
            &&& t.lo < len
            &&& t.lo <= t.hi < len
            &&& t.num < t.den
            &&& num > 0 ==> t.lo == (o * den) / num
        }),
{
    if num > 0 {
        let p = o * den;
        let lo = p / num;
        vstd::arithmetic::div_mod::lemma_fundamental_div_mod(p, num);
        vstd::arithmetic::div_mod::lemma_mod_bound(p, num);
        assert(0 <= p) by (nonlinear_arith)
            requires
                p == o * den,
                0 <= o,
                0 < den,
        ;
        assert(0 <= lo) by (nonlinear_arith)
            requires
                p == num * lo + p % num,
                0 <= p,
                p % num < num,
                0 < num,
        ;
        if o >= 1 {
            let a = 2 * (len * num) + den;
            let b = 2 * den;
            let r = round_ratio(len * num, den);
            vstd::arithmetic::div_mod::lemma_fundamental_div_mod(a, b);
            vstd::arithmetic::div_mod::lemma_mod_bound(a, b);
            assert(r >= o + 1);
            assert(p < len * num) by (nonlinear_arith)
                requires
                    b * r <= a,
                    r >= o + 1,
                    a == 2 * (len * num) + den,
                    b == 2 * den,
                    p == o * den,
                    0 < den,
            ;
            assert(lo < len) by (nonlinear_arith)
                requires
                    p == num * lo + p % num,
                    0 <= p % num,
                    p < len * num,
                    0 < num,
            ;
        } else {
            assert(p == 0) by (nonlinear_arith)
                requires
                    p == o * den,
                    o == 0,
            ;
            assert(lo == 0);
        }
    }
}

/// Computes `tap_at` for an output coordinate inside the scaled axis.
fn source_tap(o: u32, len: usize, num: u32, den: usize) -> (t: Tap)
    requires
        1 <= len,
        num <= den,
        0 < den,
        o < scaled_len(len as int, num as int, den as int),
    ensures
        t == tap_at(o as int, len as int, num as int, den as int),
        t.lo <= t.hi < len,
        t.num < t.den,
{
    proof {
        lemma_tap_in_range(o as int, len as int, num as int, den as int);
    }
    if num == 0 {
        let hi: usize = if 1 < len {
            1
        } else {
            len - 1
        };
        return Tap { lo: 0, hi, num: 0, den: 1 };
    }
    proof {
        assert(0 <= o * den <= 0xffff_ffff * 0xffff_ffff_ffff_ffff) by (nonlinear_arith)
            requires
                0 <= den <= 0xffff_ffff_ffff_ffff,
                0 <= o <= 0xffff_ffff,
        ;
        vstd::arithmetic::div_mod::lemma_mod_bound(o * den, num as int);
    }
    let p: u128 = (o as u128) * (den as u128);
    let q: u128 = p / (num as u128);
    let f: u128 = p % (num as u128);
    let lo: usize = q as usize;
    let hi: usize = if lo + 1 < len {
        lo + 1
    } else {
        len - 1
    };
    Tap { lo, hi, num: f as u32, den: num }
}

/// What bilinear interpolation needs for one output pixel: the four source
/// pixels around its source position and the fractions between them along
/// each axis. `p10` is the right neighbour of `p00`, `p01` the one below it.
#[derive(Debug, Clone, Copy)]
pub struct BilinearSample<T> {
    pub p00: LinearPixel<T>,
    pub p10: LinearPixel<T>,
    pub p01: LinearPixel<T>,
    pub p11: LinearPixel<T>,
    pub tx_num: u32,
    pub tx_den: u32,
    pub ty_num: u32,
    pub ty_den: u32,
}

/// The bilinear sample for output pixel `(ox, oy)` of the preview of `img`.
pub open spec fn bilinear_at<T>(img: LoadedExrView<T>, max_size: int, ox: int, oy: int)
    -> BilinearSample<T> {
    let (num, den) = preview_scale(img.width as int, img.height as int, max_size);
    let tx = tap_at(ox, img.width as int, num, den);
    let ty = tap_at(oy, img.height as int, num, den);
    BilinearSample {
        p00: img.pixel(tx.lo as int, ty.lo as int),
        p10: img.pixel(tx.hi as int, ty.lo as int),
        p01: img.pixel(tx.lo as int, ty.hi as int),
        p11: img.pixel(tx.hi as int, ty.hi as int),
        tx_num: tx.num,
        tx_den: tx.den,
        ty_num: ty.num,
        ty_den: ty.den,
    }
}

/// Computes the bilinear sample for output pixel `(ox, oy)` of the preview of
/// `img`; nothing for an empty image or a pixel outside the preview.
pub fn bilinear_sample<T: Copy>(img: &LoadedExr<T>, max_size: u32, ox: u32, oy: u32) -> (s: Option<
    BilinearSample<T>,
>)
    ensures
        ({
            let (w, h) = preview_dims(img@.width as int, img@.height as int, max_size as int);
            s == (if img@.width >= 1 && img@.height >= 1 && ox < w && oy < h {
                Some(bilinear_at(img@, max_size as int, ox as int, oy as int))
            } else {
                None
            })
        }),
{
    let width = img.width();
    let height = img.height();
    if width < 1 || height < 1 {
        return None;
    }
    let (w, h) = preview_size(width, height, max_size);
    if ox >= w || oy >= h {
        return None;
    }
    let (num, den): (u32, usize) = if width <= max_size as usize && height <= max_size as usize {
        (1, 1)
    } else if width >= height {
        (max_size, width)
    } else {
        (max_size, height)
    };
    let tx = source_tap(ox, width, num, den);
    let ty = source_tap(oy, height, num, den);
    let p00 = img.get_linear(tx.lo, ty.lo);
    let p10 = img.get_linear(tx.hi, ty.lo);
    let p01 = img.get_linear(tx.lo, ty.hi);
    let p11 = img.get_linear(tx.hi, ty.hi);
    Some(
        BilinearSample {
            p00: p00.unwrap(),
            p10: p10.unwrap(),
            p01: p01.unwrap(),
            p11: p11.unwrap(),
            tx_num: tx.num,
            tx_den: tx.den,
            ty_num: ty.num,
            ty_den: ty.den,
        },
    )
}

/// Appends one pixel to an interleaved buffer.
fn push_pixel(rgba: &mut Vec<u8>, px: Rgba8, Ghost(k): Ghost<int>)
    requires
        old(rgba)@.len() == 4 * k,
        0 <= k,
    ensures
        final(rgba)@.len() == 4 * (k + 1),
        quad(final(rgba)@, k) == px,
        forall|j: int| 0 <= j < k ==> quad(final(rgba)@, j) == quad(old(rgba)@, j),
{
    rgba.push(px.r);
    rgba.push(px.g);
    rgba.push(px.b);
    rgba.push(px.a);
}

/// Column and row of the `k`-th pixel of an image `w` pixels wide.
proof fn lemma_column_row(w: int, x: int, y: int)
    requires
        0 <= x < w,
        0 <= y,
    ensures
        (y * w + x) % w == x,
        (y * w + x) / w == y,
{
    assert(y * w + x == w * y + x) by (nonlinear_arith);
    vstd::arithmetic::div_mod::lemma_fundamental_div_mod_converse(y * w + x, w, y, x);
}

/// Whether `out` is a bilinear preview of `img`: it has the preview's
/// dimensions, and each of its pixels is one that `shade` may give for the
/// bilinear sample at that pixel.
pub open spec fn is_bilinear_preview<T, F: Fn(BilinearSample<T>) -> Rgba8>(
    img: LoadedExrView<T>,
    max_size: int,
    shade: F,
    out: PreviewImage,
) -> bool {
    &&& (out.width as int, out.height as int) == preview_dims(
        img.width as int,
        img.height as int,
        max_size,
    )
    &&& out.wf()
    &&& forall|ox: int, oy: int|
        0 <= ox < out.width && 0 <= oy < out.height ==> call_ensures(
            shade,
            (bilinear_at(img, max_size, ox, oy),),
            #[trigger] out.pixel(ox, oy),
        )
}

/// Two images of the same size whose pixels are the same hold the same bytes.
pub proof fn lemma_same_pixels(a: PreviewImage, b: PreviewImage)
    requires
        a.width == b.width,
        a.height == b.height,
        a.wf(),
        b.wf(),
        forall|x: int, y: int|
            0 <= x < a.width && 0 <= y < a.height ==> #[trigger] a.pixel(x, y) == b.pixel(x, y),
    ensures
        a.rgba8@ == b.rgba8@,
{
    let w = a.width as int;
    let h = a.height as int;
    assert forall|i: int| 0 <= i < a.rgba8@.len() implies a.rgba8@[i] == b.rgba8@[i] by {
        let k = i / 4;
        let x = k % w;
        let y = k / w;
        assert(4 * w * h == 4 * (w * h)) by (nonlinear_arith);
        assert(0 <= k < w * h);
        assert(w > 0) by (nonlinear_arith)
            requires
                0 <= k < w * h,
                0 <= w,
                0 <= h,
        ;
        vstd::arithmetic::div_mod::lemma_fundamental_div_mod(k, w);
        vstd::arithmetic::div_mod::lemma_mod_bound(k, w);
        assert(0 <= y < h) by (nonlinear_arith)
            requires
                k == w * y + x,
                0 <= x < w,
                0 <= k < w * h,
        ;
        assert(y * w + x == k) by (nonlinear_arith)
            requires
                k == w * y + x,
        ;
        assert(a.pixel(x, y) == b.pixel(x, y));
        assert(quad(a.rgba8@, k) == quad(b.rgba8@, k));
    }
    assert(a.rgba8@ =~= b.rgba8@);
}

/// Two previews of one image are the same, byte for byte, when shading gives
/// one answer for each sample.
pub proof fn lemma_preview_is_determined<T, F: Fn(BilinearSample<T>) -> Rgba8>(
    img: LoadedExrView<T>,
    max_size: int,
    shade: F,
    a: PreviewImage,
    b: PreviewImage,
)
    requires
        is_bilinear_preview(img, max_size, shade, a),
        is_bilinear_preview(img, max_size, shade, b),
        forall|s: BilinearSample<T>, x: Rgba8, y: Rgba8|
            #![trigger call_ensures(shade, (s,), x), call_ensures(shade, (s,), y)]
            call_ensures(shade, (s,), x) && call_ensures(shade, (s,), y) ==> x == y,
    ensures
        a.width == b.width,
        a.height == b.height,
        a.rgba8@ == b.rgba8@,
{
    assert forall|x: int, y: int| 0 <= x < a.width && 0 <= y < a.height implies #[trigger] a.pixel(
        x,
        y,
    ) == b.pixel(x, y) by {
        let s = bilinear_at(img, max_size, x, y);
        assert(call_ensures(shade, (s,), a.pixel(x, y)));
        assert(call_ensures(shade, (s,), b.pixel(x, y)));
    }
    lemma_same_pixels(a, b);
}

/// Whether `progress` may give `answer` when `row` rows of `rows` are done.
pub open spec fn row_report<P: Fn(u32, u32) -> bool>(progress: P, row: int, rows: int, answer: bool)
    -> bool {
    call_ensures(progress, (row as u32, rows as u32), answer)
}

/// Whether `progress` may let the reports after each of the first `upto` rows pass.
pub open spec fn rows_allowed<P: Fn(u32, u32) -> bool>(progress: P, rows: int, upto: int) -> bool {
    forall|y: int| 1 <= y <= upto ==> #[trigger] row_report(progress, y, rows, true)
}

/// Whether `progress` may stop the work after one of the rows, having let the
/// earlier reports pass.
pub open spec fn rows_stopped<P: Fn(u32, u32) -> bool>(progress: P, rows: int) -> bool {
    exists|y: int|
        1 <= y <= rows && #[trigger] row_report(progress, y, rows, false) && rows_allowed(
            progress,
            rows,
            y - 1,
        )
}

/// Builds the bilinear preview of `img` row by row: for every pixel of the
/// preview, in row order, `shade` turns the bilinear sample into the display
/// pixel. After each row `progress` is told how many rows are done and how
/// many there are; when it answers `false` the work stops and no image is
/// handed out.
pub fn render_preview<T: Copy, F, P>(
    img: &LoadedExr<T>,
    max_size: u32,
    shade: F,
    progress: P,
) -> (r: Result<PreviewImage, Cancelled>) where
    F: Fn(BilinearSample<T>) -> Rgba8,
    P: Fn(u32, u32) -> bool,

    requires
        img@.width >= 1,
        img@.height >= 1,
        forall|s: BilinearSample<T>| call_requires(shade, (s,)),
        forall|row: u32, rows: u32| call_requires(progress, (row, rows)),
    ensures
        match r {
            Ok(out) => {
                &&& is_bilinear_preview(img@, max_size as int, shade, out)
                &&& rows_allowed(progress, out.height as int, out.height as int)
            },
            Err(_) => rows_stopped(
                progress,
                preview_dims(img@.width as int, img@.height as int, max_size as int).1,
            ),
        },
{
    let width = img.width();
    let height = img.height();
    let (w, h) = preview_size(width, height, max_size);
    let samples = img.samples().len();
    proof {
        lemma_preview_dims_bounds(width as int, height as int, max_size as int);
        assert(samples == 4 * width * height);
        assert(w * h <= width * height) by (nonlinear_arith)
            requires
                1 <= w <= width,
                1 <= h <= height,
        ;
        assert(4 * (w * h) <= 4 * width * height) by (nonlinear_arith)
            requires
                w * h <= width * height,
        ;
    }
    let mut rgba8: Vec<u8> = Vec::new();
    let mut k: usize = 0;
    let mut ox: u32 = 0;
    let mut oy: u32 = 0;
    while oy < h
        invariant
            img@.width >= 1,
            img@.height >= 1,
            (w as int, h as int) == preview_dims(
                img@.width as int,
                img@.height as int,
                max_size as int,
            ),
            forall|s: BilinearSample<T>| call_requires(shade, (s,)),
            forall|row: u32, rows: u32| call_requires(progress, (row, rows)),
            4 * (w * h) <= usize::MAX,
            1 <= w,
            ox < w,
            oy <= h,
            k == oy * w + ox,
            oy == h ==> ox == 0,
            rgba8@.len() == 4 * k,
            forall|j: int|
                0 <= j < k ==> call_ensures(
                    shade,
                    (bilinear_at(img@, max_size as int, j % (w as int), j / (w as int)),),
                    #[trigger] quad(rgba8@, j),
                ),
            rows_allowed(progress, h as int, oy as int),
        decreases h - oy, w - ox,
    {
        let sample = bilinear_sample(img, max_size, ox, oy);
        let px = shade(sample.unwrap());
        proof {
            lemma_column_row(w as int, ox as int, oy as int);
            assert(oy * w + ox < w * h) by (nonlinear_arith)
                requires
                    0 <= ox < w,
                    0 <= oy < h,
            ;
        }
        push_pixel(&mut rgba8, px, Ghost(k as int));
        k += 1;
        ox += 1;
        if ox == w {
            ox = 0;
            oy += 1;
            assert(k == oy * w + ox) by (nonlinear_arith)
                requires
                    k == (oy - 1) * w + w,
                    ox == 0,
            ;
            let go = progress(oy, h);
            if !go {
                proof {
                    assert(row_report(progress, oy as int, h as int, false));
                    assert(rows_allowed(progress, h as int, oy - 1));
                }
                return Err(Cancelled);
            }
            proof {
                assert(row_report(progress, oy as int, h as int, true));
            }
        }
    }
    let out = PreviewImage { width: w, height: h, rgba8 };
    proof {
        assert(k == h * w) by (nonlinear_arith)
            requires
                k == oy * w + ox,
                oy == h,
                ox == 0,
        ;
        assert(4 * k == 4 * w * h) by (nonlinear_arith)
            requires
                k == h * w,
        ;
        assert forall|x: int, y: int| 0 <= x < out.width && 0 <= y < out.height implies call_ensures(
            shade,
            (bilinear_at(img@, max_size as int, x, y),),
            #[trigger] out.pixel(x, y),
        ) by {
            lemma_column_row(w as int, x, y);
            assert(0 <= y * w + x < h * w) by (nonlinear_arith)
                requires
                    0 <= x < w,
                    0 <= y < h,
            ;
        }
    }
    Ok(out)
}

/// Turns every pixel of `img` into a display pixel with `shade`, keeping the
/// dimensions and the row order.
pub fn shade_pixels<T: Copy, F: Fn(LinearPixel<T>) -> Rgba8>(img: &LoadedExr<T>, shade: F) -> (out:
    PreviewImage)
    requires
        img@.width <= u32::MAX,
        img@.height <= u32::MAX,
        forall|p: LinearPixel<T>| call_requires(shade, (p,)),
    ensures
        out.width == img@.width,
        out.height == img@.height,
        out.wf(),
        forall|x: int, y: int|
            0 <= x < out.width && 0 <= y < out.height ==> call_ensures(
                shade,
                (img@.pixel(x, y),),
                #[trigger] out.pixel(x, y),
            ),
{
    let w = img.width();
    let h = img.height();
    let samples = img.samples().len();
    let mut rgba8: Vec<u8> = Vec::new();
    let mut k: usize = 0;
    let mut x: usize = 0;
    let mut y: usize = 0;
    proof {
        assert(samples == 4 * w * h);
        assert(4 * (w * h) == 4 * w * h) by (nonlinear_arith);
    }
    if w == 0 {
        assert(4 * w * h == 0) by (nonlinear_arith)
            requires
                w == 0,
        ;
        return PreviewImage { width: 0, height: h as u32, rgba8 };
    }
    while y < h
        invariant
            w == img@.width,
            h == img@.height,
            img@.wf(),
            forall|p: LinearPixel<T>| call_requires(shade, (p,)),
            4 * (w * h) <= usize::MAX,
            1 <= w,
            x < w,
            y <= h,
            k == y * w + x,
            y == h ==> x == 0,
            rgba8@.len() == 4 * k,
            forall|j: int|
                0 <= j < k ==> call_ensures(
                    shade,
                    (img@.pixel(j % (w as int), j / (w as int)),),
                    #[trigger] quad(rgba8@, j),
                ),
        decreases h - y, w - x,
    {
        let p = img.get_linear(x, y);
        let px = shade(p.unwrap());
        proof {
            lemma_column_row(w as int, x as int, y as int);
            lemma_pixel_in_buffer(w as int, h as int, x as int, y as int);
            assert(y * w + x < w * h) by (nonlinear_arith)
                requires
                    0 <= x < w,
                    0 <= y < h,
            ;
        }
        push_pixel(&mut rgba8, px, Ghost(k as int));
        k += 1;
        x += 1;
        if x == w {
            x = 0;
            y += 1;
            assert(k == y * w + x) by (nonlinear_arith)
                requires
                    k == (y - 1) * w + w,
                    x == 0,
            ;
        }
    }
    let out = PreviewImage { width: w as u32, height: h as u32, rgba8 };
    proof {
        assert(k == h * w) by (nonlinear_arith)
            requires
                k == y * w + x,
                y == h,
                x == 0,
        ;
        assert(4 * k == 4 * w * h) by (nonlinear_arith)
            requires
                k == h * w,
        ;
        assert forall|cx: int, cy: int| 0 <= cx < out.width && 0 <= cy < out.height implies call_ensures(
            shade,
            (img@.pixel(cx, cy),),
            #[trigger] out.pixel(cx, cy),
        ) by {
            lemma_column_row(w as int, cx, cy);
            assert(0 <= cy * w + cx < h * w) by (nonlinear_arith)
                requires
                    0 <= cx < w,
                    0 <= cy < h,
            ;
        }
    }
    out
}

} // verus!
