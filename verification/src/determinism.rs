//! Determinism: where the arithmetic of the sample type gives one answer for
//! each question, so does the library.

use vstd::prelude::*;
use crate::linear::{LinearPixel, LoadedExrView};
use crate::lut::{held, trilinear, LutView};
use crate::pipeline::{
    blends, blends_channel, displays, encodes, exposes, gamma_applies, is_direct_preview,
    is_fast_preview, is_high_preview, looks_up, previews, resizes, weighs,
};
use crate::preview::{bilinear_at, lemma_same_pixels, BilinearSample, PreviewImage, Rgba8};
use crate::sample::{lerped, lerped3, located, Sample};

verus! {

/// Whether every method that the preview pipeline uses gives one answer for
/// each input; for resampling, one image for each image.
pub open spec fn is_deterministic<T: Sample>() -> bool {
    &&& forall|a: T, b: T, t: T, x: T, y: T|
        #![trigger lerped(a, b, t, x), lerped(a, b, t, y)]
        lerped(a, b, t, x) && lerped(a, b, t, y) ==> x == y
    &&& forall|v: T, size: usize, x: (usize, T), y: (usize, T)|
        #![trigger located(v, size, x), located(v, size, y)]
        located(v, size, x) && located(v, size, y) ==> x == y
    &&& forall|num: u32, den: u32, x: T, y: T|
        #![trigger weighs(num, den, x), weighs(num, den, y)]
        weighs(num, den, x) && weighs(num, den, y) ==> x == y
    &&& forall|v: T, stops: T, x: T, y: T|
        #![trigger call_ensures(T::expose, (v, stops), x), call_ensures(T::expose, (v, stops), y)]
        call_ensures(T::expose, (v, stops), x) && call_ensures(T::expose, (v, stops), y) ==> x == y
    &&& forall|v: T, gamma: T, x: T, y: T|
        #![trigger call_ensures(T::apply_gamma, (v, gamma), x), call_ensures(T::apply_gamma, (v, gamma), y)]
        call_ensures(T::apply_gamma, (v, gamma), x) && call_ensures(T::apply_gamma, (v, gamma), y)
            ==> x == y
    &&& forall|v: T, x: u8, y: u8|
        #![trigger call_ensures(T::srgb_encode, (v,), x), call_ensures(T::srgb_encode, (v,), y)]
        call_ensures(T::srgb_encode, (v,), x) && call_ensures(T::srgb_encode, (v,), y) ==> x == y
    &&& forall|v: T, x: u8, y: u8|
        #![trigger call_ensures(T::alpha_encode, (v,), x), call_ensures(T::alpha_encode, (v,), y)]
        call_ensures(T::alpha_encode, (v,), x) && call_ensures(T::alpha_encode, (v,), y) ==> x == y
    &&& forall|img: LoadedExrView<T>, max_size: int, x: Vec<T>, y: Vec<T>|
        #![trigger resizes(img, max_size, x), resizes(img, max_size, y)]
        resizes(img, max_size, x) && resizes(img, max_size, y) ==> x@ == y@
}

proof fn lemma_same_triple<T>(x: [T; 3], y: [T; 3])
    requires
        x[0] == y[0],
        x[1] == y[1],
        x[2] == y[2],
    ensures
        x == y,
{
    assert(x@ =~= y@);
    assert(x =~= y);
}

proof fn lemma_lerped3_one<T: Sample>(a: [T; 3], b: [T; 3], t: T, x: [T; 3], y: [T; 3])
    requires
        is_deterministic::<T>(),
        lerped3(a, b, t, x),
        lerped3(a, b, t, y),
    ensures
        x == y,
{
    lemma_same_triple(x, y);
}

proof fn lemma_trilinear_one<T: Sample>(c: Seq<[T; 3]>, tx: T, ty: T, tz: T, x: [T; 3], y: [T; 3])
    requires
        is_deterministic::<T>(),
        trilinear(c, tx, ty, tz, x),
        trilinear(c, tx, ty, tz, y),
    ensures
        x == y,
{
    let (a00, a10, a01, a11, a0, a1) = choose|
        c00: [T; 3],
        c10: [T; 3],
        c01: [T; 3],
        c11: [T; 3],
        c0: [T; 3],
        c1: [T; 3],
    |
        {
            &&& #[trigger] lerped3(c[0], c[1], tx, c00)
            &&& #[trigger] lerped3(c[2], c[3], tx, c10)
            &&& #[trigger] lerped3(c[4], c[5], tx, c01)
            &&& #[trigger] lerped3(c[6], c[7], tx, c11)
            &&& #[trigger] lerped3(c00, c10, ty, c0)
            &&& #[trigger] lerped3(c01, c11, ty, c1)
            &&& lerped3(c0, c1, tz, x)
        };
    let (b00, b10, b01, b11, b0, b1) = choose|
        c00: [T; 3],
        c10: [T; 3],
        c01: [T; 3],
        c11: [T; 3],
        c0: [T; 3],
        c1: [T; 3],
    |
        {
            &&& #[trigger] lerped3(c[0], c[1], tx, c00)
            &&& #[trigger] lerped3(c[2], c[3], tx, c10)
            &&& #[trigger] lerped3(c[4], c[5], tx, c01)
            &&& #[trigger] lerped3(c[6], c[7], tx, c11)
            &&& #[trigger] lerped3(c00, c10, ty, c0)
            &&& #[trigger] lerped3(c01, c11, ty, c1)
            &&& lerped3(c0, c1, tz, y)
        };
    lemma_lerped3_one(c[0], c[1], tx, a00, b00);
    lemma_lerped3_one(c[2], c[3], tx, a10, b10);
    lemma_lerped3_one(c[4], c[5], tx, a01, b01);
    lemma_lerped3_one(c[6], c[7], tx, a11, b11);
    lemma_lerped3_one(a00, a10, ty, a0, b0);
    lemma_lerped3_one(a01, a11, ty, a1, b1);
    lemma_lerped3_one(a0, a1, tz, x, y);
}

/// A table makes one colour of each colour.
pub proof fn lemma_apply_is_determined<T: Sample>(lut: LutView<T>, rgb: [T; 3], x: [T; 3], y: [T; 3])
    requires
        is_deterministic::<T>(),
        lut.applies(rgb, x),
        lut.applies(rgb, y),
    ensures
        x == y,
{
    let mx = choose|mid: [T; 3]| #[trigger] lut.shaped(rgb, mid) && lut.cubed(mid, x);
    let my = choose|mid: [T; 3]| #[trigger] lut.shaped(rgb, mid) && lut.cubed(mid, y);
    if lut.shaper.len() > 0 {
        lemma_shapes_one(lut, 0, rgb[0], mx[0], my[0]);
        lemma_shapes_one(lut, 1, rgb[1], mx[1], my[1]);
        lemma_shapes_one(lut, 2, rgb[2], mx[2], my[2]);
        lemma_same_triple(mx, my);
    }
    assert(mx == my);
    if lut.cube_size > 0 {
        let n = lut.cube_size as int;
        let (ax, ay, az) = choose|x0: (usize, T), y0: (usize, T), z0: (usize, T)|
            {
                &&& #[trigger] located(mx[0], n as usize, x0)
                &&& #[trigger] located(mx[1], n as usize, y0)
                &&& #[trigger] located(mx[2], n as usize, z0)
                &&& trilinear(
                    lut.corners(held(x0.0, n), held(y0.0, n), held(z0.0, n)),
                    x0.1,
                    y0.1,
                    z0.1,
                    x,
                )
            };
        let (bx, by, bz) = choose|x0: (usize, T), y0: (usize, T), z0: (usize, T)|
            {
                &&& #[trigger] located(mx[0], n as usize, x0)
                &&& #[trigger] located(mx[1], n as usize, y0)
                &&& #[trigger] located(mx[2], n as usize, z0)
                &&& trilinear(
                    lut.corners(held(x0.0, n), held(y0.0, n), held(z0.0, n)),
                    x0.1,
                    y0.1,
                    z0.1,
                    y,
                )
            };
        assert(ax == bx && ay == by && az == bz);
        lemma_trilinear_one(
            lut.corners(held(ax.0, n), held(ay.0, n), held(az.0, n)),
            ax.1,
            ay.1,
            az.1,
            x,
            y,
        );
    }
}

proof fn lemma_shapes_one<T: Sample>(lut: LutView<T>, c: int, v: T, x: T, y: T)
    requires
        is_deterministic::<T>(),
        lut.shapes(c, v, x),
        lut.shapes(c, v, y),
    ensures
        x == y,
{
    let n = lut.shaper.len() as int;
    let a = choose|at: (usize, T)|
        {
            &&& #[trigger] located(v, n as usize, at)
            &&& lerped(
                lut.shaper[held(at.0, n)][c],
                lut.shaper[crate::lut::upper_neighbour(n, held(at.0, n))][c],
                at.1,
                x,
            )
        };
    let b = choose|at: (usize, T)|
        {
            &&& #[trigger] located(v, n as usize, at)
            &&& lerped(
                lut.shaper[held(at.0, n)][c],
                lut.shaper[crate::lut::upper_neighbour(n, held(at.0, n))][c],
                at.1,
                y,
            )
        };
    assert(a == b);
}

/// A pixel is displayed in one way.
pub proof fn lemma_display_is_determined<T: Sample>(
    p: LinearPixel<T>,
    exposure: T,
    gamma: T,
    lut: Option<LutView<T>>,
    x: Rgba8,
    y: Rgba8,
)
    requires
        is_deterministic::<T>(),
        displays(p, exposure, gamma, lut, x),
        displays(p, exposure, gamma, lut, y),
    ensures
        x == y,
{
    let (ea, la, ga) = choose|e: [T; 3], l: [T; 3], g: [T; 3]|
        {
            &&& #[trigger] exposes(p, exposure, e)
            &&& #[trigger] looks_up(lut, e, l)
            &&& #[trigger] gamma_applies(l, gamma, g)
            &&& encodes(g, p.a, x)
        };
    let (eb, lb, gb) = choose|e: [T; 3], l: [T; 3], g: [T; 3]|
        {
            &&& #[trigger] exposes(p, exposure, e)
            &&& #[trigger] looks_up(lut, e, l)
            &&& #[trigger] gamma_applies(l, gamma, g)
            &&& encodes(g, p.a, y)
        };
    lemma_same_triple(ea, eb);
    match lut {
        Some(table) => {
            lemma_apply_is_determined(table, ea, la, lb);
        },
        None => {},
    }
    lemma_same_triple(ga, gb);
}

proof fn lemma_blends_channel_one<T: Sample>(c00: T, c10: T, c01: T, c11: T, tx: T, ty: T, x: T, y: T)
    requires
        is_deterministic::<T>(),
        blends_channel(c00, c10, c01, c11, tx, ty, x),
        blends_channel(c00, c10, c01, c11, tx, ty, y),
    ensures
        x == y,
{
    let (ua, la) = choose|upper: T, lower: T|
        {
            &&& #[trigger] lerped(c00, c10, tx, upper)
            &&& #[trigger] lerped(c01, c11, tx, lower)
            &&& lerped(upper, lower, ty, x)
        };
    let (ub, lb) = choose|upper: T, lower: T|
        {
            &&& #[trigger] lerped(c00, c10, tx, upper)
            &&& #[trigger] lerped(c01, c11, tx, lower)
            &&& lerped(upper, lower, ty, y)
        };
    assert(ua == ub && la == lb);
}

/// Bilinear interpolation gives one pixel for each sample.
pub proof fn lemma_blend_is_determined<T: Sample>(
    s: BilinearSample<T>,
    x: LinearPixel<T>,
    y: LinearPixel<T>,
)
    requires
        is_deterministic::<T>(),
        blends(s, x),
        blends(s, y),
    ensures
        x == y,
{
    let (txa, tya) = choose|tx: T, ty: T|
        {
            &&& #[trigger] weighs(s.tx_num, s.tx_den, tx)
            &&& #[trigger] weighs(s.ty_num, s.ty_den, ty)
            &&& blends_channel(s.p00.r, s.p10.r, s.p01.r, s.p11.r, tx, ty, x.r)
            &&& blends_channel(s.p00.g, s.p10.g, s.p01.g, s.p11.g, tx, ty, x.g)
            &&& blends_channel(s.p00.b, s.p10.b, s.p01.b, s.p11.b, tx, ty, x.b)
            &&& blends_channel(s.p00.a, s.p10.a, s.p01.a, s.p11.a, tx, ty, x.a)
        };
    let (txb, tyb) = choose|tx: T, ty: T|
        {
            &&& #[trigger] weighs(s.tx_num, s.tx_den, tx)
            &&& #[trigger] weighs(s.ty_num, s.ty_den, ty)
            &&& blends_channel(s.p00.r, s.p10.r, s.p01.r, s.p11.r, tx, ty, y.r)
            &&& blends_channel(s.p00.g, s.p10.g, s.p01.g, s.p11.g, tx, ty, y.g)
            &&& blends_channel(s.p00.b, s.p10.b, s.p01.b, s.p11.b, tx, ty, y.b)
            &&& blends_channel(s.p00.a, s.p10.a, s.p01.a, s.p11.a, tx, ty, y.a)
        };
    assert(txa == txb && tya == tyb);
    lemma_blends_channel_one(s.p00.r, s.p10.r, s.p01.r, s.p11.r, txa, tya, x.r, y.r);
    lemma_blends_channel_one(s.p00.g, s.p10.g, s.p01.g, s.p11.g, txa, tya, x.g, y.g);
    lemma_blends_channel_one(s.p00.b, s.p10.b, s.p01.b, s.p11.b, txa, tya, x.b, y.b);
    lemma_blends_channel_one(s.p00.a, s.p10.a, s.p01.a, s.p11.a, txa, tya, x.a, y.a);
}

/// Two previews of one image that was taken as it is, made with the same
/// settings, are the same, byte for byte.
pub proof fn lemma_direct_preview_is_determined<T: Sample>(
    img: LoadedExrView<T>,
    exposure: T,
    gamma: T,
    lut: Option<LutView<T>>,
    a: PreviewImage,
    b: PreviewImage,
)
    requires
        is_deterministic::<T>(),
        is_direct_preview(img, exposure, gamma, lut, a),
        is_direct_preview(img, exposure, gamma, lut, b),
    ensures
        a.width == b.width,
        a.height == b.height,
        a.rgba8@ == b.rgba8@,
{
    assert forall|x: int, y: int| 0 <= x < a.width && 0 <= y < a.height implies #[trigger] a.pixel(
        x,
        y,
    ) == b.pixel(x, y) by {
        lemma_display_is_determined(
            img.pixel(x, y),
            exposure,
            gamma,
            lut,
            a.pixel(x, y),
            b.pixel(x, y),
        );
    }
    lemma_same_pixels(a, b);
}

/// Two bilinear previews of one image, made with the same settings, are the
/// same, byte for byte.
pub proof fn lemma_fast_preview_is_determined<T: Sample>(
    img: LoadedExrView<T>,
    max_size: int,
    exposure: T,
    gamma: T,
    lut: Option<LutView<T>>,
    a: PreviewImage,
    b: PreviewImage,
)
    requires
        is_deterministic::<T>(),
        is_fast_preview(img, max_size, exposure, gamma, lut, a),
        is_fast_preview(img, max_size, exposure, gamma, lut, b),
    ensures
        a.width == b.width,
        a.height == b.height,
        a.rgba8@ == b.rgba8@,
{
    assert forall|x: int, y: int| 0 <= x < a.width && 0 <= y < a.height implies #[trigger] a.pixel(
        x,
        y,
    ) == b.pixel(x, y) by {
        let s = bilinear_at(img, max_size, x, y);
        assert(previews(img, max_size, exposure, gamma, lut, x, y, a.pixel(x, y)));
        assert(previews(img, max_size, exposure, gamma, lut, x, y, b.pixel(x, y)));
        let pa = choose|p: LinearPixel<T>|
            #[trigger] blends(s, p) && displays(p, exposure, gamma, lut, a.pixel(x, y));
        let pb = choose|p: LinearPixel<T>|
            #[trigger] blends(s, p) && displays(p, exposure, gamma, lut, b.pixel(x, y));
        lemma_blend_is_determined(s, pa, pb);
        lemma_display_is_determined(pa, exposure, gamma, lut, a.pixel(x, y), b.pixel(x, y));
    }
    lemma_same_pixels(a, b);
}

/// Two high-quality previews of one image, made with the same settings, are
/// the same, byte for byte.
pub proof fn lemma_high_preview_is_determined<T: Sample>(
    img: LoadedExrView<T>,
    max_size: int,
    exposure: T,
    gamma: T,
    lut: Option<LutView<T>>,
    resized_a: Vec<T>,
    a: PreviewImage,
    resized_b: Vec<T>,
    b: PreviewImage,
)
    requires
        is_deterministic::<T>(),
        resizes(img, max_size, resized_a),
        is_high_preview(img, max_size, exposure, gamma, lut, resized_a@, a),
        resizes(img, max_size, resized_b),
        is_high_preview(img, max_size, exposure, gamma, lut, resized_b@, b),
    ensures
        a.width == b.width,
        a.height == b.height,
        a.rgba8@ == b.rgba8@,
{
    assert(resized_a@ == resized_b@);
    let view = LoadedExrView {
        width: a.width as nat,
        height: a.height as nat,
        samples: resized_a@,
    };
    assert forall|x: int, y: int| 0 <= x < a.width && 0 <= y < a.height implies #[trigger] a.pixel(
        x,
        y,
    ) == b.pixel(x, y) by {
        lemma_display_is_determined(
            view.pixel(x, y),
            exposure,
            gamma,
            lut,
            a.pixel(x, y),
            b.pixel(x, y),
        );
    }
    lemma_same_pixels(a, b);
}

} // verus!
