//! The preview pipeline: resize, exposure, look-up table, gamma, display
//! encoding, in that order.

use vstd::prelude::*;
use crate::color::TransferFn;
use crate::error::{Error, InvalidInput};
use crate::linear::{LinearPixel, LoadedExr, LoadedExrView};
use crate::lut::{Lut, LutView};
use crate::preview::{
    bilinear_at, is_bilinear_preview, lemma_preview_dims_bounds, preview_dims, preview_scale,
    preview_size, render_preview, row_report, rows_allowed, rows_stopped, shade_pixels, tap_at,
    BilinearSample, PreviewImage, PreviewQuality, Rgba8,
};
use crate::sample::{lerped, Sample};

verus! {

/// Whether `out` may be the colour `rgb` with gamma `gamma` applied to each channel.
pub open spec fn gamma_applies<T: Sample>(rgb: [T; 3], gamma: T, out: [T; 3]) -> bool {
    &&& call_ensures(T::apply_gamma, (rgb[0], gamma), out[0])
    &&& call_ensures(T::apply_gamma, (rgb[1], gamma), out[1])
    &&& call_ensures(T::apply_gamma, (rgb[2], gamma), out[2])
}

/// Applies gamma to each channel of a colour.
pub fn apply_gamma<T: Sample>(rgb: [T; 3], gamma: T) -> (out: [T; 3])
    ensures
        gamma_applies(rgb, gamma, out),
{
    [rgb[0].apply_gamma(gamma), rgb[1].apply_gamma(gamma), rgb[2].apply_gamma(gamma)]
}

/// Whether `out` may be the colour `rgb` taken from the transfer function
/// `src` to the transfer function `dst`: each channel decoded to linear light
/// and encoded again.
pub open spec fn tone_curves<T: Sample>(rgb: [T; 3], src: TransferFn, dst: TransferFn, out: [T; 3])
    -> bool {
    exists|linear: [T; 3]|
        {
            &&& #[trigger] call_ensures(T::tf_decode, (rgb[0], src), linear[0])
            &&& #[trigger] call_ensures(T::tf_decode, (rgb[1], src), linear[1])
            &&& #[trigger] call_ensures(T::tf_decode, (rgb[2], src), linear[2])
            &&& call_ensures(T::tf_encode, (linear[0], dst), out[0])
            &&& call_ensures(T::tf_encode, (linear[1], dst), out[1])
            &&& call_ensures(T::tf_encode, (linear[2], dst), out[2])
        }
}

/// Takes a colour from one transfer function to another.
pub fn apply_tone_curve<T: Sample>(rgb: [T; 3], src: TransferFn, dst: TransferFn) -> (out: [T; 3])
    ensures
        tone_curves(rgb, src, dst, out),
{
    let linear = [rgb[0].tf_decode(src), rgb[1].tf_decode(src), rgb[2].tf_decode(src)];
    let out = [linear[0].tf_encode(dst), linear[1].tf_encode(dst), linear[2].tf_encode(dst)];
    proof {
        assert(call_ensures(T::tf_decode, (rgb[0], src), linear[0]));
        assert(call_ensures(T::tf_decode, (rgb[1], src), linear[1]));
        assert(call_ensures(T::tf_decode, (rgb[2], src), linear[2]));
    }
    out
}

/// Whether `out` may be the colour of `p` made brighter by `stops` stops.
pub open spec fn exposes<T: Sample>(p: LinearPixel<T>, stops: T, out: [T; 3]) -> bool {
    &&& call_ensures(T::expose, (p.r, stops), out[0])
    &&& call_ensures(T::expose, (p.g, stops), out[1])
    &&& call_ensures(T::expose, (p.b, stops), out[2])
}

/// Whether `out` may come of sending `rgb` through the table, if there is one.
pub open spec fn looks_up<T: Sample>(lut: Option<LutView<T>>, rgb: [T; 3], out: [T; 3]) -> bool {
    match lut {
        Some(table) => table.applies(rgb, out),
        None => out == rgb,
    }
}

/// Whether `out` may be the display pixel for the colour `rgb` and the alpha `a`.
pub open spec fn encodes<T: Sample>(rgb: [T; 3], a: T, out: Rgba8) -> bool {
    &&& call_ensures(T::srgb_encode, (rgb[0],), out.r)
    &&& call_ensures(T::srgb_encode, (rgb[1],), out.g)
    &&& call_ensures(T::srgb_encode, (rgb[2],), out.b)
    &&& call_ensures(T::alpha_encode, (a,), out.a)
}

/// Whether `out` may be what the pixel `p` is displayed as: its colour is
/// exposed, sent through the table if there is one, has gamma applied and is
/// encoded for the display; its alpha is quantized as it is.
pub open spec fn displays<T: Sample>(
    p: LinearPixel<T>,
    exposure: T,
    gamma: T,
    lut: Option<LutView<T>>,
    out: Rgba8,
) -> bool {
    exists|e: [T; 3], l: [T; 3], g: [T; 3]|
        {
            &&& #[trigger] exposes(p, exposure, e)
            &&& #[trigger] looks_up(lut, e, l)
            &&& #[trigger] gamma_applies(l, gamma, g)
            &&& encodes(g, p.a, out)
        }
}

/// The table that a reference stands for, if there is one.
pub open spec fn table_of<T>(lut: Option<&Lut<T>>) -> Option<LutView<T>> {
    match lut {
        Some(table) => Some(table@),
        None => None,
    }
}

/// Computes the display pixel of one linear pixel.
pub fn display_pixel<T: Sample>(p: LinearPixel<T>, exposure: T, gamma: T, lut: Option<&Lut<T>>) -> (out:
    Rgba8)
    ensures
        displays(p, exposure, gamma, table_of(lut), out),
{
    let e = [p.r.expose(exposure), p.g.expose(exposure), p.b.expose(exposure)];
    let l = match lut {
        Some(table) => table.apply(e),
        None => e,
    };
    let g = apply_gamma(l, gamma);
    let out = Rgba8 {
        r: g[0].srgb_encode(),
        g: g[1].srgb_encode(),
        b: g[2].srgb_encode(),
        a: p.a.alpha_encode(),
    };
    proof {
        assert(exposes(p, exposure, e));
        assert(looks_up(table_of(lut), e, l));
        assert(encodes(g, p.a, out));
    }
    out
}

/// Whether `t` may be the fraction `num / den` as a sample.
pub open spec fn weighs<T: Sample>(num: u32, den: u32, t: T) -> bool {
    call_ensures(T::ratio, (num as usize, den as usize), t)
}

/// Whether `out` may come of interpolating between four neighbouring
/// samples: along x in the upper and in the lower pair, then along y.
pub open spec fn blends_channel<T: Sample>(c00: T, c10: T, c01: T, c11: T, tx: T, ty: T, out: T)
    -> bool {
    exists|upper: T, lower: T|
        {
            &&& #[trigger] lerped(c00, c10, tx, upper)
            &&& #[trigger] lerped(c01, c11, tx, lower)
            &&& lerped(upper, lower, ty, out)
        }
}

/// Whether `out` may come of interpolating bilinearly in the sample `s`,
/// channel by channel, alpha included.
pub open spec fn blends<T: Sample>(s: BilinearSample<T>, out: LinearPixel<T>) -> bool {
    exists|tx: T, ty: T|
        {
            &&& #[trigger] weighs(s.tx_num, s.tx_den, tx)
            &&& #[trigger] weighs(s.ty_num, s.ty_den, ty)
            &&& blends_channel(s.p00.r, s.p10.r, s.p01.r, s.p11.r, tx, ty, out.r)
            &&& blends_channel(s.p00.g, s.p10.g, s.p01.g, s.p11.g, tx, ty, out.g)
            &&& blends_channel(s.p00.b, s.p10.b, s.p01.b, s.p11.b, tx, ty, out.b)
            &&& blends_channel(s.p00.a, s.p10.a, s.p01.a, s.p11.a, tx, ty, out.a)
        }
}

/// Interpolates between four neighbouring samples.
fn blend_channel<T: Sample>(c00: T, c10: T, c01: T, c11: T, tx: T, ty: T) -> (out: T)
    ensures
        blends_channel(c00, c10, c01, c11, tx, ty, out),
{
    let upper = c00.lerp(c10, tx);
    let lower = c01.lerp(c11, tx);
    let out = upper.lerp(lower, ty);
    proof {
        assert(lerped(c00, c10, tx, upper) && lerped(c01, c11, tx, lower));
    }
    out
}

/// Interpolates bilinearly in a sample.
pub fn blend<T: Sample>(s: BilinearSample<T>) -> (out: LinearPixel<T>)
    ensures
        blends(s, out),
{
    let tx = T::ratio(s.tx_num as usize, s.tx_den as usize);
    let ty = T::ratio(s.ty_num as usize, s.ty_den as usize);
    let out = LinearPixel {
        r: blend_channel(s.p00.r, s.p10.r, s.p01.r, s.p11.r, tx, ty),
        g: blend_channel(s.p00.g, s.p10.g, s.p01.g, s.p11.g, tx, ty),
        b: blend_channel(s.p00.b, s.p10.b, s.p01.b, s.p11.b, tx, ty),
        a: blend_channel(s.p00.a, s.p10.a, s.p01.a, s.p11.a, tx, ty),
    };
    proof {
        assert(weighs(s.tx_num, s.tx_den, tx) && weighs(s.ty_num, s.ty_den, ty));
    }
    out
}

/// Whether `out` may be pixel `(ox, oy)` of the bilinear preview of `img`:
/// the display pixel of what interpolation gives at that pixel.
pub open spec fn previews<T: Sample>(
    img: LoadedExrView<T>,
    max_size: int,
    exposure: T,
    gamma: T,
    lut: Option<LutView<T>>,
    ox: int,
    oy: int,
    out: Rgba8,
) -> bool {
    exists|p: LinearPixel<T>|
        #[trigger] blends(bilinear_at(img, max_size, ox, oy), p) && displays(
            p,
            exposure,
            gamma,
            lut,
            out,
        )
}

/// Whether `out` is a bilinear preview of `img`: it has the preview's
/// dimensions, and each pixel is what the pipeline may make of that pixel.
pub open spec fn is_fast_preview<T: Sample>(
    img: LoadedExrView<T>,
    max_size: int,
    exposure: T,
    gamma: T,
    lut: Option<LutView<T>>,
    out: PreviewImage,
) -> bool {
    &&& (out.width as int, out.height as int) == preview_dims(
        img.width as int,
        img.height as int,
        max_size,
    )
    &&& out.wf()
    &&& forall|ox: int, oy: int|
        0 <= ox < out.width && 0 <= oy < out.height ==> previews(
            img,
            max_size,
            exposure,
            gamma,
            lut,
            ox,
            oy,
            #[trigger] out.pixel(ox, oy),
        )
}

/// Whether `resized` may be `img` resampled to the size of its preview.
pub open spec fn resizes<T: Sample>(img: LoadedExrView<T>, max_size: int, resized: Vec<T>) -> bool {
    let (w, h) = preview_dims(img.width as int, img.height as int, max_size);
    exists|samples: Vec<T>|
        samples@ == img.samples && #[trigger] call_ensures(
            T::resize,
            (&samples, img.width as usize, img.height as usize, w as u32, h as u32),
            resized,
        )
}

/// Whether `out` is the display image of the resampled image `resized`: it
/// has the preview's dimensions, and each pixel is the display pixel of the
/// resampled pixel in its place.
pub open spec fn is_high_preview<T: Sample>(
    img: LoadedExrView<T>,
    max_size: int,
    exposure: T,
    gamma: T,
    lut: Option<LutView<T>>,
    resized: Seq<T>,
    out: PreviewImage,
) -> bool {
    let view = LoadedExrView { width: out.width as nat, height: out.height as nat, samples: resized };
    &&& (out.width as int, out.height as int) == preview_dims(
        img.width as int,
        img.height as int,
        max_size,
    )
    &&& out.wf()
    &&& view.wf()
    &&& forall|x: int, y: int|
        0 <= x < out.width && 0 <= y < out.height ==> displays(
            view.pixel(x, y),
            exposure,
            gamma,
            lut,
            #[trigger] out.pixel(x, y),
        )
}

/// Whether `img` fits into a square of side `max_size` as it is.
pub open spec fn fits<T>(img: LoadedExrView<T>, max_size: int) -> bool {
    img.width <= max_size && img.height <= max_size
}

/// Whether `out` is the display image of `img` itself: it has the size of
/// `img`, and each pixel is the display pixel of the pixel of `img` in its
/// place, taken as it is.
pub open spec fn is_direct_preview<T: Sample>(
    img: LoadedExrView<T>,
    exposure: T,
    gamma: T,
    lut: Option<LutView<T>>,
    out: PreviewImage,
) -> bool {
    &&& out.width == img.width
    &&& out.height == img.height
    &&& out.wf()
    &&& forall|x: int, y: int|
        0 <= x < out.width && 0 <= y < out.height ==> displays(
            img.pixel(x, y),
            exposure,
            gamma,
            lut,
            #[trigger] out.pixel(x, y),
        )
}

/// The preview of an image that fits has the size of the image, and the
/// bilinear sample at each of its pixels begins with the pixel of the image
/// in that place.
pub proof fn lemma_fitting_preview<T>(img: LoadedExrView<T>, max_size: int, ox: int, oy: int)
    requires
        fits(img, max_size),
        1 <= img.width <= usize::MAX,
        1 <= img.height <= usize::MAX,
        0 <= ox < img.width,
        0 <= oy < img.height,
    ensures
        preview_dims(img.width as int, img.height as int, max_size) == (
            img.width as int,
            img.height as int,
        ),
        bilinear_at(img, max_size, ox, oy).p00 == img.pixel(ox, oy),
{
    lemma_preview_dims_bounds(img.width as int, img.height as int, max_size);
    assert(preview_scale(img.width as int, img.height as int, max_size) == (1int, 1int));
    assert((ox * 1) / 1 == ox && (oy * 1) / 1 == oy);
    assert(tap_at(ox, img.width as int, 1, 1).lo == ox);
    assert(tap_at(oy, img.height as int, 1, 1).lo == oy);
}

/// Builds the 8-bit preview of a linear image for a square of side
/// `max_size`. An image that fits into the square is taken as it is; a larger
/// one is resampled, bilinearly for [`PreviewQuality::Fast`] and with a
/// Lanczos filter for [`PreviewQuality::High`]. Every pixel is then exposed,
/// sent through the table if there is one, has gamma applied and is encoded
/// for the display.
pub fn generate_preview<T: Sample>(
    img: &LoadedExr<T>,
    max_size: u32,
    exposure: T,
    gamma: T,
    lut: Option<&Lut<T>>,
    quality: PreviewQuality,
) -> (r: Result<PreviewImage, InvalidInput>)
    ensures
        match r {
            Ok(out) => {
                &&& img@.width >= 1 && img@.height >= 1
                &&& fits(img@, max_size as int) ==> is_direct_preview(
                    img@,
                    exposure,
                    gamma,
                    table_of(lut),
                    out,
                )
                &&& !fits(img@, max_size as int) && quality == PreviewQuality::Fast
                    ==> is_fast_preview(
                    img@,
                    max_size as int,
                    exposure,
                    gamma,
                    table_of(lut),
                    out,
                )
                &&& !fits(img@, max_size as int) && quality == PreviewQuality::High
                    ==> exists|resized: Vec<T>|
                    #[trigger] resizes(img@, max_size as int, resized) && is_high_preview(
                        img@,
                        max_size as int,
                        exposure,
                        gamma,
                        table_of(lut),
                        resized@,
                        out,
                    )
            },
            Err(InvalidInput::EmptyImage) => img@.width == 0 || img@.height == 0,
            Err(InvalidInput::BufferLength) => {
                let (w, h) = preview_dims(img@.width as int, img@.height as int, max_size as int);
                &&& img@.width >= 1 && img@.height >= 1
                &&& !fits(img@, max_size as int)
                &&& quality == PreviewQuality::High
                &&& exists|resized: Vec<T>|
                    #[trigger] resizes(img@, max_size as int, resized) && resized@.len() != 4 * w
                        * h
            },
            Err(_) => false,
        },
{
    let width = img.width();
    let height = img.height();
    if width < 1 || height < 1 {
        return Err(InvalidInput::EmptyImage);
    }
    if width <= max_size as usize && height <= max_size as usize {
        let shade = |p: LinearPixel<T>| -> (px: Rgba8)
            ensures
                displays(p, exposure, gamma, table_of(lut), px),
            { display_pixel(p, exposure, gamma, lut) };
        let out = shade_pixels(img, shade);
        return Ok(out);
    }
    match quality {
        PreviewQuality::Fast => {
            let always = |_row: u32, _rows: u32| -> (go: bool)
                ensures
                    go,
                { true };
            match generate_preview_progress(img, max_size, exposure, gamma, lut, always) {
                Ok(out) => Ok(out),
                Err(_) => {
                    proof {
                        let rows = preview_dims(
                            img@.width as int,
                            img@.height as int,
                            max_size as int,
                        ).1;
                        let y = choose|y: int|
                            1 <= y <= rows && #[trigger] row_report(always, y, rows, false)
                                && rows_allowed(always, rows, y - 1);
                        assert(row_report(always, y, rows, false));
                    }
                    vstd::pervasive::unreached()
                },
            }
        },
        PreviewQuality::High => {
            let (w, h) = preview_size(width, height, max_size);
            let samples = img.samples();
            let resized = T::resize(samples, width, height, w, h);
            proof {
                let (dw, dh) = preview_dims(
                    img@.width as int,
                    img@.height as int,
                    max_size as int,
                );
                assert(dw as u32 == w && dh as u32 == h);
                assert(img@.width as usize == width && img@.height as usize == height);
                let witness: Vec<T> = *samples;
                assert(witness@ == img@.samples);
                assert(call_ensures(T::resize, (&witness, width, height, w, h), resized));
                assert(resizes(img@, max_size as int, resized));
            }
            let ghost resized_vec = resized;
            match LoadedExr::new(w as usize, h as usize, resized) {
                Ok(small) => {
                    let shade = |p: LinearPixel<T>| -> (px: Rgba8)
                        ensures
                            displays(p, exposure, gamma, table_of(lut), px),
                        { display_pixel(p, exposure, gamma, lut) };
                    let out = shade_pixels(&small, shade);
                    proof {
                        assert(is_high_preview(
                            img@,
                            max_size as int,
                            exposure,
                            gamma,
                            table_of(lut),
                            resized_vec@,
                            out,
                        ));
                    }
                    Ok(out)
                },
                Err(_) => {
                    proof {
                        assert(4 * w * h == 4 * (w as usize) * (h as usize));
                    }
                    Err(InvalidInput::BufferLength)
                },
            }
        },
    }
}

/// Builds the preview of a linear image row by row, as [`generate_preview`]
/// does for [`PreviewQuality::Fast`]: an image that fits is taken as it is, a
/// larger one is resampled bilinearly. After each row `progress` is told how
/// many rows are done and how many there are; when it answers `false` the
/// work stops and no image is handed out.
pub fn generate_preview_progress<T: Sample, P: Fn(u32, u32) -> bool>(
    img: &LoadedExr<T>,
    max_size: u32,
    exposure: T,
    gamma: T,
    lut: Option<&Lut<T>>,
    progress: P,
) -> (r: Result<PreviewImage, Error>)
    requires
        forall|row: u32, rows: u32| call_requires(progress, (row, rows)),
    ensures
        match r {
            Ok(out) => {
                &&& img@.width >= 1 && img@.height >= 1
                &&& fits(img@, max_size as int) ==> is_direct_preview(
                    img@,
                    exposure,
                    gamma,
                    table_of(lut),
                    out,
                )
                &&& !fits(img@, max_size as int) ==> is_fast_preview(
                    img@,
                    max_size as int,
                    exposure,
                    gamma,
                    table_of(lut),
                    out,
                )
                &&& rows_allowed(progress, out.height as int, out.height as int)
            },
            Err(Error::Cancelled) => {
                &&& img@.width >= 1 && img@.height >= 1
                &&& rows_stopped(
                    progress,
                    preview_dims(img@.width as int, img@.height as int, max_size as int).1,
                )
            },
            Err(Error::InvalidInput(e)) => e == InvalidInput::EmptyImage && (img@.width == 0
                || img@.height == 0),
            Err(_) => false,
        },
{
    let width = img.width();
    let height = img.height();
    if width < 1 || height < 1 {
        return Err(Error::InvalidInput(InvalidInput::EmptyImage));
    }
    if width <= max_size as usize && height <= max_size as usize {
        let shade = |s: BilinearSample<T>| -> (px: Rgba8)
            ensures
                displays(s.p00, exposure, gamma, table_of(lut), px),
            { display_pixel(s.p00, exposure, gamma, lut) };
        return match render_preview(img, max_size, shade, progress) {
            Ok(out) => {
                proof {
                    lemma_fitting_preview(img@, max_size as int, 0, 0);
                    assert forall|x: int, y: int|
                        0 <= x < out.width && 0 <= y < out.height implies displays(
                        img@.pixel(x, y),
                        exposure,
                        gamma,
                        table_of(lut),
                        #[trigger] out.pixel(x, y),
                    ) by {
                        lemma_fitting_preview(img@, max_size as int, x, y);
                        assert(call_ensures(
                            shade,
                            (bilinear_at(img@, max_size as int, x, y),),
                            out.pixel(x, y),
                        ));
                    }
                }
                Ok(out)
            },
            Err(_) => Err(Error::Cancelled),
        };
    }
    let shade = |s: BilinearSample<T>| -> (px: Rgba8)
        ensures
            exists|p: LinearPixel<T>|
                #[trigger] blends(s, p) && displays(p, exposure, gamma, table_of(lut), px),
        {
            let p = blend(s);
            display_pixel(p, exposure, gamma, lut)
        };
    match render_preview(img, max_size, shade, progress) {
        Ok(out) => {
            proof {
                assert(is_bilinear_preview(img@, max_size as int, shade, out));
                assert forall|ox: int, oy: int|
                    0 <= ox < out.width && 0 <= oy < out.height implies previews(
                    img@,
                    max_size as int,
                    exposure,
                    gamma,
                    table_of(lut),
                    ox,
                    oy,
                    #[trigger] out.pixel(ox, oy),
                ) by {
                    assert(call_ensures(
                        shade,
                        (bilinear_at(img@, max_size as int, ox, oy),),
                        out.pixel(ox, oy),
                    ));
                }
            }
            Ok(out)
        },
        Err(_) => Err(Error::Cancelled),
    }
}

} // verus!
