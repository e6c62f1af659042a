//! What the library asks of a sample type. The library moves samples about
//! and decides where each one comes from and where it goes; everything that
//! computes with their values is a method of these traits, to be provided for
//! the number type that the caller works in.

use vstd::prelude::*;
use crate::color::{Chromaticities, TransferFn};

verus! {

/// A number that can stand in an image or in a look-up table.
pub trait Sample: Copy {
    /// Reads a number as it is written in a `.cube` text.
    fn parse(token: &String) -> Option<Self>;

    /// Writes the number with ten digits after the point.
    fn format(self) -> String;

    /// The fraction `num / den`.
    fn ratio(num: usize, den: usize) -> Self;

    /// The point `t` of the way from `self` to `other`: `self + (other - self) * t`.
    fn lerp(self, other: Self, t: Self) -> Self;

    /// Where `self`, held to the unit range, falls in a table of `size`
    /// entries spread evenly over that range: the entry below it and how far
    /// beyond that entry it lies, as a fraction of the step to the next one.
    fn locate(self, size: usize) -> (usize, Self);

    /// `self` brighter by `stops` stops: times two to the power `stops`.
    fn expose(self, stops: Self) -> Self;

    /// `self`, negative values held at 0, to the power `1 / gamma`; `self`
    /// as it is where `gamma` is not above 0.0001.
    fn apply_gamma(self, gamma: Self) -> Self;

    /// The 8-bit sRGB encoding of linear light: negative values are held at
    /// 0; a value `v` up to 0.0031308 becomes `12.92 * v` and a larger one
    /// `1.055 * v^(1/2.4) - 0.055`; the result is held to the unit range,
    /// multiplied by 255 and rounded to the nearest byte.
    fn srgb_encode(self) -> u8;

    /// `self` held to the unit range, multiplied by 255 and rounded to the
    /// nearest byte.
    fn alpha_encode(self) -> u8;

    /// `self` held to the unit range.
    fn clamp_unit(self) -> Self;

    /// An interleaved RGBA image of `width` by `height` pixels resampled to
    /// `out_width` by `out_height` pixels with a Lanczos filter of three lobes.
    fn resize(
        samples: &Vec<Self>,
        width: usize,
        height: usize,
        out_width: u32,
        out_height: u32,
    ) -> Vec<Self>;

    /// Linear light `v` as the signal of the transfer function `tf`: `v`
    /// itself for the linear one; for sRGB `12.92 * v` up to 0.0031308 and
    /// `1.055 * v^(1/2.4) - 0.055` above; for a gamma of 2.2 or 2.4, `v` held
    /// at 0 from below, to the power of one over the gamma.
    fn tf_encode(self, tf: TransferFn) -> Self;

    /// The signal `v` of the transfer function `tf` as linear light: `v`
    /// itself for the linear one; for sRGB `v / 12.92` up to 0.04045 and
    /// `((v + 0.055) / 1.055)^2.4` above; for a gamma of 2.2 or 2.4, `v` held
    /// at 0 from below, to the power of the gamma.
    fn tf_decode(self, tf: TransferFn) -> Self;
}

/// A number type with the 3 by 3 matrices that conversions between RGB
/// colour spaces are made of.
pub trait ColorMath: Sample {
    /// A 3 by 3 matrix over this number type.
    type Matrix: Copy;

    /// The matrix that leaves every colour as it is.
    fn identity() -> Self::Matrix;

    /// The matrix from RGB with the primaries and white point `c` to XYZ. A
    /// chromaticity `(x, y)` is the colour `(x / y, 1, (1 - x - y) / y)`;
    /// with the colours of the three primaries as the columns of `M` and the
    /// scale factors `s` that solve `M * s = white`, the matrix is
    /// `M * diag(s)`. Nothing where `M` has no inverse.
    fn rgb_to_xyz_matrix(c: Chromaticities) -> Option<Self::Matrix>;

    /// The Bradford adaptation from the white point of `src` to that of
    /// `dst`: with the Bradford matrix `B` and its tabulated inverse,
    /// `B^-1 * diag(B * dst_white / B * src_white) * B`, the quotient taken
    /// component by component.
    fn bradford_adapt(src: Chromaticities, dst: Chromaticities) -> Self::Matrix;

    /// The inverse of `m`, if it has one.
    fn invert(m: Self::Matrix) -> Option<Self::Matrix>;

    /// The product `a * b`.
    fn multiply(a: Self::Matrix, b: Self::Matrix) -> Self::Matrix;

    /// The colour `m * rgb`.
    fn transform(m: Self::Matrix, rgb: [Self; 3]) -> [Self; 3];
}

/// Whether `out` may be the point `t` of the way from `a` to `b`.
pub open spec fn lerped<T: Sample>(a: T, b: T, t: T, out: T) -> bool {
    call_ensures(T::lerp, (a, b, t), out)
}

/// Whether `out` may be the point `t` of the way from `a` to `b`, channel by channel.
pub open spec fn lerped3<T: Sample>(a: [T; 3], b: [T; 3], t: T, out: [T; 3]) -> bool {
    &&& lerped(a[0], b[0], t, out[0])
    &&& lerped(a[1], b[1], t, out[1])
    &&& lerped(a[2], b[2], t, out[2])
}

/// Whether `at` may be where `x` falls in a table of `size` entries.
pub open spec fn located<T: Sample>(x: T, size: usize, at: (usize, T)) -> bool {
    call_ensures(T::locate, (x, size), at)
}

/// Interpolates between two rows, channel by channel.
pub fn lerp3<T: Sample>(a: [T; 3], b: [T; 3], t: T) -> (out: [T; 3])
    ensures
        lerped3(a, b, t, out),
{
    [a[0].lerp(b[0], t), a[1].lerp(b[1], t), a[2].lerp(b[2], t)]
}

} // verus!
