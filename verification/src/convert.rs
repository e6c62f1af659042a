//! Conversions between RGB colour spaces: how the matrix from one set of
//! primaries to another is put together.

use vstd::prelude::*;
use crate::color::{chromaticities, primaries_of, same_white, shares_white, Primaries};
use crate::error::Error;
use crate::sample::ColorMath;

verus! {

/// Whether `m` may be the matrix from RGB with the primaries `p` to XYZ, or
/// nothing may be all that there is.
pub open spec fn to_xyz<T: ColorMath>(p: Primaries, m: Option<T::Matrix>) -> bool {
    call_ensures(T::rgb_to_xyz_matrix, (chromaticities(p),), m)
}

/// Whether `a` may be the adaptation from the white point of `src` to that of
/// `dst`: the identity where they share it, the Bradford adaptation else.
pub open spec fn adapts<T: ColorMath>(src: Primaries, dst: Primaries, a: T::Matrix) -> bool {
    if same_white(src, dst) {
        call_ensures(T::identity, (), a)
    } else {
        call_ensures(T::bradford_adapt, (chromaticities(src), chromaticities(dst)), a)
    }
}

/// Whether `out` may be the matrix from RGB with the primaries `src` to RGB
/// with the primaries `dst`: the inverse of the destination's matrix to XYZ,
/// times the adaptation, times the source's matrix to XYZ.
pub open spec fn converts_between<T: ColorMath>(src: Primaries, dst: Primaries, out: T::Matrix)
    -> bool {
    exists|m_src: T::Matrix, m_dst: T::Matrix, a: T::Matrix, inv: T::Matrix, ia: T::Matrix|
        {
            &&& #[trigger] to_xyz::<T>(src, Some(m_src))
            &&& #[trigger] to_xyz::<T>(dst, Some(m_dst))
            &&& #[trigger] adapts::<T>(src, dst, a)
            &&& #[trigger] call_ensures(T::invert, (m_dst,), Some(inv))
            &&& #[trigger] call_ensures(T::multiply, (inv, a), ia)
            &&& call_ensures(T::multiply, (ia, m_src), out)
        }
}

/// Whether setting up the conversion from `src` to `dst` may fail: one of the
/// two matrices to XYZ may not exist, or the destination's may have no inverse.
pub open spec fn conversion_fails<T: ColorMath>(src: Primaries, dst: Primaries) -> bool {
    ||| to_xyz::<T>(src, None)
    ||| to_xyz::<T>(dst, None)
    ||| exists|m_dst: T::Matrix|
        #[trigger] to_xyz::<T>(dst, Some(m_dst)) && call_ensures(
            T::invert,
            (m_dst,),
            None::<T::Matrix>,
        )
}

/// Builds the matrix that converts linear RGB with the primaries `src` into
/// linear RGB with the primaries `dst`. Chromatic adaptation is left out
/// where both have the same white point.
pub fn rgb_to_rgb_matrix<T: ColorMath>(src: Primaries, dst: Primaries) -> (r: Result<
    T::Matrix,
    Error,
>)
    ensures
        match r {
            Ok(m) => converts_between::<T>(src, dst, m),
            Err(e) => e == Error::InternalInvariant && conversion_fails::<T>(src, dst),
        },
{
    let m_src = match T::rgb_to_xyz_matrix(primaries_of(src)) {
        Some(m) => m,
        None => {
            return Err(Error::InternalInvariant);
        },
    };
    let m_dst = match T::rgb_to_xyz_matrix(primaries_of(dst)) {
        Some(m) => m,
        None => {
            return Err(Error::InternalInvariant);
        },
    };
    let a = if shares_white(src, dst) {
        T::identity()
    } else {
        T::bradford_adapt(primaries_of(src), primaries_of(dst))
    };
    let inv = match T::invert(m_dst) {
        Some(m) => m,
        None => {
            proof {
                assert(to_xyz::<T>(dst, Some(m_dst)));
            }
            return Err(Error::InternalInvariant);
        },
    };
    let ia = T::multiply(inv, a);
    let out = T::multiply(ia, m_src);
    proof {
        assert(to_xyz::<T>(src, Some(m_src)));
        assert(to_xyz::<T>(dst, Some(m_dst)));
        assert(adapts::<T>(src, dst, a));
        assert(call_ensures(T::invert, (m_dst,), Some(inv)));
        assert(call_ensures(T::multiply, (inv, a), ia));
    }
    Ok(out)
}

} // verus!
