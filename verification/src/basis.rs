//! A generated table carries the matrix it was made with: where the
//! arithmetic of the sample type is exact, a table between linear colour
//! spaces, generated without clipping, makes of each basis vector the colour
//! that the matrix makes of it: a column of the matrix.

use vstd::prelude::*;
use crate::color::{ClipMode, Primaries, TransferFn};
use crate::convert::converts_between;
use crate::cube::{parse_cube_text, CubeFile, CubeFileView};
use crate::error::LutParseError;
use crate::generate::{
    clips, decodes, encodes_as, is_3d_lut, is_cube_value, is_shaper_value, normalizes, unit_steps,
};
use crate::identity::{is_exact, is_identity_shaper, is_unit, lemma_identity_shaper};
use crate::lut::{held, reads_as, trilinear, upper_neighbour, LutView};
use crate::roundtrip::{
    holds_generated, lemma_generated_table_reads_back, reads_what_it_writes, writes_literals,
};
use crate::sample::{lerped, lerped3, located, ColorMath, Sample};

verus! {

/// What exact arithmetic gives for the two samples `zero` and `one`: a point
/// between two equal samples is that sample; `one` is found at the last entry
/// of a table and `zero` at its first entry, no way beyond it; the linear
/// transfer function changes nothing; and no steps of any number are `zero`
/// and all steps of them are `one`.
pub open spec fn is_exact_at<T: Sample>(zero: T, one: T) -> bool {
    &&& forall|a: T, t: T, y: T| #[trigger] lerped(a, a, t, y) ==> y == a
    &&& forall|n: usize, at: (usize, T)|
        n >= 2 && #[trigger] located(one, n, at) ==> held(at.0, n as int) == n - 1
    &&& forall|n: usize, at: (usize, T)| n >= 2 && #[trigger] located(zero, n, at) ==> at.0 == 0
    &&& forall|n: usize, at: (usize, T), a: T, b: T, y: T|
        #![trigger located(zero, n, at), lerped(a, b, at.1, y)]
        n >= 2 && located(zero, n, at) && lerped(a, b, at.1, y) ==> y == a
    &&& forall|x: T, y: T|
        #[trigger] call_ensures(T::tf_decode, (x, TransferFn::Linear), y) ==> y == x
    &&& forall|x: T, y: T|
        #[trigger] call_ensures(T::tf_encode, (x, TransferFn::Linear), y) ==> y == x
    &&& forall|k: usize, v: T| k >= 1 && #[trigger] call_ensures(T::ratio, (0usize, k), v) ==> v == zero
    &&& forall|k: usize, v: T| k >= 1 && #[trigger] call_ensures(T::ratio, (k, k), v) ==> v == one
}

/// The lattice coordinate at which a component of a basis vector is found
/// in a cube of edge `n`: the last one for `one`, the first one for `zero`.
pub open spec fn corner(on_axis: bool, n: int) -> int {
    if on_axis {
        n - 1
    } else {
        0
    }
}

/// Interpolation at a component of a basis vector picks the lower of two
/// rows: either the two rows are the same row, or the fraction is none.
proof fn lemma_lerp3_picks_lower<T: Sample>(
    zero: T,
    one: T,
    on_axis: bool,
    v: T,
    n: usize,
    at: (usize, T),
    a: [T; 3],
    b: [T; 3],
    out: [T; 3],
)
    requires
        is_exact_at(zero, one),
        n >= 2,
        v == (if on_axis {
            one
        } else {
            zero
        }),
        located(v, n, at),
        on_axis ==> a == b,
        lerped3(a, b, at.1, out),
    ensures
        out == a,
{
    assert(out[0] == a[0] && out[1] == a[1] && out[2] == a[2]);
    assert(out@ =~= a@);
    assert(out =~= a);
}

/// A cube makes of a basis vector the row of one of its corners.
proof fn lemma_basis_finds_corner<T: Sample>(
    lut: LutView<T>,
    zero: T,
    one: T,
    axis: int,
    e: [T; 3],
    out: [T; 3],
)
    requires
        is_exact_at(zero, one),
        2 <= lut.cube_size <= usize::MAX,
        0 <= axis < 3,
        forall|k: int|
            0 <= k < 3 ==> #[trigger] e[k] == (if k == axis {
                one
            } else {
                zero
            }),
        lut.cubes(e, out),
    ensures
        out == lut.at(
            corner(axis == 0, lut.cube_size as int),
            corner(axis == 1, lut.cube_size as int),
            corner(axis == 2, lut.cube_size as int),
        ),
{
    let n = lut.cube_size as int;
    let m = n as usize;
    let (x, y, z) = choose|x: (usize, T), y: (usize, T), z: (usize, T)|
        {
            &&& #[trigger] located(e[0], n as usize, x)
            &&& #[trigger] located(e[1], n as usize, y)
            &&& #[trigger] located(e[2], n as usize, z)
            &&& trilinear(
                lut.corners(held(x.0, n), held(y.0, n), held(z.0, n)),
                x.1,
                y.1,
                z.1,
                out,
            )
        };
    let x0 = held(x.0, n);
    let y0 = held(y.0, n);
    let z0 = held(z.0, n);
    assert(e[0] == (if axis == 0 { one } else { zero }));
    assert(e[1] == (if axis == 1 { one } else { zero }));
    assert(e[2] == (if axis == 2 { one } else { zero }));
    assert(x0 == corner(axis == 0, n));
    assert(y0 == corner(axis == 1, n));
    assert(z0 == corner(axis == 2, n));
    let c = lut.corners(x0, y0, z0);
    let (c00, c10, c01, c11, c0, c1) = choose|
        c00: [T; 3],
        c10: [T; 3],
        c01: [T; 3],
        c11: [T; 3],
        c0: [T; 3],
        c1: [T; 3],
    |
        {
            &&& #[trigger] lerped3(c[0], c[1], x.1, c00)
            &&& #[trigger] lerped3(c[2], c[3], x.1, c10)
            &&& #[trigger] lerped3(c[4], c[5], x.1, c01)
            &&& #[trigger] lerped3(c[6], c[7], x.1, c11)
            &&& #[trigger] lerped3(c00, c10, y.1, c0)
            &&& #[trigger] lerped3(c01, c11, y.1, c1)
            &&& lerped3(c0, c1, z.1, out)
        };
    assert(axis == 0 ==> upper_neighbour(n, x0) == x0);
    assert(axis == 1 ==> upper_neighbour(n, y0) == y0);
    assert(axis == 2 ==> upper_neighbour(n, z0) == z0);
    lemma_lerp3_picks_lower(zero, one, axis == 0, e[0], m, x, c[0], c[1], c00);
    lemma_lerp3_picks_lower(zero, one, axis == 0, e[0], m, x, c[2], c[3], c10);
    lemma_lerp3_picks_lower(zero, one, axis == 0, e[0], m, x, c[4], c[5], c01);
    lemma_lerp3_picks_lower(zero, one, axis == 0, e[0], m, x, c[6], c[7], c11);
    lemma_lerp3_picks_lower(zero, one, axis == 1, e[1], m, y, c00, c10, c0);
    lemma_lerp3_picks_lower(zero, one, axis == 1, e[1], m, y, c01, c11, c1);
    lemma_lerp3_picks_lower(zero, one, axis == 2, e[2], m, z, c0, c1, out);
}

/// A table between linear colour spaces, generated without clipping and read
/// again, makes of each basis vector a column of the matrix that it was
/// generated with: the colour that the matrix makes of that vector. The cube
/// must have an edge of two or more, and the shaper, if there is one, two
/// rows or more.
pub proof fn lemma_basis_gives_column<T: ColorMath>(
    src_prim: Primaries,
    dst_prim: Primaries,
    size: usize,
    shaper_size: usize,
    text: Seq<char>,
    file: CubeFile,
    lut: LutView<T>,
    in_range: spec_fn(T) -> bool,
    zero: T,
    one: T,
    axis: int,
    e: [T; 3],
    out: [T; 3],
)
    requires
        is_exact_at(zero, one),
        is_exact::<T>(in_range),
        in_range(zero) && in_range(one),
        writes_literals::<T>(),
        reads_what_it_writes::<T>(),
        2 <= size,
        size * size * size <= usize::MAX,
        shaper_size != 1,
        is_3d_lut::<T>(
            src_prim,
            TransferFn::Linear,
            dst_prim,
            TransferFn::Linear,
            size,
            shaper_size,
            ClipMode::NoClip,
            text,
        ),
        parse_cube_text(text) == Ok::<CubeFileView, LutParseError>(file@),
        reads_as(file, lut),
        0 <= axis < 3,
        forall|k: int|
            0 <= k < 3 ==> #[trigger] e[k] == (if k == axis {
                one
            } else {
                zero
            }),
        lut.applies(e, out),
    ensures
        exists|m: T::Matrix|
            #[trigger] converts_between::<T>(src_prim, dst_prim, m) && call_ensures(
                T::transform,
                (m, e),
                out,
            ),
{
    let tf = TransferFn::Linear;
    let clip = ClipMode::NoClip;
    lemma_generated_table_reads_back::<T>(
        src_prim,
        tf,
        dst_prim,
        tf,
        size,
        shaper_size,
        clip,
        text,
        file,
        lut,
    );
    let m = choose|m: T::Matrix|
        #[trigger] converts_between::<T>(src_prim, dst_prim, m) && holds_generated::<T>(
            m,
            tf,
            tf,
            clip,
            size,
            shaper_size,
            lut,
        );
    // the shaper, if there is one, hands the basis vector on as it came
    let mid = choose|mid: [T; 3]| #[trigger] lut.shaped(e, mid) && lut.cubed(mid, out);
    if shaper_size > 0 {
        assert forall|i: int, c: int| 0 <= i < lut.shaper.len() && 0 <= c < 3 implies is_unit(
            i as usize,
            lut.shaper.len() as usize,
            #[trigger] lut.shaper[i][c],
        ) by {
            let y = lut.shaper[i][c];
            assert(is_shaper_value(tf, shaper_size, i as usize, y));
            let x = choose|x: T|
                #[trigger] call_ensures(T::ratio, (i as usize, unit_steps(shaper_size)), x)
                    && call_ensures(T::tf_decode, (x, tf), y);
            assert(y == x);
        }
        assert(in_range(e[0]) && in_range(e[1]) && in_range(e[2]));
        lemma_identity_shaper(lut, in_range, 0, e[0], mid[0]);
        lemma_identity_shaper(lut, in_range, 1, e[1], mid[1]);
        lemma_identity_shaper(lut, in_range, 2, e[2], mid[2]);
    }
    assert(mid@ =~= e@);
    assert(mid =~= e);
    // the cube finds the corner of the basis vector, which holds its colour
    lemma_basis_finds_corner(lut, zero, one, axis, e, out);
    let n = size as int;
    let r = corner(axis == 0, n);
    let g = corner(axis == 1, n);
    let b = corner(axis == 2, n);
    assert(is_cube_value::<T>(m, tf, tf, clip, size, r as usize, g as usize, b as usize, lut.at(r, g, b)));
    let (x, v, d, enc) = choose|x: [T; 3], v: [T; 3], d: [T; 3], enc: [T; 3]|
        {
            &&& #[trigger] normalizes(r as usize, g as usize, b as usize, size, x)
            &&& #[trigger] decodes(x, tf, v)
            &&& #[trigger] call_ensures(T::transform, (m, v), d)
            &&& #[trigger] encodes_as(d, tf, enc)
            &&& clips(enc, clip, lut.at(r, g, b))
        };
    assert(unit_steps(size) == size - 1);
    assert(v[0] == e[0] && v[1] == e[1] && v[2] == e[2]);
    assert(v@ =~= e@);
    assert(v =~= e);
    assert(enc@ =~= d@);
    assert(enc =~= d);
}

} // verus!
