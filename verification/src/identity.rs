//! The identity table: a shaper whose row `i` holds `i / (n - 1)` and a cube
//! whose lattice point `(r, g, b)` holds `(r, g, b) / (n - 1)` hand every
//! colour of the unit cube back as it came, where the arithmetic of the
//! sample type is exact.

use vstd::prelude::*;
use crate::lut::{flat_index, held, lemma_flat_index_in_table, trilinear, upper_neighbour, LutView};
use crate::sample::{lerped, lerped3, located, Sample};

verus! {

/// Whether `v` may be position `i` of a table of `n` entries as a sample: `i / (n - 1)`.
pub open spec fn is_unit<T: Sample>(i: usize, n: usize, v: T) -> bool {
    call_ensures(T::ratio, (i, (n - 1) as usize), v)
}

/// The entry of a table of `n` entries below the place `at`.
pub open spec fn below<T>(at: (usize, T), n: usize) -> usize {
    held(at.0, n as int) as usize
}

/// The entry of a table of `n` entries above the place `at`.
pub open spec fn above<T>(at: (usize, T), n: usize) -> usize {
    upper_neighbour(n as int, held(at.0, n as int)) as usize
}

/// What exact arithmetic gives, for the samples that `in_range` holds of
/// (those of the unit range): a point between two equal samples is that
/// sample; a position of a table is one sample; and a sample that lies the
/// fraction `t` beyond entry `i` of the unit range is found again the
/// fraction `t` of the way from position `i` to the next.
pub open spec fn is_exact<T: Sample>(in_range: spec_fn(T) -> bool) -> bool {
    &&& forall|a: T, t: T, y: T| #[trigger] lerped(a, a, t, y) ==> y == a
    &&& forall|i: usize, n: usize, a: T, b: T|
        #![trigger is_unit(i, n, a), is_unit(i, n, b)]
        is_unit(i, n, a) && is_unit(i, n, b) ==> a == b
    &&& forall|x: T, n: usize, at: (usize, T), lo: T, hi: T, y: T|
        #![trigger located(x, n, at), is_unit(below(at, n), n, lo), is_unit(above(at, n), n, hi), lerped(lo, hi, at.1, y)]
        in_range(x) && n >= 2 && located(x, n, at) && is_unit(below(at, n), n, lo) && is_unit(
            above(at, n),
            n,
            hi,
        ) && lerped(lo, hi, at.1, y) ==> y == x
}

/// Whether the shaper of `lut` is the identity: row `i` holds position `i`
/// of the unit range in each channel.
pub open spec fn is_identity_shaper<T: Sample>(lut: LutView<T>) -> bool {
    forall|i: int, c: int|
        0 <= i < lut.shaper.len() && 0 <= c < 3 ==> is_unit(
            i as usize,
            lut.shaper.len() as usize,
            #[trigger] lut.shaper[i][c],
        )
}

/// Whether the cube of `lut` is the identity: the lattice point `(r, g, b)`
/// holds the positions `r`, `g` and `b` of the unit range.
pub open spec fn is_identity_cube<T: Sample>(lut: LutView<T>) -> bool {
    forall|r: int, g: int, b: int|
        0 <= r < lut.cube_size && 0 <= g < lut.cube_size && 0 <= b < lut.cube_size ==> {
            let e = #[trigger] lut.at(r, g, b);
            &&& is_unit(r as usize, lut.cube_size as usize, e[0])
            &&& is_unit(g as usize, lut.cube_size as usize, e[1])
            &&& is_unit(b as usize, lut.cube_size as usize, e[2])
        }
}

/// An identity shaper of two rows or more hands each sample of the unit
/// range back as it came.
pub proof fn lemma_identity_shaper<T: Sample>(
    lut: LutView<T>,
    in_range: spec_fn(T) -> bool,
    c: int,
    x: T,
    out: T,
)
    requires
        is_exact::<T>(in_range),
        2 <= lut.shaper.len() <= usize::MAX,
        is_identity_shaper(lut),
        0 <= c < 3,
        in_range(x),
        lut.shapes(c, x, out),
    ensures
        out == x,
{
    let n = lut.shaper.len() as int;
    let at = choose|at: (usize, T)|
        {
            &&& #[trigger] located(x, n as usize, at)
            &&& lerped(
                lut.shaper[held(at.0, n)][c],
                lut.shaper[upper_neighbour(n, held(at.0, n))][c],
                at.1,
                out,
            )
        };
    let lo = lut.shaper[held(at.0, n)][c];
    let hi = lut.shaper[upper_neighbour(n, held(at.0, n))][c];
    assert(is_unit(below(at, n as usize), n as usize, lo));
    assert(is_unit(above(at, n as usize), n as usize, hi));
    assert(located(x, n as usize, at) && lerped(lo, hi, at.1, out));
}

/// A sample of the unit range that is located on an axis of an identity cube
/// is found again between the positions around it.
proof fn lemma_axis<T: Sample>(
    in_range: spec_fn(T) -> bool,
    x: T,
    n: usize,
    at: (usize, T),
    lo: T,
    hi: T,
    y: T,
)
    requires
        is_exact::<T>(in_range),
        in_range(x),
        n >= 2,
        located(x, n, at),
        is_unit(below(at, n), n, lo),
        is_unit(above(at, n), n, hi),
        lerped(lo, hi, at.1, y),
    ensures
        y == x,
{
}

/// A point between two equal samples is that sample.
proof fn lemma_still<T: Sample>(in_range: spec_fn(T) -> bool, a: T, b: T, t: T, y: T)
    requires
        is_exact::<T>(in_range),
        a == b,
        lerped(a, b, t, y),
    ensures
        y == a,
{
}

/// An identity cube of edge two or more hands each colour of the unit cube
/// back as it came.
pub proof fn lemma_identity_cube<T: Sample>(
    lut: LutView<T>,
    in_range: spec_fn(T) -> bool,
    rgb: [T; 3],
    out: [T; 3],
)
    requires
        is_exact::<T>(in_range),
        2 <= lut.cube_size <= usize::MAX,
        lut.wf(),
        is_identity_cube(lut),
        in_range(rgb[0]) && in_range(rgb[1]) && in_range(rgb[2]),
        lut.cubes(rgb, out),
    ensures
        out[0] == rgb[0],
        out[1] == rgb[1],
        out[2] == rgb[2],
{
    let n = lut.cube_size as int;
    let m = n as usize;
    let (x, y, z) = choose|x: (usize, T), y: (usize, T), z: (usize, T)|
        {
            &&& #[trigger] located(rgb[0], n as usize, x)
            &&& #[trigger] located(rgb[1], n as usize, y)
            &&& #[trigger] located(rgb[2], n as usize, z)
            &&& trilinear(
                lut.corners(held(x.0, n), held(y.0, n), held(z.0, n)),
                x.1,
                y.1,
                z.1,
                out,
            )
        };
    let x0 = held(x.0, n);
    let y0 = held(y.0, n);
    let z0 = held(z.0, n);
    let x1 = upper_neighbour(n, x0);
    let y1 = upper_neighbour(n, y0);
    let z1 = upper_neighbour(n, z0);
    let c = lut.corners(x0, y0, z0);
    let (c00, c10, c01, c11, c0, c1) = choose|
        c00: [T; 3],
        c10: [T; 3],
        c01: [T; 3],
        c11: [T; 3],
        c0: [T; 3],
        c1: [T; 3],
    |
        {
            &&& #[trigger] lerped3(c[0], c[1], x.1, c00)
            &&& #[trigger] lerped3(c[2], c[3], x.1, c10)
            &&& #[trigger] lerped3(c[4], c[5], x.1, c01)
            &&& #[trigger] lerped3(c[6], c[7], x.1, c11)
            &&& #[trigger] lerped3(c00, c10, y.1, c0)
            &&& #[trigger] lerped3(c01, c11, y.1, c1)
            &&& lerped3(c0, c1, z.1, out)
        };
    // what the eight corners hold
    let e000 = lut.at(x0, y0, z0);
    let e100 = lut.at(x1, y0, z0);
    let e010 = lut.at(x0, y1, z0);
    let e110 = lut.at(x1, y1, z0);
    let e001 = lut.at(x0, y0, z1);
    let e101 = lut.at(x1, y0, z1);
    let e011 = lut.at(x0, y1, z1);
    let e111 = lut.at(x1, y1, z1);
    assert(c[0] == e000 && c[1] == e100 && c[2] == e010 && c[3] == e110 && c[4] == e001 && c[5]
        == e101 && c[6] == e011 && c[7] == e111);
    assert(below(x, m) == x0 && above(x, m) == x1);
    assert(below(y, m) == y0 && above(y, m) == y1);
    assert(below(z, m) == z0 && above(z, m) == z1);
    // along x
    lemma_axis(in_range, rgb[0], m, x, e000[0], e100[0], c00[0]);
    lemma_axis(in_range, rgb[0], m, x, e010[0], e110[0], c10[0]);
    lemma_axis(in_range, rgb[0], m, x, e001[0], e101[0], c01[0]);
    lemma_axis(in_range, rgb[0], m, x, e011[0], e111[0], c11[0]);
    lemma_still(in_range, e000[1], e100[1], x.1, c00[1]);
    lemma_still(in_range, e010[1], e110[1], x.1, c10[1]);
    lemma_still(in_range, e001[1], e101[1], x.1, c01[1]);
    lemma_still(in_range, e011[1], e111[1], x.1, c11[1]);
    lemma_still(in_range, e000[2], e100[2], x.1, c00[2]);
    lemma_still(in_range, e010[2], e110[2], x.1, c10[2]);
    lemma_still(in_range, e001[2], e101[2], x.1, c01[2]);
    lemma_still(in_range, e011[2], e111[2], x.1, c11[2]);
    // along y
    lemma_still(in_range, c00[0], c10[0], y.1, c0[0]);
    lemma_still(in_range, c01[0], c11[0], y.1, c1[0]);
    lemma_axis(in_range, rgb[1], m, y, c00[1], c10[1], c0[1]);
    lemma_axis(in_range, rgb[1], m, y, c01[1], c11[1], c1[1]);
    assert(e000[2] == e010[2] && e001[2] == e011[2]);
    lemma_still(in_range, c00[2], c10[2], y.1, c0[2]);
    lemma_still(in_range, c01[2], c11[2], y.1, c1[2]);
    // along z
    lemma_still(in_range, c0[0], c1[0], z.1, out[0]);
    lemma_still(in_range, c0[1], c1[1], z.1, out[1]);
    lemma_axis(in_range, rgb[2], m, z, c0[2], c1[2], out[2]);
}

/// An identity table is the identity: a table whose shaper and cube, where
/// it has them, are identities of size two or more makes of every colour of
/// the unit cube that colour again.
pub proof fn lemma_identity_table_is_identity<T: Sample>(
    lut: LutView<T>,
    in_range: spec_fn(T) -> bool,
    rgb: [T; 3],
    out: [T; 3],
)
    requires
        is_exact::<T>(in_range),
        lut.wf(),
        lut.shaper.len() <= usize::MAX,
        lut.cube_size <= usize::MAX,
        lut.shaper.len() > 0 ==> lut.shaper.len() >= 2 && is_identity_shaper(lut),
        lut.cube_size > 0 ==> lut.cube_size >= 2 && is_identity_cube(lut),
        in_range(rgb[0]) && in_range(rgb[1]) && in_range(rgb[2]),
        lut.applies(rgb, out),
    ensures
        out == rgb,
{
    let mid = choose|mid: [T; 3]| #[trigger] lut.shaped(rgb, mid) && lut.cubed(mid, out);
    if lut.shaper.len() > 0 {
        lemma_identity_shaper(lut, in_range, 0, rgb[0], mid[0]);
        lemma_identity_shaper(lut, in_range, 1, rgb[1], mid[1]);
        lemma_identity_shaper(lut, in_range, 2, rgb[2], mid[2]);
    }
    assert(mid@ =~= rgb@);
    assert(mid =~= rgb);
    if lut.cube_size > 0 {
        lemma_identity_cube(lut, in_range, mid, out);
    }
    assert(out@ =~= rgb@);
    assert(out =~= rgb);
}

} // verus!
