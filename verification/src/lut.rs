//! Look-up tables: a 1D shaper and a 3D cube, and how their entries are laid out.

use vstd::prelude::*;
use crate::cube::{parse_cube_text, read_cube, CubeFile, CubeFileView, CubeRow};
use crate::error::LutParseError;
use crate::sample::{lerp3, lerped, lerped3, located, Sample};

verus! {

/// Position of the lattice point `(r, g, b)` in the table of a cube of edge
/// `n`: `r` moves fastest, `g` next, `b` slowest.
pub open spec fn flat_index(n: int, r: int, g: int, b: int) -> int {
    b * n * n + g * n + r
}

/// The lattice point `(r, g, b)` that sits at position `i` of such a table.
pub open spec fn lattice_point(n: int, i: int) -> (int, int, int) {
    (i % n, (i / n) % n, i / (n * n))
}

/// The next lattice coordinate after `i` along one axis, held at the last one.
pub open spec fn upper_neighbour(n: int, i: int) -> int {
    if i + 1 < n {
        i + 1
    } else {
        n - 1
    }
}

/// Every lattice point of the cube has a position inside the table.
pub proof fn lemma_flat_index_in_table(n: int, r: int, g: int, b: int)
    requires
        0 <= r < n,
        0 <= g < n,
        0 <= b < n,
    ensures
        0 <= flat_index(n, r, g, b) < n * n * n,
{
    assert(b * n * n + g * n + r < n * n * n && 0 <= b * n * n + g * n + r) by (nonlinear_arith)
        requires
            0 <= r < n,
            0 <= g < n,
            0 <= b < n,
    ;
}

/// Laying a lattice point out and reading the position back gives the point
/// again: the order in which a generator walks the cube is the order in which
/// a sampler finds its corners.
pub proof fn lemma_lattice_point_of_flat_index(n: int, r: int, g: int, b: int)
    requires
        0 <= r < n,
        0 <= g < n,
        0 <= b < n,
    ensures
        lattice_point(n, flat_index(n, r, g, b)) == (r, g, b),
{
    let i = flat_index(n, r, g, b);
    let q = b * n + g;
    assert(i == q * n + r) by (nonlinear_arith)
        requires
            i == b * n * n + g * n + r,
            q == b * n + g,
    ;
    vstd::arithmetic::div_mod::lemma_fundamental_div_mod_converse(i, n, q, r);
    vstd::arithmetic::div_mod::lemma_fundamental_div_mod_converse(q, n, b, g);
    assert(0 <= q) by (nonlinear_arith)
        requires
            q == b * n + g,
            0 <= b,
            0 <= g,
            0 < n,
    ;
    vstd::arithmetic::div_mod::lemma_div_denominator(i, n, n);
}

/// Reading a position as a lattice point and laying that point out gives the
/// position again, and the point lies inside the cube.
pub proof fn lemma_flat_index_of_lattice_point(n: int, i: int)
    requires
        0 < n,
        0 <= i < n * n * n,
    ensures
        ({
            let (r, g, b) = lattice_point(n, i);
            &&& 0 <= r < n
            &&& 0 <= g < n
            &&& 0 <= b < n
            &&& flat_index(n, r, g, b) == i
        }),
{
    let q = i / n;
    let r = i % n;
    let g = q % n;
    let b = q / n;
    vstd::arithmetic::div_mod::lemma_fundamental_div_mod(i, n);
    vstd::arithmetic::div_mod::lemma_fundamental_div_mod(q, n);
    vstd::arithmetic::div_mod::lemma_div_denominator(i, n, n);
    assert(0 <= q) by (nonlinear_arith)
        requires
            q == i / n,
            0 <= i,
            0 < n,
    ;
    assert(0 <= b) by (nonlinear_arith)
        requires
            b == q / n,
            0 <= q,
            0 < n,
    ;
    assert(b < n) by (nonlinear_arith)
        requires
            i == n * q + r,
            q == n * b + g,
            0 <= r,
            0 <= g,
            i < n * n * n,
            0 < n,
    ;
    assert(b * n * n + g * n + r == i) by (nonlinear_arith)
        requires
            i == n * q + r,
            q == n * b + g,
    ;
}

/// Computes the table position of the lattice point `(r, g, b)`.
pub fn cube_index(n: usize, r: usize, g: usize, b: usize) -> (i: usize)
    requires
        r < n,
        g < n,
        b < n,
        n * n * n <= usize::MAX,
    ensures
        i == flat_index(n as int, r as int, g as int, b as int),
        i < n * n * n,
{
    proof {
        lemma_flat_index_in_table(n as int, r as int, g as int, b as int);
        assert(0 <= b * n <= b * n * n && 0 <= g * n && b * n * n + g * n <= b * n * n + g * n + r)
            by (nonlinear_arith)
            requires
                0 <= r,
                0 <= g,
                0 <= b,
                0 < n,
        ;
    }
    b * n * n + g * n + r
}

/// Computes the lattice point that sits at table position `i`.
pub fn lattice_of(n: usize, i: usize) -> (p: (usize, usize, usize))
    requires
        0 < n,
        i < n * n * n,
    ensures
        (p.0 as int, p.1 as int, p.2 as int) == lattice_point(n as int, i as int),
        p.0 < n,
        p.1 < n,
        p.2 < n,
{
    proof {
        lemma_flat_index_of_lattice_point(n as int, i as int);
        vstd::arithmetic::div_mod::lemma_div_denominator(i as int, n as int, n as int);
    }
    let q = i / n;
    (i % n, q % n, q / n)
}

/// What a [`Lut`] holds: the rows of its shaper, and the edge and rows of its cube.
pub struct LutView<T> {
    pub shaper: Seq<[T; 3]>,
    pub cube_size: nat,
    pub cube: Seq<[T; 3]>,
}

impl<T> LutView<T> {
    /// There is a shaper or a cube, and the cube holds one row for each
    /// lattice point.
    pub open spec fn wf(self) -> bool {
        &&& self.shaper.len() > 0 || self.cube_size > 0
        &&& self.cube.len() == self.cube_size * self.cube_size * self.cube_size
    }

    /// The cube row of the lattice point `(r, g, b)`.
    pub open spec fn at(self, r: int, g: int, b: int) -> [T; 3] {
        self.cube[flat_index(self.cube_size as int, r, g, b)]
    }

    /// The eight rows around the cell whose lowest corner is `(x, y, z)`: `x`
    /// alternates fastest, then `y`, then `z`, and a neighbour beyond the last
    /// lattice plane is that plane itself.
    pub open spec fn corners(self, x: int, y: int, z: int) -> Seq<[T; 3]> {
        let n = self.cube_size as int;
        let x1 = upper_neighbour(n, x);
        let y1 = upper_neighbour(n, y);
        let z1 = upper_neighbour(n, z);
        seq![
            self.at(x, y, z),
            self.at(x1, y, z),
            self.at(x, y1, z),
            self.at(x1, y1, z),
            self.at(x, y, z1),
            self.at(x1, y, z1),
            self.at(x, y1, z1),
            self.at(x1, y1, z1),
        ]
    }
}

/// The entry of a table of `size` entries that position `i` stands for: `i`
/// itself, or the last entry where `i` lies beyond the table.
pub open spec fn held(i: usize, size: int) -> int {
    if i < size {
        i as int
    } else {
        size - 1
    }
}

/// Whether `out` may come of interpolating trilinearly between the eight
/// rows `c` of a cell, at the fractions `tx`, `ty` and `tz`: first along x
/// between the four pairs of rows, then along y, then along z.
pub open spec fn trilinear<T: Sample>(c: Seq<[T; 3]>, tx: T, ty: T, tz: T, out: [T; 3]) -> bool {
    exists|c00: [T; 3], c10: [T; 3], c01: [T; 3], c11: [T; 3], c0: [T; 3], c1: [T; 3]|
        {
            &&& #[trigger] lerped3(c[0], c[1], tx, c00)
            &&& #[trigger] lerped3(c[2], c[3], tx, c10)
            &&& #[trigger] lerped3(c[4], c[5], tx, c01)
            &&& #[trigger] lerped3(c[6], c[7], tx, c11)
            &&& #[trigger] lerped3(c00, c10, ty, c0)
            &&& #[trigger] lerped3(c01, c11, ty, c1)
            &&& lerped3(c0, c1, tz, out)
        }
}

impl<T: Sample> LutView<T> {
    /// Whether `out` may come of sending `x` through channel `c` of the
    /// shaper: `x` is located in the table, and `out` lies between the entry
    /// below it and the next one.
    pub open spec fn shapes(self, c: int, x: T, out: T) -> bool {
        let n = self.shaper.len() as int;
        exists|at: (usize, T)|
            {
                &&& #[trigger] located(x, n as usize, at)
                &&& lerped(
                    self.shaper[held(at.0, n)][c],
                    self.shaper[upper_neighbour(n, held(at.0, n))][c],
                    at.1,
                    out,
                )
            }
    }

    /// Whether `out` may come of sending `rgb` through the cube: each channel
    /// is located on its axis, red on x, green on y, blue on z, and `out` is
    /// interpolated between the corners of the cell that they fall into.
    pub open spec fn cubes(self, rgb: [T; 3], out: [T; 3]) -> bool {
        let n = self.cube_size as int;
        exists|x: (usize, T), y: (usize, T), z: (usize, T)|
            {
                &&& #[trigger] located(rgb[0], n as usize, x)
                &&& #[trigger] located(rgb[1], n as usize, y)
                &&& #[trigger] located(rgb[2], n as usize, z)
                &&& trilinear(self.corners(held(x.0, n), held(y.0, n), held(z.0, n)), x.1, y.1, z.1, out)
            }
    }

    /// What the shaper may make of `rgb`: each channel sent through its
    /// column of the shaper, or `rgb` itself where there is no shaper.
    pub open spec fn shaped(self, rgb: [T; 3], out: [T; 3]) -> bool {
        if self.shaper.len() > 0 {
            &&& self.shapes(0, rgb[0], out[0])
            &&& self.shapes(1, rgb[1], out[1])
            &&& self.shapes(2, rgb[2], out[2])
        } else {
            out == rgb
        }
    }

    /// What the cube may make of `rgb`, or `rgb` itself where there is no cube.
    pub open spec fn cubed(self, rgb: [T; 3], out: [T; 3]) -> bool {
        if self.cube_size > 0 {
            self.cubes(rgb, out)
        } else {
            out == rgb
        }
    }

    /// Whether `out` may come of applying the table to `rgb`: the shaper
    /// first, the cube after it.
    pub open spec fn applies(self, rgb: [T; 3], out: [T; 3]) -> bool {
        exists|mid: [T; 3]| #[trigger] self.shaped(rgb, mid) && self.cubed(mid, out)
    }
}

/// A 1D shaper and a 3D cube, either of which may be absent (size 0), but
/// not both.
///
/// The tables never change once the value is built, and their lengths always
/// agree with the declared sizes.
#[derive(Debug)]
pub struct Lut<T> {
    shaper_size: usize,
    shaper_table: Vec<[T; 3]>,
    cube_size: usize,
    cube_table: Vec<[T; 3]>,
}

impl<T> View for Lut<T> {
    type V = LutView<T>;

    closed spec fn view(&self) -> LutView<T> {
        LutView {
            shaper: self.shaper_table@,
            cube_size: self.cube_size as nat,
            cube: self.cube_table@,
        }
    }
}

impl<T> Lut<T> {
    #[verifier::type_invariant]
    spec fn inv(self) -> bool {
        &&& self.shaper_size > 0 || self.cube_size > 0
        &&& self.shaper_table@.len() == self.shaper_size
        &&& self.cube_table@.len() == self.cube_size * self.cube_size * self.cube_size
    }
}

impl<T: Copy> Lut<T> {
    /// Builds a table from its parts. The shaper must hold `shaper_size` rows
    /// and the cube `cube_size * cube_size * cube_size`, the shaper being
    /// looked at first; and one of the two sizes must be other than 0.
    pub fn new(
        shaper_size: usize,
        shaper_table: Vec<[T; 3]>,
        cube_size: usize,
        cube_table: Vec<[T; 3]>,
    ) -> (r: Result<Self, LutParseError>)
        ensures
            match r {
                Ok(lut) => {
                    &&& shaper_table@.len() == shaper_size
                    &&& cube_table@.len() == cube_size * cube_size * cube_size
                    &&& lut@.shaper == shaper_table@
                    &&& lut@.cube_size == cube_size
                    &&& lut@.cube == cube_table@
                    &&& lut@.wf()
                },
                Err(e) => if shaper_table@.len() != shaper_size {
                    e == LutParseError::ShaperLength
                } else if cube_table@.len() != cube_size * cube_size * cube_size {
                    e == LutParseError::CubeLength
                } else {
                    &&& e == LutParseError::MissingSize
                    &&& shaper_size == 0 && cube_size == 0
                },
            },
    {
        if shaper_table.len() != shaper_size {
            return Err(LutParseError::ShaperLength);
        }
        if !is_cube_of(cube_table.len(), cube_size) {
            return Err(LutParseError::CubeLength);
        }
        if shaper_size == 0 && cube_size == 0 {
            return Err(LutParseError::MissingSize);
        }
        Ok(Lut { shaper_size, shaper_table, cube_size, cube_table })
    }

    /// Reads the rows of a `.cube` text as samples and builds the table from
    /// them. The numbers are read first, the shaper's before the cube's; the
    /// lengths are looked at after.
    pub fn from_cube_file(file: &CubeFile) -> (r: Result<Self, LutParseError>) where T: Sample
        ensures
            match r {
                Ok(lut) => file@.wf() && lut@.wf() && reads_as(*file, lut@),
                Err(LutParseError::MalformedNumber) => refuses_any::<T>(file.shaper_rows@)
                    || refuses_any::<T>(file.cube_rows@),
                Err(LutParseError::ShaperLength) => file.shaper_rows@.len() != file.shaper_size,
                Err(LutParseError::CubeLength) => {
                    &&& file.shaper_rows@.len() == file.shaper_size
                    &&& file.cube_rows@.len() != file.cube_size * file.cube_size * file.cube_size
                },
                Err(LutParseError::MissingSize) => {
                    &&& file.shaper_rows@.len() == file.shaper_size
                    &&& file.cube_rows@.len() == file.cube_size * file.cube_size * file.cube_size
                    &&& file.shaper_size == 0 && file.cube_size == 0
                },
            },
    {
        let shaper = match convert_rows::<T>(&file.shaper_rows) {
            Some(t) => t,
            None => {
                return Err(LutParseError::MalformedNumber);
            },
        };
        let cube = match convert_rows::<T>(&file.cube_rows) {
            Some(t) => t,
            None => {
                return Err(LutParseError::MalformedNumber);
            },
        };
        Lut::new(file.shaper_size, shaper, file.cube_size, cube)
    }

    /// Number of rows of the shaper; 0 when there is none.
    pub fn shaper_size(&self) -> (n: usize)
        ensures
            n == self@.shaper.len(),
    {
        proof {
            use_type_invariant(self);
        }
        self.shaper_size
    }

    /// Edge of the cube; 0 when there is none.
    pub fn cube_size(&self) -> (n: usize)
        ensures
            n == self@.cube_size,
            self@.wf(),
    {
        proof {
            use_type_invariant(self);
        }
        self.cube_size
    }

    /// Row `i` of the shaper, if there is one.
    pub fn shaper_entry(&self, i: usize) -> (e: Option<[T; 3]>)
        ensures
            e == (if i < self@.shaper.len() {
                Some(self@.shaper[i as int])
            } else {
                None
            }),
    {
        if i < self.shaper_table.len() {
            Some(self.shaper_table[i])
        } else {
            None
        }
    }

    /// The two shaper rows between which position `i0` interpolates: row `i0`
    /// and the row after it, or row `i0` twice at the end of the table.
    pub fn shaper_pair(&self, i0: usize) -> (e: Option<([T; 3], [T; 3])>)
        ensures
            e == (if i0 < self@.shaper.len() {
                Some(
                    (
                        self@.shaper[i0 as int],
                        self@.shaper[upper_neighbour(self@.shaper.len() as int, i0 as int)],
                    ),
                )
            } else {
                None
            }),
    {
        let n = self.shaper_table.len();
        if i0 < n {
            let i1 = if i0 + 1 < n {
                i0 + 1
            } else {
                n - 1
            };
            Some((self.shaper_table[i0], self.shaper_table[i1]))
        } else {
            None
        }
    }

    /// The cube row of the lattice point `(r, g, b)`, if the point is in the cube.
    pub fn cube_entry(&self, r: usize, g: usize, b: usize) -> (e: Option<[T; 3]>)
        ensures
            e == (if r < self@.cube_size && g < self@.cube_size && b < self@.cube_size {
                Some(self@.at(r as int, g as int, b as int))
            } else {
                None
            }),
    {
        proof {
            use_type_invariant(self);
            assert(self.cube_table.len() == self.cube_size * self.cube_size * self.cube_size);
        }
        let n = self.cube_size;
        if r < n && g < n && b < n {
            let i = cube_index(n, r, g, b);
            Some(self.cube_table[i])
        } else {
            None
        }
    }

    /// The eight cube rows around the cell whose lowest corner is `(x0, y0, z0)`,
    /// if that corner is in the cube.
    pub fn cube_corners(&self, x0: usize, y0: usize, z0: usize) -> (e: Option<[[T; 3]; 8]>)
        ensures
            match e {
                Some(c) => {
                    &&& x0 < self@.cube_size && y0 < self@.cube_size && z0 < self@.cube_size
                    &&& c@ == self@.corners(x0 as int, y0 as int, z0 as int)
                },
                None => !(x0 < self@.cube_size && y0 < self@.cube_size && z0 < self@.cube_size),
            },
    {
        proof {
            use_type_invariant(self);
            assert(self.cube_table.len() == self.cube_size * self.cube_size * self.cube_size);
        }
        let n = self.cube_size;
        if x0 < n && y0 < n && z0 < n {
            let x1 = if x0 + 1 < n {
                x0 + 1
            } else {
                n - 1
            };
            let y1 = if y0 + 1 < n {
                y0 + 1
            } else {
                n - 1
            };
            let z1 = if z0 + 1 < n {
                z0 + 1
            } else {
                n - 1
            };
            let c = [
                self.cube_table[cube_index(n, x0, y0, z0)],
                self.cube_table[cube_index(n, x1, y0, z0)],
                self.cube_table[cube_index(n, x0, y1, z0)],
                self.cube_table[cube_index(n, x1, y1, z0)],
                self.cube_table[cube_index(n, x0, y0, z1)],
                self.cube_table[cube_index(n, x1, y0, z1)],
                self.cube_table[cube_index(n, x0, y1, z1)],
                self.cube_table[cube_index(n, x1, y1, z1)],
            ];
            assert(c@ =~= self@.corners(x0 as int, y0 as int, z0 as int));
            Some(c)
        } else {
            None
        }
    }
}

/// Whether the three numbers of `row` may be read as the samples `out`.
pub open spec fn converts<T: Sample>(row: CubeRow, out: [T; 3]) -> bool {
    &&& call_ensures(T::parse, (&row.r,), Some(out[0]))
    &&& call_ensures(T::parse, (&row.g,), Some(out[1]))
    &&& call_ensures(T::parse, (&row.b,), Some(out[2]))
}

/// Whether one of the three numbers of `row` may be refused as a sample.
pub open spec fn refuses<T: Sample>(row: CubeRow) -> bool {
    ||| call_ensures(T::parse, (&row.r,), None::<T>)
    ||| call_ensures(T::parse, (&row.g,), None::<T>)
    ||| call_ensures(T::parse, (&row.b,), None::<T>)
}

/// Whether `table` may be what the rows `rows` are read as, row for row.
pub open spec fn converts_all<T: Sample>(rows: Seq<CubeRow>, table: Seq<[T; 3]>) -> bool {
    &&& table.len() == rows.len()
    &&& forall|i: int| 0 <= i < rows.len() ==> converts(rows[i], #[trigger] table[i])
}

/// Whether a number in one of the rows `rows` may be refused as a sample.
pub open spec fn refuses_any<T: Sample>(rows: Seq<CubeRow>) -> bool {
    exists|i: int| 0 <= i < rows.len() && refuses::<T>(#[trigger] rows[i])
}

/// Whether `lut` may be what the tables of `file` are read as.
pub open spec fn reads_as<T: Sample>(file: CubeFile, lut: LutView<T>) -> bool {
    &&& lut.cube_size == file.cube_size
    &&& converts_all(file.shaper_rows@, lut.shaper)
    &&& converts_all(file.cube_rows@, lut.cube)
}

/// Turns rows of text into rows of samples, the first row first, and stops at
/// the first number that is refused.
fn convert_rows<T: Sample>(rows: &Vec<CubeRow>) -> (out: Option<Vec<[T; 3]>>)
    ensures
        match out {
            Some(table) => converts_all(rows@, table@),
            None => refuses_any::<T>(rows@),
        },
{
    let mut table: Vec<[T; 3]> = Vec::new();
    let mut i: usize = 0;
    while i < rows.len()
        invariant
            i <= rows@.len(),
            table@.len() == i,
            forall|j: int| 0 <= j < i ==> converts(rows@[j], #[trigger] table@[j]),
        decreases rows@.len() - i,
    {
        let row = &rows[i];
        let r = T::parse(&row.r);
        let g = T::parse(&row.g);
        let b = T::parse(&row.b);
        match (r, g, b) {
            (Some(r), Some(g), Some(b)) => {
                table.push([r, g, b]);
            },
            _ => {
                assert(refuses::<T>(rows@[i as int]));
                return None;
            },
        }
        i += 1;
    }
    Some(table)
}

impl<T: Sample> Lut<T> {
    /// Sends one channel through the shaper, which must not be empty.
    fn apply_1d(&self, c: usize, x: T) -> (out: T)
        requires
            c < 3,
            self@.shaper.len() > 0,
        ensures
            self@.shapes(c as int, x, out),
    {
        let n = self.shaper_table.len();
        let at = x.locate(n);
        let i0 = if at.0 < n {
            at.0
        } else {
            n - 1
        };
        let pair = self.shaper_pair(i0).unwrap();
        let lo = pair.0[c];
        let hi = pair.1[c];
        let out = lo.lerp(hi, at.1);
        proof {
            let m = self@.shaper.len() as int;
            assert(m as usize == n);
            assert(located(x, m as usize, at));
            assert(i0 == held(at.0, m));
            assert(lo == self@.shaper[held(at.0, m)][c as int]);
            assert(hi == self@.shaper[upper_neighbour(m, held(at.0, m))][c as int]);
            assert(lerped(lo, hi, at.1, out));
        }
        out
    }

    /// Sends a colour through the cube, which must not be empty.
    fn apply_3d(&self, rgb: [T; 3]) -> (out: [T; 3])
        requires
            self@.cube_size > 0,
        ensures
            self@.cubes(rgb, out),
    {
        let n = self.cube_size();
        let x = rgb[0].locate(n);
        let y = rgb[1].locate(n);
        let z = rgb[2].locate(n);
        let x0 = if x.0 < n {
            x.0
        } else {
            n - 1
        };
        let y0 = if y.0 < n {
            y.0
        } else {
            n - 1
        };
        let z0 = if z.0 < n {
            z.0
        } else {
            n - 1
        };
        let corners = self.cube_corners(x0, y0, z0);
        let c = corners.unwrap();
        let c00 = lerp3(c[0], c[1], x.1);
        let c10 = lerp3(c[2], c[3], x.1);
        let c01 = lerp3(c[4], c[5], x.1);
        let c11 = lerp3(c[6], c[7], x.1);
        let c0 = lerp3(c00, c10, y.1);
        let c1 = lerp3(c01, c11, y.1);
        let out = lerp3(c0, c1, z.1);
        proof {
            let m = self@.cube_size as int;
            assert(m as usize == n);
            assert(located(rgb[0], m as usize, x) && located(rgb[1], m as usize, y) && located(
                rgb[2],
                m as usize,
                z,
            ));
            assert(x0 == held(x.0, m) && y0 == held(y.0, m) && z0 == held(z.0, m));
            let s = self@.corners(held(x.0, m), held(y.0, m), held(z.0, m));
            assert(c@ == s);
            assert(lerped3(s[0], s[1], x.1, c00));
            assert(lerped3(s[2], s[3], x.1, c10));
            assert(lerped3(s[4], s[5], x.1, c01));
            assert(lerped3(s[6], s[7], x.1, c11));
            assert(lerped3(c00, c10, y.1, c0));
            assert(lerped3(c01, c11, y.1, c1));
            assert(lerped3(c0, c1, z.1, out));
            assert(trilinear(s, x.1, y.1, z.1, out));
        }
        out
    }

    /// Applies the table to a colour: the shaper first, where there is one,
    /// each channel through its own column; then the cube, where there is one.
    pub fn apply(&self, rgb: [T; 3]) -> (out: [T; 3])
        ensures
            self@.applies(rgb, out),
    {
        let mut v = rgb;
        if self.shaper_size() > 0 {
            v = [self.apply_1d(0, rgb[0]), self.apply_1d(1, rgb[1]), self.apply_1d(2, rgb[2])];
        }
        let ghost mid = v;
        proof {
            assert(self@.shaped(rgb, mid));
        }
        if self.cube_size() > 0 {
            v = self.apply_3d(v);
        }
        proof {
            assert(self@.cubed(mid, v));
        }
        v
    }
}

/// Copies a table row by row.
fn copy_rows<T: Copy>(rows: &Vec<[T; 3]>) -> (out: Vec<[T; 3]>)
    ensures
        out@ == rows@,
{
    let mut out: Vec<[T; 3]> = Vec::new();
    let mut i: usize = 0;
    while i < rows.len()
        invariant
            i <= rows@.len(),
            out@ == rows@.subrange(0, i as int),
        decreases rows@.len() - i,
    {
        out.push(rows[i]);
        i += 1;
        assert(out@ =~= rows@.subrange(0, i as int));
    }
    assert(out@ =~= rows@);
    out
}

impl<T: Copy> Clone for Lut<T> {
    fn clone(&self) -> (r: Self)
        ensures
            r@ == self@,
    {
        proof {
            use_type_invariant(self);
        }
        Lut {
            shaper_size: self.shaper_size,
            shaper_table: copy_rows(&self.shaper_table),
            cube_size: self.cube_size,
            cube_table: copy_rows(&self.cube_table),
        }
    }
}

/// Whether `len` is `n * n * n`, decided without overflow.
pub(crate) fn is_cube_of(len: usize, n: usize) -> (r: bool)
    ensures
        r == (len == n * n * n),
{
    if n == 0 {
        return len == 0;
    }
    // n * n * n == len  iff  n divides len, n divides len / n, and len / n / n == n
    if len % n != 0 {
        proof {
            vstd::arithmetic::div_mod::lemma_mod_multiples_basic(n * n, n as int);
            assert(n * n * n == (n * n) * n) by (nonlinear_arith);
        }
        return false;
    }
    let q = len / n;
    if q % n != 0 {
        proof {
            vstd::arithmetic::div_mod::lemma_fundamental_div_mod(len as int, n as int);
            if len == n * n * n {
                assert(n * q == n * (n * n)) by (nonlinear_arith)
                    requires
                        len == n * q,
                        len == n * n * n,
                ;
                assert(q == n * n) by (nonlinear_arith)
                    requires
                        n * q == n * (n * n),
                        n > 0,
                ;
                vstd::arithmetic::div_mod::lemma_mod_multiples_basic(n as int, n as int);
            }
        }
        return false;
    }
    let p = q / n;
    proof {
        vstd::arithmetic::div_mod::lemma_fundamental_div_mod(len as int, n as int);
        vstd::arithmetic::div_mod::lemma_fundamental_div_mod(q as int, n as int);
        assert(len == n * (n * p));
        assert((p == n) <==> (len == n * n * n)) by (nonlinear_arith)
            requires
                len == n * (n * p),
                n > 0,
        ;
    }
    p == n
}

/// Reads a `.cube` text into a table. The text is read as [`read_cube`]
/// reads it; then every number of its rows is read as a sample.
pub fn parse_cube<T: Sample>(text: &str) -> (r: Result<Lut<T>, LutParseError>)
    ensures
        match parse_cube_text(text@) {
            Ok(view) => match r {
                Ok(lut) => lut@.wf() && exists|file: CubeFile|
                    file@ == view && #[trigger] reads_as(file, lut@),
                Err(e) => e == LutParseError::MalformedNumber && exists|file: CubeFile|
                    #![trigger file@]
                    file@ == view && (refuses_any::<T>(file.shaper_rows@) || refuses_any::<T>(
                        file.cube_rows@,
                    )),
            },
            Err(e) => r matches Err(x) && x == e,
        },
{
    let file = match read_cube(text) {
        Ok(file) => file,
        Err(e) => {
            return Err(e);
        },
    };
    let r = Lut::from_cube_file(&file);
    proof {
        assert(parse_cube_text(text@) == Ok::<CubeFileView, LutParseError>(file@));
    }
    r
}

} // verus!
