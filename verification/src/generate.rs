//! Writing `.cube` text and driving the generation of a 3D table: lattice
//! order, progress reports and cancellation.

use vstd::prelude::*;
use vstd::string::StringExecFns;
use rayon::iter::{IndexedParallelIterator, IntoParallelIterator, ParallelIterator};
use crate::color::{ClipMode, ColorSpace, Primaries, TransferFn};
use crate::convert::{conversion_fails, converts_between, rgb_to_rgb_matrix};
use crate::cube::{rows_view, CubeRow, RowView};
use crate::error::{Cancelled, Error, InvalidInput};
use crate::lut::{
    flat_index, lattice_of, lattice_point, lemma_flat_index_in_table,
    lemma_lattice_point_of_flat_index,
};
use crate::number::{decimal_digits, push_decimal};
use crate::sample::{ColorMath, Sample};

verus! {

/// A line of text: what it says, and a line feed.
pub open spec fn line(content: Seq<char>) -> Seq<char> {
    content + seq!['\n']
}

/// What the line of one row says: the three numbers with a blank between them.
pub open spec fn row_content(row: RowView) -> Seq<char> {
    row.r + seq![' '] + row.g + seq![' '] + row.b
}

/// One row as a line of text.
pub open spec fn row_line(row: RowView) -> Seq<char> {
    line(row_content(row))
}

/// What the line that declares a table says: the directive and the size.
pub open spec fn size_content(keyword: Seq<char>, size: nat) -> Seq<char> {
    keyword + seq![' '] + decimal_digits(size)
}

/// The lines of all rows, the first row first.
pub open spec fn rows_text(rows: Seq<RowView>) -> Seq<char>
    decreases rows.len(),
{
    if rows.len() == 0 {
        Seq::empty()
    } else {
        row_line(rows[0]) + rows_text(rows.drop_first())
    }
}

/// One table: the size directive `keyword`, the unit domain, and the rows.
pub open spec fn table_text(keyword: Seq<char>, size: nat, rows: Seq<RowView>) -> Seq<char> {
    line(size_content(keyword, size)) + line("DOMAIN_MIN 0.0 0.0 0.0"@) + line(
        "DOMAIN_MAX 1.0 1.0 1.0"@,
    ) + rows_text(rows)
}

/// The text of a 1D table.
pub open spec fn lut_1d_text(size: nat, rows: Seq<RowView>) -> Seq<char> {
    line("TITLE \"exrtool 1D LUT\""@) + table_text("LUT_1D_SIZE"@, size, rows)
}

/// The text of a 3D table: the title, the shaper if it has rows, the cube.
pub open spec fn lut_3d_text(shaper: Seq<RowView>, size: nat, cube: Seq<RowView>) -> Seq<char> {
    line("TITLE \"exrtool 3D LUT\""@) + (if shaper.len() > 0 {
        table_text("LUT_1D_SIZE"@, shaper.len(), shaper)
    } else {
        Seq::empty()
    }) + table_text("LUT_3D_SIZE"@, size, cube)
}

/// The lines of some rows followed by the line of one more are the lines of
/// all of them.
pub proof fn lemma_rows_text_push(rows: Seq<RowView>, row: RowView)
    ensures
        rows_text(rows.push(row)) == rows_text(rows) + row_line(row),
    decreases rows.len(),
{
    if rows.len() == 0 {
        assert(rows.push(row).drop_first() =~= Seq::<RowView>::empty());
        assert(rows_text(Seq::<RowView>::empty()) =~= Seq::<char>::empty());
        assert(rows_text(rows) =~= Seq::<char>::empty());
        assert(rows_text(rows.push(row)) =~= row_line(row) + Seq::<char>::empty());
        assert(rows_text(rows.push(row)) =~= rows_text(rows) + row_line(row));
    } else {
        lemma_rows_text_push(rows.drop_first(), row);
        assert(rows.push(row).drop_first() =~= rows.drop_first().push(row));
        assert(rows_text(rows.push(row)) =~= rows_text(rows) + row_line(row));
    }
}

/// Appends the lines of `rows` to `out`.
fn push_rows(out: &mut String, rows: &Vec<CubeRow>)
    ensures
        final(out)@ == old(out)@ + rows_text(rows_view(rows@)),
{
    let mut i: usize = 0;
    proof {
        assert(rows_view(rows@).take(0) =~= Seq::<RowView>::empty());
        assert(out@ =~= old(out)@ + rows_text(rows_view(rows@).take(0)));
    }
    while i < rows.len()
        invariant
            i <= rows@.len(),
            out@ == old(out)@ + rows_text(rows_view(rows@).take(i as int)),
        decreases rows@.len() - i,
    {
        let ghost before = out@;
        let row = &rows[i];
        out.append(row.r.as_str());
        out.push(' ');
        out.append(row.g.as_str());
        out.push(' ');
        out.append(row.b.as_str());
        out.push('\n');
        proof {
            let all = rows_view(rows@);
            assert(all.take(i + 1) =~= all.take(i as int).push(all[i as int]));
            lemma_rows_text_push(all.take(i as int), all[i as int]);
            assert(out@ =~= before + row_line(all[i as int]));
            assert(out@ =~= old(out)@ + rows_text(all.take(i + 1)));
        }
        i += 1;
    }
    proof {
        assert(rows_view(rows@).take(rows@.len() as int) =~= rows_view(rows@));
    }
}

/// Appends one table to `out`.
fn push_table(out: &mut String, keyword: &str, size: usize, rows: &Vec<CubeRow>)
    ensures
        final(out)@ == old(out)@ + table_text(keyword@, size as nat, rows_view(rows@)),
{
    out.append(keyword);
    out.push(' ');
    push_decimal(out, size);
    out.push('\n');
    out.append("DOMAIN_MIN 0.0 0.0 0.0");
    out.push('\n');
    out.append("DOMAIN_MAX 1.0 1.0 1.0");
    out.push('\n');
    push_rows(out, rows);
    proof {
        assert(out@ =~= old(out)@ + table_text(keyword@, size as nat, rows_view(rows@)));
    }
}

/// Writes the text of a 1D table of `size` rows.
pub fn emit_1d_lut(size: usize, rows: &Vec<CubeRow>) -> (text: String)
    ensures
        text@ == lut_1d_text(size as nat, rows_view(rows@)),
{
    let mut out = String::new();
    out.append("TITLE \"exrtool 1D LUT\"");
    out.push('\n');
    push_table(&mut out, "LUT_1D_SIZE", size, rows);
    proof {
        assert(out@ =~= lut_1d_text(size as nat, rows_view(rows@)));
    }
    out
}

/// Writes the text of a 3D table of edge `size`, after its shaper if that has
/// any rows.
pub fn emit_3d_lut(shaper_rows: &Vec<CubeRow>, size: usize, cube_rows: &Vec<CubeRow>) -> (text:
    String)
    ensures
        text@ == lut_3d_text(rows_view(shaper_rows@), size as nat, rows_view(cube_rows@)),
{
    let mut out = String::new();
    out.append("TITLE \"exrtool 3D LUT\"");
    out.push('\n');
    if shaper_rows.len() > 0 {
        push_table(&mut out, "LUT_1D_SIZE", shaper_rows.len(), shaper_rows);
    }
    push_table(&mut out, "LUT_3D_SIZE", size, cube_rows);
    proof {
        assert(out@ =~= lut_3d_text(rows_view(shaper_rows@), size as nat, rows_view(cube_rows@)));
    }
    out
}

/// The number of points after which the `k`-th progress report is made: one
/// report after every 1000 points, and one at the end.
pub open spec fn checkpoint(k: int, total: int) -> int {
    if 1000 * k < total {
        1000 * k
    } else {
        total
    }
}

/// The number of progress reports for `total` points.
pub open spec fn checkpoints(total: int) -> int {
    (total + 999) / 1000
}

/// Whether `progress` may give `answer` to the `k`-th report.
pub open spec fn progress_says<F: Fn(usize, usize) -> bool>(
    progress: F,
    k: int,
    total: int,
    answer: bool,
) -> bool {
    call_ensures(progress, (checkpoint(k, total) as usize, total as usize), answer)
}

/// Whether `progress` may let the first `upto` reports pass.
pub open spec fn progress_allows<F: Fn(usize, usize) -> bool>(progress: F, total: int, upto: int)
    -> bool {
    forall|k: int| 1 <= k <= upto ==> #[trigger] progress_says(progress, k, total, true)
}

/// Whether `progress` may stop the work at one of its reports, having let the
/// earlier ones pass.
pub open spec fn progress_stops<F: Fn(usize, usize) -> bool>(progress: F, total: int) -> bool {
    exists|k: int|
        1 <= k <= checkpoints(total) && #[trigger] progress_says(progress, k, total, false)
            && progress_allows(progress, total, k - 1)
}

/// Whether `rows` are rows that `row` may give for the positions 0, 1, ... of
/// a 1D table of `size` rows.
pub open spec fn rows_from<S: Fn(usize) -> CubeRow>(row: S, size: int, rows: Seq<CubeRow>) -> bool {
    &&& rows.len() == size
    &&& forall|i: int| 0 <= i < size ==> call_ensures(row, (i as usize,), #[trigger] rows[i])
}

/// Whether `rows` are rows that `cube_row` may give for the lattice points of
/// a cube of edge `size`, in table order: red fastest, blue slowest.
pub open spec fn cube_rows_from<P: Fn(usize, usize, usize) -> CubeRow>(
    cube_row: P,
    size: int,
    rows: Seq<CubeRow>,
) -> bool {
    &&& rows.len() == size * size * size
    &&& forall|i: int|
        0 <= i < rows.len() ==> {
            let p = lattice_point(size, i);
            call_ensures(cube_row, (p.0 as usize, p.1 as usize, p.2 as usize), #[trigger] rows[i])
        }
}

/// In the rows of a generated cube, the row that stands where a sampler looks
/// for the lattice point `(r, g, b)` is a row that was computed for that point.
pub proof fn lemma_generated_row_at<P: Fn(usize, usize, usize) -> CubeRow>(
    cube_row: P,
    size: usize,
    rows: Seq<CubeRow>,
    r: usize,
    g: usize,
    b: usize,
)
    requires
        cube_rows_from(cube_row, size as int, rows),
        r < size,
        g < size,
        b < size,
    ensures
        0 <= flat_index(size as int, r as int, g as int, b as int) < rows.len(),
        call_ensures(
            cube_row,
            (r, g, b),
            rows[flat_index(size as int, r as int, g as int, b as int)],
        ),
{
    lemma_flat_index_in_table(size as int, r as int, g as int, b as int);
    lemma_lattice_point_of_flat_index(size as int, r as int, g as int, b as int);
    let i = flat_index(size as int, r as int, g as int, b as int);
    assert(lattice_point(size as int, i) == (r as int, g as int, b as int));
    let row = rows[i];
}

/// Runs `f` on every index from `lo` up to `hi` on rayon's thread pool
/// (`into_par_iter`, `map`, `collect_into_vec` on a range) and returns the
/// results in the order of the indices: result `k` is what `f` gave for
/// `lo + k`.
#[verifier::external_body]
fn par_map_range<F: Fn(usize) -> CubeRow + Sync + Send>(lo: usize, hi: usize, f: &F) -> (rows: Vec<
    CubeRow,
>)
    requires
        lo <= hi,
        forall|i: usize| lo <= i < hi ==> call_requires(*f, (i,)),
    ensures
        rows@.len() == hi - lo,
        forall|k: int|
            0 <= k < hi - lo ==> call_ensures(*f, ((lo + k) as usize,), #[trigger] rows@[k]),
{
    let mut rows = Vec::new();
    (lo..hi).into_par_iter().map(f).collect_into_vec(&mut rows);
    rows
}

/// Computes the rows of a 1D table, one after the other.
pub fn compute_rows<S: Fn(usize) -> CubeRow>(size: usize, row: S) -> (rows: Vec<CubeRow>)
    requires
        forall|i: usize| call_requires(row, (i,)),
    ensures
        rows_from(row, size as int, rows@),
{
    let mut rows: Vec<CubeRow> = Vec::new();
    let mut i: usize = 0;
    while i < size
        invariant
            forall|i: usize| call_requires(row, (i,)),
            i <= size,
            rows@.len() == i,
            forall|j: int| 0 <= j < i ==> call_ensures(row, (j as usize,), #[trigger] rows@[j]),
        decreases size - i,
    {
        rows.push(row(i));
        i += 1;
    }
    rows
}

/// Computes the rows of a cube of edge `size` in table order, 1000 lattice
/// points at a time, each batch in parallel. After every batch `progress` is
/// told how many points are done and how many there are; when it answers
/// `false` the work stops and no rows are handed out.
pub fn compute_cube_rows<P, F>(size: usize, cube_row: P, progress: F) -> (r: Result<
    Vec<CubeRow>,
    Cancelled,
>) where P: Fn(usize, usize, usize) -> CubeRow + Sync + Send, F: Fn(usize, usize) -> bool
    requires
        size * size * size <= usize::MAX,
        forall|r: usize, g: usize, b: usize| call_requires(cube_row, (r, g, b)),
        forall|done: usize, total: usize| call_requires(progress, (done, total)),
    ensures
        match r {
            Ok(rows) => {
                &&& cube_rows_from(cube_row, size as int, rows@)
                &&& progress_allows(
                    progress,
                    size * size * size,
                    checkpoints(size * size * size),
                )
            },
            Err(_) => progress_stops(progress, size * size * size),
        },
{
    proof {
        assert(0 <= size * size <= size * size * size || size == 0) by (nonlinear_arith);
    }
    let total: usize = if size == 0 {
        0
    } else {
        size * size * size
    };
    assert(total == size * size * size) by (nonlinear_arith)
        requires
            total == (if size == 0 {
                0
            } else {
                size * size * size
            }),
    ;
    let at = &cube_row;
    let point = |i: usize| -> (row: CubeRow)
        requires
            0 < size,
            i < size * size * size,
        ensures
            ({
                let p = lattice_point(size as int, i as int);
                call_ensures(*at, (p.0 as usize, p.1 as usize, p.2 as usize), row)
            }),
        {
            let p = lattice_of(size, i);
            at(p.0, p.1, p.2)
        };
    let mut rows: Vec<CubeRow> = Vec::new();
    let mut done: usize = 0;
    let ghost mut k: int = 0;
    while done < total
        invariant
            total == size * size * size,
            forall|i: usize| 0 < size && i < size * size * size ==> call_requires(point, (i,)),
            forall|i: usize, row: CubeRow|
                call_ensures(point, (i,), row) ==> {
                    let p = lattice_point(size as int, i as int);
                    call_ensures(cube_row, (p.0 as usize, p.1 as usize, p.2 as usize), row)
                },
            forall|done: usize, total: usize| call_requires(progress, (done, total)),
            done <= total,
            0 <= k,
            done == checkpoint(k, total as int),
            done < total ==> done == 1000 * k,
            done == total ==> k == checkpoints(total as int),
            rows@.len() == done,
            forall|i: int|
                0 <= i < done ==> {
                    let p = lattice_point(size as int, i);
                    call_ensures(
                        cube_row,
                        (p.0 as usize, p.1 as usize, p.2 as usize),
                        #[trigger] rows@[i],
                    )
                },
            progress_allows(progress, total as int, k),
        decreases total - done,
    {
        let hi: usize = if total - done > 1000 {
            done + 1000
        } else {
            total
        };
        let mut batch = par_map_range(done, hi, &point);
        let ghost before = rows@;
        rows.append(&mut batch);
        proof {
            assert forall|i: int| 0 <= i < hi implies ({
                let p = lattice_point(size as int, i);
                call_ensures(
                    cube_row,
                    (p.0 as usize, p.1 as usize, p.2 as usize),
                    #[trigger] rows@[i],
                )
            }) by {
                if i < done {
                    assert(rows@[i] == before[i]);
                } else {
                    assert(call_ensures(point, ((done + (i - done)) as usize,), rows@[i]));
                }
            }
            k = k + 1;
            assert(hi == checkpoint(k, total as int));
        }
        done = hi;
        let go = progress(done, total);
        if !go {
            proof {
                assert(progress_says(progress, k, total as int, false));
                assert(progress_allows(progress, total as int, k - 1));
                assert(1 <= k <= checkpoints(total as int));
            }
            return Err(Cancelled);
        }
        proof {
            assert(progress_says(progress, k, total as int, true));
        }
    }
    Ok(rows)
}

/// The number of steps between the first and the last entry of a table of
/// `size` entries, and 1 for a table that has no two entries.
pub open spec fn unit_steps(size: usize) -> usize {
    if size > 1 {
        (size - 1) as usize
    } else {
        1
    }
}

/// Computes `unit_steps`.
fn steps_of(size: usize) -> (n: usize)
    ensures
        n == unit_steps(size),
        n >= 1,
{
    if size > 1 {
        size - 1
    } else {
        1
    }
}

/// Whether `row` may be the row that holds `value` three times.
pub open spec fn is_grey_row<T: Sample>(value: T, row: CubeRow) -> bool {
    &&& call_ensures(T::format, (value,), row.r)
    &&& row.g == row.r
    &&& row.b == row.r
}

/// Writes the row that holds `value` three times.
fn grey_row<T: Sample>(value: T) -> (row: CubeRow)
    ensures
        is_grey_row(value, row),
{
    let r = value.format();
    let g = r.clone();
    let b = r.clone();
    CubeRow { r, g, b }
}

/// Whether `y` may be what the conversion from the encoding `src` to the
/// encoding `dst` makes of `x`: the sRGB signal of linear light, linear light
/// of the sRGB signal, or `x` itself between equal encodings.
pub open spec fn recodes<T: Sample>(src: ColorSpace, dst: ColorSpace, x: T, y: T) -> bool {
    match (src, dst) {
        (ColorSpace::Linear, ColorSpace::Srgb) => call_ensures(
            T::tf_encode,
            (x, TransferFn::Srgb),
            y,
        ),
        (ColorSpace::Srgb, ColorSpace::Linear) => call_ensures(
            T::tf_decode,
            (x, TransferFn::Srgb),
            y,
        ),
        _ => y == x,
    }
}

/// Whether `c` may be the value of row `i` of the 1D table of `size` rows
/// from `src` to `dst`: position `i` of the unit range, converted, and held
/// to the unit range.
pub open spec fn is_1d_value<T: Sample>(
    src: ColorSpace,
    dst: ColorSpace,
    size: usize,
    i: usize,
    c: T,
) -> bool {
    exists|x: T, y: T|
        {
            &&& #[trigger] call_ensures(T::ratio, (i, unit_steps(size)), x)
            &&& #[trigger] recodes(src, dst, x, y)
            &&& call_ensures(T::clamp_unit, (y,), c)
        }
}

/// Whether `row` may be row `i` of that table: its value, written three times.
pub open spec fn is_1d_row<T: Sample>(
    src: ColorSpace,
    dst: ColorSpace,
    size: usize,
    i: usize,
    row: CubeRow,
) -> bool {
    exists|c: T| #[trigger] is_1d_value(src, dst, size, i, c) && is_grey_row(c, row)
}

/// Whether `rows` may be the rows of the 1D table of `size` rows from `src` to `dst`.
pub open spec fn is_1d_table<T: Sample>(
    src: ColorSpace,
    dst: ColorSpace,
    size: usize,
    rows: Seq<CubeRow>,
) -> bool {
    &&& rows.len() == size
    &&& forall|i: int| 0 <= i < size ==> is_1d_row::<T>(src, dst, size, i as usize, #[trigger] rows[i])
}

/// Computes row `i` of a 1D table.
fn row_1d<T: Sample>(src: ColorSpace, dst: ColorSpace, size: usize, i: usize) -> (row: CubeRow)
    ensures
        is_1d_row::<T>(src, dst, size, i, row),
{
    let x = T::ratio(i, steps_of(size));
    let y = match (src, dst) {
        (ColorSpace::Linear, ColorSpace::Srgb) => x.tf_encode(TransferFn::Srgb),
        (ColorSpace::Srgb, ColorSpace::Linear) => x.tf_decode(TransferFn::Srgb),
        _ => x,
    };
    let c = y.clamp_unit();
    let row = grey_row(c);
    proof {
        assert(call_ensures(T::ratio, (i, unit_steps(size)), x));
        assert(recodes(src, dst, x, y));
        assert(is_1d_value(src, dst, size, i, c));
    }
    row
}

/// Whether `y` may be the value of row `i` of the shaper of `size` rows
/// before a cube whose source has the transfer function `src_tf`: position
/// `i` of the unit range as linear light.
pub open spec fn is_shaper_value<T: Sample>(src_tf: TransferFn, size: usize, i: usize, y: T) -> bool {
    exists|x: T|
        #[trigger] call_ensures(T::ratio, (i, unit_steps(size)), x) && call_ensures(
            T::tf_decode,
            (x, src_tf),
            y,
        )
}

/// Whether `row` may be row `i` of that shaper: its value, written three times.
pub open spec fn is_shaper_row<T: Sample>(src_tf: TransferFn, size: usize, i: usize, row: CubeRow)
    -> bool {
    exists|y: T| #[trigger] is_shaper_value(src_tf, size, i, y) && is_grey_row(y, row)
}

/// Whether `rows` may be the rows of that shaper.
pub open spec fn is_shaper<T: Sample>(src_tf: TransferFn, size: usize, rows: Seq<CubeRow>) -> bool {
    &&& rows.len() == size
    &&& forall|i: int| 0 <= i < size ==> is_shaper_row::<T>(src_tf, size, i as usize, #[trigger] rows[i])
}

/// Computes row `i` of the shaper.
fn shaper_row<T: Sample>(src_tf: TransferFn, size: usize, i: usize) -> (row: CubeRow)
    ensures
        is_shaper_row::<T>(src_tf, size, i, row),
{
    let x = T::ratio(i, steps_of(size));
    let y = x.tf_decode(src_tf);
    let row = grey_row(y);
    proof {
        assert(call_ensures(T::ratio, (i, unit_steps(size)), x));
        assert(is_shaper_value(src_tf, size, i, y));
    }
    row
}

/// Whether `x` may be the lattice point `(r, g, b)` of a cube of edge `size`
/// as a colour in the unit cube.
pub open spec fn normalizes<T: Sample>(r: usize, g: usize, b: usize, size: usize, x: [T; 3]) -> bool {
    &&& call_ensures(T::ratio, (r, unit_steps(size)), x[0])
    &&& call_ensures(T::ratio, (g, unit_steps(size)), x[1])
    &&& call_ensures(T::ratio, (b, unit_steps(size)), x[2])
}

/// Whether `v` may be the signal `x` as linear light, channel by channel.
pub open spec fn decodes<T: Sample>(x: [T; 3], tf: TransferFn, v: [T; 3]) -> bool {
    &&& call_ensures(T::tf_decode, (x[0], tf), v[0])
    &&& call_ensures(T::tf_decode, (x[1], tf), v[1])
    &&& call_ensures(T::tf_decode, (x[2], tf), v[2])
}

/// Whether `e` may be linear light `d` as a signal, channel by channel.
pub open spec fn encodes_as<T: Sample>(d: [T; 3], tf: TransferFn, e: [T; 3]) -> bool {
    &&& call_ensures(T::tf_encode, (d[0], tf), e[0])
    &&& call_ensures(T::tf_encode, (d[1], tf), e[1])
    &&& call_ensures(T::tf_encode, (d[2], tf), e[2])
}

/// Whether `c` may be what the clip mode makes of `e`: each channel held to
/// the unit range, or `e` as it is.
pub open spec fn clips<T: Sample>(e: [T; 3], clip: ClipMode, c: [T; 3]) -> bool {
    match clip {
        ClipMode::Clip => {
            &&& call_ensures(T::clamp_unit, (e[0],), c[0])
            &&& call_ensures(T::clamp_unit, (e[1],), c[1])
            &&& call_ensures(T::clamp_unit, (e[2],), c[2])
        },
        ClipMode::NoClip => c == e,
    }
}

/// Whether `row` may be the colour `c` as it is written.
pub open spec fn formats<T: Sample>(c: [T; 3], row: CubeRow) -> bool {
    &&& call_ensures(T::format, (c[0],), row.r)
    &&& call_ensures(T::format, (c[1],), row.g)
    &&& call_ensures(T::format, (c[2],), row.b)
}

/// Whether `c` may be the colour of the lattice point `(r, g, b)`: the point
/// as a colour in the unit cube, decoded by the source's transfer function,
/// taken through the matrix `m`, encoded by the destination's transfer
/// function, and clipped as the mode asks.
pub open spec fn is_cube_value<T: ColorMath>(
    m: T::Matrix,
    src_tf: TransferFn,
    dst_tf: TransferFn,
    clip: ClipMode,
    size: usize,
    r: usize,
    g: usize,
    b: usize,
    c: [T; 3],
) -> bool {
    exists|x: [T; 3], v: [T; 3], d: [T; 3], e: [T; 3]|
        {
            &&& #[trigger] normalizes(r, g, b, size, x)
            &&& #[trigger] decodes(x, src_tf, v)
            &&& #[trigger] call_ensures(T::transform, (m, v), d)
            &&& #[trigger] encodes_as(d, dst_tf, e)
            &&& clips(e, clip, c)
        }
}

/// Whether `row` may be the row of the lattice point `(r, g, b)`: its colour
/// as it is written.
pub open spec fn is_cube_row<T: ColorMath>(
    m: T::Matrix,
    src_tf: TransferFn,
    dst_tf: TransferFn,
    clip: ClipMode,
    size: usize,
    r: usize,
    g: usize,
    b: usize,
    row: CubeRow,
) -> bool {
    exists|c: [T; 3]|
        #[trigger] is_cube_value::<T>(m, src_tf, dst_tf, clip, size, r, g, b, c) && formats(c, row)
}

/// Whether `rows` may be the rows of the cube of edge `size`, in table order.
pub open spec fn is_cube<T: ColorMath>(
    m: T::Matrix,
    src_tf: TransferFn,
    dst_tf: TransferFn,
    clip: ClipMode,
    size: usize,
    rows: Seq<CubeRow>,
) -> bool {
    &&& rows.len() == size * size * size
    &&& forall|i: int|
        0 <= i < rows.len() ==> {
            let p = lattice_point(size as int, i);
            is_cube_row::<T>(
                m,
                src_tf,
                dst_tf,
                clip,
                size,
                p.0 as usize,
                p.1 as usize,
                p.2 as usize,
                #[trigger] rows[i],
            )
        }
}

/// In a cube, the row that stands where a sampler looks for the lattice
/// point `(r, g, b)` is the row of that point.
pub proof fn lemma_cube_row_at<T: ColorMath>(
    m: T::Matrix,
    src_tf: TransferFn,
    dst_tf: TransferFn,
    clip: ClipMode,
    size: usize,
    rows: Seq<CubeRow>,
    r: usize,
    g: usize,
    b: usize,
)
    requires
        is_cube::<T>(m, src_tf, dst_tf, clip, size, rows),
        r < size,
        g < size,
        b < size,
    ensures
        0 <= flat_index(size as int, r as int, g as int, b as int) < rows.len(),
        is_cube_row::<T>(
            m,
            src_tf,
            dst_tf,
            clip,
            size,
            r,
            g,
            b,
            rows[flat_index(size as int, r as int, g as int, b as int)],
        ),
{
    lemma_flat_index_in_table(size as int, r as int, g as int, b as int);
    lemma_lattice_point_of_flat_index(size as int, r as int, g as int, b as int);
    let i = flat_index(size as int, r as int, g as int, b as int);
    assert(lattice_point(size as int, i) == (r as int, g as int, b as int));
    let row = rows[i];
}

/// Computes the row of one lattice point.
fn cube_row<T: ColorMath>(
    m: T::Matrix,
    src_tf: TransferFn,
    dst_tf: TransferFn,
    clip: ClipMode,
    size: usize,
    r: usize,
    g: usize,
    b: usize,
) -> (row: CubeRow)
    ensures
        is_cube_row::<T>(m, src_tf, dst_tf, clip, size, r, g, b, row),
{
    let steps = steps_of(size);
    let x = [T::ratio(r, steps), T::ratio(g, steps), T::ratio(b, steps)];
    let v = [x[0].tf_decode(src_tf), x[1].tf_decode(src_tf), x[2].tf_decode(src_tf)];
    let d = T::transform(m, v);
    let e = [d[0].tf_encode(dst_tf), d[1].tf_encode(dst_tf), d[2].tf_encode(dst_tf)];
    let c = match clip {
        ClipMode::Clip => [e[0].clamp_unit(), e[1].clamp_unit(), e[2].clamp_unit()],
        ClipMode::NoClip => e,
    };
    let row = CubeRow { r: c[0].format(), g: c[1].format(), b: c[2].format() };
    proof {
        assert(normalizes(r, g, b, size, x));
        assert(decodes(x, src_tf, v));
        assert(call_ensures(T::transform, (m, v), d));
        assert(encodes_as(d, dst_tf, e));
        assert(clips(e, clip, c));
        assert(is_cube_value::<T>(m, src_tf, dst_tf, clip, size, r, g, b, c));
        assert(formats(c, row));
    }
    row
}

/// The number of lattice points of a cube of edge `size`, if it can be addressed.
fn cube_points(size: usize) -> (n: Option<usize>)
    ensures
        match n {
            Some(total) => total == size * size * size,
            None => size * size * size > usize::MAX,
        },
{
    match size.checked_mul(size) {
        Some(square) => match square.checked_mul(size) {
            Some(total) => Some(total),
            None => None,
        },
        None => {
            proof {
                assert(size * size * size >= size * size) by (nonlinear_arith)
                    requires
                        size * size > usize::MAX,
                ;
            }
            None
        },
    }
}

/// Whether `text` may be the table that converts from the primaries and
/// transfer function of a source to those of a destination: the matrix is
/// set up, the shaper and the cube are computed, and the text is written.
pub open spec fn is_3d_lut<T: ColorMath>(
    src_prim: Primaries,
    src_tf: TransferFn,
    dst_prim: Primaries,
    dst_tf: TransferFn,
    size: usize,
    shaper_size: usize,
    clip: ClipMode,
    text: Seq<char>,
) -> bool {
    exists|m: T::Matrix, shaper: Seq<CubeRow>, cube: Seq<CubeRow>|
        {
            &&& #[trigger] converts_between::<T>(src_prim, dst_prim, m)
            &&& #[trigger] is_shaper::<T>(src_tf, shaper_size, shaper)
            &&& #[trigger] is_cube::<T>(m, src_tf, dst_tf, clip, size, cube)
            &&& text == lut_3d_text(rows_view(shaper), size as nat, rows_view(cube))
        }
}

/// Writes the 3D table of edge `size` that converts colours with the
/// primaries `src_prim` and the transfer function `src_tf` into colours with
/// `dst_prim` and `dst_tf`, after a shaper of `shaper_size` rows if that is
/// not 0. The cube is computed 1000 lattice points at a time; after every
/// batch `progress` is told how many points are done and how many there
/// are, and when it answers `false` the work stops and no text is handed out.
pub fn make_3d_lut_cube_progress<T, F>(
    src_prim: Primaries,
    src_tf: TransferFn,
    dst_prim: Primaries,
    dst_tf: TransferFn,
    size: usize,
    shaper_size: usize,
    clip: ClipMode,
    progress: F,
) -> (r: Result<String, Error>) where
    T: ColorMath,
    T::Matrix: Send + Sync,
    F: Fn(usize, usize) -> bool,

    requires
        forall|done: usize, total: usize| call_requires(progress, (done, total)),
    ensures
        match r {
            Ok(text) => {
                &&& size * size * size <= usize::MAX
                &&& is_3d_lut::<T>(
                    src_prim,
                    src_tf,
                    dst_prim,
                    dst_tf,
                    size,
                    shaper_size,
                    clip,
                    text@,
                )
                &&& progress_allows(progress, size * size * size, checkpoints(size * size * size))
            },
            Err(Error::InvalidInput(e)) => e == InvalidInput::CubeTooLarge && size * size * size
                > usize::MAX,
            Err(Error::InternalInvariant) => size * size * size <= usize::MAX
                && conversion_fails::<T>(src_prim, dst_prim),
            Err(Error::Cancelled) => size * size * size <= usize::MAX && progress_stops(
                progress,
                size * size * size,
            ),
            Err(Error::LutParse(_)) => false,
        },
{
    if cube_points(size).is_none() {
        return Err(Error::InvalidInput(InvalidInput::CubeTooLarge));
    }
    let m = match rgb_to_rgb_matrix::<T>(src_prim, dst_prim) {
        Ok(m) => m,
        Err(_) => {
            return Err(Error::InternalInvariant);
        },
    };
    let shaper_at = |i: usize| -> (row: CubeRow)
        ensures
            is_shaper_row::<T>(src_tf, shaper_size, i, row),
        { shaper_row::<T>(src_tf, shaper_size, i) };
    let shaper = compute_rows(shaper_size, shaper_at);
    let cube_at = |r: usize, g: usize, b: usize| -> (row: CubeRow)
        ensures
            is_cube_row::<T>(m, src_tf, dst_tf, clip, size, r, g, b, row),
        { cube_row::<T>(m, src_tf, dst_tf, clip, size, r, g, b) };
    let cube = match compute_cube_rows(size, cube_at, progress) {
        Ok(cube) => cube,
        Err(_) => {
            return Err(Error::Cancelled);
        },
    };
    let text = emit_3d_lut(&shaper, size, &cube);
    proof {
        assert(is_shaper::<T>(src_tf, shaper_size, shaper@));
        assert(is_cube::<T>(m, src_tf, dst_tf, clip, size, cube@)) by {
            assert forall|i: int| 0 <= i < cube@.len() implies ({
                let p = lattice_point(size as int, i);
                is_cube_row::<T>(
                    m,
                    src_tf,
                    dst_tf,
                    clip,
                    size,
                    p.0 as usize,
                    p.1 as usize,
                    p.2 as usize,
                    #[trigger] cube@[i],
                )
            }) by {
                let p = lattice_point(size as int, i);
                assert(call_ensures(
                    cube_at,
                    (p.0 as usize, p.1 as usize, p.2 as usize),
                    cube@[i],
                ));
            }
        }
    }
    Ok(text)
}

/// Writes a 3D table as [`make_3d_lut_cube_progress`] does, without asking
/// anyone whether to go on.
pub fn make_3d_lut_cube<T>(
    src_prim: Primaries,
    src_tf: TransferFn,
    dst_prim: Primaries,
    dst_tf: TransferFn,
    size: usize,
    shaper_size: usize,
    clip: ClipMode,
) -> (r: Result<String, Error>) where T: ColorMath, T::Matrix: Send + Sync
    ensures
        match r {
            Ok(text) => {
                &&& size * size * size <= usize::MAX
                &&& is_3d_lut::<T>(
                    src_prim,
                    src_tf,
                    dst_prim,
                    dst_tf,
                    size,
                    shaper_size,
                    clip,
                    text@,
                )
            },
            Err(Error::InvalidInput(e)) => e == InvalidInput::CubeTooLarge && size * size * size
                > usize::MAX,
            Err(Error::InternalInvariant) => size * size * size <= usize::MAX
                && conversion_fails::<T>(src_prim, dst_prim),
            Err(_) => false,
        },
{
    let always = |_done: usize, _total: usize| -> (go: bool)
        ensures
            go,
        { true };
    let r = make_3d_lut_cube_progress::<T, _>(
        src_prim,
        src_tf,
        dst_prim,
        dst_tf,
        size,
        shaper_size,
        clip,
        always,
    );
    proof {
        if r == Err::<String, Error>(Error::Cancelled) {
            let total = size * size * size;
            let k = choose|k: int|
                1 <= k <= checkpoints(total) && #[trigger] progress_says(always, k, total, false)
                    && progress_allows(always, total, k - 1);
            assert(progress_says(always, k, total, false));
        }
    }
    r
}

/// Writes the 1D table of `size` rows that converts from the encoding `src`
/// to the encoding `dst`.
pub fn make_1d_lut<T: Sample>(src: ColorSpace, dst: ColorSpace, size: usize) -> (text: String)
    ensures
        exists|rows: Seq<CubeRow>|
            #[trigger] is_1d_table::<T>(src, dst, size, rows) && text@ == lut_1d_text(
                size as nat,
                rows_view(rows),
            ),
{
    let row_at = |i: usize| -> (row: CubeRow)
        ensures
            is_1d_row::<T>(src, dst, size, i, row),
        { row_1d::<T>(src, dst, size, i) };
    let rows = compute_rows(size, row_at);
    let text = emit_1d_lut(size, &rows);
    proof {
        assert(is_1d_table::<T>(src, dst, size, rows@));
    }
    text
}

} // verus!
