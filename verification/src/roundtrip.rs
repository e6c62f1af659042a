//! What is written can be read back: the text of a generated table declares
//! exactly the sizes and rows it was written from.

use vstd::prelude::*;
use crate::color::{ClipMode, ColorSpace, Primaries, TransferFn};
use crate::convert::converts_between;
use crate::cube::{
    classify, lemma_line_len, parse_cube_text, rows_view, scan_lines, CubeFile, CubeFileView,
    CubeRow, Line, RowView, Scan, Section,
};
use crate::error::LutParseError;
use crate::generate::{
    formats, is_1d_row, is_1d_table, is_1d_value, is_3d_lut, is_cube, is_cube_row, is_cube_value,
    is_grey_row, is_shaper, is_shaper_row, is_shaper_value, lemma_cube_row_at, line, lut_1d_text,
    lut_3d_text, row_content, rows_text, size_content, table_text,
};
use crate::lut::{converts, converts_all, flat_index, lattice_point, reads_as, LutView};
use crate::sample::{ColorMath, Sample};
use crate::number::{
    ascii_lower, decimal_digits, digits_end, is_decimal_number, is_digit, is_exponent,
    is_float_literal, is_sign, lemma_decimal_round_trip, lowered, parse_size,
};
use crate::text::{
    first_non_space, first_space, is_space, lemma_first_non_space, lemma_first_space,
    lemma_last_non_space_end, starts_with, trim, words, words_from,
};

verus! {

/// Whether the three numbers of `row` are floating-point literals.
pub open spec fn is_number_row(row: RowView) -> bool {
    is_float_literal(row.r) && is_float_literal(row.g) && is_float_literal(row.b)
}

/// Whether every row of `rows` holds floating-point literals.
pub open spec fn are_number_rows(rows: Seq<RowView>) -> bool {
    forall|i: int| 0 <= i < rows.len() ==> is_number_row(#[trigger] rows[i])
}

/// A character that a floating-point literal can hold once its letters are small.
spec fn is_literal_char(c: char) -> bool {
    is_digit(c) || is_sign(c) || c == '.' || c == 'e' || c == 'i' || c == 'n' || c == 'f' || c
        == 't' || c == 'y' || c == 'a'
}

proof fn lemma_digits_run(s: Seq<char>, from: int)
    requires
        0 <= from <= s.len(),
    ensures
        from <= digits_end(s, from) <= s.len(),
        forall|j: int| from <= j < digits_end(s, from) ==> is_digit(#[trigger] s[j]),
    decreases s.len() - from,
{
    if from < s.len() && is_digit(s[from]) {
        lemma_digits_run(s, from + 1);
    }
}

/// A floating-point literal is not empty, holds no white space and does not
/// begin like a comment or a directive.
proof fn lemma_float_literal_chars(t: Seq<char>)
    requires
        is_float_literal(t),
    ensures
        t.len() > 0,
        forall|j: int| 0 <= j < t.len() ==> !is_space(#[trigger] t[j]),
        t[0] != '#' && t[0] != 'L' && t[0] != 'T' && t[0] != 'D',
{
    let low = lowered(t);
    let from = if low.len() > 0 && is_sign(low[0]) {
        1int
    } else {
        0int
    };
    let body = low.subrange(from, low.len() as int);
    let w3 = seq!['i', 'n', 'f'];
    let w8 = seq!['i', 'n', 'f', 'i', 'n', 'i', 't', 'y'];
    let n3 = seq!['n', 'a', 'n'];
    assert(low.len() == t.len());
    assert forall|j: int| 0 <= j < low.len() implies is_literal_char(#[trigger] low[j]) by {
        if j < from {
            assert(is_literal_char(low[j]));
        } else if body == w3 {
            assert(body.len() == 3);
            assert(low[j] == body[j - from]);
            assert(w3[0] == 'i' && w3[1] == 'n' && w3[2] == 'f');
            assert(is_literal_char(low[j]));
        } else if body == w8 {
            assert(body.len() == 8);
            assert(low[j] == body[j - from]);
            assert(w8[0] == 'i' && w8[1] == 'n' && w8[2] == 'f' && w8[3] == 'i' && w8[4] == 'n'
                && w8[5] == 'i' && w8[6] == 't' && w8[7] == 'y');
            assert(is_literal_char(low[j]));
        } else if body == n3 {
            assert(body.len() == 3);
            assert(low[j] == body[j - from]);
            assert(n3[0] == 'n' && n3[1] == 'a' && n3[2] == 'n');
            assert(is_literal_char(low[j]));
        } else {
            assert(is_decimal_number(low, from));
            let a = digits_end(low, from);
            lemma_digits_run(low, from);
            let pointed = a < low.len() && low[a] == '.';
            let b = if pointed {
                digits_end(low, a + 1)
            } else {
                a
            };
            if pointed {
                lemma_digits_run(low, a + 1);
            }
            if j < a {
                assert(is_digit(low[j]));
            } else if j < b {
                if j == a {
                    assert(low[j] == '.');
                } else {
                    assert(is_digit(low[j]));
                }
            } else {
                assert(b < low.len());
                assert(is_exponent(low, b));
                let d = if b + 1 < low.len() && is_sign(low[b + 1]) {
                    b + 2
                } else {
                    b + 1
                };
                lemma_digits_run(low, d);
                if j == b {
                    assert(low[j] == 'e');
                } else if j < d {
                    assert(is_sign(low[j]));
                } else {
                    assert(is_digit(low[j]));
                }
            }
            assert(is_literal_char(low[j]));
        }
    }
    assert(t.len() > 0) by {
        if body == w3 {
            assert(body.len() == 3);
        } else if body == w8 {
            assert(body.len() == 8);
        } else if body == n3 {
            assert(body.len() == 3);
        } else {
            lemma_digits_run(low, from);
            let a = digits_end(low, from);
            if a < low.len() && low[a] == '.' {
                lemma_digits_run(low, a + 1);
            }
        }
    }
    assert forall|j: int| 0 <= j < t.len() implies !is_space(#[trigger] t[j]) by {
        assert(is_literal_char(low[j]));
        assert(low[j] == ascii_lower(t[j]));
    }
    assert(is_literal_char(low[0]));
    assert(low[0] == ascii_lower(t[0]));
    assert(low[0] != 'e' && low[0] != 'f' && low[0] != 't' && low[0] != 'y' && low[0] != 'a') by {
        if from == 1 {
        } else if body == w3 {
            assert(low[0] == body[0]);
            assert(w3[0] == 'i');
        } else if body == w8 {
            assert(low[0] == body[0]);
            assert(w8[0] == 'i');
        } else if body == n3 {
            assert(low[0] == body[0]);
            assert(n3[0] == 'n');
        } else {
            lemma_digits_run(low, 0);
            let a = digits_end(low, 0);
            if a == 0 {
                assert(low[0] == '.');
            } else {
                assert(is_digit(low[0]));
            }
        }
    }
}

/// Text that neither begins nor ends with white space is its own trimmed form.
proof fn lemma_trim_tight(s: Seq<char>)
    requires
        s.len() > 0,
        !is_space(s[0]),
        !is_space(s.last()),
    ensures
        trim(s) == s,
{
    lemma_first_non_space(s, 0, 0);
    lemma_last_non_space_end(s, 0, s.len() as int, s.len() as int);
    assert(s.subrange(0, s.len() as int) =~= s);
}

/// Text cannot begin with a word whose first character differs from its own.
proof fn lemma_not_prefix(s: Seq<char>, prefix: Seq<char>)
    requires
        s.len() > 0,
        prefix.len() > 0,
        s[0] != prefix[0],
    ensures
        !starts_with(s, prefix),
{
    if starts_with(s, prefix) {
        assert(s.subrange(0, prefix.len() as int)[0] == prefix[0]);
    }
}

/// The words of a row's line are its three numbers.
proof fn lemma_words_of_row(row: RowView)
    requires
        is_number_row(row),
    ensures
        words(row_content(row)) == seq![row.r, row.g, row.b],
        trim(row_content(row)) == row_content(row),
        row_content(row).len() > 0,
        row_content(row)[0] == row.r[0],
        forall|j: int| 0 <= j < row_content(row).len() ==> #[trigger] row_content(row)[j] != '\n',
{
    lemma_float_literal_chars(row.r);
    lemma_float_literal_chars(row.g);
    lemma_float_literal_chars(row.b);
    let c = row_content(row);
    let p1 = row.r.len() as int;
    let p2 = p1 + 1 + row.g.len();
    let end = p2 + 1 + row.b.len();
    assert(c.len() == end);
    assert forall|j: int| 0 <= j < p1 implies #[trigger] c[j] == row.r[j] by {}
    assert(c[p1] == ' ');
    assert forall|j: int| p1 + 1 <= j < p2 implies #[trigger] c[j] == row.g[j - p1 - 1] by {}
    assert(c[p2] == ' ');
    assert forall|j: int| p2 + 1 <= j < end implies #[trigger] c[j] == row.b[j - p2 - 1] by {}
    assert(is_space(' '));
    assert(!is_space(c[0]));
    assert(c.last() == row.b.last());
    lemma_trim_tight(c);
    assert forall|j: int| 0 <= j < c.len() implies #[trigger] c[j] != '\n' by {
        assert(is_space('\n'));
        if j < p1 {
            assert(!is_space(row.r[j]));
        } else if j == p1 {
        } else if j < p2 {
            assert(!is_space(row.g[j - p1 - 1]));
        } else if j == p2 {
        } else {
            assert(!is_space(row.b[j - p2 - 1]));
        }
    }
    // first word
    lemma_first_non_space(c, 0, 0);
    assert forall|j: int| 0 <= j < p1 implies !is_space(#[trigger] c[j]) by {
        assert(!is_space(row.r[j]));
    }
    lemma_first_space(c, 0, p1);
    assert(c.subrange(0, p1) =~= row.r);
    // second word
    assert(!is_space(c[p1 + 1])) by {
        assert(c[p1 + 1] == row.g[0]);
    }
    lemma_first_non_space(c, p1, p1 + 1);
    assert forall|j: int| p1 + 1 <= j < p2 implies !is_space(#[trigger] c[j]) by {
        assert(!is_space(row.g[j - p1 - 1]));
    }
    lemma_first_space(c, p1 + 1, p2);
    assert(c.subrange(p1 + 1, p2) =~= row.g);
    // third word
    assert(!is_space(c[p2 + 1])) by {
        assert(c[p2 + 1] == row.b[0]);
    }
    lemma_first_non_space(c, p2, p2 + 1);
    assert forall|j: int| p2 + 1 <= j < end implies !is_space(#[trigger] c[j]) by {
        assert(!is_space(row.b[j - p2 - 1]));
    }
    lemma_first_space(c, p2 + 1, end);
    assert(c.subrange(p2 + 1, end) =~= row.b);
    // the end
    assert(first_non_space(c, end) == end);
    assert(first_space(c, end) == end);
    assert(words_from(c, end) =~= Seq::<Seq<char>>::empty());
    assert(words_from(c, p2) =~= seq![row.b] + words_from(c, end));
    assert(words_from(c, p1) =~= seq![row.g] + words_from(c, p2));
    assert(words_from(c, 0) =~= seq![row.r] + words_from(c, p1));
    assert(words(c) =~= seq![row.r, row.g, row.b]);
}

/// The line of a row of numbers is read as that row.
proof fn lemma_classify_row(row: RowView)
    requires
        is_number_row(row),
    ensures
        classify(row_content(row)) == Line::Row(row),
{
    reveal_strlit("LUT_1D_SIZE");
    reveal_strlit("LUT_3D_SIZE");
    reveal_strlit("TITLE");
    reveal_strlit("DOMAIN_1D");
    reveal_strlit("DOMAIN_2D");
    reveal_strlit("DOMAIN_MIN");
    reveal_strlit("DOMAIN_MAX");
    lemma_float_literal_chars(row.r);
    lemma_words_of_row(row);
    let l = row_content(row);
    lemma_not_prefix(l, "LUT_1D_SIZE"@);
    lemma_not_prefix(l, "LUT_3D_SIZE"@);
    lemma_not_prefix(l, "TITLE"@);
    lemma_not_prefix(l, "DOMAIN_1D"@);
    lemma_not_prefix(l, "DOMAIN_2D"@);
    lemma_not_prefix(l, "DOMAIN_MIN"@);
    lemma_not_prefix(l, "DOMAIN_MAX"@);
    let w = words(l);
    assert(w.len() == 3);
    assert(w[0] == row.r && w[1] == row.g && w[2] == row.b);
}

/// The lines that a writer puts before the rows say nothing.
proof fn lemma_classify_fixed_lines()
    ensures
        classify("TITLE \"exrtool 3D LUT\""@) == Line::Skip,
        classify("TITLE \"exrtool 1D LUT\""@) == Line::Skip,
        classify("DOMAIN_MIN 0.0 0.0 0.0"@) == Line::Skip,
        classify("DOMAIN_MAX 1.0 1.0 1.0"@) == Line::Skip,
        forall|j: int|
            0 <= j < "TITLE \"exrtool 3D LUT\""@.len() ==> #[trigger] "TITLE \"exrtool 3D LUT\""@[j]
                != '\n',
        forall|j: int|
            0 <= j < "TITLE \"exrtool 1D LUT\""@.len() ==> #[trigger] "TITLE \"exrtool 1D LUT\""@[j]
                != '\n',
        forall|j: int|
            0 <= j < "DOMAIN_MIN 0.0 0.0 0.0"@.len() ==> #[trigger] "DOMAIN_MIN 0.0 0.0 0.0"@[j]
                != '\n',
        forall|j: int|
            0 <= j < "DOMAIN_MAX 1.0 1.0 1.0"@.len() ==> #[trigger] "DOMAIN_MAX 1.0 1.0 1.0"@[j]
                != '\n',
{
    reveal_strlit("LUT_1D_SIZE");
    reveal_strlit("LUT_3D_SIZE");
    reveal_strlit("TITLE");
    reveal_strlit("DOMAIN_1D");
    reveal_strlit("DOMAIN_2D");
    reveal_strlit("DOMAIN_MIN");
    reveal_strlit("DOMAIN_MAX");
    reveal_strlit("TITLE \"exrtool 3D LUT\"");
    reveal_strlit("TITLE \"exrtool 1D LUT\"");
    reveal_strlit("DOMAIN_MIN 0.0 0.0 0.0");
    reveal_strlit("DOMAIN_MAX 1.0 1.0 1.0");
    let t3 = "TITLE \"exrtool 3D LUT\""@;
    let t1 = "TITLE \"exrtool 1D LUT\""@;
    let dmin = "DOMAIN_MIN 0.0 0.0 0.0"@;
    let dmax = "DOMAIN_MAX 1.0 1.0 1.0"@;
    lemma_trim_tight(t3);
    lemma_trim_tight(t1);
    lemma_trim_tight(dmin);
    lemma_trim_tight(dmax);
    lemma_not_prefix(t3, "LUT_1D_SIZE"@);
    lemma_not_prefix(t3, "LUT_3D_SIZE"@);
    lemma_not_prefix(t1, "LUT_1D_SIZE"@);
    lemma_not_prefix(t1, "LUT_3D_SIZE"@);
    lemma_not_prefix(dmin, "LUT_1D_SIZE"@);
    lemma_not_prefix(dmin, "LUT_3D_SIZE"@);
    lemma_not_prefix(dmax, "LUT_1D_SIZE"@);
    lemma_not_prefix(dmax, "LUT_3D_SIZE"@);
    assert(t3.subrange(0, 5) =~= "TITLE"@);
    assert(t1.subrange(0, 5) =~= "TITLE"@);
    assert(dmin.subrange(0, 10) =~= "DOMAIN_MIN"@);
    assert(dmax.subrange(0, 10) =~= "DOMAIN_MAX"@);
}

/// The line that declares a table is read as the size it was written with.
proof fn lemma_classify_size(size: nat)
    requires
        size <= usize::MAX,
    ensures
        classify(size_content("LUT_1D_SIZE"@, size)) == Line::ShaperSize(size as usize),
        classify(size_content("LUT_3D_SIZE"@, size)) == Line::CubeSize(size as usize),
        forall|j: int|
            0 <= j < size_content("LUT_1D_SIZE"@, size).len() ==> #[trigger] size_content(
                "LUT_1D_SIZE"@,
                size,
            )[j] != '\n',
        forall|j: int|
            0 <= j < size_content("LUT_3D_SIZE"@, size).len() ==> #[trigger] size_content(
                "LUT_3D_SIZE"@,
                size,
            )[j] != '\n',
{
    reveal_strlit("LUT_1D_SIZE");
    reveal_strlit("LUT_3D_SIZE");
    lemma_size_line("LUT_1D_SIZE"@, size);
    lemma_size_line("LUT_3D_SIZE"@, size);
    let c3 = size_content("LUT_3D_SIZE"@, size);
    if starts_with(c3, "LUT_1D_SIZE"@) {
        assert(c3.subrange(0, 11)[4] == "LUT_1D_SIZE"@[4]);
        assert(c3[4] == "LUT_3D_SIZE"@[4]);
    }
}

/// What follows the directive on the line that declares a table is the size.
proof fn lemma_size_line(keyword: Seq<char>, size: nat)
    requires
        size <= usize::MAX,
        keyword.len() > 0,
        forall|j: int| 0 <= j < keyword.len() ==> !is_space(#[trigger] keyword[j]),
        keyword[0] != '#',
    ensures
        ({
            let c = size_content(keyword, size);
            &&& trim(c) == c
            &&& c.len() > keyword.len()
            &&& c[0] != '#'
            &&& starts_with(c, keyword)
            &&& parse_size(trim(c.subrange(keyword.len() as int, c.len() as int))) == Some(
                size as usize,
            )
            &&& forall|j: int| 0 <= j < c.len() ==> #[trigger] c[j] != '\n'
        }),
{
    let c = size_content(keyword, size);
    let digits = decimal_digits(size);
    lemma_decimal_round_trip(size);
    let k = keyword.len() as int;
    assert(c.len() == k + 1 + digits.len());
    assert(c[0] == keyword[0]);
    assert(c.last() == digits.last());
    assert(is_digit(digits.last()));
    assert(is_space(' ') && is_space('\n'));
    lemma_trim_tight(c);
    assert(c.subrange(0, k) =~= keyword);
    let rest = c.subrange(k, c.len() as int);
    assert(rest =~= seq![' '] + digits);
    assert(is_digit(digits[0]));
    assert(rest[1] == digits[0]);
    lemma_first_non_space(rest, 0, 1);
    assert(rest.last() == digits.last());
    lemma_last_non_space_end(rest, 1, rest.len() as int, rest.len() as int);
    assert(rest.subrange(1, rest.len() as int) =~= digits);
    assert(trim(rest) == digits);
    assert(digits[0] != '+');
    assert forall|j: int| 0 <= j < c.len() implies #[trigger] c[j] != '\n' by {
        if j < k {
            assert(c[j] == keyword[j]);
        } else if j == k {
        } else {
            assert(c[j] == digits[j - k - 1]);
            assert(is_digit(digits[j - k - 1]));
        }
    }
}

/// Reading a text that begins with a whole line is reading the rest of the
/// text after that line has been taken in.
proof fn lemma_scan_first_line(content: Seq<char>, rest: Seq<char>, st: Scan)
    requires
        forall|j: int| 0 <= j < content.len() ==> #[trigger] content[j] != '\n',
    ensures
        scan_lines(line(content) + rest, Some(st)) == scan_lines(rest, st.step(content)),
{
    let s = line(content) + rest;
    let k = content.len() as int;
    assert(s[k] == '\n');
    assert forall|j: int| 0 <= j < k implies #[trigger] s[j] != '\n' by {
        assert(s[j] == content[j]);
    }
    lemma_line_len(s, k);
    assert(s.take(k) =~= content);
    assert(s.skip(k + 1) =~= rest);
    if rest.len() == 0 {
        assert(scan_lines(rest, st.step(content)) == st.step(content));
    }
}

/// The state after rows were added to the table that rows go to.
pub open spec fn with_rows(st: Scan, rows: Seq<RowView>) -> Scan {
    match st.section {
        Section::Unset => st,
        Section::Shaper => Scan { shaper_rows: st.shaper_rows + rows, ..st },
        Section::Cube => Scan { cube_rows: st.cube_rows + rows, ..st },
    }
}

/// Reading the lines of rows of numbers adds those rows.
proof fn lemma_scan_rows(rows: Seq<RowView>, rest: Seq<char>, st: Scan)
    requires
        are_number_rows(rows),
    ensures
        scan_lines(rows_text(rows) + rest, Some(st)) == scan_lines(rest, Some(with_rows(st, rows))),
    decreases rows.len(),
{
    if rows.len() == 0 {
        assert(rows_text(rows) + rest =~= rest);
        assert(with_rows(st, rows).shaper_rows =~= st.shaper_rows);
        assert(with_rows(st, rows).cube_rows =~= st.cube_rows);
        assert(with_rows(st, rows) == st);
    } else {
        let row = rows[0];
        let tail = rows.drop_first();
        let c = row_content(row);
        assert(is_number_row(row));
        lemma_words_of_row(row);
        lemma_classify_row(row);
        assert(rows_text(rows) + rest =~= line(c) + (rows_text(tail) + rest));
        lemma_scan_first_line(c, rows_text(tail) + rest, st);
        let next = st.step(c).unwrap();
        assert(next == with_rows(st, seq![row])) by {
            assert(st.shaper_rows.push(row) =~= st.shaper_rows + seq![row]);
            assert(st.cube_rows.push(row) =~= st.cube_rows + seq![row]);
        }
        assert forall|i: int| 0 <= i < tail.len() implies is_number_row(#[trigger] tail[i]) by {
            assert(tail[i] == rows[i + 1]);
        }
        lemma_scan_rows(tail, rest, next);
        assert(with_rows(next, tail) == with_rows(st, rows)) by {
            assert(rows =~= seq![row] + tail);
            assert((st.shaper_rows + seq![row]) + tail =~= st.shaper_rows + rows);
            assert((st.cube_rows + seq![row]) + tail =~= st.cube_rows + rows);
        }
    }
}

/// Reading a written cube declares the cube and adds its rows.
proof fn lemma_scan_cube_table(size: nat, rows: Seq<RowView>, rest: Seq<char>, st: Scan)
    requires
        size <= usize::MAX,
        are_number_rows(rows),
    ensures
        scan_lines(table_text("LUT_3D_SIZE"@, size, rows) + rest, Some(st)) == scan_lines(
            rest,
            Some(
                Scan {
                    section: Section::Cube,
                    cube_declared: true,
                    cube_size: size,
                    cube_rows: st.cube_rows + rows,
                    ..st
                },
            ),
        ),
{
    lemma_classify_size(size);
    lemma_classify_fixed_lines();
    let head = size_content("LUT_3D_SIZE"@, size);
    let dmin = "DOMAIN_MIN 0.0 0.0 0.0"@;
    let dmax = "DOMAIN_MAX 1.0 1.0 1.0"@;
    let r3 = rows_text(rows) + rest;
    let r2 = line(dmax) + r3;
    let r1 = line(dmin) + r2;
    assert(table_text("LUT_3D_SIZE"@, size, rows) + rest =~= line(head) + r1);
    lemma_scan_first_line(head, r1, st);
    let s1 = Scan { section: Section::Cube, cube_declared: true, cube_size: size, ..st };
    assert(st.step(head) == Some(s1));
    lemma_scan_first_line(dmin, r2, s1);
    lemma_scan_first_line(dmax, r3, s1);
    lemma_scan_rows(rows, rest, s1);
}

/// Reading a written shaper declares the shaper and adds its rows.
proof fn lemma_scan_shaper_table(size: nat, rows: Seq<RowView>, rest: Seq<char>, st: Scan)
    requires
        size <= usize::MAX,
        are_number_rows(rows),
    ensures
        scan_lines(table_text("LUT_1D_SIZE"@, size, rows) + rest, Some(st)) == scan_lines(
            rest,
            Some(
                Scan {
                    section: Section::Shaper,
                    shaper_declared: true,
                    shaper_size: size,
                    shaper_rows: st.shaper_rows + rows,
                    ..st
                },
            ),
        ),
{
    lemma_classify_size(size);
    lemma_classify_fixed_lines();
    let head = size_content("LUT_1D_SIZE"@, size);
    let dmin = "DOMAIN_MIN 0.0 0.0 0.0"@;
    let dmax = "DOMAIN_MAX 1.0 1.0 1.0"@;
    let r3 = rows_text(rows) + rest;
    let r2 = line(dmax) + r3;
    let r1 = line(dmin) + r2;
    assert(table_text("LUT_1D_SIZE"@, size, rows) + rest =~= line(head) + r1);
    lemma_scan_first_line(head, r1, st);
    let s1 = Scan { section: Section::Shaper, shaper_declared: true, shaper_size: size, ..st };
    assert(st.step(head) == Some(s1));
    lemma_scan_first_line(dmin, r2, s1);
    lemma_scan_first_line(dmax, r3, s1);
    lemma_scan_rows(rows, rest, s1);
}

/// The text of a 3D table that is not empty, read back, declares the shaper
/// and the cube that it was written from: the same sizes and, number for
/// number, the same rows.
pub proof fn lemma_read_written_3d(shaper: Seq<RowView>, size: nat, cube: Seq<RowView>)
    requires
        are_number_rows(shaper),
        are_number_rows(cube),
        shaper.len() <= usize::MAX,
        size <= usize::MAX,
        size > 0 || shaper.len() > 0,
        cube.len() == size * size * size,
    ensures
        parse_cube_text(lut_3d_text(shaper, size, cube)) == Ok::<CubeFileView, LutParseError>(
            CubeFileView {
                shaper_size: shaper.len(),
                shaper_rows: shaper,
                cube_size: size,
                cube_rows: cube,
            },
        ),
{
    lemma_classify_fixed_lines();
    let title = "TITLE \"exrtool 3D LUT\""@;
    let st = Scan::start();
    let none = Seq::<char>::empty();
    let cube_part = table_text("LUT_3D_SIZE"@, size, cube);
    let shaper_part = if shaper.len() > 0 {
        table_text("LUT_1D_SIZE"@, shaper.len(), shaper)
    } else {
        none
    };
    let text = lut_3d_text(shaper, size, cube);
    assert(text =~= line(title) + (shaper_part + (cube_part + none)));
    lemma_scan_first_line(title, shaper_part + (cube_part + none), st);
    assert(st.step(title) == Some(st));
    if shaper.len() > 0 {
        lemma_scan_shaper_table(shaper.len(), shaper, cube_part + none, st);
        let s1 = Scan {
            section: Section::Shaper,
            shaper_declared: true,
            shaper_size: shaper.len(),
            shaper_rows: st.shaper_rows + shaper,
            ..st
        };
        lemma_scan_cube_table(size, cube, none, s1);
        assert(st.shaper_rows + shaper =~= shaper);
        assert(s1.cube_rows + cube =~= cube);
    } else {
        assert(shaper_part + (cube_part + none) =~= cube_part + none);
        lemma_scan_cube_table(size, cube, none, st);
        assert(st.cube_rows + cube =~= cube);
        assert(shaper =~= Seq::<RowView>::empty());
    }
}

/// The text of a 1D table that is not empty, read back, declares the table
/// that it was written from: the same size and, number for number, the same
/// rows.
pub proof fn lemma_read_written_1d(size: nat, rows: Seq<RowView>)
    requires
        are_number_rows(rows),
        0 < size <= usize::MAX,
        rows.len() == size,
    ensures
        parse_cube_text(lut_1d_text(size, rows)) == Ok::<CubeFileView, LutParseError>(
            CubeFileView {
                shaper_size: size,
                shaper_rows: rows,
                cube_size: 0,
                cube_rows: Seq::empty(),
            },
        ),
{
    lemma_classify_fixed_lines();
    let title = "TITLE \"exrtool 1D LUT\""@;
    let st = Scan::start();
    let none = Seq::<char>::empty();
    let part = table_text("LUT_1D_SIZE"@, size, rows);
    assert(lut_1d_text(size, rows) =~= line(title) + (part + none));
    lemma_scan_first_line(title, part + none, st);
    assert(st.step(title) == Some(st));
    lemma_scan_shaper_table(size, rows, none, st);
    assert(st.shaper_rows + rows =~= rows);
}

/// Whether the sample type writes every number as a floating-point literal.
pub open spec fn writes_literals<T: Sample>() -> bool {
    forall|v: T, token: String|
        #[trigger] call_ensures(T::format, (v,), token) ==> is_float_literal(token@)
}

/// The rows of a shaper are rows of numbers where every number is written as
/// a literal.
proof fn lemma_shaper_rows_are_numbers<T: Sample>(src_tf: TransferFn, size: usize, rows: Seq<CubeRow>)
    requires
        writes_literals::<T>(),
        is_shaper::<T>(src_tf, size, rows),
    ensures
        are_number_rows(rows_view(rows)),
{
    assert forall|i: int| 0 <= i < rows_view(rows).len() implies is_number_row(
        #[trigger] rows_view(rows)[i],
    ) by {
        assert(is_shaper_row::<T>(src_tf, size, i as usize, rows[i]));
        let y = choose|y: T|
            #[trigger] is_shaper_value(src_tf, size, i as usize, y) && is_grey_row(y, rows[i]);
    }
}

/// The rows of a cube are rows of numbers where every number is written as a
/// literal.
proof fn lemma_cube_rows_are_numbers<T: ColorMath>(
    m: T::Matrix,
    src_tf: TransferFn,
    dst_tf: TransferFn,
    clip: ClipMode,
    size: usize,
    rows: Seq<CubeRow>,
)
    requires
        writes_literals::<T>(),
        is_cube::<T>(m, src_tf, dst_tf, clip, size, rows),
    ensures
        are_number_rows(rows_view(rows)),
{
    assert forall|i: int| 0 <= i < rows_view(rows).len() implies is_number_row(
        #[trigger] rows_view(rows)[i],
    ) by {
        let p = lattice_point(size as int, i);
        assert(is_cube_row::<T>(
            m,
            src_tf,
            dst_tf,
            clip,
            size,
            p.0 as usize,
            p.1 as usize,
            p.2 as usize,
            rows[i],
        ));
        let c = choose|c: [T; 3]|
            #[trigger] is_cube_value::<T>(
                m,
                src_tf,
                dst_tf,
                clip,
                size,
                p.0 as usize,
                p.1 as usize,
                p.2 as usize,
                c,
            ) && formats(c, rows[i]);
    }
}

/// A generated 3D table reads back as it was generated: where the sample
/// type writes every number as a floating-point literal, the text declares a
/// shaper and a cube of the sizes that were asked for, and their rows are,
/// number for number, rows that were computed for them.
pub proof fn lemma_read_generated_3d<T: ColorMath>(
    src_prim: Primaries,
    src_tf: TransferFn,
    dst_prim: Primaries,
    dst_tf: TransferFn,
    size: usize,
    shaper_size: usize,
    clip: ClipMode,
    text: Seq<char>,
)
    requires
        writes_literals::<T>(),
        size * size * size <= usize::MAX,
        size > 0 || shaper_size > 0,
        is_3d_lut::<T>(src_prim, src_tf, dst_prim, dst_tf, size, shaper_size, clip, text),
    ensures
        exists|m: T::Matrix, shaper: Seq<CubeRow>, cube: Seq<CubeRow>|
            {
                &&& #[trigger] converts_between::<T>(src_prim, dst_prim, m)
                &&& #[trigger] is_shaper::<T>(src_tf, shaper_size, shaper)
                &&& #[trigger] is_cube::<T>(m, src_tf, dst_tf, clip, size, cube)
                &&& parse_cube_text(text) == Ok::<CubeFileView, LutParseError>(
                    CubeFileView {
                        shaper_size: shaper_size as nat,
                        shaper_rows: rows_view(shaper),
                        cube_size: size as nat,
                        cube_rows: rows_view(cube),
                    },
                )
            },
{
    let (m, shaper, cube) = choose|m: T::Matrix, shaper: Seq<CubeRow>, cube: Seq<CubeRow>|
        {
            &&& #[trigger] converts_between::<T>(src_prim, dst_prim, m)
            &&& #[trigger] is_shaper::<T>(src_tf, shaper_size, shaper)
            &&& #[trigger] is_cube::<T>(m, src_tf, dst_tf, clip, size, cube)
            &&& text == lut_3d_text(rows_view(shaper), size as nat, rows_view(cube))
        };
    lemma_shaper_rows_are_numbers::<T>(src_tf, shaper_size, shaper);
    lemma_cube_rows_are_numbers::<T>(m, src_tf, dst_tf, clip, size, cube);
    lemma_read_written_3d(rows_view(shaper), size as nat, rows_view(cube));
}

/// A generated 1D table reads back as it was generated.
pub proof fn lemma_read_generated_1d<T: Sample>(
    src: ColorSpace,
    dst: ColorSpace,
    size: usize,
    rows: Seq<CubeRow>,
)
    requires
        writes_literals::<T>(),
        size > 0,
        is_1d_table::<T>(src, dst, size, rows),
    ensures
        parse_cube_text(lut_1d_text(size as nat, rows_view(rows))) == Ok::<
            CubeFileView,
            LutParseError,
        >(
            CubeFileView {
                shaper_size: size as nat,
                shaper_rows: rows_view(rows),
                cube_size: 0,
                cube_rows: Seq::empty(),
            },
        ),
{
    assert forall|i: int| 0 <= i < rows_view(rows).len() implies is_number_row(
        #[trigger] rows_view(rows)[i],
    ) by {
        assert(is_1d_row::<T>(src, dst, size, i as usize, rows[i]));
        let c = choose|c: T|
            #[trigger] is_1d_value(src, dst, size, i as usize, c) && is_grey_row(c, rows[i]);
    }
    lemma_read_written_1d(size as nat, rows_view(rows));
}

/// Whether the sample type reads every number that it wrote as the number
/// that was written.
pub open spec fn reads_what_it_writes<T: Sample>() -> bool {
    forall|v: T, written: String, read: String, back: Option<T>|
        #![trigger call_ensures(T::format, (v,), written), call_ensures(T::parse, (&read,), back)]
        call_ensures(T::format, (v,), written) && read@ == written@ && call_ensures(
            T::parse,
            (&read,),
            back,
        ) ==> back == Some(v)
}

/// A colour that was written as a row and read again is the same colour.
proof fn lemma_row_reads_back<T: Sample>(c: [T; 3], written: CubeRow, read: CubeRow, entry: [T; 3])
    requires
        reads_what_it_writes::<T>(),
        formats(c, written),
        read@ == written@,
        converts(read, entry),
    ensures
        entry == c,
{
    assert(call_ensures(T::format, (c[0],), written.r) && read.r@ == written.r@ && call_ensures(
        T::parse,
        (&read.r,),
        Some(entry[0]),
    ));
    assert(call_ensures(T::format, (c[1],), written.g) && read.g@ == written.g@ && call_ensures(
        T::parse,
        (&read.g,),
        Some(entry[1]),
    ));
    assert(call_ensures(T::format, (c[2],), written.b) && read.b@ == written.b@ && call_ensures(
        T::parse,
        (&read.b,),
        Some(entry[2]),
    ));
    assert(entry@ =~= c@);
    assert(entry =~= c);
}

/// A value that was written three times as a row and read again is that
/// value in every channel.
proof fn lemma_grey_row_reads_back<T: Sample>(
    y: T,
    written: CubeRow,
    read: CubeRow,
    entry: [T; 3],
)
    requires
        reads_what_it_writes::<T>(),
        is_grey_row(y, written),
        read@ == written@,
        converts(read, entry),
    ensures
        entry[0] == y && entry[1] == y && entry[2] == y,
{
    let w = written.r;
    assert(call_ensures(T::format, (y,), w) && read.r@ == w@ && call_ensures(
        T::parse,
        (&read.r,),
        Some(entry[0]),
    ));
    assert(call_ensures(T::format, (y,), w) && read.g@ == w@ && call_ensures(
        T::parse,
        (&read.g,),
        Some(entry[1]),
    ));
    assert(call_ensures(T::format, (y,), w) && read.b@ == w@ && call_ensures(
        T::parse,
        (&read.b,),
        Some(entry[2]),
    ));
}

/// Whether the table `lut` holds the values of a generated 3D table: every
/// row of its shaper holds the value of that row in each channel, and every
/// lattice point of its cube holds the colour of that point.
pub open spec fn holds_generated<T: ColorMath>(
    m: T::Matrix,
    src_tf: TransferFn,
    dst_tf: TransferFn,
    clip: ClipMode,
    size: usize,
    shaper_size: usize,
    lut: LutView<T>,
) -> bool {
    &&& lut.shaper.len() == shaper_size
    &&& lut.cube_size == size
    &&& forall|i: int, c: int|
        0 <= i < shaper_size && 0 <= c < 3 ==> is_shaper_value(
            src_tf,
            shaper_size,
            i as usize,
            #[trigger] lut.shaper[i][c],
        )
    &&& forall|r: int, g: int, b: int|
        0 <= r < size && 0 <= g < size && 0 <= b < size ==> is_cube_value::<T>(
            m,
            src_tf,
            dst_tf,
            clip,
            size,
            r as usize,
            g as usize,
            b as usize,
            #[trigger] lut.at(r, g, b),
        )
}

/// A generated table that is read again holds what was generated: where the
/// sample type writes every number as a floating-point literal and reads it
/// as the number that was written, the table read from the text of a
/// generated 3D table holds, entry for entry, the values that were computed.
pub proof fn lemma_generated_table_reads_back<T: ColorMath>(
    src_prim: Primaries,
    src_tf: TransferFn,
    dst_prim: Primaries,
    dst_tf: TransferFn,
    size: usize,
    shaper_size: usize,
    clip: ClipMode,
    text: Seq<char>,
    file: CubeFile,
    lut: LutView<T>,
)
    requires
        writes_literals::<T>(),
        reads_what_it_writes::<T>(),
        size * size * size <= usize::MAX,
        size > 0 || shaper_size > 0,
        is_3d_lut::<T>(src_prim, src_tf, dst_prim, dst_tf, size, shaper_size, clip, text),
        parse_cube_text(text) == Ok::<CubeFileView, LutParseError>(file@),
        reads_as(file, lut),
    ensures
        exists|m: T::Matrix|
            #[trigger] converts_between::<T>(src_prim, dst_prim, m) && holds_generated::<T>(
                m,
                src_tf,
                dst_tf,
                clip,
                size,
                shaper_size,
                lut,
            ),
{
    lemma_read_generated_3d::<T>(src_prim, src_tf, dst_prim, dst_tf, size, shaper_size, clip, text);
    let (m, shaper, cube) = choose|m: T::Matrix, shaper: Seq<CubeRow>, cube: Seq<CubeRow>|
        {
            &&& #[trigger] converts_between::<T>(src_prim, dst_prim, m)
            &&& #[trigger] is_shaper::<T>(src_tf, shaper_size, shaper)
            &&& #[trigger] is_cube::<T>(m, src_tf, dst_tf, clip, size, cube)
            &&& parse_cube_text(text) == Ok::<CubeFileView, LutParseError>(
                CubeFileView {
                    shaper_size: shaper_size as nat,
                    shaper_rows: rows_view(shaper),
                    cube_size: size as nat,
                    cube_rows: rows_view(cube),
                },
            )
        };
    assert(rows_view(file.shaper_rows@) == rows_view(shaper));
    assert(rows_view(file.cube_rows@) == rows_view(cube));
    assert(rows_view(file.shaper_rows@).len() == file.shaper_rows@.len());
    assert(rows_view(shaper).len() == shaper.len());
    assert(rows_view(file.cube_rows@).len() == file.cube_rows@.len());
    assert(rows_view(cube).len() == cube.len());
    assert forall|i: int, c: int| 0 <= i < shaper_size && 0 <= c < 3 implies is_shaper_value(
        src_tf,
        shaper_size,
        i as usize,
        #[trigger] lut.shaper[i][c],
    ) by {
        assert(is_shaper_row::<T>(src_tf, shaper_size, i as usize, shaper[i]));
        let y = choose|y: T|
            #[trigger] is_shaper_value(src_tf, shaper_size, i as usize, y) && is_grey_row(
                y,
                shaper[i],
            );
        assert(rows_view(file.shaper_rows@)[i] == file.shaper_rows@[i]@);
        assert(rows_view(shaper)[i] == shaper[i]@);
        assert(converts(file.shaper_rows@[i], lut.shaper[i]));
        lemma_grey_row_reads_back(y, shaper[i], file.shaper_rows@[i], lut.shaper[i]);
    }
    assert forall|r: int, g: int, b: int|
        0 <= r < size && 0 <= g < size && 0 <= b < size implies is_cube_value::<T>(
        m,
        src_tf,
        dst_tf,
        clip,
        size,
        r as usize,
        g as usize,
        b as usize,
        #[trigger] lut.at(r, g, b),
    ) by {
        let i = flat_index(size as int, r, g, b);
        lemma_cube_row_at::<T>(
            m,
            src_tf,
            dst_tf,
            clip,
            size,
            cube,
            r as usize,
            g as usize,
            b as usize,
        );
        let c = choose|c: [T; 3]|
            #[trigger] is_cube_value::<T>(
                m,
                src_tf,
                dst_tf,
                clip,
                size,
                r as usize,
                g as usize,
                b as usize,
                c,
            ) && formats(c, cube[i]);
        assert(rows_view(file.cube_rows@)[i] == file.cube_rows@[i]@);
        assert(rows_view(cube)[i] == cube[i]@);
        assert(converts(file.cube_rows@[i], lut.cube[i]));
        lemma_row_reads_back(c, cube[i], file.cube_rows@[i], lut.cube[i]);
    }
}

} // verus!
