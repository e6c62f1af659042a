//! The `.cube` text format: reading it into rows of number tokens.

use vstd::prelude::*;
use crate::error::LutParseError;
use crate::lut::is_cube_of;
use crate::number::{is_float_literal, is_number_token, parse_size, read_size};
use crate::text::{
    chars_of, copy_range, has_prefix, split_words, starts_with, string_of, trim, trimmed, words,
};

verus! {

/// One table row as text: the three numbers as they are written.
pub struct RowView {
    pub r: Seq<char>,
    pub g: Seq<char>,
    pub b: Seq<char>,
}

/// One table row as text: the three numbers as they are written.
#[derive(Debug, Clone, PartialEq, Eq)]
pub struct CubeRow {
    pub r: String,
    pub g: String,
    pub b: String,
}

impl View for CubeRow {
    type V = RowView;

    open spec fn view(&self) -> RowView {
        RowView { r: self.r@, g: self.g@, b: self.b@ }
    }
}

/// The rows of a table, each as its text.
pub open spec fn rows_view(rows: Seq<CubeRow>) -> Seq<RowView> {
    Seq::new(rows.len(), |i: int| rows[i]@)
}

/// What a `.cube` text declares: the sizes and the rows of its two tables.
pub struct CubeFileView {
    pub shaper_size: nat,
    pub shaper_rows: Seq<RowView>,
    pub cube_size: nat,
    pub cube_rows: Seq<RowView>,
}

/// What a `.cube` text declares: the sizes and the rows of its two tables. A
/// table that the text does not declare has size 0 and no rows.
#[derive(Debug, Clone, PartialEq, Eq)]
pub struct CubeFile {
    pub shaper_size: usize,
    pub shaper_rows: Vec<CubeRow>,
    pub cube_size: usize,
    pub cube_rows: Vec<CubeRow>,
}

impl View for CubeFile {
    type V = CubeFileView;

    open spec fn view(&self) -> CubeFileView {
        CubeFileView {
            shaper_size: self.shaper_size as nat,
            shaper_rows: rows_view(self.shaper_rows@),
            cube_size: self.cube_size as nat,
            cube_rows: rows_view(self.cube_rows@),
        }
    }
}

impl CubeFileView {
    /// There is a table, and each table holds as many rows as its size asks for.
    pub open spec fn wf(self) -> bool {
        &&& self.shaper_size > 0 || self.cube_size > 0
        &&& self.shaper_rows.len() == self.shaper_size
        &&& self.cube_rows.len() == self.cube_size * self.cube_size * self.cube_size
    }
}

/// The table that rows currently go to.
pub enum Section {
    /// No size has been declared yet.
    Unset,
    /// The 1D shaper.
    Shaper,
    /// The 3D cube.
    Cube,
}

/// What one line of a `.cube` text says.
pub enum Line {
    /// Nothing: a blank line, a comment, a title, a domain, or anything else
    /// that is not three words.
    Skip,
    /// `LUT_1D_SIZE` and the size.
    ShaperSize(usize),
    /// `LUT_3D_SIZE` and the size.
    CubeSize(usize),
    /// Three numbers.
    Row(RowView),
    /// A size or a row that holds something other than a number.
    Malformed,
}

/// What the line `line` says. Directive names are matched by case at the
/// start of the trimmed line; a size is what follows the name, trimmed.
pub open spec fn classify(line: Seq<char>) -> Line {
    let l = trim(line);
    if l.len() == 0 || l[0] == '#' {
        Line::Skip
    } else if starts_with(l, "LUT_1D_SIZE"@) {
        match parse_size(trim(l.subrange("LUT_1D_SIZE"@.len() as int, l.len() as int))) {
            Some(n) => Line::ShaperSize(n),
            None => Line::Malformed,
        }
    } else if starts_with(l, "LUT_3D_SIZE"@) {
        match parse_size(trim(l.subrange("LUT_3D_SIZE"@.len() as int, l.len() as int))) {
            Some(n) => Line::CubeSize(n),
            None => Line::Malformed,
        }
    } else if starts_with(l, "TITLE"@) || starts_with(l, "DOMAIN_1D"@) || starts_with(
        l,
        "DOMAIN_2D"@,
    ) || starts_with(l, "DOMAIN_MIN"@) || starts_with(l, "DOMAIN_MAX"@) {
        Line::Skip
    } else {
        let w = words(l);
        if w.len() == 3 {
            if is_float_literal(w[0]) && is_float_literal(w[1]) && is_float_literal(w[2]) {
                Line::Row(RowView { r: w[0], g: w[1], b: w[2] })
            } else {
                Line::Malformed
            }
        } else {
            Line::Skip
        }
    }
}

/// What has been read of a `.cube` text so far.
pub struct Scan {
    pub section: Section,
    pub shaper_declared: bool,
    pub shaper_size: nat,
    pub shaper_rows: Seq<RowView>,
    pub cube_declared: bool,
    pub cube_size: nat,
    pub cube_rows: Seq<RowView>,
}

impl Scan {
    /// Nothing read yet.
    pub open spec fn start() -> Scan {
        Scan {
            section: Section::Unset,
            shaper_declared: false,
            shaper_size: 0,
            shaper_rows: Seq::empty(),
            cube_declared: false,
            cube_size: 0,
            cube_rows: Seq::empty(),
        }
    }

    /// The state after one more line; nothing if the line is malformed. A size
    /// makes its table the one that rows go to; a row read before any size
    /// belongs to no table.
    pub open spec fn step(self, line: Seq<char>) -> Option<Scan> {
        match classify(line) {
            Line::Skip => Some(self),
            Line::ShaperSize(n) => Some(
                Scan { section: Section::Shaper, shaper_declared: true, shaper_size: n as nat, ..self },
            ),
            Line::CubeSize(n) => Some(
                Scan { section: Section::Cube, cube_declared: true, cube_size: n as nat, ..self },
            ),
            Line::Row(row) => match self.section {
                Section::Unset => Some(self),
                Section::Shaper => Some(Scan { shaper_rows: self.shaper_rows.push(row), ..self }),
                Section::Cube => Some(Scan { cube_rows: self.cube_rows.push(row), ..self }),
            },
            Line::Malformed => None,
        }
    }

    /// The outcome once the text has ended: each declared table must hold as
    /// many rows as its size asks for, the shaper being looked at first, and
    /// the text must have declared a table of a size other than 0.
    pub open spec fn finish(self) -> Result<CubeFileView, LutParseError> {
        if self.shaper_declared && self.shaper_rows.len() != self.shaper_size {
            Err(LutParseError::ShaperLength)
        } else if self.cube_declared && self.cube_rows.len() != self.cube_size * self.cube_size
            * self.cube_size {
            Err(LutParseError::CubeLength)
        } else if self.shaper_size == 0 && self.cube_size == 0 {
            Err(LutParseError::MissingSize)
        } else {
            Ok(
                CubeFileView {
                    shaper_size: self.shaper_size,
                    shaper_rows: self.shaper_rows,
                    cube_size: self.cube_size,
                    cube_rows: self.cube_rows,
                },
            )
        }
    }
}

/// The number of characters of `s` before its first line feed.
pub open spec fn line_len(s: Seq<char>) -> nat
    decreases s.len(),
{
    if s.len() == 0 || s[0] == '\n' {
        0
    } else {
        1 + line_len(s.drop_first())
    }
}

/// The state after all lines of `s`, which are what stands between line
/// feeds; nothing once a line was malformed.
pub open spec fn scan_lines(s: Seq<char>, st: Option<Scan>) -> Option<Scan>
    decreases s.len(),
{
    if s.len() == 0 {
        st
    } else {
        let k = line_len(s);
        let next = match st {
            Some(scan) => scan.step(s.take(k as int)),
            None => None,
        };
        if k < s.len() {
            scan_lines(s.skip(k as int + 1), next)
        } else {
            next
        }
    }
}

/// What the `.cube` text `text` declares, or why it is rejected.
pub open spec fn parse_cube_text(text: Seq<char>) -> Result<CubeFileView, LutParseError> {
    match scan_lines(text, Some(Scan::start())) {
        Some(scan) => scan.finish(),
        None => Err(LutParseError::MalformedNumber),
    }
}

/// A line ends at the first line feed, or where the text ends.
pub proof fn lemma_line_len(s: Seq<char>, k: int)
    requires
        0 <= k <= s.len(),
        forall|j: int| 0 <= j < k ==> #[trigger] s[j] != '\n',
        k == s.len() || s[k] == '\n',
    ensures
        line_len(s) == k,
    decreases k,
{
    if k > 0 {
        assert forall|j: int| 0 <= j < k - 1 implies #[trigger] s.drop_first()[j] != '\n' by {
            assert(s.drop_first()[j] == s[j + 1]);
        }
        lemma_line_len(s.drop_first(), k - 1);
    }
}

/// The directive names, as characters.
struct Keywords {
    lut_1d: Vec<char>,
    lut_3d: Vec<char>,
    title: Vec<char>,
    domain_1d: Vec<char>,
    domain_2d: Vec<char>,
    domain_min: Vec<char>,
    domain_max: Vec<char>,
}

impl Keywords {
    spec fn wf(&self) -> bool {
        &&& self.lut_1d@ == "LUT_1D_SIZE"@
        &&& self.lut_3d@ == "LUT_3D_SIZE"@
        &&& self.title@ == "TITLE"@
        &&& self.domain_1d@ == "DOMAIN_1D"@
        &&& self.domain_2d@ == "DOMAIN_2D"@
        &&& self.domain_min@ == "DOMAIN_MIN"@
        &&& self.domain_max@ == "DOMAIN_MAX"@
    }

    fn new() -> (k: Keywords)
        ensures
            k.wf(),
    {
        Keywords {
            lut_1d: chars_of("LUT_1D_SIZE"),
            lut_3d: chars_of("LUT_3D_SIZE"),
            title: chars_of("TITLE"),
            domain_1d: chars_of("DOMAIN_1D"),
            domain_2d: chars_of("DOMAIN_2D"),
            domain_min: chars_of("DOMAIN_MIN"),
            domain_max: chars_of("DOMAIN_MAX"),
        }
    }
}

/// What one line says, with an owned row.
enum ReadLine {
    Skip,
    ShaperSize(usize),
    CubeSize(usize),
    Row(CubeRow),
    Malformed,
}

impl View for ReadLine {
    type V = Line;

    closed spec fn view(&self) -> Line {
        match self {
            ReadLine::Skip => Line::Skip,
            ReadLine::ShaperSize(n) => Line::ShaperSize(*n),
            ReadLine::CubeSize(n) => Line::CubeSize(*n),
            ReadLine::Row(row) => Line::Row(row@),
            ReadLine::Malformed => Line::Malformed,
        }
    }
}

/// Reads the size that follows a directive name of `skip` characters.
fn size_after(l: &Vec<char>, skip: usize) -> (r: Option<usize>)
    requires
        skip <= l@.len(),
    ensures
        r == parse_size(trim(l@.subrange(skip as int, l@.len() as int))),
{
    let rest = copy_range(l, skip, l.len());
    let t = trimmed(&rest);
    read_size(&t)
}

/// Decides what one line says.
fn read_line(line: &Vec<char>, kw: &Keywords) -> (r: ReadLine)
    requires
        kw.wf(),
    ensures
        r@ == classify(line@),
{
    let l = trimmed(line);
    if l.len() == 0 || l[0] == '#' {
        return ReadLine::Skip;
    }
    if has_prefix(&l, &kw.lut_1d) {
        return match size_after(&l, kw.lut_1d.len()) {
            Some(n) => ReadLine::ShaperSize(n),
            None => ReadLine::Malformed,
        };
    }
    if has_prefix(&l, &kw.lut_3d) {
        return match size_after(&l, kw.lut_3d.len()) {
            Some(n) => ReadLine::CubeSize(n),
            None => ReadLine::Malformed,
        };
    }
    if has_prefix(&l, &kw.title) || has_prefix(&l, &kw.domain_1d) || has_prefix(&l, &kw.domain_2d)
        || has_prefix(&l, &kw.domain_min) || has_prefix(&l, &kw.domain_max) {
        return ReadLine::Skip;
    }
    let w = split_words(&l);
    if w.len() != 3 {
        return ReadLine::Skip;
    }
    if !(is_number_token(&w[0]) && is_number_token(&w[1]) && is_number_token(&w[2])) {
        return ReadLine::Malformed;
    }
    let r = string_of(&w[0], 0, w[0].len());
    let g = string_of(&w[1], 0, w[1].len());
    let b = string_of(&w[2], 0, w[2].len());
    proof {
        assert(w@[0]@.subrange(0, w@[0]@.len() as int) =~= w@[0]@);
        assert(w@[1]@.subrange(0, w@[1]@.len() as int) =~= w@[1]@);
        assert(w@[2]@.subrange(0, w@[2]@.len() as int) =~= w@[2]@);
    }
    ReadLine::Row(CubeRow { r, g, b })
}

/// Finds the end of the line that starts at `from`.
fn line_end(text: &Vec<char>, from: usize) -> (k: usize)
    requires
        from <= text@.len(),
    ensures
        from <= k <= text@.len(),
        k - from == line_len(text@.subrange(from as int, text@.len() as int)),
{
    let mut k: usize = from;
    while k < text.len() && text[k] != '\n'
        invariant
            from <= k <= text@.len(),
            forall|j: int| from <= j < k ==> #[trigger] text@[j] != '\n',
        decreases text@.len() - k,
    {
        k += 1;
    }
    proof {
        let rest = text@.subrange(from as int, text@.len() as int);
        assert forall|j: int| 0 <= j < k - from implies #[trigger] rest[j] != '\n' by {
            assert(rest[j] == text@[from + j]);
        }
        lemma_line_len(rest, k - from);
    }
    k
}

/// Reads a `.cube` text: the sizes it declares and the rows of its tables,
/// each number kept as it is written.
///
/// Lines are trimmed; blank lines, comments (`#`), `TITLE` and `DOMAIN_*`
/// lines say nothing. `LUT_1D_SIZE n` and `LUT_3D_SIZE n` declare a table and
/// direct the rows that follow to it. A line of three numbers is a row; any
/// other line says nothing. A text that declares no table, or tables of size
/// 0 only, is rejected.
pub fn read_cube(text: &str) -> (r: Result<CubeFile, LutParseError>)
    ensures
        match r {
            Ok(file) => parse_cube_text(text@) == Ok::<CubeFileView, LutParseError>(file@) && file@.wf(),
            Err(e) => parse_cube_text(text@) == Err::<CubeFileView, LutParseError>(e),
        },
{
    let chars = chars_of(text);
    let kw = Keywords::new();
    let mut section_shaper: bool = false;
    let mut section_cube: bool = false;
    let mut shaper_declared: bool = false;
    let mut shaper_size: usize = 0;
    let mut shaper_rows: Vec<CubeRow> = Vec::new();
    let mut cube_declared: bool = false;
    let mut cube_size: usize = 0;
    let mut cube_rows: Vec<CubeRow> = Vec::new();
    let ghost mut scan = Scan::start();
    let mut pos: usize = 0;
    proof {
        assert(chars@.subrange(0, chars@.len() as int) =~= chars@);
        assert(rows_view(shaper_rows@) =~= scan.shaper_rows);
        assert(rows_view(cube_rows@) =~= scan.cube_rows);
    }
    while pos < chars.len()
        invariant
            kw.wf(),
            chars@ == text@,
            pos <= chars@.len(),
            scan_lines(chars@.subrange(pos as int, chars@.len() as int), Some(scan)) == scan_lines(
                chars@,
                Some(Scan::start()),
            ),
            !(section_shaper && section_cube),
            section_shaper ==> shaper_declared,
            section_cube ==> cube_declared,
            scan.section == (if section_shaper {
                Section::Shaper
            } else if section_cube {
                Section::Cube
            } else {
                Section::Unset
            }),
            scan.shaper_declared == shaper_declared,
            scan.shaper_size == shaper_size,
            scan.shaper_rows == rows_view(shaper_rows@),
            scan.cube_declared == cube_declared,
            scan.cube_size == cube_size,
            scan.cube_rows == rows_view(cube_rows@),
            !shaper_declared ==> shaper_size == 0 && shaper_rows@.len() == 0,
            !cube_declared ==> cube_size == 0 && cube_rows@.len() == 0,
        decreases chars@.len() - pos,
    {
        let end = line_end(&chars, pos);
        let line = copy_range(&chars, pos, end);
        let ghost rest = chars@.subrange(pos as int, chars@.len() as int);
        proof {
            assert(rest.take(end - pos) =~= line@);
            if end < chars@.len() {
                assert(rest.skip(end - pos + 1) =~= chars@.subrange(
                    end + 1,
                    chars@.len() as int,
                ));
            }
        }
        match read_line(&line, &kw) {
            ReadLine::Skip => {},
            ReadLine::ShaperSize(n) => {
                section_shaper = true;
                section_cube = false;
                shaper_declared = true;
                shaper_size = n;
            },
            ReadLine::CubeSize(n) => {
                section_shaper = false;
                section_cube = true;
                cube_declared = true;
                cube_size = n;
            },
            ReadLine::Row(row) => {
                if section_shaper {
                    proof {
                        assert(rows_view(shaper_rows@.push(row)) =~= rows_view(shaper_rows@).push(
                            row@,
                        ));
                    }
                    shaper_rows.push(row);
                } else if section_cube {
                    proof {
                        assert(rows_view(cube_rows@.push(row)) =~= rows_view(cube_rows@).push(row@));
                    }
                    cube_rows.push(row);
                }
            },
            ReadLine::Malformed => {
                proof {
                    lemma_scan_lines_none(rest.skip(end - pos + 1));
                }
                return Err(LutParseError::MalformedNumber);
            },
        }
        proof {
            scan = scan.step(line@).unwrap();
        }
        if end < chars.len() {
            pos = end + 1;
        } else {
            pos = end;
            proof {
                assert(chars@.subrange(pos as int, chars@.len() as int).len() == 0);
            }
        }
    }
    proof {
        assert(chars@.subrange(pos as int, chars@.len() as int).len() == 0);
    }
    if shaper_declared && shaper_rows.len() != shaper_size {
        return Err(LutParseError::ShaperLength);
    }
    if cube_declared && !is_cube_of(cube_rows.len(), cube_size) {
        return Err(LutParseError::CubeLength);
    }
    if shaper_size == 0 && cube_size == 0 {
        return Err(LutParseError::MissingSize);
    }
    let file = CubeFile { shaper_size, shaper_rows, cube_size, cube_rows };
    proof {
        assert(scan_lines(chars@, Some(Scan::start())) == Some(scan));
        assert(file@.shaper_rows.len() == file.shaper_rows@.len());
        assert(file@.cube_rows.len() == file.cube_rows@.len());
        if !cube_declared {
            assert(cube_size * cube_size * cube_size == 0) by (nonlinear_arith)
                requires
                    cube_size == 0,
            ;
        }
        assert(file@.wf());
        assert(scan.finish() == Ok::<CubeFileView, LutParseError>(file@));
    }
    Ok(file)
}

/// Once a line was malformed, nothing that follows mends it.
pub proof fn lemma_scan_lines_none(s: Seq<char>)
    ensures
        scan_lines(s, None) is None,
    decreases s.len(),
{
    if s.len() > 0 {
        let k = line_len(s);
        if k < s.len() {
            lemma_scan_lines_none(s.skip(k as int + 1));
        }
    }
}

} // verus!
