use exrtool_core::number::{is_number_token, read_size};
use exrtool_core::{read_cube, CubeRow, LutParseError};

fn row(r: &str, g: &str, b: &str) -> CubeRow {
    CubeRow { r: r.to_string(), g: g.to_string(), b: b.to_string() }
}

#[test]
fn parse_keeps_sizes_and_rows_as_written() {
    let file = read_cube("LUT_1D_SIZE 2\n0.0 0.0 0.0\n1.0 1.0 1.0\n").unwrap();
    assert_eq!(file.shaper_size, 2);
    assert_eq!(file.shaper_rows, vec![row("0.0", "0.0", "0.0"), row("1.0", "1.0", "1.0")]);
    assert_eq!(file.cube_size, 0);
    assert!(file.cube_rows.is_empty());
}

#[test]
fn parse_reads_a_shaper_before_a_cube() {
    let text = "# made by hand\nTITLE \"both\"\n\nLUT_1D_SIZE 2\nDOMAIN_MIN 0 0 0\nDOMAIN_MAX 1 1 1\n0 0 0\n1 1 1\nLUT_3D_SIZE 1\n  0.5\t0.25   0.125  \r\n";
    let file = read_cube(text).unwrap();
    assert_eq!(file.shaper_size, 2);
    assert_eq!(file.shaper_rows.len(), 2);
    assert_eq!(file.cube_size, 1);
    assert_eq!(file.cube_rows, vec![row("0.5", "0.25", "0.125")]);
}

#[test]
fn parse_rejects_a_text_that_declares_no_table() {
    assert_eq!(read_cube("").err(), Some(LutParseError::MissingSize));
    assert_eq!(
        read_cube("\n\n# nothing\nTITLE \"x\"\n").err(),
        Some(LutParseError::MissingSize)
    );
    assert_eq!(read_cube("LUT_1D_SIZE 0\n").err(), Some(LutParseError::MissingSize));
    assert_eq!(read_cube("LUT_3D_SIZE 0\n").err(), Some(LutParseError::MissingSize));
    assert_eq!(
        read_cube("LUT_1D_SIZE 0\nLUT_3D_SIZE 0\n").err(),
        Some(LutParseError::MissingSize)
    );
    assert!(read_cube("LUT_1D_SIZE 0\nLUT_3D_SIZE 1\n0 0 0\n").is_ok());
}

#[test]
fn parse_rejects_a_malformed_row() {
    assert_eq!(
        read_cube("LUT_1D_SIZE 1\n0.0 zero 0.0\n").err(),
        Some(LutParseError::MalformedNumber)
    );
    assert_eq!(read_cube("0.0 0.0 1e\n").err(), Some(LutParseError::MalformedNumber));
}

#[test]
fn parse_rejects_a_malformed_size() {
    assert_eq!(read_cube("LUT_3D_SIZE two\n").err(), Some(LutParseError::MalformedNumber));
    assert_eq!(read_cube("LUT_3D_SIZE\n").err(), Some(LutParseError::MalformedNumber));
    assert_eq!(read_cube("LUT_1D_SIZE -1\n").err(), Some(LutParseError::MalformedNumber));
    assert_eq!(read_cube("LUT_1D_SIZE 2 3\n").err(), Some(LutParseError::MalformedNumber));
    assert_eq!(read_cube("LUT_1D_SIZEX 2\n").err(), Some(LutParseError::MalformedNumber));
    assert_eq!(
        read_cube("LUT_1D_SIZE 99999999999999999999999999\n").err(),
        Some(LutParseError::MalformedNumber)
    );
}

#[test]
fn parse_rejects_a_wrong_shaper_length() {
    assert_eq!(
        read_cube("LUT_1D_SIZE 3\n0 0 0\n1 1 1\n").err(),
        Some(LutParseError::ShaperLength)
    );
    assert_eq!(read_cube("LUT_1D_SIZE 0\n0 0 0\n").err(), Some(LutParseError::ShaperLength));
    assert_eq!(
        read_cube("LUT_1D_SIZE 1\nLUT_3D_SIZE 2\n0 0 0\n").err(),
        Some(LutParseError::ShaperLength)
    );
}

#[test]
fn parse_rejects_a_wrong_cube_length() {
    assert_eq!(
        read_cube("LUT_3D_SIZE 2\n0 0 0\n1 1 1\n").err(),
        Some(LutParseError::CubeLength)
    );
    assert_eq!(read_cube("LUT_3D_SIZE 0\n0 0 0\n").err(), Some(LutParseError::CubeLength));
}

#[test]
fn parse_rejects_rows_without_a_size() {
    assert_eq!(read_cube("0 0 0\n1 1 1\n").err(), Some(LutParseError::MissingSize));
}

#[test]
fn parse_reports_a_malformed_number_before_a_wrong_length() {
    assert_eq!(
        read_cube("LUT_1D_SIZE 3\n0 0 0\n0 x 0\n").err(),
        Some(LutParseError::MalformedNumber)
    );
}

#[test]
fn parse_ignores_lines_that_are_not_three_words() {
    let file = read_cube("LUT_1D_SIZE 1\n1 2\n1 2 3 4\nhello\n0.5 0.5 0.5\n").unwrap();
    assert_eq!(file.shaper_rows, vec![row("0.5", "0.5", "0.5")]);
}

#[test]
fn parse_matches_directives_by_case() {
    assert_eq!(read_cube("lut_1d_size 1\n").err(), Some(LutParseError::MissingSize));
    assert_eq!(
        read_cube("lut_1d_size 1\nLUT_3D_SIZE 1\n0 0 0\n").map(|f| f.shaper_size),
        Ok(0)
    );
    assert_eq!(
        read_cube("lut_1d_size 1 2\n").err(),
        Some(LutParseError::MalformedNumber)
    );
    assert!(read_cube("TITLE 1 2\nDOMAIN_MIN 0 0 0\nLUT_1D_SIZE 1\n0 0 0\n").is_ok());
    assert_eq!(read_cube("title 1 2\n").err(), Some(LutParseError::MalformedNumber));
}

#[test]
fn parse_takes_the_last_size_that_is_declared() {
    let file = read_cube("LUT_1D_SIZE 5\nLUT_1D_SIZE +2\n0 0 0\n1 1 1\n").unwrap();
    assert_eq!(file.shaper_size, 2);
}

#[test]
fn parse_accepts_the_spellings_of_special_values() {
    let file = read_cube("LUT_1D_SIZE 2\nNaN inf -Infinity\n+.5 5. 1E-3\n").unwrap();
    assert_eq!(file.shaper_rows[0], row("NaN", "inf", "-Infinity"));
    assert_eq!(file.shaper_rows[1], row("+.5", "5.", "1E-3"));
}

#[test]
fn number_tokens_are_what_the_standard_parser_accepts() {
    let samples = [
        "0", "1", "-1", "+1", "0.5", ".5", "5.", ".", "", "+", "-", "e5", "1e5", "1e", "1e+", "1e+5",
        "1E-5", "1.e3", ".e3", "1.5e", "inf", "INF", "Infinity", "infinit", "nan", "NaN", "-nan",
        "+inf", "1_000", "0x10", "1 ", " 1", "1..2", "1.2.3", "--1", "+-1", "1e5.5", "١", "1f",
        "infinityy", "na", "12345678901234567890123456789012345678901234567890", "0.0000000000",
        "-0.0000000000", "1e400", "1e-400", ".5e-3", "5.e+3", "e", "E1", "1e1e1", "i", "n",
    ];
    for s in samples {
        let chars: Vec<char> = s.chars().collect();
        assert_eq!(is_number_token(&chars), s.parse::<f32>().is_ok());
        assert_eq!(is_number_token(&chars), s.parse::<f64>().is_ok());
    }
}

#[test]
fn sizes_are_what_the_standard_parser_accepts() {
    let samples = [
        "0", "1", "+1", "-1", "", "+", "007", "12a", "1 ", " 1", "18446744073709551615",
        "18446744073709551616", "99999999999999999999999", "4294967295", "4294967296", "++1", "1+",
        "１",
    ];
    for s in samples {
        let chars: Vec<char> = s.chars().collect();
        assert_eq!(read_size(&chars), s.parse::<usize>().ok());
    }
}
