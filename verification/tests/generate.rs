use exrtool_core::{
    compute_cube_rows, compute_rows, emit_1d_lut, emit_3d_lut, lattice_of, read_cube, Cancelled,
    CubeRow,
};
use std::cell::RefCell;

fn same(token: String) -> CubeRow {
    CubeRow { r: token.clone(), g: token.clone(), b: token }
}

fn lattice_row(r: usize, g: usize, b: usize) -> CubeRow {
    CubeRow { r: format!("{}", r), g: format!("{}", g), b: format!("{}", b) }
}

fn rows(n: usize) -> Vec<CubeRow> {
    compute_rows(n, |i| same(format!("{}", i)))
}

fn cube(n: usize) -> Vec<CubeRow> {
    compute_cube_rows(n, lattice_row, |_, _| true).unwrap()
}

#[test]
fn a_3d_table_is_written_line_by_line() {
    let text = emit_3d_lut(&rows(0), 2, &cube(2));
    assert_eq!(
        text,
        "TITLE \"exrtool 3D LUT\"\nLUT_3D_SIZE 2\nDOMAIN_MIN 0.0 0.0 0.0\nDOMAIN_MAX 1.0 1.0 1.0\n\
         0 0 0\n1 0 0\n0 1 0\n1 1 0\n0 0 1\n1 0 1\n0 1 1\n1 1 1\n"
    );
}

#[test]
fn a_shaper_is_written_before_the_cube() {
    let shaper = compute_rows(3, |i| same(format!("{}.5", i)));
    let text = emit_3d_lut(&shaper, 1, &cube(1));
    assert_eq!(
        text,
        "TITLE \"exrtool 3D LUT\"\nLUT_1D_SIZE 3\nDOMAIN_MIN 0.0 0.0 0.0\nDOMAIN_MAX 1.0 1.0 1.0\n\
         0.5 0.5 0.5\n1.5 1.5 1.5\n2.5 2.5 2.5\n\
         LUT_3D_SIZE 1\nDOMAIN_MIN 0.0 0.0 0.0\nDOMAIN_MAX 1.0 1.0 1.0\n0 0 0\n"
    );
}

#[test]
fn a_1d_table_is_written_line_by_line() {
    let text = emit_1d_lut(2, &compute_rows(2, |i| same(format!("{:.10}", i as f64))));
    assert_eq!(
        text,
        "TITLE \"exrtool 1D LUT\"\nLUT_1D_SIZE 2\nDOMAIN_MIN 0.0 0.0 0.0\nDOMAIN_MAX 1.0 1.0 1.0\n\
         0.0000000000 0.0000000000 0.0000000000\n1.0000000000 1.0000000000 1.0000000000\n"
    );
    assert_eq!(emit_1d_lut(1234567, &Vec::new()).lines().nth(1), Some("LUT_1D_SIZE 1234567"));
    assert_eq!(emit_1d_lut(0, &Vec::new()).lines().nth(1), Some("LUT_1D_SIZE 0"));
    assert_eq!(
        emit_1d_lut(usize::MAX, &Vec::new()).lines().nth(1),
        Some(format!("LUT_1D_SIZE {}", usize::MAX).as_str())
    );
}

#[test]
fn an_empty_cube_has_a_header_only() {
    let calls = RefCell::new(0usize);
    let cube = compute_cube_rows(0, lattice_row, |_, _| {
        *calls.borrow_mut() += 1;
        true
    })
    .unwrap();
    assert_eq!(
        emit_3d_lut(&Vec::new(), 0, &cube),
        "TITLE \"exrtool 3D LUT\"\nLUT_3D_SIZE 0\nDOMAIN_MIN 0.0 0.0 0.0\nDOMAIN_MAX 1.0 1.0 1.0\n"
    );
    assert_eq!(*calls.borrow(), 0);
}

#[test]
fn cube_rows_come_in_table_order_across_batches() {
    let rows = compute_cube_rows(11, lattice_row, |_, _| true).unwrap();
    assert_eq!(rows.len(), 1331);
    for (i, row) in rows.iter().enumerate() {
        let (r, g, b) = lattice_of(11, i);
        assert_eq!(*row, lattice_row(r, g, b));
        assert_eq!(i, b * 121 + g * 11 + r);
    }
}

#[test]
fn progress_is_reported_every_thousand_points_and_at_the_end() {
    let seen = RefCell::new(Vec::new());
    let rows = compute_cube_rows(13, lattice_row, |done, total| {
        seen.borrow_mut().push((done, total));
        true
    });
    assert!(rows.is_ok());
    assert_eq!(*seen.borrow(), vec![(1000, 2197), (2000, 2197), (2197, 2197)]);

    let seen = RefCell::new(Vec::new());
    let rows = compute_cube_rows(10, lattice_row, |done, total| {
        seen.borrow_mut().push((done, total));
        true
    });
    assert!(rows.is_ok());
    assert_eq!(*seen.borrow(), vec![(1000, 1000)]);

    let seen = RefCell::new(Vec::new());
    let rows = compute_cube_rows(2, lattice_row, |done, total| {
        seen.borrow_mut().push((done, total));
        true
    });
    assert!(rows.is_ok());
    assert_eq!(*seen.borrow(), vec![(8, 8)]);
}

#[test]
fn a_refused_first_report_cancels_without_output() {
    let r = compute_cube_rows(2, lattice_row, |_, _| false);
    assert_eq!(r.err(), Some(Cancelled));
}

#[test]
fn a_refusal_after_the_first_report_cancels_and_stops_the_work() {
    let seen = RefCell::new(Vec::new());
    let calls = std::sync::atomic::AtomicUsize::new(0);
    let r = compute_cube_rows(
        13,
        |r, g, b| {
            calls.fetch_add(1, std::sync::atomic::Ordering::Relaxed);
            lattice_row(r, g, b)
        },
        |done, total| {
            seen.borrow_mut().push((done, total));
            seen.borrow().len() < 2
        },
    );
    assert_eq!(r.err(), Some(Cancelled));
    assert_eq!(*seen.borrow(), vec![(1000, 2197), (2000, 2197)]);
    assert_eq!(calls.load(std::sync::atomic::Ordering::Relaxed), 2000);
}

#[test]
fn shaper_rows_are_computed_in_order() {
    let rows = compute_rows(4, |i| same(format!("{}", i * i)));
    let firsts: Vec<&str> = rows.iter().map(|r| r.r.as_str()).collect();
    assert_eq!(firsts, vec!["0", "1", "4", "9"]);
}

#[test]
fn a_written_table_reads_back_as_it_was_written() {
    let shaper: Vec<CubeRow> = (0..5).map(|i| same(format!("{:.10}", i as f64 / 4.0))).collect();
    let cube: Vec<CubeRow> = (0..27)
        .map(|i| {
            let (r, g, b) = lattice_of(3, i);
            CubeRow {
                r: format!("{:.10}", r as f64 / 2.0),
                g: format!("{:.10}", -(g as f64) / 3.0),
                b: format!("{:.10}", b as f64 * 1e9),
            }
        })
        .collect();
    let file = read_cube(&emit_3d_lut(&shaper, 3, &cube)).unwrap();
    assert_eq!(file.shaper_size, 5);
    assert_eq!(file.shaper_rows, shaper);
    assert_eq!(file.cube_size, 3);
    assert_eq!(file.cube_rows, cube);

    let file = read_cube(&emit_3d_lut(&Vec::new(), 3, &cube)).unwrap();
    assert_eq!(file.shaper_size, 0);
    assert!(file.shaper_rows.is_empty());
    assert_eq!(file.cube_rows, cube);

    let file = read_cube(&emit_1d_lut(5, &shaper)).unwrap();
    assert_eq!(file.shaper_size, 5);
    assert_eq!(file.shaper_rows, shaper);
    assert_eq!(file.cube_size, 0);
}

#[test]
fn written_values_read_back_within_a_billionth() {
    let values = [0.0f64, 1.0, 0.5, 1.0 / 3.0, 0.123456789012, 0.999999999949, 2.0 / 7.0];
    let rows: Vec<CubeRow> = values.iter().map(|v| same(format!("{:.10}", v))).collect();
    let rows: Vec<CubeRow> = rows.iter().cycle().take(8).cloned().collect();
    let file = read_cube(&emit_3d_lut(&Vec::new(), 2, &rows)).unwrap();
    for (i, row) in file.cube_rows.iter().enumerate() {
        let back: f64 = row.g.parse().unwrap();
        assert!((back - values[i % values.len()]).abs() < 1e-9);
    }
}
