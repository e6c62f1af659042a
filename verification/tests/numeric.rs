use exrtool_core::{
    apply_gamma, apply_tone_curve, bradford, bradford_inverse, generate_preview,
    generate_preview_progress,
    lattice_of, make_1d_lut, make_3d_lut_cube, make_3d_lut_cube_progress, parse_cube,
    primaries_of, read_cube, rgb_to_rgb_matrix, shares_white, Chromaticities, ClipMode,
    ColorMath, ColorSpace, Error, InvalidInput, LoadedExr, Lut, LutParseError, PreviewQuality,
    Primaries, Sample, TransferFn, BRADFORD_UNIT, CHROMATICITY_UNIT,
};
use nalgebra::{Matrix3, Vector3};
use std::cell::RefCell;

fn tf_encode(v: f64, tf: TransferFn) -> f64 {
    match tf {
        TransferFn::Linear => v,
        TransferFn::Srgb => {
            if v <= 0.0031308 {
                12.92 * v
            } else {
                1.055 * v.powf(1.0 / 2.4) - 0.055
            }
        }
        TransferFn::Gamma24 => v.max(0.0).powf(1.0 / 2.4),
        TransferFn::Gamma22 => v.max(0.0).powf(1.0 / 2.2),
    }
}

fn tf_decode(v: f64, tf: TransferFn) -> f64 {
    match tf {
        TransferFn::Linear => v,
        TransferFn::Srgb => {
            if v <= 0.04045 {
                v / 12.92
            } else {
                ((v + 0.055) / 1.055).powf(2.4)
            }
        }
        TransferFn::Gamma24 => v.max(0.0).powf(2.4),
        TransferFn::Gamma22 => v.max(0.0).powf(2.2),
    }
}

fn lanczos(samples: Vec<f32>, width: usize, height: usize, out_w: u32, out_h: u32) -> Vec<f32> {
    let src = image::ImageBuffer::<image::Rgba<f32>, Vec<f32>>::from_raw(
        width as u32,
        height as u32,
        samples,
    )
    .expect("invalid rgba buffer");
    image::imageops::resize(&src, out_w, out_h, image::imageops::FilterType::Lanczos3).into_vec()
}

#[derive(Debug, Clone, Copy, PartialEq)]
struct F32(f32);

impl Sample for F32 {
    fn parse(token: &String) -> Option<Self> {
        token.parse::<f32>().ok().map(F32)
    }

    fn format(self) -> String {
        format!("{:.10}", self.0)
    }

    fn ratio(num: usize, den: usize) -> Self {
        F32(num as f32 / den as f32)
    }

    fn lerp(self, other: Self, t: Self) -> Self {
        F32(self.0 + (other.0 - self.0) * t.0)
    }

    fn locate(self, size: usize) -> (usize, Self) {
        let s = size.saturating_sub(1) as f32;
        let x = (self.0.clamp(0.0, 1.0) * s).min(s);
        let below = x.floor() as usize;
        (below, F32(x - below as f32))
    }

    fn expose(self, stops: Self) -> Self {
        F32(self.0 * 2.0f32.powf(stops.0))
    }

    fn apply_gamma(self, gamma: Self) -> Self {
        if gamma.0 > 0.0001 {
            F32(self.0.max(0.0).powf(1.0 / gamma.0))
        } else {
            self
        }
    }

    fn srgb_encode(self) -> u8 {
        let x = self.0.max(0.0);
        let srgb = if x <= 0.0031308 { 12.92 * x } else { 1.055 * x.powf(1.0 / 2.4) - 0.055 };
        (srgb.clamp(0.0, 1.0) * 255.0 + 0.5).floor() as u8
    }

    fn alpha_encode(self) -> u8 {
        (self.0.clamp(0.0, 1.0) * 255.0).round() as u8
    }

    fn clamp_unit(self) -> Self {
        F32(self.0.clamp(0.0, 1.0))
    }

    fn resize(samples: &Vec<Self>, width: usize, height: usize, out_w: u32, out_h: u32) -> Vec<Self> {
        let raw: Vec<f32> = samples.iter().map(|s| s.0).collect();
        lanczos(raw, width, height, out_w, out_h).into_iter().map(F32).collect()
    }

    fn tf_encode(self, tf: TransferFn) -> Self {
        F32(tf_encode(self.0 as f64, tf) as f32)
    }

    fn tf_decode(self, tf: TransferFn) -> Self {
        F32(tf_decode(self.0 as f64, tf) as f32)
    }
}

#[derive(Debug, Clone, Copy, PartialEq)]
struct F64(f64);

impl Sample for F64 {
    fn parse(token: &String) -> Option<Self> {
        token.parse::<f64>().ok().map(F64)
    }

    fn format(self) -> String {
        format!("{:.10}", self.0)
    }

    fn ratio(num: usize, den: usize) -> Self {
        F64(num as f64 / den as f64)
    }

    fn lerp(self, other: Self, t: Self) -> Self {
        F64(self.0 + (other.0 - self.0) * t.0)
    }

    fn locate(self, size: usize) -> (usize, Self) {
        let s = size.saturating_sub(1) as f64;
        let x = (self.0.clamp(0.0, 1.0) * s).min(s);
        let below = x.floor() as usize;
        (below, F64(x - below as f64))
    }

    fn expose(self, stops: Self) -> Self {
        F64(self.0 * 2.0f64.powf(stops.0))
    }

    fn apply_gamma(self, gamma: Self) -> Self {
        if gamma.0 > 0.0001 {
            F64(self.0.max(0.0).powf(1.0 / gamma.0))
        } else {
            self
        }
    }

    fn srgb_encode(self) -> u8 {
        F32(self.0 as f32).srgb_encode()
    }

    fn alpha_encode(self) -> u8 {
        F32(self.0 as f32).alpha_encode()
    }

    fn clamp_unit(self) -> Self {
        F64(self.0.clamp(0.0, 1.0))
    }

    fn resize(samples: &Vec<Self>, width: usize, height: usize, out_w: u32, out_h: u32) -> Vec<Self> {
        let raw: Vec<f32> = samples.iter().map(|s| s.0 as f32).collect();
        lanczos(raw, width, height, out_w, out_h).into_iter().map(|v| F64(v as f64)).collect()
    }

    fn tf_encode(self, tf: TransferFn) -> Self {
        F64(tf_encode(self.0, tf))
    }

    fn tf_decode(self, tf: TransferFn) -> Self {
        F64(tf_decode(self.0, tf))
    }
}

fn xy_to_xyz(x: f64, y: f64) -> Vector3<f64> {
    Vector3::new(x / y, 1.0, (1.0 - x - y) / y)
}

fn unit(v: i32) -> f64 {
    v as f64 / CHROMATICITY_UNIT as f64
}

fn white(c: Chromaticities) -> Vector3<f64> {
    xy_to_xyz(unit(c.wx), unit(c.wy))
}

fn matrix_of(rows: [[i32; 3]; 3]) -> Matrix3<f64> {
    Matrix3::from_fn(|i, j| rows[i][j] as f64 / BRADFORD_UNIT as f64)
}

impl ColorMath for F64 {
    type Matrix = Matrix3<f64>;

    fn identity() -> Matrix3<f64> {
        Matrix3::identity()
    }

    fn rgb_to_xyz_matrix(c: Chromaticities) -> Option<Matrix3<f64>> {
        let m = Matrix3::from_columns(&[
            xy_to_xyz(unit(c.rx), unit(c.ry)),
            xy_to_xyz(unit(c.gx), unit(c.gy)),
            xy_to_xyz(unit(c.bx), unit(c.by)),
        ]);
        let s = m.try_inverse()? * white(c);
        Some(m * Matrix3::from_diagonal(&s))
    }

    fn bradford_adapt(src: Chromaticities, dst: Chromaticities) -> Matrix3<f64> {
        let m = matrix_of(bradford());
        let m_inv = matrix_of(bradford_inverse());
        let src_lms = m * white(src);
        let dst_lms = m * white(dst);
        let d = Matrix3::from_diagonal(&Vector3::new(
            dst_lms.x / src_lms.x,
            dst_lms.y / src_lms.y,
            dst_lms.z / src_lms.z,
        ));
        m_inv * d * m
    }

    fn invert(m: Matrix3<f64>) -> Option<Matrix3<f64>> {
        m.try_inverse()
    }

    fn multiply(a: Matrix3<f64>, b: Matrix3<f64>) -> Matrix3<f64> {
        a * b
    }

    fn transform(m: Matrix3<f64>, rgb: [Self; 3]) -> [Self; 3] {
        let v = m * Vector3::new(rgb[0].0, rgb[1].0, rgb[2].0);
        [F64(v.x), F64(v.y), F64(v.z)]
    }
}

/// Double precision with broken matrices and a resampler that loses the image.
#[derive(Debug, Clone, Copy, PartialEq)]
struct Broken(F64);

impl Sample for Broken {
    fn parse(token: &String) -> Option<Self> {
        F64::parse(token).map(Broken)
    }

    fn format(self) -> String {
        self.0.format()
    }

    fn ratio(num: usize, den: usize) -> Self {
        Broken(F64::ratio(num, den))
    }

    fn lerp(self, other: Self, t: Self) -> Self {
        Broken(self.0.lerp(other.0, t.0))
    }

    fn locate(self, _size: usize) -> (usize, Self) {
        (usize::MAX, self)
    }

    fn expose(self, stops: Self) -> Self {
        Broken(self.0.expose(stops.0))
    }

    fn apply_gamma(self, gamma: Self) -> Self {
        Broken(self.0.apply_gamma(gamma.0))
    }

    fn srgb_encode(self) -> u8 {
        self.0.srgb_encode()
    }

    fn alpha_encode(self) -> u8 {
        self.0.alpha_encode()
    }

    fn clamp_unit(self) -> Self {
        Broken(self.0.clamp_unit())
    }

    fn resize(_: &Vec<Self>, _: usize, _: usize, _: u32, _: u32) -> Vec<Self> {
        Vec::new()
    }

    fn tf_encode(self, tf: TransferFn) -> Self {
        Broken(self.0.tf_encode(tf))
    }

    fn tf_decode(self, tf: TransferFn) -> Self {
        Broken(self.0.tf_decode(tf))
    }
}

impl ColorMath for Broken {
    type Matrix = Matrix3<f64>;

    fn identity() -> Matrix3<f64> {
        Matrix3::identity()
    }

    fn rgb_to_xyz_matrix(c: Chromaticities) -> Option<Matrix3<f64>> {
        F64::rgb_to_xyz_matrix(c)
    }

    fn bradford_adapt(src: Chromaticities, dst: Chromaticities) -> Matrix3<f64> {
        F64::bradford_adapt(src, dst)
    }

    fn invert(_: Matrix3<f64>) -> Option<Matrix3<f64>> {
        None
    }

    fn multiply(a: Matrix3<f64>, b: Matrix3<f64>) -> Matrix3<f64> {
        a * b
    }

    fn transform(m: Matrix3<f64>, rgb: [Self; 3]) -> [Self; 3] {
        let v = F64::transform(m, [rgb[0].0, rgb[1].0, rgb[2].0]);
        [Broken(v[0]), Broken(v[1]), Broken(v[2])]
    }
}

fn primaries_data(p: Primaries) -> (Vector3<f64>, Vector3<f64>, Vector3<f64>, Vector3<f64>) {
    match p {
        Primaries::SrgbD65 => (
            xy_to_xyz(0.640, 0.330),
            xy_to_xyz(0.300, 0.600),
            xy_to_xyz(0.150, 0.060),
            xy_to_xyz(0.3127, 0.3290),
        ),
        Primaries::Rec2020D65 => (
            xy_to_xyz(0.708, 0.292),
            xy_to_xyz(0.170, 0.797),
            xy_to_xyz(0.131, 0.046),
            xy_to_xyz(0.3127, 0.3290),
        ),
        Primaries::ACEScgD60 => (
            xy_to_xyz(0.713, 0.293),
            xy_to_xyz(0.165, 0.830),
            xy_to_xyz(0.128, 0.044),
            xy_to_xyz(0.32168, 0.33767),
        ),
        Primaries::ACES2065_1D60 => (
            xy_to_xyz(0.73470, 0.26530),
            xy_to_xyz(0.00000, 1.00000),
            xy_to_xyz(0.00010, -0.07700),
            xy_to_xyz(0.32168, 0.33767),
        ),
    }
}

fn rgb_to_rgb_matrix_manual(src: Primaries, dst: Primaries) -> Matrix3<f64> {
    let (xr_s, xg_s, xb_s, w_s) = primaries_data(src);
    let m_src = Matrix3::from_columns(&[xr_s, xg_s, xb_s]);
    let s_src = m_src.try_inverse().unwrap() * w_s;
    let m_src = m_src * Matrix3::from_diagonal(&s_src);

    let (xr_d, xg_d, xb_d, w_d) = primaries_data(dst);
    let m_dst = Matrix3::from_columns(&[xr_d, xg_d, xb_d]);
    let s_dst = m_dst.try_inverse().unwrap() * w_d;
    let m_dst = m_dst * Matrix3::from_diagonal(&s_dst);

    m_dst.try_inverse().unwrap() * m_src
}

fn rgb(r: f32, g: f32, b: f32) -> [F32; 3] {
    [F32(r), F32(g), F32(b)]
}

fn image(width: usize, height: usize, f: impl Fn(usize) -> f32) -> LoadedExr<F32> {
    let samples: Vec<F32> = (0..4 * width * height).map(|i| F32(f(i))).collect();
    LoadedExr::new(width, height, samples).unwrap()
}

#[test]
fn gamma_applies_inverse_power() {
    let rgb = [F32(0.25_f32), F32(0.25_f32), F32(0.25_f32)];
    let out = apply_gamma(rgb, F32(2.0));
    assert!((out[0].0 - 0.5).abs() < 1e-6);
    assert!((out[1].0 - 0.5).abs() < 1e-6);
    assert!((out[2].0 - 0.5).abs() < 1e-6);
}

#[test]
fn gamma_zero_is_identity() {
    let rgb = [F32(0.1_f32), F32(0.2_f32), F32(0.3_f32)];
    let out = apply_gamma(rgb, F32(0.0));
    assert_eq!(out, rgb);
}

#[test]
fn gamma_is_undone_by_its_reciprocal() {
    for gamma in [0.5f32, 1.0, 1.8, 2.2, 2.4, 3.0] {
        for i in 0..=20 {
            let x = i as f32 / 20.0;
            let there = apply_gamma(rgb(x, x, x), F32(gamma));
            let back = apply_gamma(there, F32(1.0 / gamma));
            assert!((back[0].0 - x).abs() < 1e-6);
        }
    }
}

#[test]
fn gamma_holds_negative_values_at_zero() {
    let out = apply_gamma(rgb(-0.5, 0.0, 4.0), F32(2.0));
    assert_eq!(out, rgb(0.0, 0.0, 2.0));
}

#[test]
fn a_tone_curve_decodes_and_encodes_again() {
    let out = apply_tone_curve(rgb(0.5, 0.0, 1.0), TransferFn::Srgb, TransferFn::Linear);
    assert!((out[0].0 as f64 - tf_decode(0.5, TransferFn::Srgb)).abs() < 1e-7);
    assert_eq!((out[1].0, out[2].0), (0.0, 1.0));
    let out = apply_tone_curve(rgb(0.25, 0.5, 0.75), TransferFn::Gamma22, TransferFn::Gamma22);
    assert!((out[0].0 - 0.25).abs() < 1e-6 && (out[2].0 - 0.75).abs() < 1e-6);
    let out = apply_tone_curve(rgb(0.5, 0.5, 0.5), TransferFn::Linear, TransferFn::Gamma24);
    assert!((out[0].0 - 0.5f32.powf(1.0 / 2.4)).abs() < 1e-6);
    let out = apply_tone_curve(rgb(0.2, 0.4, 0.6), TransferFn::Linear, TransferFn::Linear);
    assert_eq!(out, rgb(0.2, 0.4, 0.6));
}

#[test]
fn lut_1d_identity() {
    let cube = "TITLE \"id\"\nLUT_1D_SIZE 2\nDOMAIN_MIN 0.0 0.0 0.0\nDOMAIN_MAX 1.0 1.0 1.0\n0.0 0.0 0.0\n1.0 1.0 1.0\n";
    let lut: Lut<F32> = parse_cube(cube).expect("parse 1D LUT");
    let c = [0.2_f32, 0.4_f32, 0.8_f32];
    let out = lut.apply(rgb(c[0], c[1], c[2]));
    for i in 0..3 {
        assert!((out[i].0 - c[i]).abs() < 1e-6);
    }
}

#[test]
fn lut_3d_identity() {
    let cube = "TITLE \"id3d\"\nLUT_3D_SIZE 2\nDOMAIN_MIN 0.0 0.0 0.0\nDOMAIN_MAX 1.0 1.0 1.0\n0.0 0.0 0.0\n1.0 0.0 0.0\n0.0 1.0 0.0\n1.0 1.0 0.0\n0.0 0.0 1.0\n1.0 0.0 1.0\n0.0 1.0 1.0\n1.0 1.0 1.0\n";
    let lut: Lut<F32> = parse_cube(cube).expect("parse 3D LUT");
    let c = [0.2_f32, 0.3_f32, 0.4_f32];
    let out = lut.apply(rgb(c[0], c[1], c[2]));
    for i in 0..3 {
        assert!((out[i].0 - c[i]).abs() < 1e-6);
    }
}

#[test]
fn lut_1d_identity_without_header_lines() {
    let lut: Lut<F32> = parse_cube("LUT_1D_SIZE 2\n0.0 0.0 0.0\n1.0 1.0 1.0\n").unwrap();
    let out = lut.apply(rgb(0.2, 0.4, 0.8));
    assert!((out[0].0 - 0.2).abs() < 1e-6);
    assert!((out[1].0 - 0.4).abs() < 1e-6);
    assert!((out[2].0 - 0.8).abs() < 1e-6);
}

#[test]
fn identity_cube_of_any_size_is_identity() {
    for n in 2usize..7 {
        let mut text = format!("LUT_3D_SIZE {}\n", n);
        for i in 0..n * n * n {
            let (r, g, b) = lattice_of(n, i);
            let d = (n - 1) as f64;
            text.push_str(&format!("{:.10} {:.10} {:.10}\n", r as f64 / d, g as f64 / d, b as f64 / d));
        }
        let lut: Lut<F32> = parse_cube(&text).expect("identity cube");
        for x in [[0.0f32, 0.0, 0.0], [1.0, 1.0, 1.0], [0.13, 0.57, 0.91], [1.0, 0.0, 0.5]] {
            let out = lut.apply(rgb(x[0], x[1], x[2]));
            for i in 0..3 {
                assert!((out[i].0 - x[i]).abs() < 1e-6);
            }
        }
    }
}

#[test]
fn identity_shaper_of_any_size_is_identity() {
    for n in 2usize..9 {
        let mut text = format!("LUT_1D_SIZE {}\n", n);
        for i in 0..n {
            let v = i as f64 / (n - 1) as f64;
            text.push_str(&format!("{:.10} {:.10} {:.10}\n", v, v, v));
        }
        let lut: Lut<F32> = parse_cube(&text).expect("identity shaper");
        for x in [[0.0f32, 0.25, 1.0], [0.33, 0.66, 0.99]] {
            let out = lut.apply(rgb(x[0], x[1], x[2]));
            for i in 0..3 {
                assert!((out[i].0 - x[i]).abs() < 1e-6);
            }
        }
    }
}

#[test]
fn a_table_clamps_its_input_to_the_unit_range() {
    let lut: Lut<F32> = parse_cube("LUT_1D_SIZE 2\n0.25 0.25 0.25\n0.75 0.75 0.75\n").unwrap();
    assert_eq!(lut.apply(rgb(-3.0, 0.5, 7.0)), rgb(0.25, 0.5, 0.75));
}

#[test]
fn the_shaper_runs_before_the_cube() {
    // the shaper inverts, the cube doubles the red row index
    let text = "LUT_1D_SIZE 2\n1 1 1\n0 0 0\nLUT_3D_SIZE 2\n0 0 0\n2 0 0\n0 0 0\n2 0 0\n0 0 0\n2 0 0\n0 0 0\n2 0 0\n";
    let lut: Lut<F32> = parse_cube(text).unwrap();
    let out = lut.apply(rgb(0.25, 0.0, 0.0));
    assert!((out[0].0 - 1.5).abs() < 1e-6);
}

#[test]
fn each_channel_goes_through_its_own_shaper_column() {
    let lut: Lut<F32> = parse_cube("LUT_1D_SIZE 2\n0 10 20\n1 11 21\n").unwrap();
    assert_eq!(lut.apply(rgb(0.5, 0.5, 0.5)), rgb(0.5, 10.5, 20.5));
}

#[test]
fn cube_entries_follow_red_fastest_order() {
    let mut text = String::from("LUT_3D_SIZE 3\n");
    for i in 0..27 {
        text.push_str(&format!("{} 0 0\n", i));
    }
    let lut: Lut<F32> = parse_cube(&text).unwrap();
    assert_eq!(lut.cube_size(), 3);
    assert_eq!(lut.cube_entry(1, 2, 0), Some(rgb(7.0, 0.0, 0.0)));
    assert_eq!(lut.cube_entry(2, 1, 2), Some(rgb(23.0, 0.0, 0.0)));
    assert_eq!(lut.cube_entry(0, 0, 1), Some(rgb(9.0, 0.0, 0.0)));
    assert_eq!(lut.cube_entry(3, 0, 0), None);
    assert_eq!(exrtool_core::cube_index(3, 2, 1, 2), 23);
    assert_eq!(lattice_of(3, 23), (2, 1, 2));
    assert_eq!(lut.apply(rgb(1.0, 0.5, 1.0)), rgb(23.0, 0.0, 0.0));
    assert_eq!(lut.apply(rgb(0.5, 1.0, 0.0)), rgb(7.0, 0.0, 0.0));
    assert_eq!(lut.apply(rgb(0.25, 0.0, 0.0)), rgb(0.5, 0.0, 0.0));
    assert_eq!(lut.apply(rgb(0.0, 0.25, 0.0)), rgb(1.5, 0.0, 0.0));
    assert_eq!(lut.apply(rgb(0.0, 0.0, 0.25)), rgb(4.5, 0.0, 0.0));
}

#[test]
fn cube_corners_clamp_at_the_last_plane() {
    let mut text = String::from("LUT_3D_SIZE 2\n");
    for i in 0..8 {
        text.push_str(&format!("{} 0 0\n", i));
    }
    let lut: Lut<F32> = parse_cube(&text).unwrap();
    let firsts = |c: [[F32; 3]; 8]| c.iter().map(|e| e[0].0).collect::<Vec<f32>>();
    assert_eq!(firsts(lut.cube_corners(0, 0, 0).unwrap()), vec![0.0, 1.0, 2.0, 3.0, 4.0, 5.0, 6.0, 7.0]);
    assert_eq!(firsts(lut.cube_corners(1, 1, 1).unwrap()), vec![7.0; 8]);
    assert_eq!(firsts(lut.cube_corners(1, 0, 1).unwrap()), vec![5.0, 5.0, 7.0, 7.0, 5.0, 5.0, 7.0, 7.0]);
    assert!(lut.cube_corners(2, 0, 0).is_none());
    assert!(lut.cube_corners(0, 0, 2).is_none());
}

#[test]
fn shaper_pair_repeats_the_last_row() {
    let lut: Lut<F32> = parse_cube("LUT_1D_SIZE 3\n0 0 0\n0.5 0.5 0.5\n1 1 1\n").unwrap();
    assert_eq!(lut.shaper_size(), 3);
    assert_eq!(lut.shaper_pair(0), Some((rgb(0.0, 0.0, 0.0), rgb(0.5, 0.5, 0.5))));
    assert_eq!(lut.shaper_pair(2), Some((rgb(1.0, 1.0, 1.0), rgb(1.0, 1.0, 1.0))));
    assert_eq!(lut.shaper_pair(3), None);
    assert_eq!(lut.shaper_entry(1), Some(rgb(0.5, 0.5, 0.5)));
    assert_eq!(lut.shaper_entry(3), None);
}

#[test]
fn lut_new_checks_both_lengths() {
    let z = rgb(0.0, 0.0, 0.0);
    assert_eq!(Lut::<F32>::new(0, vec![], 0, vec![]).err(), Some(LutParseError::MissingSize));
    assert!(Lut::new(1, vec![z; 1], 0, vec![]).is_ok());
    assert!(Lut::new(0, vec![], 1, vec![z; 1]).is_ok());
    assert!(Lut::new(2, vec![z; 2], 2, vec![z; 8]).is_ok());
    assert_eq!(Lut::new(2, vec![z; 1], 2, vec![z; 8]).err(), Some(LutParseError::ShaperLength));
    assert_eq!(Lut::new(2, vec![z; 2], 2, vec![z; 7]).err(), Some(LutParseError::CubeLength));
    assert_eq!(Lut::new(0, vec![z; 1], 0, vec![z; 1]).err(), Some(LutParseError::ShaperLength));
    assert_eq!(Lut::new(0, vec![], 0, vec![z; 1]).err(), Some(LutParseError::CubeLength));
}

#[test]
fn parse_cube_reports_each_kind_of_error() {
    assert_eq!(parse_cube::<F32>("LUT_1D_SIZE 1\n0 x 0\n").err(), Some(LutParseError::MalformedNumber));
    assert_eq!(parse_cube::<F32>("LUT_1D_SIZE 2\n0 0 0\n").err(), Some(LutParseError::ShaperLength));
    assert_eq!(parse_cube::<F32>("LUT_3D_SIZE 2\n0 0 0\n").err(), Some(LutParseError::CubeLength));
    assert_eq!(parse_cube::<F32>("0 0 0\n").err(), Some(LutParseError::MissingSize));
    assert_eq!(parse_cube::<F32>("").err(), Some(LutParseError::MissingSize));
    assert_eq!(parse_cube::<F32>("LUT_1D_SIZE 0\n").err(), Some(LutParseError::MissingSize));
}

#[test]
fn from_cube_file_reads_every_number() {
    let file = read_cube("LUT_1D_SIZE 1\n1 2.5 -3e2\n").unwrap();
    let lut: Lut<F64> = Lut::from_cube_file(&file).unwrap();
    assert_eq!(lut.shaper_entry(0), Some([F64(1.0), F64(2.5), F64(-300.0)]));
}

#[test]
fn lut_clone_keeps_the_tables() {
    let lut: Lut<F32> =
        parse_cube("LUT_1D_SIZE 2\n0 0 0\n1 1 1\nLUT_3D_SIZE 1\n0.5 0.25 0.125\n").unwrap();
    let copy = lut.clone();
    assert_eq!(copy.shaper_size(), 2);
    assert_eq!(copy.cube_size(), 1);
    assert_eq!(copy.cube_entry(0, 0, 0), Some(rgb(0.5, 0.25, 0.125)));
    assert_eq!(copy.shaper_entry(1), Some(rgb(1.0, 1.0, 1.0)));
}

#[test]
fn matrix_srgb_to_rec2020_matches_manual() {
    let lut_str = make_3d_lut_cube::<F64>(
        Primaries::SrgbD65,
        TransferFn::Linear,
        Primaries::Rec2020D65,
        TransferFn::Linear,
        2,
        0,
        ClipMode::NoClip,
    )
    .unwrap();
    let lut: Lut<F32> = parse_cube(&lut_str).unwrap();
    let m = rgb_to_rgb_matrix_manual(Primaries::SrgbD65, Primaries::Rec2020D65);

    let basis = [[1.0_f32, 0.0, 0.0], [0.0, 1.0, 0.0], [0.0, 0.0, 1.0]];
    for b in basis.iter() {
        let out = lut.apply(rgb(b[0], b[1], b[2]));
        let v = Vector3::new(b[0] as f64, b[1] as f64, b[2] as f64);
        let expected = m * v;
        assert!((out[0].0 as f64 - expected.x).abs() < 1e-6);
        assert!((out[1].0 as f64 - expected.y).abs() < 1e-6);
        assert!((out[2].0 as f64 - expected.z).abs() < 1e-6);
    }
}

#[test]
fn basis_vectors_give_the_matrix_columns_for_all_primaries() {
    let all = [Primaries::SrgbD65, Primaries::Rec2020D65, Primaries::ACEScgD60, Primaries::ACES2065_1D60];
    for src in all {
        for dst in all {
            let text = make_3d_lut_cube::<F64>(
                src,
                TransferFn::Linear,
                dst,
                TransferFn::Linear,
                2,
                0,
                ClipMode::NoClip,
            )
            .unwrap();
            let lut: Lut<F64> = parse_cube(&text).unwrap();
            let m = rgb_to_rgb_matrix::<F64>(src, dst).unwrap();
            for i in 0..3 {
                let mut e = [F64(0.0); 3];
                e[i] = F64(1.0);
                let out = lut.apply(e);
                for row in 0..3 {
                    assert!((out[row].0 - m[(row, i)]).abs() < 1e-6);
                }
            }
        }
    }
}

#[test]
fn the_matrix_skips_adaptation_for_a_shared_white_point() {
    let m = rgb_to_rgb_matrix::<F64>(Primaries::SrgbD65, Primaries::Rec2020D65).unwrap();
    let manual = rgb_to_rgb_matrix_manual(Primaries::SrgbD65, Primaries::Rec2020D65);
    assert!((m - manual).abs().max() < 1e-12);
    assert!((m[(0, 0)] - 0.6274).abs() < 1e-3);
    let same = rgb_to_rgb_matrix::<F64>(Primaries::ACEScgD60, Primaries::ACEScgD60).unwrap();
    assert!((same - Matrix3::identity()).abs().max() < 1e-12);
    let adapted = rgb_to_rgb_matrix::<F64>(Primaries::ACEScgD60, Primaries::SrgbD65).unwrap();
    let unadapted = rgb_to_rgb_matrix_manual(Primaries::ACEScgD60, Primaries::SrgbD65);
    assert!((adapted - unadapted).abs().max() > 1e-3);
    // white stays white
    let w = adapted * Vector3::new(1.0, 1.0, 1.0);
    assert!((w - Vector3::new(1.0, 1.0, 1.0)).abs().max() < 2e-3);
}

#[test]
fn chromaticities_are_the_tabulated_ones() {
    let expect = [
        (Primaries::SrgbD65, [0.640, 0.330, 0.300, 0.600, 0.150, 0.060, 0.3127, 0.3290]),
        (Primaries::Rec2020D65, [0.708, 0.292, 0.170, 0.797, 0.131, 0.046, 0.3127, 0.3290]),
        (Primaries::ACEScgD60, [0.713, 0.293, 0.165, 0.830, 0.128, 0.044, 0.32168, 0.33767]),
        (
            Primaries::ACES2065_1D60,
            [0.73470, 0.26530, 0.00000, 1.00000, 0.00010, -0.07700, 0.32168, 0.33767],
        ),
    ];
    for (p, e) in expect {
        let c = primaries_of(p);
        let got = [c.rx, c.ry, c.gx, c.gy, c.bx, c.by, c.wx, c.wy];
        for i in 0..8 {
            assert_eq!(unit(got[i]), e[i]);
        }
    }
}

#[test]
fn white_points_are_shared_within_an_illuminant_only() {
    assert!(shares_white(Primaries::SrgbD65, Primaries::Rec2020D65));
    assert!(shares_white(Primaries::ACEScgD60, Primaries::ACES2065_1D60));
    assert!(shares_white(Primaries::SrgbD65, Primaries::SrgbD65));
    assert!(!shares_white(Primaries::SrgbD65, Primaries::ACEScgD60));
    assert!(!shares_white(Primaries::ACES2065_1D60, Primaries::Rec2020D65));
}

#[test]
fn bradford_coefficients_are_the_tabulated_ones() {
    let m = [[0.8951, 0.2664, -0.1614], [-0.7502, 1.7135, 0.0367], [0.0389, -0.0685, 1.0296]];
    let inv = [
        [0.9869929, -0.1470543, 0.1599627],
        [0.4323053, 0.5183603, 0.0492912],
        [-0.0085287, 0.0400428, 0.9684867],
    ];
    let (b, bi) = (bradford(), bradford_inverse());
    for i in 0..3 {
        for j in 0..3 {
            assert_eq!(b[i][j] as f64 / BRADFORD_UNIT as f64, m[i][j]);
            assert_eq!(bi[i][j] as f64 / BRADFORD_UNIT as f64, inv[i][j]);
        }
    }
}

#[test]
fn a_generated_cube_reads_back_within_a_billionth() {
    let text = make_3d_lut_cube::<F64>(
        Primaries::ACES2065_1D60,
        TransferFn::Linear,
        Primaries::SrgbD65,
        TransferFn::Srgb,
        5,
        7,
        ClipMode::NoClip,
    )
    .unwrap();
    let lut: Lut<F64> = parse_cube(&text).unwrap();
    assert_eq!((lut.shaper_size(), lut.cube_size()), (7, 5));
    let m = rgb_to_rgb_matrix::<F64>(Primaries::ACES2065_1D60, Primaries::SrgbD65).unwrap();
    for i in 0..125 {
        let (r, g, b) = lattice_of(5, i);
        let v = m * Vector3::new(r as f64 / 4.0, g as f64 / 4.0, b as f64 / 4.0);
        let row = lut.cube_entry(r, g, b).unwrap();
        assert!((row[0].0 - tf_encode(v.x, TransferFn::Srgb)).abs() < 1e-9);
        assert!((row[1].0 - tf_encode(v.y, TransferFn::Srgb)).abs() < 1e-9);
        assert!((row[2].0 - tf_encode(v.z, TransferFn::Srgb)).abs() < 1e-9);
    }
    for i in 0..7 {
        let row = lut.shaper_entry(i).unwrap();
        assert!((row[0].0 - i as f64 / 6.0).abs() < 1e-9);
        assert_eq!(row[0], row[1]);
        assert_eq!(row[1], row[2]);
    }
}

#[test]
fn clipping_holds_the_cube_to_the_unit_range() {
    let make = |clip| {
        make_3d_lut_cube::<F64>(
            Primaries::Rec2020D65,
            TransferFn::Linear,
            Primaries::SrgbD65,
            TransferFn::Linear,
            2,
            0,
            clip,
        )
        .unwrap()
    };
    let clipped: Lut<F64> = parse_cube(&make(ClipMode::Clip)).unwrap();
    let raw: Lut<F64> = parse_cube(&make(ClipMode::NoClip)).unwrap();
    let red = raw.cube_entry(1, 0, 0).unwrap();
    assert!(red[0].0 > 1.0 && red[1].0 < 0.0);
    let red = clipped.cube_entry(1, 0, 0).unwrap();
    assert_eq!((red[0].0, red[1].0), (1.0, 0.0));
}

#[test]
fn a_1d_table_holds_the_transfer_curve() {
    let text = make_1d_lut::<F32>(ColorSpace::Linear, ColorSpace::Srgb, 3);
    assert_eq!(
        text,
        "TITLE \"exrtool 1D LUT\"\nLUT_1D_SIZE 3\nDOMAIN_MIN 0.0 0.0 0.0\nDOMAIN_MAX 1.0 1.0 1.0\n\
         0.0000000000 0.0000000000 0.0000000000\n0.7353569865 0.7353569865 0.7353569865\n\
         1.0000000000 1.0000000000 1.0000000000\n"
    );
    let text = make_1d_lut::<F64>(ColorSpace::Srgb, ColorSpace::Srgb, 2);
    assert_eq!(text.lines().nth(4), Some("0.0000000000 0.0000000000 0.0000000000"));
    assert_eq!(text.lines().nth(5), Some("1.0000000000 1.0000000000 1.0000000000"));
    let back: Lut<F64> = parse_cube(&make_1d_lut::<F64>(ColorSpace::Srgb, ColorSpace::Linear, 5)).unwrap();
    assert!((back.shaper_entry(2).unwrap()[0].0 - tf_decode(0.5, TransferFn::Srgb)).abs() < 1e-9);
    assert_eq!(make_1d_lut::<F32>(ColorSpace::Linear, ColorSpace::Srgb, 0).lines().count(), 4);
    assert_eq!(make_1d_lut::<F32>(ColorSpace::Linear, ColorSpace::Srgb, 1).lines().count(), 5);
}

#[test]
fn a_3d_table_of_edge_two_is_written_line_by_line() {
    let text = make_3d_lut_cube::<F64>(
        Primaries::SrgbD65,
        TransferFn::Linear,
        Primaries::SrgbD65,
        TransferFn::Linear,
        2,
        2,
        ClipMode::Clip,
    )
    .unwrap();
    let lines: Vec<&str> = text.lines().collect();
    assert_eq!(lines[0], "TITLE \"exrtool 3D LUT\"");
    assert_eq!(lines[1], "LUT_1D_SIZE 2");
    assert_eq!(lines[2], "DOMAIN_MIN 0.0 0.0 0.0");
    assert_eq!(lines[3], "DOMAIN_MAX 1.0 1.0 1.0");
    assert_eq!(lines[4], "0.0000000000 0.0000000000 0.0000000000");
    assert_eq!(lines[5], "1.0000000000 1.0000000000 1.0000000000");
    assert_eq!(lines[6], "LUT_3D_SIZE 2");
    assert_eq!(lines[7], "DOMAIN_MIN 0.0 0.0 0.0");
    assert_eq!(lines[8], "DOMAIN_MAX 1.0 1.0 1.0");
    assert_eq!(lines.len(), 17);
    let cube: Vec<Vec<f64>> = lines[9..]
        .iter()
        .map(|l| l.split(' ').map(|t| t.parse::<f64>().unwrap()).collect())
        .collect();
    for (i, row) in cube.iter().enumerate() {
        let (r, g, b) = lattice_of(2, i);
        assert!((row[0] - r as f64).abs() < 1e-9);
        assert!((row[1] - g as f64).abs() < 1e-9);
        assert!((row[2] - b as f64).abs() < 1e-9);
    }
}

#[test]
fn a_refused_report_cancels_the_generator_without_output() {
    let seen = RefCell::new(Vec::new());
    let r = make_3d_lut_cube_progress::<F64, _>(
        Primaries::SrgbD65,
        TransferFn::Linear,
        Primaries::Rec2020D65,
        TransferFn::Linear,
        2,
        0,
        ClipMode::NoClip,
        |done, total| {
            seen.borrow_mut().push((done, total));
            false
        },
    );
    assert_eq!(r, Err(Error::Cancelled));
    assert_eq!(*seen.borrow(), vec![(8, 8)]);
}

#[test]
fn a_refusal_after_the_first_report_cancels_the_generator() {
    let seen = RefCell::new(Vec::new());
    let r = make_3d_lut_cube_progress::<F64, _>(
        Primaries::SrgbD65,
        TransferFn::Srgb,
        Primaries::Rec2020D65,
        TransferFn::Gamma24,
        13,
        4,
        ClipMode::Clip,
        |done, total| {
            seen.borrow_mut().push((done, total));
            seen.borrow().len() < 2
        },
    );
    assert_eq!(r, Err(Error::Cancelled));
    assert_eq!(*seen.borrow(), vec![(1000, 2197), (2000, 2197)]);
}

#[test]
fn reports_that_allow_everything_give_the_same_text() {
    let seen = RefCell::new(Vec::new());
    let with = make_3d_lut_cube_progress::<F64, _>(
        Primaries::ACEScgD60,
        TransferFn::Linear,
        Primaries::SrgbD65,
        TransferFn::Srgb,
        11,
        16,
        ClipMode::Clip,
        |done, total| {
            seen.borrow_mut().push((done, total));
            true
        },
    );
    let without = make_3d_lut_cube::<F64>(
        Primaries::ACEScgD60,
        TransferFn::Linear,
        Primaries::SrgbD65,
        TransferFn::Srgb,
        11,
        16,
        ClipMode::Clip,
    );
    assert!(with.is_ok());
    assert_eq!(with, without);
    assert_eq!(*seen.borrow(), vec![(1000, 1331), (1331, 1331)]);
}

#[test]
fn a_cube_that_cannot_be_addressed_is_rejected() {
    let r = make_3d_lut_cube::<F64>(
        Primaries::SrgbD65,
        TransferFn::Linear,
        Primaries::SrgbD65,
        TransferFn::Linear,
        usize::MAX / 2,
        0,
        ClipMode::Clip,
    );
    assert_eq!(r, Err(Error::InvalidInput(InvalidInput::CubeTooLarge)));
}

#[test]
fn a_matrix_without_an_inverse_is_reported() {
    assert_eq!(
        rgb_to_rgb_matrix::<Broken>(Primaries::SrgbD65, Primaries::Rec2020D65).err(),
        Some(Error::InternalInvariant)
    );
    let r = make_3d_lut_cube::<Broken>(
        Primaries::SrgbD65,
        TransferFn::Linear,
        Primaries::Rec2020D65,
        TransferFn::Linear,
        2,
        0,
        ClipMode::NoClip,
    );
    assert_eq!(r, Err(Error::InternalInvariant));
}

#[test]
fn a_resampled_buffer_of_the_wrong_length_is_reported() {
    let samples: Vec<Broken> = (0..32).map(|i| Broken(F64(i as f64))).collect();
    let img = LoadedExr::new(4, 2, samples).unwrap();
    let z = Broken(F64(0.0));
    assert_eq!(
        generate_preview(&img, 2, z, z, None, PreviewQuality::High).err(),
        Some(InvalidInput::BufferLength)
    );
    assert!(generate_preview(&img, 2, z, z, None, PreviewQuality::Fast).is_ok());
}

#[test]
fn a_position_beyond_the_table_is_held_at_the_last_entry() {
    let lut: Lut<Broken> = parse_cube("LUT_1D_SIZE 2\n0 0 0\n1 2 3\nLUT_3D_SIZE 2\n0 0 0\n0 0 0\n0 0 0\n0 0 0\n0 0 0\n0 0 0\n0 0 0\n5 6 7\n").unwrap();
    let x = Broken(F64(0.5));
    let out = lut.apply([x, x, x]);
    assert_eq!([out[0].0 .0, out[1].0 .0, out[2].0 .0], [5.0, 6.0, 7.0]);
}

#[test]
fn an_image_that_fits_is_taken_as_it_is() {
    // a neighbour that is not finite must not touch the pixel beside it
    let img = image(2, 1, |i| [0.5, 0.5, 0.5, 1.0, f32::INFINITY, f32::NAN, 1.0, 1.0][i]);
    for quality in [PreviewQuality::Fast, PreviewQuality::High] {
        let out = generate_preview(&img, 2, F32(0.0), F32(0.0), None, quality).unwrap();
        assert_eq!((out.width, out.height), (2, 1));
        assert_eq!(out.rgba8, vec![188, 188, 188, 255, 255, 0, 255, 255]);
    }
    let out = generate_preview_progress(&img, 8, F32(0.0), F32(0.0), None, |_, _| true).unwrap();
    assert_eq!(out.rgba8, vec![188, 188, 188, 255, 255, 0, 255, 255]);
}

#[test]
fn an_image_that_fits_is_not_resampled() {
    let samples: Vec<Broken> = (0..32).map(|i| Broken(F64(i as f64 / 32.0))).collect();
    let img = LoadedExr::new(4, 2, samples).unwrap();
    let z = Broken(F64(0.0));
    let high = generate_preview(&img, 4, z, z, None, PreviewQuality::High).unwrap();
    let fast = generate_preview(&img, 4, z, z, None, PreviewQuality::Fast).unwrap();
    assert_eq!((high.width, high.height), (4, 2));
    assert_eq!(high.rgba8, fast.rgba8);
    assert_eq!(high.rgba8[0..4], [0, F64(1.0 / 32.0).srgb_encode(), F64(2.0 / 32.0).srgb_encode(), 24]);
}

#[test]
fn a_preview_encodes_every_pixel_for_the_display() {
    let img = image(2, 1, |i| [0.0, 0.5, 1.0, 1.0, 0.25, 2.0, -1.0, 0.5][i]);
    let out = generate_preview(&img, 8, F32(0.0), F32(0.0), None, PreviewQuality::Fast).unwrap();
    assert_eq!((out.width, out.height), (2, 1));
    assert_eq!(out.rgba8, vec![0, 188, 255, 255, 137, 255, 0, 128]);
}

#[test]
fn srgb_encoding_of_black_white_and_middle_grey() {
    assert_eq!(F32(0.0).srgb_encode(), 0);
    assert_eq!(F32(1.0).srgb_encode(), 255);
    assert_eq!(F32(0.5).srgb_encode(), 188);
}

#[test]
fn a_preview_applies_exposure_then_table_then_gamma() {
    let img = image(1, 1, |i| [0.25, 0.25, 0.25, 0.5][i]);
    // one stop up gives 0.5; the table squares nothing but maps 0.5 to 0.25; gamma 2 gives 0.5
    let lut: Lut<F32> = parse_cube("LUT_1D_SIZE 3\n0 0 0\n0.25 0.25 0.25\n1 1 1\n").unwrap();
    let out =
        generate_preview(&img, 4, F32(1.0), F32(2.0), Some(&lut), PreviewQuality::Fast).unwrap();
    assert_eq!(out.rgba8, vec![188, 188, 188, 128]);
    let out = generate_preview(&img, 4, F32(1.0), F32(2.0), None, PreviewQuality::Fast).unwrap();
    let expect = F32(0.5f32.powf(0.5)).srgb_encode();
    assert_eq!(out.rgba8, vec![expect, expect, expect, 128]);
}

#[test]
fn a_fast_preview_interpolates_between_neighbours() {
    // three pixels in a row shrunk to two: positions 0 and 1.5
    let img = image(3, 1, |i| [0.0, 0.0, 0.0, 1.0, 0.2, 0.2, 0.2, 1.0, 0.6, 0.6, 0.6, 0.0][i]);
    let out = generate_preview(&img, 2, F32(0.0), F32(0.0), None, PreviewQuality::Fast).unwrap();
    assert_eq!((out.width, out.height), (2, 1));
    let mid = F32(0.4).srgb_encode();
    assert_eq!(out.rgba8, vec![0, 0, 0, 255, mid, mid, mid, 128]);
}

#[test]
fn a_high_quality_preview_has_the_size_of_a_fast_one() {
    let img = image(8, 4, |i| (i % 7) as f32 / 7.0);
    let fast = generate_preview(&img, 4, F32(0.0), F32(2.2), None, PreviewQuality::Fast).unwrap();
    let high = generate_preview(&img, 4, F32(0.0), F32(2.2), None, PreviewQuality::High).unwrap();
    assert_eq!((fast.width, fast.height), (4, 2));
    assert_eq!((high.width, high.height), (4, 2));
    assert_eq!(high.rgba8.len(), 32);
    let full = generate_preview(&img, 64, F32(0.0), F32(2.2), None, PreviewQuality::High).unwrap();
    let same = generate_preview(&img, 64, F32(0.0), F32(2.2), None, PreviewQuality::Fast).unwrap();
    assert_eq!(full.rgba8, same.rgba8);
}

#[test]
fn two_previews_of_one_image_are_bitwise_the_same() {
    let img = image(37, 23, |i| ((i * 2654435761) % 1000) as f32 / 500.0 - 0.5);
    let lut: Lut<F32> = parse_cube(
        &make_3d_lut_cube::<F64>(
            Primaries::ACEScgD60,
            TransferFn::Linear,
            Primaries::SrgbD65,
            TransferFn::Srgb,
            5,
            0,
            ClipMode::Clip,
        )
        .unwrap(),
    )
    .unwrap();
    for quality in [PreviewQuality::Fast, PreviewQuality::High] {
        let a = generate_preview(&img, 16, F32(0.5), F32(2.2), Some(&lut), quality).unwrap();
        let b = generate_preview(&img, 16, F32(0.5), F32(2.2), Some(&lut), quality).unwrap();
        assert_eq!((a.width, a.height), (16, 10));
        assert_eq!(a.rgba8, b.rgba8);
    }
}

#[test]
fn an_empty_image_has_no_preview() {
    let img: LoadedExr<F32> = LoadedExr::new(0, 3, Vec::new()).unwrap();
    assert_eq!(
        generate_preview(&img, 16, F32(0.0), F32(2.2), None, PreviewQuality::Fast).err(),
        Some(InvalidInput::EmptyImage)
    );
    assert_eq!(
        generate_preview(&img, 16, F32(0.0), F32(2.2), None, PreviewQuality::High).err(),
        Some(InvalidInput::EmptyImage)
    );
    assert_eq!(
        generate_preview_progress(&img, 16, F32(0.0), F32(2.2), None, |_, _| true).err(),
        Some(Error::InvalidInput(InvalidInput::EmptyImage))
    );
}

#[test]
fn a_preview_reports_each_row_and_can_be_cancelled() {
    let img = image(4, 3, |i| i as f32 / 48.0);
    let seen = RefCell::new(Vec::new());
    let out = generate_preview_progress(&img, 16, F32(0.0), F32(2.2), None, |row, rows| {
        seen.borrow_mut().push((row, rows));
        true
    });
    assert_eq!(
        out.map(|p| p.rgba8),
        generate_preview(&img, 16, F32(0.0), F32(2.2), None, PreviewQuality::Fast)
            .map(|p| p.rgba8)
            .map_err(Error::InvalidInput)
    );
    assert_eq!(*seen.borrow(), vec![(1, 3), (2, 3), (3, 3)]);
    let seen = RefCell::new(0u32);
    let out = generate_preview_progress(&img, 16, F32(0.0), F32(2.2), None, |row, _| {
        *seen.borrow_mut() = row;
        row < 2
    });
    assert_eq!(out.err(), Some(Error::Cancelled));
    assert_eq!(*seen.borrow(), 2);
}

#[test]
fn double_precision_is_exact_where_the_table_laws_need_it() {
    for n in [2usize, 3, 5, 17, 33, 1024] {
        assert_eq!(F64(1.0).locate(n), (n - 1, F64(0.0)));
        assert_eq!(F64(0.0).locate(n), (0, F64(0.0)));
        assert_eq!(F64::ratio(0, n), F64(0.0));
        assert_eq!(F64::ratio(n, n), F64(1.0));
        for i in 0..n {
            // a position of the table is found at its entry, no way beyond it
            let (below, t) = F64::ratio(i, n - 1).locate(n);
            let lo = F64::ratio(below, n - 1);
            let hi = F64::ratio((below + 1).min(n - 1), n - 1);
            assert!((lo.lerp(hi, t).0 - i as f64 / (n - 1) as f64).abs() < 1e-12);
        }
    }
    for a in [-3.5f64, 0.0, 0.1, 1.0, 7.25e10] {
        for t in [0.0f64, 0.3, 1.0] {
            assert_eq!(F64(a).lerp(F64(a), F64(t)), F64(a));
        }
        assert_eq!(F64(a).lerp(F64(2.0 * a + 1.0), F64(0.0)), F64(a));
        assert_eq!(F64(a).tf_decode(TransferFn::Linear), F64(a));
        assert_eq!(F64(a).tf_encode(TransferFn::Linear), F64(a));
        let back = F64::parse(&F64(a).format()).unwrap();
        assert!((back.0 - a).abs() <= 1e-9 * a.abs().max(1.0));
    }
}

#[test]
fn srgb_bytes_decode_to_within_two_steps_of_the_input() {
    for i in 0..=1000 {
        let x = i as f64 / 1000.0;
        let byte = F64(x).srgb_encode();
        let back = tf_decode(byte as f64 / 255.0, TransferFn::Srgb);
        assert!((back - x).abs() <= 2.0 / 255.0);
    }
}
