use exrtool_core::{
    bilinear_sample, compute_image_stats, preview_size, render_preview, shade_pixels,
    BilinearSample, Cancelled, InvalidInput, LinearPixel, LoadedExr, PreviewImage, Rgba8,
};

fn generate_preview(img: &LoadedExr<f32>, max_size: u32, shade: fn(BilinearSample<f32>) -> Rgba8) -> PreviewImage {
    render_preview(img, max_size, shade, |_, _| true).unwrap()
}

fn image(width: usize, height: usize) -> LoadedExr<f32> {
    let samples: Vec<f32> = (0..4 * width * height).map(|i| i as f32).collect();
    LoadedExr::new(width, height, samples).unwrap()
}

fn byte(v: f32) -> u8 {
    v.round().clamp(0.0, 255.0) as u8
}

fn lerp(a: f32, b: f32, t: f32) -> f32 {
    a + (b - a) * t
}

fn shade(s: BilinearSample<f32>) -> Rgba8 {
    let tx = s.tx_num as f32 / s.tx_den as f32;
    let ty = s.ty_num as f32 / s.ty_den as f32;
    let mix = |f: fn(&LinearPixel<f32>) -> f32| {
        lerp(lerp(f(&s.p00), f(&s.p10), tx), lerp(f(&s.p01), f(&s.p11), tx), ty)
    };
    Rgba8 { r: byte(mix(|p| p.r)), g: byte(mix(|p| p.g)), b: byte(mix(|p| p.b)), a: byte(mix(|p| p.a)) }
}

#[test]
fn an_image_that_fits_keeps_its_size() {
    assert_eq!(preview_size(100, 50, 2048), (100, 50));
    assert_eq!(preview_size(2048, 2048, 2048), (2048, 2048));
    assert_eq!(preview_size(1, 1, 1), (1, 1));
}

#[test]
fn the_longer_side_becomes_the_maximum() {
    assert_eq!(preview_size(4000, 2000, 2048), (2048, 1024));
    assert_eq!(preview_size(2000, 4000, 2048), (1024, 2048));
    assert_eq!(preview_size(5, 3, 2), (2, 1));
    assert_eq!(preview_size(3, 3, 2), (2, 2));
    assert_eq!(preview_size(4096, 2304, 1024), (1024, 576));
    assert_eq!(preview_size(1920, 1080, 500), (500, 281));
}

#[test]
fn a_half_rounds_upwards_and_no_side_vanishes() {
    assert_eq!(preview_size(4, 1, 2), (2, 1));
    assert_eq!(preview_size(6, 1, 2), (2, 1));
    assert_eq!(preview_size(1000, 3, 10), (10, 1));
    assert_eq!(preview_size(3, 1000, 10), (1, 10));
    assert_eq!(preview_size(0, 0, 5), (1, 1));
    assert_eq!(preview_size(10, 10, 0), (1, 1));
    assert_eq!(preview_size(usize::MAX, 1, u32::MAX), (u32::MAX, 1));
}

#[test]
fn get_linear_reads_the_four_samples_of_a_pixel() {
    let img = image(3, 2);
    let p = img.get_linear(2, 1).unwrap();
    assert_eq!((p.r, p.g, p.b, p.a), (20.0, 21.0, 22.0, 23.0));
    let p = img.get_linear(0, 0).unwrap();
    assert_eq!((p.r, p.g, p.b, p.a), (0.0, 1.0, 2.0, 3.0));
    assert!(img.get_linear(3, 0).is_none());
    assert!(img.get_linear(0, 2).is_none());
    assert_eq!((img.width(), img.height(), img.samples().len()), (3, 2, 24));
}

#[test]
fn a_buffer_of_the_wrong_length_is_rejected() {
    assert_eq!(LoadedExr::new(2, 2, vec![0.0f32; 15]).err(), Some(InvalidInput::BufferLength));
    assert_eq!(LoadedExr::new(2, 2, vec![0.0f32; 17]).err(), Some(InvalidInput::BufferLength));
    assert_eq!(LoadedExr::new(0, 2, vec![0.0f32; 4]).err(), Some(InvalidInput::BufferLength));
    assert!(LoadedExr::new(2, 2, vec![0.0f32; 16]).is_ok());
    assert!(LoadedExr::new(0, 7, Vec::<f32>::new()).is_ok());
}

#[test]
fn bilinear_samples_lie_between_neighbouring_pixels() {
    let img = image(3, 1);
    // two output pixels for three source pixels: positions 0 and 1.5
    let s = bilinear_sample(&img, 2, 1, 0).unwrap();
    assert_eq!((s.p00.r, s.p10.r, s.p01.r, s.p11.r), (4.0, 8.0, 4.0, 8.0));
    assert_eq!((s.tx_num, s.tx_den), (1, 2));
    assert_eq!(s.ty_num, 0);
    let s = bilinear_sample(&img, 2, 0, 0).unwrap();
    assert_eq!((s.p00.r, s.p10.r), (0.0, 4.0));
    assert_eq!(s.tx_num, 0);
    assert!(bilinear_sample(&img, 2, 2, 0).is_none());
    assert!(bilinear_sample(&img, 2, 0, 1).is_none());
}

#[test]
fn bilinear_samples_at_full_size_are_the_pixels() {
    let img = image(2, 2);
    let s = bilinear_sample(&img, 8, 1, 1).unwrap();
    assert_eq!((s.p00.r, s.p10.r, s.p01.r, s.p11.r), (12.0, 12.0, 12.0, 12.0));
    assert_eq!((s.tx_num, s.tx_den, s.ty_num, s.ty_den), (0, 1, 0, 1));
    let s = bilinear_sample(&img, 8, 0, 0).unwrap();
    assert_eq!((s.p00.r, s.p10.r, s.p01.r, s.p11.r), (0.0, 4.0, 8.0, 12.0));
    let empty: LoadedExr<f32> = LoadedExr::new(0, 0, Vec::new()).unwrap();
    assert!(bilinear_sample(&empty, 8, 0, 0).is_none());
}

#[test]
fn a_preview_at_full_size_holds_every_pixel_in_row_order() {
    let img = image(3, 2);
    let out = generate_preview(&img, 16, shade);
    assert_eq!((out.width, out.height), (3, 2));
    let expect: Vec<u8> = (0..24).collect();
    assert_eq!(out.rgba8, expect);
}

#[test]
fn a_smaller_preview_interpolates() {
    let img = image(4, 2);
    let out = generate_preview(&img, 2, shade);
    assert_eq!((out.width, out.height), (2, 1));
    // source positions 0 and 2 of row 0
    assert_eq!(out.rgba8, vec![0, 1, 2, 3, 8, 9, 10, 11]);
    let img = image(3, 1);
    let out = generate_preview(&img, 2, shade);
    assert_eq!(out.rgba8, vec![0, 1, 2, 3, 6, 7, 8, 9]);
}

#[test]
fn two_previews_of_one_image_are_the_same() {
    let img = image(37, 23);
    let a = generate_preview(&img, 16, shade);
    let b = generate_preview(&img, 16, shade);
    assert_eq!((a.width, a.height), (16, 10));
    assert_eq!(a.rgba8.len(), 640);
    assert_eq!(a.rgba8, b.rgba8);
}

#[test]
fn rendering_reports_each_row_and_stops_when_refused() {
    let img = image(4, 4);
    let seen = std::cell::RefCell::new(Vec::new());
    let out = render_preview(&img, 2, shade, |row, rows| {
        seen.borrow_mut().push((row, rows));
        true
    });
    assert!(out.is_ok());
    assert_eq!(*seen.borrow(), vec![(1, 2), (2, 2)]);
    let out = render_preview(&img, 2, shade, |row, _| row < 1);
    assert_eq!(out.err(), Some(Cancelled));
}

#[test]
fn shading_keeps_size_and_order() {
    let img = image(2, 3);
    let out = shade_pixels(&img, |p: LinearPixel<f32>| Rgba8 {
        r: byte(p.a),
        g: byte(p.b),
        b: byte(p.g),
        a: byte(p.r),
    });
    assert_eq!((out.width, out.height), (2, 3));
    let expect: Vec<u8> = (0..6).flat_map(|k| [4 * k + 3, 4 * k + 2, 4 * k + 1, 4 * k]).collect();
    assert_eq!(out.rgba8, expect);
}

#[test]
fn a_histogram_of_256_bins_counts_each_value() {
    let preview = PreviewImage { width: 2, height: 2, rgba8: vec![0, 1, 2, 9, 0, 1, 255, 9, 7, 1, 2, 9, 0, 0, 0, 0] };
    let stats = compute_image_stats(&preview, 256).unwrap();
    assert_eq!(stats.hist_r[0], 3);
    assert_eq!(stats.hist_r[7], 1);
    assert_eq!(stats.hist_g[1], 3);
    assert_eq!(stats.hist_g[0], 1);
    assert_eq!(stats.hist_b[2], 2);
    assert_eq!(stats.hist_b[255], 1);
    assert_eq!(stats.hist_b[9], 0);
    assert_eq!(stats.hist_r.iter().sum::<u32>(), 4);
    assert_eq!(stats.hist_r.len(), 256);
}

#[test]
fn histogram_bins_round_to_the_nearest() {
    let px = |v: u8| PreviewImage { width: 1, height: 1, rgba8: vec![v, v, v, 255] };
    let bin = |v: u8, bins: usize| {
        compute_image_stats(&px(v), bins).unwrap().hist_r.iter().position(|&c| c == 1).unwrap()
    };
    assert_eq!(bin(127, 2), 0);
    assert_eq!(bin(128, 2), 1);
    assert_eq!(bin(255, 16), 15);
    assert_eq!(bin(8, 16), 0);
    assert_eq!(bin(9, 16), 1);
    assert_eq!(bin(255, 1000), 999);
    assert_eq!(bin(1, 1000), 4);
    for bins in 2usize..300 {
        let scale = (bins - 1) as f32 / 255.0;
        for v in 0u8..=255 {
            let expect = ((v as f32 * scale).round() as usize).min(bins - 1);
            assert_eq!(bin(v, bins), expect);
        }
    }
}

#[test]
fn a_histogram_needs_two_bins() {
    let preview = PreviewImage { width: 1, height: 1, rgba8: vec![1, 2, 3, 4] };
    assert_eq!(compute_image_stats(&preview, 0).err(), Some(InvalidInput::TooFewBins));
    assert_eq!(compute_image_stats(&preview, 1).err(), Some(InvalidInput::TooFewBins));
    assert!(compute_image_stats(&preview, 2).is_ok());
}

#[test]
fn a_histogram_ignores_bytes_after_the_last_whole_pixel() {
    let preview = PreviewImage { width: 1, height: 1, rgba8: vec![1, 2, 3, 4, 5, 6] };
    let stats = compute_image_stats(&preview, 256).unwrap();
    assert_eq!(stats.hist_r.iter().sum::<u32>(), 1);
    assert_eq!(stats.hist_r[5], 0);
}
