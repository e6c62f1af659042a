//! Verified core of an HDR preview and `.cube` look-up-table toolkit.
//!
//! The crate turns linear-light images into 8-bit previews, reads, applies
//! and generates `.cube` look-up tables, and counts histograms. It decides
//! where every sample comes from and where it goes: table layout and lattice
//! order, the `.cube` grammar, interpolation between neighbours, the order of
//! the pipeline's stages, progress reports and cancellation, preview geometry.
//! What computes with the value of a sample is asked of the sample type
//! through the traits of [`sample`], so every table and image is generic over
//! the number type that its user works in.

pub mod basis;
pub mod color;
pub mod convert;
pub mod cube;
pub mod determinism;
pub mod error;
pub mod generate;
pub mod identity;
pub mod linear;
pub mod lut;
pub mod number;
pub mod pipeline;
pub mod preview;
pub mod roundtrip;
pub mod rules;
pub mod sample;
pub mod stats;
pub mod text;

pub use crate::color::{
    bradford, bradford_inverse, primaries_of, shares_white, Chromaticities, ClipMode, ColorSpace,
    Primaries, ToneMapKind, ToneMapOrder, TransferFn, BRADFORD_UNIT, CHROMATICITY_UNIT,
};
pub use crate::convert::rgb_to_rgb_matrix;
pub use crate::cube::{read_cube, CubeFile, CubeRow};
pub use crate::error::{Cancelled, Error, InvalidInput, LutParseError};
pub use crate::generate::{
    compute_cube_rows, compute_rows, emit_1d_lut, emit_3d_lut, make_1d_lut, make_3d_lut_cube,
    make_3d_lut_cube_progress,
};
pub use crate::linear::{LinearPixel, LoadedExr};
pub use crate::lut::{cube_index, lattice_of, parse_cube, Lut};
pub use crate::pipeline::{
    apply_gamma, apply_tone_curve, blend, display_pixel, generate_preview,
    generate_preview_progress,
};
pub use crate::preview::{
    bilinear_sample, preview_size, render_preview, shade_pixels, BilinearSample, PreviewImage,
    PreviewQuality, Rgba8,
};
pub use crate::rules::{apply_rules, FileChange, ReplacementRule};
pub use crate::sample::{ColorMath, Sample};
pub use crate::stats::{compute_image_stats, ImageStats};
