use exrtool_core::rules::ReplacementRule;
use exrtool_core::{
    apply_rules, Cancelled, ClipMode, ColorSpace, Error, InvalidInput, LutParseError, Primaries,
    TransferFn,
};

#[test]
fn primaries_are_found_by_any_of_their_names() {
    assert_eq!(Primaries::from_name("srgb"), Ok(Primaries::SrgbD65));
    assert_eq!(Primaries::from_name("Rec709"), Ok(Primaries::SrgbD65));
    assert_eq!(Primaries::from_name("REC2020"), Ok(Primaries::Rec2020D65));
    assert_eq!(Primaries::from_name("bt2020"), Ok(Primaries::Rec2020D65));
    assert_eq!(Primaries::from_name("ACEScg"), Ok(Primaries::ACEScgD60));
    assert_eq!(Primaries::from_name("ap1"), Ok(Primaries::ACEScgD60));
    assert_eq!(Primaries::from_name("aces2065"), Ok(Primaries::ACES2065_1D60));
    assert_eq!(Primaries::from_name("AP0"), Ok(Primaries::ACES2065_1D60));
    assert_eq!(Primaries::from_name("aces"), Ok(Primaries::ACES2065_1D60));
    assert_eq!(Primaries::from_name("p3"), Err(InvalidInput::UnknownToken));
    assert_eq!(Primaries::from_name(""), Err(InvalidInput::UnknownToken));
    assert_eq!(Primaries::from_name(" srgb"), Err(InvalidInput::UnknownToken));
}

#[test]
fn transfer_functions_are_found_by_any_of_their_names() {
    assert_eq!(TransferFn::from_name("linear"), Ok(TransferFn::Linear));
    assert_eq!(TransferFn::from_name("sRGB"), Ok(TransferFn::Srgb));
    assert_eq!(TransferFn::from_name("g24"), Ok(TransferFn::Gamma24));
    assert_eq!(TransferFn::from_name("Gamma2.4"), Ok(TransferFn::Gamma24));
    assert_eq!(TransferFn::from_name("G22"), Ok(TransferFn::Gamma22));
    assert_eq!(TransferFn::from_name("gamma2.2"), Ok(TransferFn::Gamma22));
    assert_eq!(TransferFn::from_name("gamma"), Err(InvalidInput::UnknownToken));
}

#[test]
fn clip_modes_and_encodings_are_found_by_name() {
    assert_eq!(ClipMode::from_name("clip"), Ok(ClipMode::Clip));
    assert_eq!(ClipMode::from_name("NoClip"), Ok(ClipMode::NoClip));
    assert_eq!(ClipMode::from_name("none"), Ok(ClipMode::NoClip));
    assert_eq!(ClipMode::from_name("clamp"), Err(InvalidInput::UnknownToken));
    assert_eq!(ColorSpace::from_name("LINEAR"), Ok(ColorSpace::Linear));
    assert_eq!(ColorSpace::from_name("srgb"), Ok(ColorSpace::Srgb));
    assert_eq!(ColorSpace::from_name("rec709"), Err(InvalidInput::UnknownToken));
}

#[test]
fn errors_describe_themselves() {
    assert_eq!(LutParseError::ShaperLength.message(), ".cube: invalid 1D table length");
    assert_eq!(LutParseError::CubeLength.message(), ".cube: invalid 3D table length");
    assert_eq!(Cancelled.message(), "cancelled");
    assert_eq!(LutParseError::MalformedNumber.message(), ".cube: malformed number");
    assert_eq!(LutParseError::MissingSize.message(), ".cube: no table size");
    assert_eq!(
        InvalidInput::BufferLength.message(),
        "buffer length does not match the dimensions"
    );
    assert_eq!(InvalidInput::EmptyImage.message(), "the image has no pixels");
    assert_eq!(InvalidInput::TooFewBins.message(), "a histogram needs at least two bins");
    assert_eq!(InvalidInput::UnknownToken.message(), "unknown token");
    assert_eq!(InvalidInput::CubeTooLarge.message(), "the cube is too large");
    assert_eq!(
        Error::InvalidInput(InvalidInput::TooFewBins).message(),
        InvalidInput::TooFewBins.message()
    );
    assert_eq!(
        Error::LutParse(LutParseError::CubeLength).message(),
        LutParseError::CubeLength.message()
    );
    assert_eq!(Error::Cancelled.message(), Cancelled.message());
    assert_eq!(
        Error::InternalInvariant.message(),
        "internal invariant: a primaries matrix is singular"
    );
}

#[test]
fn rules_are_applied_in_order_and_report_a_change() {
    let rules = vec![ReplacementRule::new("a", "b"), ReplacementRule::new("bb", "c")];
    let change = apply_rules("notes.txt", "abba", &rules);
    assert_eq!(change.path, "notes.txt");
    assert_eq!(change.before, "abba");
    assert_eq!(change.after, "cc");
    assert!(change.changed);
    let change = apply_rules("notes.txt", "xyz", &rules);
    assert_eq!(change.after, "xyz");
    assert!(!change.changed);
    let change = apply_rules("notes.txt", "abba", &Vec::new());
    assert_eq!(change.after, "abba");
    assert!(!change.changed);
}
