//! Error values returned by the library.

use vstd::prelude::*;

verus! {

/// Why a `.cube` text or a pair of tables was rejected.
#[derive(Debug, Clone, Copy, PartialEq, Eq, Structural)]
pub enum LutParseError {
    /// A size or a table entry is not a number.
    MalformedNumber,
    /// The 1D table does not hold as many rows as its size says.
    ShaperLength,
    /// The 3D table does not hold `size * size * size` rows.
    CubeLength,
    /// No table of a size other than 0 is declared.
    MissingSize,
}

/// The caller handed over values that do not fit together.
#[derive(Debug, Clone, Copy, PartialEq, Eq, Structural)]
pub enum InvalidInput {
    /// The sample buffer is not `4 * width * height` long.
    BufferLength,
    /// The image has no pixels.
    EmptyImage,
    /// A histogram needs at least two bins.
    TooFewBins,
    /// A name is not one of the known tokens.
    UnknownToken,
    /// A cube of this edge has more lattice points than can be addressed.
    CubeTooLarge,
}

/// The progress callback asked the generator to stop.
#[derive(Debug, Clone, Copy, PartialEq, Eq, Structural)]
pub struct Cancelled;

impl LutParseError {
    /// A short description for messages.
    pub fn message(&self) -> (text: &'static str)
        ensures
            text@ == self.text(),
    {
        match self {
            LutParseError::MalformedNumber => ".cube: malformed number",
            LutParseError::ShaperLength => ".cube: invalid 1D table length",
            LutParseError::CubeLength => ".cube: invalid 3D table length",
            LutParseError::MissingSize => ".cube: no table size",
        }
    }

    /// The description of each way in which a `.cube` text is rejected.
    pub open spec fn text(&self) -> Seq<char> {
        match self {
            LutParseError::MalformedNumber => ".cube: malformed number"@,
            LutParseError::ShaperLength => ".cube: invalid 1D table length"@,
            LutParseError::CubeLength => ".cube: invalid 3D table length"@,
            LutParseError::MissingSize => ".cube: no table size"@,
        }
    }
}

impl InvalidInput {
    /// A short description for messages.
    pub fn message(&self) -> (text: &'static str)
        ensures
            text@ == self.text(),
    {
        match self {
            InvalidInput::BufferLength => "buffer length does not match the dimensions",
            InvalidInput::EmptyImage => "the image has no pixels",
            InvalidInput::TooFewBins => "a histogram needs at least two bins",
            InvalidInput::UnknownToken => "unknown token",
            InvalidInput::CubeTooLarge => "the cube is too large",
        }
    }

    /// The description of each way in which input is invalid.
    pub open spec fn text(&self) -> Seq<char> {
        match self {
            InvalidInput::BufferLength => "buffer length does not match the dimensions"@,
            InvalidInput::EmptyImage => "the image has no pixels"@,
            InvalidInput::TooFewBins => "a histogram needs at least two bins"@,
            InvalidInput::UnknownToken => "unknown token"@,
            InvalidInput::CubeTooLarge => "the cube is too large"@,
        }
    }
}

impl Cancelled {
    /// A short description for messages.
    pub fn message(&self) -> (text: &'static str)
        ensures
            text@ == self.text(),
    {
        "cancelled"
    }

    /// The description of a cancellation.
    pub open spec fn text(&self) -> Seq<char> {
        "cancelled"@
    }
}

/// Any of the ways in which the library can fail.
#[derive(Debug, Clone, Copy, PartialEq, Eq, Structural)]
pub enum Error {
    /// The caller handed over values that do not fit together.
    InvalidInput(InvalidInput),
    /// A `.cube` text is malformed.
    LutParse(LutParseError),
    /// The progress callback asked for the work to stop.
    Cancelled,
    /// A conversion between colour spaces cannot be set up.
    InternalInvariant,
}

impl Error {
    /// A short description for messages: that of the error inside, where
    /// there is one.
    pub fn message(&self) -> (text: &'static str)
        ensures
            text@ == self.text(),
    {
        match self {
            Error::InvalidInput(e) => e.message(),
            Error::LutParse(e) => e.message(),
            Error::Cancelled => Cancelled.message(),
            Error::InternalInvariant => "internal invariant: a primaries matrix is singular",
        }
    }

    /// The description of each failure.
    pub open spec fn text(&self) -> Seq<char> {
        match self {
            Error::InvalidInput(e) => e.text(),
            Error::LutParse(e) => e.text(),
            Error::Cancelled => Cancelled.text(),
            Error::InternalInvariant => "internal invariant: a primaries matrix is singular"@,
        }
    }
}

} // verus!
