//! The closed sets of colour spaces, transfer functions and modes, their
//! names at the boundary, and the chromaticities of the primaries.

use vstd::prelude::*;
use crate::error::InvalidInput;
use crate::number::{lower_all, lowered};
use crate::text::chars_of;

verus! {

/// RGB primaries together with their white point.
#[derive(Debug, Clone, Copy, PartialEq, Eq, Structural)]
#[allow(non_camel_case_types)]
pub enum Primaries {
    /// sRGB / Rec.709, D65.
    SrgbD65,
    /// BT.2020, D65.
    Rec2020D65,
    /// ACEScg (AP1), D60.
    ACEScgD60,
    /// ACES2065-1 (AP0), D60.
    ACES2065_1D60,
}

/// A per-channel mapping between linear light and an encoded signal.
#[derive(Debug, Clone, Copy, PartialEq, Eq, Structural)]
pub enum TransferFn {
    Linear,
    Srgb,
    Gamma24,
    Gamma22,
}

/// What a generator does with values outside of the unit range.
#[derive(Debug, Clone, Copy, PartialEq, Eq, Structural)]
pub enum ClipMode {
    /// Clamp values to the unit range.
    Clip,
    /// Leave values as they are.
    NoClip,
}

/// The two encodings a 1D table converts between.
#[derive(Debug, Clone, Copy, PartialEq, Eq, Structural)]
pub enum ColorSpace {
    Linear,
    Srgb,
}

/// A tone-mapping operator.
#[derive(Debug, Clone, Copy, PartialEq, Eq, Structural)]
pub enum ToneMapKind {
    /// No tone mapping.
    Off,
    Aces,
    Filmic,
}

/// Whether tone mapping comes before or after the look-up table.
#[derive(Debug, Clone, Copy, PartialEq, Eq, Structural)]
pub enum ToneMapOrder {
    BeforeLut,
    AfterLut,
}

/// The chromaticity coordinates of three primaries and a white point, in
/// units of 1/100000.
#[derive(Debug, Clone, Copy, PartialEq, Eq, Structural)]
pub struct Chromaticities {
    pub rx: i32,
    pub ry: i32,
    pub gx: i32,
    pub gy: i32,
    pub bx: i32,
    pub by: i32,
    pub wx: i32,
    pub wy: i32,
}

/// How many units of a [`Chromaticities`] coordinate make 1.
pub const CHROMATICITY_UNIT: i32 = 100000;

/// The chromaticities of each set of primaries.
pub open spec fn chromaticities(p: Primaries) -> Chromaticities {
    match p {
        Primaries::SrgbD65 => Chromaticities {
            rx: 64000,
            ry: 33000,
            gx: 30000,
            gy: 60000,
            bx: 15000,
            by: 6000,
            wx: 31270,
            wy: 32900,
        },
        Primaries::Rec2020D65 => Chromaticities {
            rx: 70800,
            ry: 29200,
            gx: 17000,
            gy: 79700,
            bx: 13100,
            by: 4600,
            wx: 31270,
            wy: 32900,
        },
        Primaries::ACEScgD60 => Chromaticities {
            rx: 71300,
            ry: 29300,
            gx: 16500,
            gy: 83000,
            bx: 12800,
            by: 4400,
            wx: 32168,
            wy: 33767,
        },
        Primaries::ACES2065_1D60 => Chromaticities {
            rx: 73470,
            ry: 26530,
            gx: 0,
            gy: 100000,
            bx: 10,
            by: -7700i32,
            wx: 32168,
            wy: 33767,
        },
    }
}

/// Whether two sets of primaries have the same white point, so that a
/// conversion between them needs no chromatic adaptation.
pub open spec fn same_white(src: Primaries, dst: Primaries) -> bool {
    chromaticities(src).wx == chromaticities(dst).wx && chromaticities(src).wy == chromaticities(
        dst,
    ).wy
}

/// The white point is shared exactly by primaries of the same illuminant.
pub proof fn lemma_same_white(src: Primaries, dst: Primaries)
    ensures
        same_white(src, dst) == (is_d65(src) == is_d65(dst)),
        same_white(src, src),
        same_white(src, dst) == same_white(dst, src),
{
}

/// Whether the white point of `p` is D65; it is D60 otherwise.
pub open spec fn is_d65(p: Primaries) -> bool {
    p == Primaries::SrgbD65 || p == Primaries::Rec2020D65
}

/// The chromaticities of `p`.
pub fn primaries_of(p: Primaries) -> (c: Chromaticities)
    ensures
        c == chromaticities(p),
        c.ry != 0 && c.gy != 0 && c.by != 0 && c.wy != 0,
{
    match p {
        Primaries::SrgbD65 => Chromaticities {
            rx: 64000,
            ry: 33000,
            gx: 30000,
            gy: 60000,
            bx: 15000,
            by: 6000,
            wx: 31270,
            wy: 32900,
        },
        Primaries::Rec2020D65 => Chromaticities {
            rx: 70800,
            ry: 29200,
            gx: 17000,
            gy: 79700,
            bx: 13100,
            by: 4600,
            wx: 31270,
            wy: 32900,
        },
        Primaries::ACEScgD60 => Chromaticities {
            rx: 71300,
            ry: 29300,
            gx: 16500,
            gy: 83000,
            bx: 12800,
            by: 4400,
            wx: 32168,
            wy: 33767,
        },
        Primaries::ACES2065_1D60 => Chromaticities {
            rx: 73470,
            ry: 26530,
            gx: 0,
            gy: 100000,
            bx: 10,
            by: -7700,
            wx: 32168,
            wy: 33767,
        },
    }
}

/// Decides whether a conversion from `src` to `dst` can skip chromatic
/// adaptation.
pub fn shares_white(src: Primaries, dst: Primaries) -> (r: bool)
    ensures
        r == same_white(src, dst),
{
    let a = primaries_of(src);
    let b = primaries_of(dst);
    a.wx == b.wx && a.wy == b.wy
}

/// How many units of a Bradford coefficient make 1.
pub const BRADFORD_UNIT: i32 = 10000000;

/// The Bradford matrix, row by row, in units of 1/10000000.
pub open spec fn bradford_rows() -> Seq<Seq<int>> {
    seq![
        seq![8951000int, 2664000int, -1614000int],
        seq![-7502000int, 17135000int, 367000int],
        seq![389000int, -685000int, 10296000int],
    ]
}

/// The inverse of the Bradford matrix as it is tabulated, row by row, in
/// units of 1/10000000.
pub open spec fn bradford_inverse_rows() -> Seq<Seq<int>> {
    seq![
        seq![9869929int, -1470543int, 1599627int],
        seq![4323053int, 5183603int, 492912int],
        seq![-85287int, 400428int, 9684867int],
    ]
}

/// The Bradford matrix.
pub fn bradford() -> (m: [[i32; 3]; 3])
    ensures
        forall|i: int, j: int| 0 <= i < 3 && 0 <= j < 3 ==> m[i][j] == bradford_rows()[i][j],
{
    [[8951000, 2664000, -1614000], [-7502000, 17135000, 367000], [389000, -685000, 10296000]]
}

/// The tabulated inverse of the Bradford matrix.
pub fn bradford_inverse() -> (m: [[i32; 3]; 3])
    ensures
        forall|i: int, j: int|
            0 <= i < 3 && 0 <= j < 3 ==> m[i][j] == bradford_inverse_rows()[i][j],
{
    [[9869929, -1470543, 1599627], [4323053, 5183603, 492912], [-85287, 400428, 9684867]]
}

/// The primaries that a name stands for, letters in either case.
pub open spec fn primaries_named(name: Seq<char>) -> Option<Primaries> {
    let l = lowered(name);
    if l == "srgb"@ || l == "rec709"@ {
        Some(Primaries::SrgbD65)
    } else if l == "rec2020"@ || l == "bt2020"@ {
        Some(Primaries::Rec2020D65)
    } else if l == "acescg"@ || l == "ap1"@ {
        Some(Primaries::ACEScgD60)
    } else if l == "aces2065"@ || l == "ap0"@ || l == "aces"@ {
        Some(Primaries::ACES2065_1D60)
    } else {
        None
    }
}

/// The transfer function that a name stands for, letters in either case.
pub open spec fn transfer_named(name: Seq<char>) -> Option<TransferFn> {
    let l = lowered(name);
    if l == "linear"@ {
        Some(TransferFn::Linear)
    } else if l == "srgb"@ {
        Some(TransferFn::Srgb)
    } else if l == "g24"@ || l == "gamma2.4"@ {
        Some(TransferFn::Gamma24)
    } else if l == "g22"@ || l == "gamma2.2"@ {
        Some(TransferFn::Gamma22)
    } else {
        None
    }
}

/// The clip mode that a name stands for, letters in either case.
pub open spec fn clip_named(name: Seq<char>) -> Option<ClipMode> {
    let l = lowered(name);
    if l == "clip"@ {
        Some(ClipMode::Clip)
    } else if l == "noclip"@ || l == "none"@ {
        Some(ClipMode::NoClip)
    } else {
        None
    }
}

/// The encoding that a name stands for, letters in either case.
pub open spec fn color_space_named(name: Seq<char>) -> Option<ColorSpace> {
    let l = lowered(name);
    if l == "linear"@ {
        Some(ColorSpace::Linear)
    } else if l == "srgb"@ {
        Some(ColorSpace::Srgb)
    } else {
        None
    }
}

/// Whether the characters `l` spell `word`.
fn spells(l: &Vec<char>, word: &str) -> (r: bool)
    ensures
        r == (l@ == word@),
{
    let w = chars_of(word);
    if l.len() != w.len() {
        return false;
    }
    let mut i: usize = 0;
    while i < l.len()
        invariant
            l@.len() == w@.len(),
            i <= l@.len(),
            w@ == word@,
            forall|j: int| 0 <= j < i ==> l@[j] == w@[j],
        decreases l@.len() - i,
    {
        if l[i] != w[i] {
            assert(l@[i as int] != w@[i as int]);
            return false;
        }
        i += 1;
    }
    assert(l@ =~= w@);
    true
}

/// What a lookup of a name gives: the value, or the error for an unknown name.
pub open spec fn known<V>(v: Option<V>) -> Result<V, InvalidInput> {
    match v {
        Some(x) => Ok(x),
        None => Err(InvalidInput::UnknownToken),
    }
}

impl Primaries {
    /// Looks up primaries by name: `srgb` or `rec709`, `rec2020` or `bt2020`,
    /// `acescg` or `ap1`, `aces2065`, `ap0` or `aces`.
    pub fn from_name(name: &str) -> (r: Result<Primaries, InvalidInput>)
        ensures
            r == known(primaries_named(name@)),
    {
        let l = lower_all(&chars_of(name));
        if spells(&l, "srgb") || spells(&l, "rec709") {
            Ok(Primaries::SrgbD65)
        } else if spells(&l, "rec2020") || spells(&l, "bt2020") {
            Ok(Primaries::Rec2020D65)
        } else if spells(&l, "acescg") || spells(&l, "ap1") {
            Ok(Primaries::ACEScgD60)
        } else if spells(&l, "aces2065") || spells(&l, "ap0") || spells(&l, "aces") {
            Ok(Primaries::ACES2065_1D60)
        } else {
            Err(InvalidInput::UnknownToken)
        }
    }
}

impl TransferFn {
    /// Looks up a transfer function by name: `linear`, `srgb`, `g24` or
    /// `gamma2.4`, `g22` or `gamma2.2`.
    pub fn from_name(name: &str) -> (r: Result<TransferFn, InvalidInput>)
        ensures
            r == known(transfer_named(name@)),
    {
        let l = lower_all(&chars_of(name));
        if spells(&l, "linear") {
            Ok(TransferFn::Linear)
        } else if spells(&l, "srgb") {
            Ok(TransferFn::Srgb)
        } else if spells(&l, "g24") || spells(&l, "gamma2.4") {
            Ok(TransferFn::Gamma24)
        } else if spells(&l, "g22") || spells(&l, "gamma2.2") {
            Ok(TransferFn::Gamma22)
        } else {
            Err(InvalidInput::UnknownToken)
        }
    }
}

impl ClipMode {
    /// Looks up a clip mode by name: `clip`, `noclip` or `none`.
    pub fn from_name(name: &str) -> (r: Result<ClipMode, InvalidInput>)
        ensures
            r == known(clip_named(name@)),
    {
        let l = lower_all(&chars_of(name));
        if spells(&l, "clip") {
            Ok(ClipMode::Clip)
        } else if spells(&l, "noclip") || spells(&l, "none") {
            Ok(ClipMode::NoClip)
        } else {
            Err(InvalidInput::UnknownToken)
        }
    }
}

impl ColorSpace {
    /// Looks up an encoding by name: `linear` or `srgb`.
    pub fn from_name(name: &str) -> (r: Result<ColorSpace, InvalidInput>)
        ensures
            r == known(color_space_named(name@)),
    {
        let l = lower_all(&chars_of(name));
        if spells(&l, "linear") {
            Ok(ColorSpace::Linear)
        } else if spells(&l, "srgb") {
            Ok(ColorSpace::Srgb)
        } else {
            Err(InvalidInput::UnknownToken)
        }
    }
}

} // verus!
