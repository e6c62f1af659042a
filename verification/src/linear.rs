//! Linear-light RGBA images as they come from a decoder.

use vstd::prelude::*;
use crate::error::InvalidInput;

verus! {

/// One RGBA sample group of a linear image.
#[derive(Debug, Clone, Copy)]
pub struct LinearPixel<T> {
    pub r: T,
    pub g: T,
    pub b: T,
    pub a: T,
}

/// What a [`LoadedExr`] holds: its dimensions and its interleaved samples.
pub struct LoadedExrView<T> {
    pub width: nat,
    pub height: nat,
    pub samples: Seq<T>,
}

impl<T> LoadedExrView<T> {
    /// There are four samples for each pixel.
    pub open spec fn wf(self) -> bool {
        self.samples.len() == 4 * self.width * self.height
    }

    /// The pixel in column `x` of row `y`; rows follow one another, and the
    /// four samples of a pixel stand together in the order R, G, B, A.
    pub open spec fn pixel(self, x: int, y: int) -> LinearPixel<T> {
        let i = (y * self.width + x) * 4;
        LinearPixel {
            r: self.samples[i],
            g: self.samples[i + 1],
            b: self.samples[i + 2],
            a: self.samples[i + 3],
        }
    }
}

/// Every pixel's four samples lie inside the buffer.
pub proof fn lemma_pixel_in_buffer(width: int, height: int, x: int, y: int)
    requires
        0 <= x < width,
        0 <= y < height,
    ensures
        0 <= (y * width + x) * 4,
        (y * width + x) * 4 + 3 < 4 * width * height,
        0 <= y * width,
        y * width + x < width * height,
{
    assert(0 <= y * width && y * width + x < width * height && (y * width + x) * 4 + 3 < 4 * width
        * height) by (nonlinear_arith)
        requires
            0 <= x < width,
            0 <= y < height,
    ;
}

/// A decoded image: interleaved RGBA samples in linear light, row by row.
#[derive(Debug)]
pub struct LoadedExr<T> {
    width: usize,
    height: usize,
    rgba: Vec<T>,
}

impl<T> View for LoadedExr<T> {
    type V = LoadedExrView<T>;

    closed spec fn view(&self) -> LoadedExrView<T> {
        LoadedExrView {
            width: self.width as nat,
            height: self.height as nat,
            samples: self.rgba@,
        }
    }
}

impl<T> LoadedExr<T> {
    #[verifier::type_invariant]
    spec fn inv(self) -> bool {
        self.rgba@.len() == 4 * self.width * self.height
    }

    /// Wraps a sample buffer, which must hold `4 * width * height` samples.
    pub fn new(width: usize, height: usize, rgba: Vec<T>) -> (r: Result<Self, InvalidInput>)
        ensures
            match r {
                Ok(img) => {
                    &&& rgba@.len() == 4 * width * height
                    &&& img@.width == width
                    &&& img@.height == height
                    &&& img@.samples == rgba@
                    &&& img@.wf()
                },
                Err(e) => {
                    &&& e == InvalidInput::BufferLength
                    &&& rgba@.len() != 4 * width * height
                },
            },
    {
        if !is_rgba_len(rgba.len(), width, height) {
            return Err(InvalidInput::BufferLength);
        }
        Ok(LoadedExr { width, height, rgba })
    }

    /// Width in pixels.
    pub fn width(&self) -> (w: usize)
        ensures
            w == self@.width,
            self@.wf(),
    {
        proof {
            use_type_invariant(self);
        }
        self.width
    }

    /// Height in pixels.
    pub fn height(&self) -> (h: usize)
        ensures
            h == self@.height,
            self@.wf(),
    {
        proof {
            use_type_invariant(self);
        }
        self.height
    }

    /// The interleaved samples.
    pub fn samples(&self) -> (s: &Vec<T>)
        ensures
            s@ == self@.samples,
            self@.wf(),
    {
        proof {
            use_type_invariant(self);
        }
        &self.rgba
    }
}

impl<T: Copy> LoadedExr<T> {
    /// The pixel in column `x` of row `y`, or nothing outside the image.
    pub fn get_linear(&self, x: usize, y: usize) -> (p: Option<LinearPixel<T>>)
        ensures
            p == (if x < self@.width && y < self@.height {
                Some(self@.pixel(x as int, y as int))
            } else {
                None
            }),
    {
        proof {
            use_type_invariant(self);
        }
        if x >= self.width || y >= self.height {
            return None;
        }
        proof {
            lemma_pixel_in_buffer(self.width as int, self.height as int, x as int, y as int);
            assert(self.rgba.len() == 4 * self.width * self.height);
        }
        let idx = (y * self.width + x) * 4;
        Some(
            LinearPixel {
                r: self.rgba[idx],
                g: self.rgba[idx + 1],
                b: self.rgba[idx + 2],
                a: self.rgba[idx + 3],
            },
        )
    }
}

/// Whether `len` is `4 * width * height`, decided without overflow.
fn is_rgba_len(len: usize, width: usize, height: usize) -> (r: bool)
    ensures
        r == (len == 4 * width * height),
{
    if len % 4 != 0 {
        proof {
            if len == 4 * width * height {
                assert(len == (width * height) * 4) by (nonlinear_arith)
                    requires
                        len == 4 * width * height,
                ;
                vstd::arithmetic::div_mod::lemma_mod_multiples_basic(width * height, 4);
            }
        }
        return false;
    }
    let pixels = len / 4;
    if width == 0 {
        assert(4 * width * height == 0) by (nonlinear_arith)
            requires
                width == 0,
        ;
        return pixels == 0;
    }
    if pixels % width != 0 {
        proof {
            if len == 4 * width * height {
                assert(pixels == height * width) by (nonlinear_arith)
                    requires
                        len == 4 * width * height,
                        pixels == len / 4,
                ;
                vstd::arithmetic::div_mod::lemma_mod_multiples_basic(height as int, width as int);
            }
        }
        return false;
    }
    let rows = pixels / width;
    proof {
        vstd::arithmetic::div_mod::lemma_fundamental_div_mod(pixels as int, width as int);
        assert((rows == height) <==> (len == 4 * width * height)) by (nonlinear_arith)
            requires
                pixels == width * rows,
                len == 4 * pixels,
                width > 0,
        ;
    }
    rows == height
}

} // verus!
