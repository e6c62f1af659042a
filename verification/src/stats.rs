//! Per-channel histograms of a preview.

use vstd::prelude::*;
use crate::error::InvalidInput;
use crate::preview::PreviewImage;

verus! {

/// Per-channel histograms of the colour bytes of an image.
#[derive(Debug, Clone)]
pub struct ImageStats {
    pub hist_r: Vec<u32>,
    pub hist_g: Vec<u32>,
    pub hist_b: Vec<u32>,
}

/// The bin that a byte falls into when 0..=255 is spread over `bins` bins:
/// `value * (bins - 1) / 255` rounded to the nearest bin, the last bin at most.
pub open spec fn bin_of(value: int, bins: int) -> int {
    let b = (2 * (value * (bins - 1)) + 255) / 510;
    if b > bins - 1 {
        bins - 1
    } else {
        b
    }
}

/// How many of the first `pixels` pixels of an interleaved buffer fall into
/// bin `bin` with the byte at offset `channel` of their four.
pub open spec fn bin_count(rgba: Seq<u8>, channel: int, bins: int, bin: int, pixels: int) -> nat
    decreases pixels,
{
    if pixels <= 0 {
        0
    } else {
        let rest = bin_count(rgba, channel, bins, bin, pixels - 1);
        if bin_of(rgba[4 * (pixels - 1) + channel] as int, bins) == bin {
            rest + 1
        } else {
            rest
        }
    }
}

/// The histogram of one channel: one count for each bin.
pub open spec fn histogram(rgba: Seq<u8>, channel: int, bins: int) -> Seq<u32> {
    Seq::new(bins as nat, |k: int| bin_count(rgba, channel, bins, k, rgba.len() as int / 4) as u32)
}

/// A byte's bin is one of the `bins` bins, and rounding alone never leaves them.
pub proof fn lemma_bin_in_range(value: int, bins: int)
    requires
        0 <= value <= 255,
        2 <= bins,
    ensures
        0 <= bin_of(value, bins) < bins,
        bin_of(value, bins) == (2 * (value * (bins - 1)) + 255) / 510,
{
    let a = 2 * (value * (bins - 1)) + 255;
    let b = a / 510;
    vstd::arithmetic::div_mod::lemma_fundamental_div_mod(a, 510);
    assert(0 <= a <= 510 * (bins - 1) + 255) by (nonlinear_arith)
        requires
            a == 2 * (value * (bins - 1)) + 255,
            0 <= value <= 255,
            2 <= bins,
    ;
}

/// No bin holds more pixels than were counted.
pub proof fn lemma_bin_count_bound(rgba: Seq<u8>, channel: int, bins: int, bin: int, pixels: int)
    requires
        0 <= pixels,
    ensures
        bin_count(rgba, channel, bins, bin, pixels) <= pixels,
    decreases pixels,
{
    if pixels > 0 {
        lemma_bin_count_bound(rgba, channel, bins, bin, pixels - 1);
    }
}

/// How many of the first `pixels` pixels fall into one of the first `upto`
/// bins with the byte at offset `channel` of their four.
pub open spec fn counted(rgba: Seq<u8>, channel: int, bins: int, upto: int, pixels: int) -> nat
    decreases upto,
{
    if upto <= 0 {
        0
    } else {
        counted(rgba, channel, bins, upto - 1, pixels) + bin_count(
            rgba,
            channel,
            bins,
            upto - 1,
            pixels,
        )
    }
}

/// One more pixel adds one to the count of the bins that include its bin,
/// and nothing to the count of those that do not.
proof fn lemma_counted_step(rgba: Seq<u8>, channel: int, bins: int, upto: int, pixels: int)
    requires
        0 <= upto,
        0 < pixels,
    ensures
        counted(rgba, channel, bins, upto, pixels) == counted(
            rgba,
            channel,
            bins,
            upto,
            pixels - 1,
        ) + (if 0 <= bin_of(rgba[4 * (pixels - 1) + channel] as int, bins) < upto {
            1nat
        } else {
            0nat
        }),
    decreases upto,
{
    if upto > 0 {
        lemma_counted_step(rgba, channel, bins, upto - 1, pixels);
    }
}

/// Every pixel is counted once: the counts of all bins of a channel add up
/// to the number of pixels.
pub proof fn lemma_histogram_counts_every_pixel(rgba: Seq<u8>, channel: int, bins: int, pixels: int)
    requires
        2 <= bins,
        0 <= pixels,
    ensures
        counted(rgba, channel, bins, bins, pixels) == pixels,
    decreases pixels,
{
    if pixels == 0 {
        lemma_counted_nothing(rgba, channel, bins, bins);
    } else {
        lemma_histogram_counts_every_pixel(rgba, channel, bins, pixels - 1);
        lemma_counted_step(rgba, channel, bins, bins, pixels);
        lemma_bin_in_range(rgba[4 * (pixels - 1) + channel] as int, bins);
    }
}

/// Without pixels, nothing is counted.
proof fn lemma_counted_nothing(rgba: Seq<u8>, channel: int, bins: int, upto: int)
    requires
        0 <= upto,
    ensures
        counted(rgba, channel, bins, upto, 0) == 0,
    decreases upto,
{
    if upto > 0 {
        lemma_counted_nothing(rgba, channel, bins, upto - 1);
    }
}

/// Computes the bin of a byte.
fn bin_index(value: u8, bins: usize) -> (b: usize)
    requires
        2 <= bins,
    ensures
        b == bin_of(value as int, bins as int),
        b < bins,
{
    proof {
        lemma_bin_in_range(value as int, bins as int);
        assert(0 <= value * (bins - 1) <= 255 * 0xffff_ffff_ffff_ffff) by (nonlinear_arith)
            requires
                0 <= value <= 255,
                2 <= bins <= 0xffff_ffff_ffff_ffff,
        ;
    }
    let a: u128 = 2 * ((value as u128) * ((bins - 1) as u128)) + 255;
    let b: u128 = a / 510;
    b as usize
}

/// A vector of `n` zeroes.
fn zeroes(n: usize) -> (v: Vec<u32>)
    ensures
        v@.len() == n,
        forall|k: int| 0 <= k < n ==> v@[k] == 0,
{
    let mut v: Vec<u32> = Vec::new();
    let mut i: usize = 0;
    while i < n
        invariant
            i <= n,
            v@.len() == i,
            forall|k: int| 0 <= k < i ==> v@[k] == 0,
        decreases n - i,
    {
        v.push(0);
        i += 1;
    }
    v
}

/// Counts one pixel's byte into its channel's histogram.
fn count_into(
    hist: &mut Vec<u32>,
    value: u8,
    Ghost(rgba): Ghost<Seq<u8>>,
    Ghost(channel): Ghost<int>,
    Ghost(p): Ghost<int>,
)
    requires
        2 <= old(hist)@.len(),
        0 <= p < u32::MAX,
        value == rgba[4 * p + channel],
        forall|k: int|
            0 <= k < old(hist)@.len() ==> old(hist)@[k] == bin_count(
                rgba,
                channel,
                old(hist)@.len() as int,
                k,
                p,
            ),
    ensures
        final(hist)@.len() == old(hist)@.len(),
        forall|k: int|
            0 <= k < final(hist)@.len() ==> final(hist)@[k] == bin_count(
                rgba,
                channel,
                final(hist)@.len() as int,
                k,
                p + 1,
            ),
{
    let bins = hist.len();
    let b = bin_index(value, bins);
    proof {
        lemma_bin_count_bound(rgba, channel, bins as int, b as int, p);
    }
    let c = hist[b];
    hist.set(b, c + 1);
}

/// Builds the histograms of the red, green and blue bytes of `preview` with
/// `bins` bins each. Alpha is not counted, and bytes after the last whole
/// pixel are ignored.
pub fn compute_image_stats(preview: &PreviewImage, bins: usize) -> (r: Result<
    ImageStats,
    InvalidInput,
>)
    requires
        preview.rgba8@.len() / 4 <= u32::MAX,
    ensures
        match r {
            Ok(stats) => {
                &&& bins >= 2
                &&& stats.hist_r@ == histogram(preview.rgba8@, 0, bins as int)
                &&& stats.hist_g@ == histogram(preview.rgba8@, 1, bins as int)
                &&& stats.hist_b@ == histogram(preview.rgba8@, 2, bins as int)
            },
            Err(e) => bins < 2 && e == InvalidInput::TooFewBins,
        },
{
    if bins < 2 {
        return Err(InvalidInput::TooFewBins);
    }
    let mut hist_r = zeroes(bins);
    let mut hist_g = zeroes(bins);
    let mut hist_b = zeroes(bins);
    let pixels = preview.rgba8.len() / 4;
    let mut p: usize = 0;
    while p < pixels
        invariant
            2 <= bins,
            pixels == preview.rgba8@.len() / 4,
            preview.rgba8@.len() <= usize::MAX,
            pixels <= u32::MAX,
            p <= pixels,
            hist_r@.len() == bins,
            hist_g@.len() == bins,
            hist_b@.len() == bins,
            forall|k: int|
                0 <= k < bins ==> hist_r@[k] == bin_count(preview.rgba8@, 0, bins as int, k, p as int),
            forall|k: int|
                0 <= k < bins ==> hist_g@[k] == bin_count(preview.rgba8@, 1, bins as int, k, p as int),
            forall|k: int|
                0 <= k < bins ==> hist_b@[k] == bin_count(preview.rgba8@, 2, bins as int, k, p as int),
        decreases pixels - p,
    {
        assert(4 * p + 3 < preview.rgba8@.len());
        let i: usize = 4 * p;
        count_into(&mut hist_r, preview.rgba8[i], Ghost(preview.rgba8@), Ghost(0), Ghost(p as int));
        count_into(&mut hist_g, preview.rgba8[i + 1], Ghost(preview.rgba8@), Ghost(1), Ghost(p as int));
        count_into(&mut hist_b, preview.rgba8[i + 2], Ghost(preview.rgba8@), Ghost(2), Ghost(p as int));
        p += 1;
    }
    proof {
        assert(hist_r@ =~= histogram(preview.rgba8@, 0, bins as int));
        assert(hist_g@ =~= histogram(preview.rgba8@, 1, bins as int));
        assert(hist_b@ =~= histogram(preview.rgba8@, 2, bins as int));
    }
    Ok(ImageStats { hist_r, hist_g, hist_b })
}

} // verus!
