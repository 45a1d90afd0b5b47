//! The difference score of two rasters: how far apart their average colours
//! lie, on a scale from nothing to [`DIFF_TOTAL`].

use vstd::prelude::*;
use crate::img::RgbImage;

verus! {

/// The score of two rasters whose average colours lie as far apart as they
/// can, in units.
pub const DIFF_TOTAL: u32 = 100;

/// A score is held as a whole number of parts, this many to the unit, so
/// that the share of each channel leaves no remainder: a unit is divided by
/// the three channels and by the largest distance of two channel values.
pub const PARTS_PER_UNIT: u32 = 765;

/// [`DIFF_TOTAL`] in parts.
pub const TOTAL_PARTS: u32 = 76500;

/// An average was asked of no pixels.
#[derive(Clone, Copy, Debug, PartialEq, Eq)]
pub struct EmptyBufferError;

/// The sum of one channel over all pixels.
pub open spec fn channel_sum(pixels: Seq<[u8; 3]>, channel: int) -> nat
    decreases pixels.len(),
{
    if pixels.len() == 0 {
        0
    } else {
        channel_sum(pixels.drop_last(), channel) + pixels.last()[channel] as nat
    }
}

/// The average of one channel over all pixels, rounded down.
pub open spec fn channel_average(pixels: Seq<[u8; 3]>, channel: int) -> nat
    recommends
        pixels.len() > 0,
{
    channel_sum(pixels, channel) / pixels.len()
}

/// How far two channel values lie apart.
pub open spec fn distance(a: nat, b: nat) -> nat {
    if a >= b {
        (a - b) as nat
    } else {
        (b - a) as nat
    }
}

/// The distances of the three channel averages of `a` and `b`, added up.
pub open spec fn color_distance(a: Seq<[u8; 3]>, b: Seq<[u8; 3]>) -> nat {
    distance(channel_average(a, 0), channel_average(b, 0)) + distance(
        channel_average(a, 1),
        channel_average(b, 1),
    ) + distance(channel_average(a, 2), channel_average(b, 2))
}

/// The score of `a` against `b`, in parts: each channel gives its distance
/// as a share of the largest distance, and a third of [`DIFF_TOTAL`] at most.
pub open spec fn score_parts(a: Seq<[u8; 3]>, b: Seq<[u8; 3]>) -> nat {
    DIFF_TOTAL as nat * color_distance(a, b)
}

/// No channel sums to more than the largest channel value for every pixel.
pub proof fn lemma_channel_sum_bound(pixels: Seq<[u8; 3]>, channel: int)
    requires
        0 <= channel < 3,
    ensures
        channel_sum(pixels, channel) <= 255 * pixels.len(),
    decreases pixels.len(),
{
    if pixels.len() > 0 {
        lemma_channel_sum_bound(pixels.drop_last(), channel);
    }
}

/// A channel average is a channel value.
pub proof fn lemma_channel_average_bound(pixels: Seq<[u8; 3]>, channel: int)
    requires
        0 <= channel < 3,
        pixels.len() > 0,
    ensures
        channel_average(pixels, channel) <= 255,
{
    lemma_channel_sum_bound(pixels, channel);
    let s = channel_sum(pixels, channel) as int;
    let n = pixels.len() as int;
    assert(s / n <= 255) by (nonlinear_arith)
        requires
            0 <= s <= 255 * n,
            n > 0,
    ;
}

/// A raster scored against itself scores nothing.
pub proof fn lemma_score_of_self(x: Seq<[u8; 3]>)
    ensures
        score_parts(x, x) == 0,
{
}

/// The score does not depend on which raster comes first.
pub proof fn lemma_score_symmetric(a: Seq<[u8; 3]>, b: Seq<[u8; 3]>)
    ensures
        score_parts(a, b) == score_parts(b, a),
{
}

/// The score of two rasters with pixels lies between nothing and
/// [`DIFF_TOTAL`].
pub proof fn lemma_score_in_range(a: Seq<[u8; 3]>, b: Seq<[u8; 3]>)
    requires
        a.len() > 0,
        b.len() > 0,
    ensures
        0 <= score_parts(a, b) <= TOTAL_PARTS,
{
    lemma_channel_average_bound(a, 0);
    lemma_channel_average_bound(a, 1);
    lemma_channel_average_bound(a, 2);
    lemma_channel_average_bound(b, 0);
    lemma_channel_average_bound(b, 1);
    lemma_channel_average_bound(b, 2);
}

/// A difference score between nothing and [`DIFF_TOTAL`], held in parts.
#[derive(Clone, Copy, Debug, PartialEq, Eq)]
pub struct DiffScore {
    parts: u32,
}

impl View for DiffScore {
    type V = nat;

    /// The score in parts, [`PARTS_PER_UNIT`] to the unit.
    closed spec fn view(&self) -> nat {
        self.parts as nat
    }
}

impl DiffScore {
    /// No score is more than [`DIFF_TOTAL`].
    #[verifier::type_invariant]
    pub open spec fn in_range(self) -> bool {
        self@ <= TOTAL_PARTS
    }

    /// The score of two rasters with the same average colour.
    pub fn zero() -> (score: DiffScore)
        ensures
            score@ == 0,
    {
        DiffScore { parts: 0 }
    }

    /// The largest score, [`DIFF_TOTAL`].
    pub fn total() -> (score: DiffScore)
        ensures
            score@ == TOTAL_PARTS,
    {
        DiffScore { parts: TOTAL_PARTS }
    }

    /// The score of `units` whole units, if that is no more than
    /// [`DIFF_TOTAL`].
    pub fn from_units(units: u32) -> (score: Option<DiffScore>)
        ensures
            score is Some <==> units <= DIFF_TOTAL,
            score matches Some(s) ==> s@ == units * PARTS_PER_UNIT,
    {
        if units <= DIFF_TOTAL {
            Some(DiffScore { parts: units * PARTS_PER_UNIT })
        } else {
            None
        }
    }

    /// The score of `parts` parts, if that is no more than [`TOTAL_PARTS`].
    pub fn from_parts(parts: u32) -> (score: Option<DiffScore>)
        ensures
            score is Some <==> parts <= TOTAL_PARTS,
            score matches Some(s) ==> s@ == parts,
    {
        if parts <= TOTAL_PARTS {
            Some(DiffScore { parts })
        } else {
            None
        }
    }

    /// The score in parts.
    pub fn parts(&self) -> (parts: u32)
        ensures
            parts == self@,
            parts <= TOTAL_PARTS,
    {
        proof {
            use_type_invariant(self);
        }
        self.parts
    }

    /// True if the two average colours were the same.
    pub fn is_zero(&self) -> (zero: bool)
        ensures
            zero == (self@ == 0),
    {
        self.parts == 0
    }

    /// True if this score is `other` or more.
    pub fn at_least(&self, other: &DiffScore) -> (reached: bool)
        ensures
            reached == (self@ >= other@),
    {
        self.parts >= other.parts
    }
}

/// The average colour of `pixels`: each channel averaged by itself and
/// rounded down. Fails if there are no pixels.
pub fn average_color(pixels: &Vec<[u8; 3]>) -> (average: Result<[u8; 3], EmptyBufferError>)
    ensures
        average is Err <==> pixels@.len() == 0,
        average matches Ok(color) ==> {
            &&& color[0] == channel_average(pixels@, 0)
            &&& color[1] == channel_average(pixels@, 1)
            &&& color[2] == channel_average(pixels@, 2)
        },
{
    let count: usize = pixels.len();
    if count == 0 {
        return Err(EmptyBufferError);
    }
    let mut sum_r: u128 = 0;
    let mut sum_g: u128 = 0;
    let mut sum_b: u128 = 0;
    let mut k: usize = 0;
    while k < count
        invariant
            count == pixels@.len(),
            k <= count,
            sum_r == channel_sum(pixels@.take(k as int), 0),
            sum_g == channel_sum(pixels@.take(k as int), 1),
            sum_b == channel_sum(pixels@.take(k as int), 2),
            sum_r <= 255 * k,
            sum_g <= 255 * k,
            sum_b <= 255 * k,
        decreases count - k,
    {
        let pixel: [u8; 3] = pixels[k];
        assert(pixels@.take(k + 1).drop_last() =~= pixels@.take(k as int));
        sum_r += pixel[0] as u128;
        sum_g += pixel[1] as u128;
        sum_b += pixel[2] as u128;
        k += 1;
    }
    assert(pixels@.take(count as int) =~= pixels@);
    proof {
        lemma_channel_average_bound(pixels@, 0);
        lemma_channel_average_bound(pixels@, 1);
        lemma_channel_average_bound(pixels@, 2);
    }
    let n: u128 = count as u128;
    Ok([(sum_r / n) as u8, (sum_g / n) as u8, (sum_b / n) as u8])
}

/// How far two channel values lie apart.
fn channel_distance(a: u8, b: u8) -> (d: u32)
    ensures
        d == distance(a as nat, b as nat),
        d <= 255,
{
    if a >= b {
        (a - b) as u32
    } else {
        (b - a) as u32
    }
}

/// The difference score of two rasters with as many pixels: the distances
/// of their three channel averages, each as a share of the largest distance
/// and worth a third of [`DIFF_TOTAL`] at most. Rasters with the same average
/// colour score nothing, whatever their pixels are. Fails if the rasters
/// have no pixels.
pub fn calc_diff(img1: &RgbImage, img2: &RgbImage) -> (diff: Result<DiffScore, EmptyBufferError>)
    requires
        img1@.pixels.len() == img2@.pixels.len(),
    ensures
        diff is Err <==> img1@.is_empty(),
        diff matches Ok(score) ==> score@ == score_parts(img1@.pixels, img2@.pixels),
{
    let avg1 = match average_color(img1.data()) {
        Ok(color) => color,
        Err(e) => {
            return Err(e);
        },
    };
    let avg2 = match average_color(img2.data()) {
        Ok(color) => color,
        Err(e) => {
            return Err(e);
        },
    };
    let spread: u32 = channel_distance(avg1[0], avg2[0]) + channel_distance(avg1[1], avg2[1])
        + channel_distance(avg1[2], avg2[2]);
    Ok(DiffScore { parts: DIFF_TOTAL * spread })
}

} // verus!
