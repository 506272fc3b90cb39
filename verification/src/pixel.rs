//! Pixels and the proximity predicates of the engine: the channel-wise
//! tolerance test that decides region membership during flood fill, and the
//! squared Euclidean distance that ranks sample anchors.

use vstd::prelude::*;

verus! {

/// One RGB pixel: three 8-bit channels, no alpha.
#[derive(Clone, Copy, PartialEq, Eq, Structural, Debug)]
pub struct Pixel {
    pub r: u8,
    pub g: u8,
    pub b: u8,
}

/// The fixed channel tolerance the flood fill uses to decide whether a pixel
/// belongs to the seed's region.
pub const TOLERANCE: u8 = 4;

/// Absolute difference of two channel values.
pub open spec fn channel_diff(a: u8, b: u8) -> int {
    if a >= b {
        a - b
    } else {
        b - a
    }
}

/// Two pixels are within tolerance exactly when every channel differs by
/// strictly less than `tol`, each channel compared independently.
pub open spec fn within_tol(p1: Pixel, p2: Pixel, tol: int) -> bool {
    &&& channel_diff(p1.r, p2.r) < tol
    &&& channel_diff(p1.g, p2.g) < tol
    &&& channel_diff(p1.b, p2.b) < tol
}

/// Tolerance-based pixel equality: true iff every channel of `p1` differs
/// from the matching channel of `p2` by strictly less than `tol`.
pub fn within_tolerance(p1: Pixel, p2: Pixel, tol: u8) -> (r: bool)
    ensures
        r == within_tol(p1, p2, tol as int),
{
    let dr = if p1.r >= p2.r { p1.r - p2.r } else { p2.r - p1.r };
    let dg = if p1.g >= p2.g { p1.g - p2.g } else { p2.g - p1.g };
    let db = if p1.b >= p2.b { p1.b - p2.b } else { p2.b - p1.b };
    dr < tol && dg < tol && db < tol
}

/// Squared Euclidean RGB distance.  The square root the distance notion is
/// usually stated with is strictly monotone, so comparing squared distances
/// orders anchors exactly as comparing the distances themselves would.
pub open spec fn dist_sq(p1: Pixel, p2: Pixel) -> int {
    channel_diff(p1.r, p2.r) * channel_diff(p1.r, p2.r)
        + channel_diff(p1.g, p2.g) * channel_diff(p1.g, p2.g)
        + channel_diff(p1.b, p2.b) * channel_diff(p1.b, p2.b)
}

/// Squared Euclidean RGB distance between two pixels.
pub fn distance_squared(p1: Pixel, p2: Pixel) -> (r: u32)
    ensures
        r == dist_sq(p1, p2),
{
    let dr: u32 = (if p1.r >= p2.r { p1.r - p2.r } else { p2.r - p1.r }) as u32;
    let dg: u32 = (if p1.g >= p2.g { p1.g - p2.g } else { p2.g - p1.g }) as u32;
    let db: u32 = (if p1.b >= p2.b { p1.b - p2.b } else { p2.b - p1.b }) as u32;
    proof {
        assert(dr * dr + dg * dg + db * db <= 3 * 255 * 255) by (nonlinear_arith)
            requires dr <= 255 && dg <= 255 && db <= 255;
    }
    dr * dr + dg * dg + db * db
}

/// The tolerance predicate is symmetric: swapping the two pixels never
/// changes the answer, for any tolerance.
pub proof fn lemma_within_tolerance_symmetric(p1: Pixel, p2: Pixel, tol: int)
    ensures
        within_tol(p1, p2, tol) == within_tol(p2, p1, tol),
{
}

/// The tolerance predicate is reflexive for every positive tolerance: a
/// pixel is always within tolerance of itself.
pub proof fn lemma_within_tolerance_reflexive(p: Pixel, tol: int)
    requires
        tol > 0,
    ensures
        within_tol(p, p, tol),
{
}

/// The squared distance is zero exactly on equal pixels.
pub proof fn lemma_dist_sq_zero(p1: Pixel, p2: Pixel)
    ensures
        (dist_sq(p1, p2) == 0) == (p1 == p2),
{
    assert forall|a: u8, b: u8| channel_diff(a, b) * channel_diff(a, b) == 0 implies a == b by {
        assert(channel_diff(a, b) == 0) by (nonlinear_arith)
            requires channel_diff(a, b) * channel_diff(a, b) == 0, channel_diff(a, b) >= 0;
    }
    assert forall|a: u8, b: u8| true implies channel_diff(a, b) * channel_diff(a, b) >= 0 by {
        assert(channel_diff(a, b) * channel_diff(a, b) >= 0) by (nonlinear_arith)
            requires channel_diff(a, b) >= 0;
    }
}

/// The squared distance is never negative.
pub proof fn lemma_dist_sq_nonneg(p1: Pixel, p2: Pixel)
    ensures
        dist_sq(p1, p2) >= 0,
{
    assert forall|a: u8, b: u8| true implies channel_diff(a, b) * channel_diff(a, b) >= 0 by {
        assert(channel_diff(a, b) * channel_diff(a, b) >= 0) by (nonlinear_arith)
            requires channel_diff(a, b) >= 0;
    }
}

} // verus!
