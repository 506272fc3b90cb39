//! The region matcher: nearest-color search over the known sample anchors.
//!
//! For a quantized pixel color it returns the anchor at minimal Euclidean
//! RGB distance, and ties keep the earliest-seen anchor: a later anchor
//! replaces the current best only when its distance is strictly smaller.

use vstd::prelude::*;

use crate::pixel::{Pixel, dist_sq, lemma_dist_sq_zero, lemma_dist_sq_nonneg};
use crate::pixel::distance_squared;

verus! {

/// `i` is the index the matcher must return for query `q` over `anchors`:
/// the distance of `anchors[i]` to `q` is minimal, and every earlier anchor
/// is strictly farther away.
pub open spec fn is_best_match(q: Pixel, anchors: Seq<Pixel>, i: int) -> bool {
    &&& 0 <= i < anchors.len()
    &&& forall|j: int|
        0 <= j < anchors.len()
            ==> dist_sq(q, anchors[i]) <= dist_sq(q, #[trigger] anchors[j])
    &&& forall|j: int| 0 <= j < i ==> dist_sq(q, #[trigger] anchors[j]) > dist_sq(q, anchors[i])
}

/// Returns the index of the anchor closest to `q`, keeping the earliest
/// anchor on ties; `None` exactly when the anchor set is empty.
pub fn closest_anchor(anchors: &Vec<Pixel>, q: Pixel) -> (r: Option<usize>)
    ensures
        r is None <==> anchors@.len() == 0,
        r is Some ==> is_best_match(q, anchors@, r->0 as int),
{
    if anchors.len() == 0 {
        return None;
    }
    let mut best: usize = 0;
    let mut best_d: u32 = distance_squared(q, anchors[0]);
    let mut j: usize = 1;
    while j < anchors.len()
        invariant
            1 <= j <= anchors@.len(),
            (best as int) < j,
            best_d == dist_sq(q, anchors@[best as int]),
            forall|k: int| 0 <= k < j ==> best_d <= dist_sq(q, #[trigger] anchors@[k]),
            forall|k: int| 0 <= k < best ==> dist_sq(q, #[trigger] anchors@[k]) > best_d,
        decreases anchors@.len() - j,
    {
        let d = distance_squared(q, anchors[j]);
        if d < best_d {
            best = j;
            best_d = d;
        }
        j += 1;
    }
    Some(best)
}

/// Determinism of the matcher: at most one index satisfies the
/// best-match characterization, so repeated calls on the same inputs name
/// the same anchor.
pub proof fn lemma_best_match_unique(q: Pixel, anchors: Seq<Pixel>, i: int, j: int)
    requires
        is_best_match(q, anchors, i),
        is_best_match(q, anchors, j),
    ensures
        i == j,
{
    if i < j {
        assert(dist_sq(q, anchors[i]) > dist_sq(q, anchors[j]));
        assert(dist_sq(q, anchors[j]) >= dist_sq(q, anchors[i]));
    }
    if j < i {
        assert(dist_sq(q, anchors[j]) > dist_sq(q, anchors[i]));
        assert(dist_sq(q, anchors[i]) >= dist_sq(q, anchors[j]));
    }
}

/// An exact hit wins: when the query equals one of the anchors, the best
/// match is at distance zero and its anchor is the query color itself.
pub proof fn lemma_exact_match(q: Pixel, anchors: Seq<Pixel>, k: int, i: int)
    requires
        0 <= k < anchors.len(),
        anchors[k] == q,
        is_best_match(q, anchors, i),
    ensures
        dist_sq(q, anchors[i]) == 0,
        anchors[i] == q,
{
    lemma_dist_sq_zero(q, anchors[k]);
    assert(dist_sq(q, anchors[i]) <= dist_sq(q, anchors[k]));
    lemma_dist_sq_nonneg(q, anchors[i]);
    lemma_dist_sq_zero(q, anchors[i]);
}

/// Tie-break determinism: of two anchors at equal distance from the query,
/// the matcher never returns the later one.
pub proof fn lemma_tie_break(q: Pixel, anchors: Seq<Pixel>, i: int, j: int, b: int)
    requires
        0 <= i < j < anchors.len(),
        dist_sq(q, anchors[i]) == dist_sq(q, anchors[j]),
        is_best_match(q, anchors, b),
    ensures
        b != j,
{
    if b == j {
        assert(dist_sq(q, anchors[i]) > dist_sq(q, anchors[b]));
        assert(dist_sq(q, anchors[b]) <= dist_sq(q, anchors[i]));
    }
}

} // verus!
