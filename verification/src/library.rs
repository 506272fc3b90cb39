//! The sample library: a keyed store of anchor-color to tile-image
//! associations, populated lazily, never evicted within a run.  Anchors
//! whose acquisition failed are remembered so they are not retried; the
//! pixels that needed them stay unfilled.
//!
//! The library is an explicit value owned by the caller and handed to the
//! synthesis run, not hidden process-wide state.

use vstd::prelude::*;

use crate::error::SynthError;
use crate::grid::ImageGrid;
use crate::pixel::Pixel;

verus! {

/// An anchor color plus the tile image sampled for it.  Identity is the
/// anchor color alone, never the tile contents.
pub struct ColorSample {
    pub anchor: Pixel,
    pub tile: ImageGrid,
}

impl PartialEq for ColorSample {
    fn eq(&self, other: &Self) -> (r: bool) {
        self.anchor == other.anchor
    }
}

impl vstd::std_specs::cmp::PartialEqSpecImpl for ColorSample {
    open spec fn obeys_eq_spec() -> bool {
        true
    }

    open spec fn eq_spec(&self, other: &Self) -> bool {
        self.anchor == other.anchor
    }
}

/// The keyed sample store plus the set of anchors whose acquisition
/// failed for good.
pub struct SampleLibrary {
    pub entries: Vec<ColorSample>,
    pub failed: Vec<Pixel>,
}

impl SampleLibrary {
    /// No two entries share an anchor; every stored tile is a well-formed
    /// image of positive area, so it can be tiled by wrapping; and no
    /// anchor is both stored and failed, so every anchor has one settled
    /// fate for the session.
    pub open spec fn wf(self) -> bool {
        &&& forall|i: int, j: int|
            0 <= i < j < self.entries@.len()
                ==> #[trigger] self.entries@[i].anchor != #[trigger] self.entries@[j].anchor
        &&& forall|i: int| 0 <= i < self.entries@.len()
            ==> (#[trigger] self.entries@[i].tile).wf()
                && self.entries@[i].tile.width > 0
                && self.entries@[i].tile.height > 0
        &&& forall|i: int| 0 <= i < self.entries@.len()
            ==> !self.has_failed((#[trigger] self.entries@[i]).anchor)
    }

    /// Whether a tile is stored under `a`.
    pub open spec fn contains_anchor(self, a: Pixel) -> bool {
        exists|i: int| 0 <= i < self.entries@.len() && #[trigger] self.entries@[i].anchor == a
    }

    /// The tile stored under `a`; meaningful only when `contains_anchor`
    /// holds of a well-formed library.
    pub open spec fn stored_tile(self, a: Pixel) -> ImageGrid {
        self.entries@[choose|i: int|
            0 <= i < self.entries@.len() && #[trigger] self.entries@[i].anchor == a].tile
    }

    /// Whether acquisition of `a` has failed this session.
    pub open spec fn has_failed(self, a: Pixel) -> bool {
        self.failed@.contains(a)
    }

    /// An empty library: nothing stored, nothing failed.
    pub fn new() -> (r: SampleLibrary)
        ensures
            r.wf(),
            r.entries@.len() == 0,
            r.failed@.len() == 0,
            forall|a: Pixel| !(#[trigger] r.contains_anchor(a)),
            forall|a: Pixel| !(#[trigger] r.has_failed(a)),
    {
        SampleLibrary { entries: Vec::new(), failed: Vec::new() }
    }

    /// How many samples are stored.
    pub fn sample_count(&self) -> (r: usize)
        ensures
            r == self.entries@.len(),
    {
        self.entries.len()
    }

    /// How many anchors have failed acquisition.
    pub fn failed_count(&self) -> (r: usize)
        ensures
            r == self.failed@.len(),
    {
        self.failed.len()
    }

    /// Whether acquisition of `a` has failed this session.
    pub fn is_failed(&self, a: Pixel) -> (r: bool)
        ensures
            r == self.has_failed(a),
    {
        let mut i: usize = 0;
        while i < self.failed.len()
            invariant
                i <= self.failed@.len(),
                forall|k: int| 0 <= k < i ==> self.failed@[k] != a,
            decreases self.failed@.len() - i,
        {
            if self.failed[i] == a {
                return true;
            }
            i += 1;
        }
        false
    }

    /// Whether a tile is stored under `a`.
    pub fn has_sample(&self, a: Pixel) -> (r: bool)
        ensures
            r == self.contains_anchor(a),
    {
        let mut i: usize = 0;
        while i < self.entries.len()
            invariant
                i <= self.entries@.len(),
                forall|k: int| 0 <= k < i ==> #[trigger] self.entries@[k].anchor != a,
            decreases self.entries@.len() - i,
        {
            if self.entries[i].anchor == a {
                return true;
            }
            i += 1;
        }
        false
    }

    /// Cache lookup: the tile stored under `a`, if any.
    pub fn lookup(&self, a: Pixel) -> (r: Option<&ImageGrid>)
        requires
            self.wf(),
        ensures
            r is Some <==> self.contains_anchor(a),
            r is Some ==> *r->0 == self.stored_tile(a),
    {
        let mut i: usize = 0;
        while i < self.entries.len()
            invariant
                self.wf(),
                i <= self.entries@.len(),
                forall|k: int| 0 <= k < i ==> #[trigger] self.entries@[k].anchor != a,
            decreases self.entries@.len() - i,
        {
            if self.entries[i].anchor == a {
                proof {
                    assert(self.contains_anchor(a));
                    let j = choose|j: int|
                        0 <= j < self.entries@.len() && #[trigger] self.entries@[j].anchor == a;
                    assert(j == i);
                }
                return Some(&self.entries[i].tile);
            }
            i += 1;
        }
        None
    }

    /// Insert-if-absent: stores `tile` under `anchor` unless the anchor is
    /// already present, in which case nothing changes.  An anchor that
    /// failed acquisition is permanently unusable this session and is
    /// refused, as is a zero-area tile, which could not be wrapped.
    pub fn insert_if_absent(&mut self, anchor: Pixel, tile: ImageGrid) -> (r: Result<(), SynthError>)
        requires
            old(self).wf(),
            tile.wf(),
        ensures
            final(self).wf(),
            final(self).failed@ == old(self).failed@,
            old(self).contains_anchor(anchor)
                ==> r is Ok && final(self).entries@ == old(self).entries@,
            !old(self).contains_anchor(anchor) && old(self).has_failed(anchor)
                ==> r == Result::<(), SynthError>::Err(SynthError::SampleAcquisitionFailed)
                    && final(self).entries@ == old(self).entries@,
            !old(self).contains_anchor(anchor) && !old(self).has_failed(anchor)
                && (tile.width == 0 || tile.height == 0)
                ==> r == Result::<(), SynthError>::Err(SynthError::InvalidImageDimensions)
                    && final(self).entries@ == old(self).entries@,
            !old(self).contains_anchor(anchor) && !old(self).has_failed(anchor)
                && tile.width > 0 && tile.height > 0
                ==> r is Ok
                    && final(self).entries@ == old(self).entries@.push(
                        (ColorSample { anchor, tile }),
                    ),
    {
        if self.has_sample(anchor) {
            return Ok(());
        }
        if self.is_failed(anchor) {
            return Err(SynthError::SampleAcquisitionFailed);
        }
        if tile.width() == 0 || tile.height() == 0 {
            return Err(SynthError::InvalidImageDimensions);
        }
        self.entries.push(ColorSample { anchor, tile });
        proof {
            assert forall|i: int, j: int| 0 <= i < j < self.entries@.len()
                implies #[trigger] self.entries@[i].anchor != #[trigger] self.entries@[j].anchor by {
                if j == self.entries@.len() - 1 {
                    assert(!old(self).contains_anchor(self.entries@[j].anchor));
                }
            }
            assert forall|i: int| 0 <= i < self.entries@.len()
                implies !self.has_failed((#[trigger] self.entries@[i]).anchor) by {
                if i < self.entries@.len() - 1 {
                    assert(!old(self).has_failed(old(self).entries@[i].anchor));
                }
            }
        }
        Ok(())
    }

    /// Remembers that acquisition of `anchor` failed; it will not be
    /// retried this session.  An anchor whose tile is already stored needs
    /// no acquisition: marking it changes nothing.
    pub fn mark_failed(&mut self, anchor: Pixel)
        requires
            old(self).wf(),
        ensures
            final(self).wf(),
            final(self).entries@ == old(self).entries@,
            old(self).contains_anchor(anchor) ==> final(self).failed@ == old(self).failed@,
            !old(self).contains_anchor(anchor) ==> {
                &&& final(self).failed@ == if old(self).has_failed(anchor) {
                    old(self).failed@
                } else {
                    old(self).failed@.push(anchor)
                }
                &&& final(self).has_failed(anchor)
                &&& forall|b: Pixel|
                    #[trigger] final(self).has_failed(b)
                        == (old(self).has_failed(b) || b == anchor)
            },
    {
        if self.has_sample(anchor) {
            return;
        }
        let mut i: usize = 0;
        while i < self.failed.len()
            invariant
                *self == *old(self),
                old(self).wf(),
                i <= self.failed@.len(),
                forall|k: int| 0 <= k < i ==> self.failed@[k] != anchor,
            decreases self.failed@.len() - i,
        {
            if self.failed[i] == anchor {
                proof {
                    assert(old(self).has_failed(anchor));
                }
                return;
            }
            i += 1;
        }
        proof {
            assert(!old(self).failed@.contains(anchor));
        }
        self.failed.push(anchor);
        proof {
            let n = self.failed@.len() - 1;
            assert(self.failed@[n] == anchor);
            assert(self.has_failed(anchor));
            assert forall|b: Pixel| #[trigger] self.has_failed(b)
                == (old(self).has_failed(b) || b == anchor) by {
                if self.has_failed(b) {
                    let k = choose|k: int| 0 <= k < self.failed@.len() && self.failed@[k] == b;
                    if k < n {
                        assert(old(self).failed@[k] == b);
                        assert(old(self).has_failed(b));
                    }
                }
                if old(self).has_failed(b) {
                    let k = choose|k: int|
                        0 <= k < old(self).failed@.len() && old(self).failed@[k] == b;
                    assert(self.failed@[k] == b);
                    assert(self.has_failed(b));
                }
            }
            assert forall|i: int| 0 <= i < self.entries@.len()
                implies !self.has_failed((#[trigger] self.entries@[i]).anchor) by {
                assert(!old(self).has_failed(old(self).entries@[i].anchor));
                assert(old(self).entries@[i].anchor != anchor);
            }
        }
    }
}

/// Idempotence of sample resolution: a resolution that misses acquires a
/// tile and stores it, and the hit that follows returns exactly the stored
/// tile — the two results are pixel-identical.
pub proof fn lemma_resolution_idempotent(
    lib0: SampleLibrary,
    lib1: SampleLibrary,
    a: Pixel,
    t: ImageGrid,
)
    requires
        !lib0.contains_anchor(a),
        lib1.entries@ == lib0.entries@.push((ColorSample { anchor: a, tile: t })),
    ensures
        lib1.contains_anchor(a),
        lib1.stored_tile(a) == t,
{
    let n = lib0.entries@.len();
    assert(lib1.entries@[n as int].anchor == a);
    assert(lib1.contains_anchor(a));
    let j = choose|j: int| 0 <= j < lib1.entries@.len() && #[trigger] lib1.entries@[j].anchor == a;
    if j < n {
        assert(lib0.entries@[j].anchor == a);
        assert(lib0.contains_anchor(a));
    }
}

/// The library never evicts: a stored tile survives any later insertion of
/// a different sample.
pub proof fn lemma_stored_tile_persists(
    lib0: SampleLibrary,
    lib1: SampleLibrary,
    s: ColorSample,
    a: Pixel,
)
    requires
        lib0.wf(),
        lib0.contains_anchor(a),
        s.anchor != a,
        lib1.entries@ == lib0.entries@.push(s),
    ensures
        lib1.contains_anchor(a),
        lib1.stored_tile(a) == lib0.stored_tile(a),
{
    let n = lib0.entries@.len();
    let i0 = choose|i: int|
        0 <= i < lib0.entries@.len() && #[trigger] lib0.entries@[i].anchor == a;
    assert(lib1.entries@[i0].anchor == a);
    assert(lib1.contains_anchor(a));
    let j1 = choose|j: int|
        0 <= j < lib1.entries@.len() && #[trigger] lib1.entries@[j].anchor == a;
    assert(j1 != n);
    assert(lib0.entries@[j1].anchor == a);
    assert(j1 == i0);
}

} // verus!
