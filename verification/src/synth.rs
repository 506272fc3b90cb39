//! The synthesis engine: a resumable state machine that scans the
//! quantized source image row-major and flood-fills each matched region
//! with wrapped tile pixels.
//!
//! Every step is synchronous except sample acquisition: when the matched
//! anchor's tile is not resident, `step` suspends by returning
//! `NeedSample` and the caller acquires the tile — fetch and decode are
//! its business — then resumes with `provide_sample` or
//! `acquisition_failed`.  The engine never polls or spins, so a
//! cooperative single-threaded caller cannot livelock, and it never asks
//! twice for the same anchor in one run.

use vstd::prelude::*;

use crate::error::SynthError;
use crate::fill::{fill_effect, fill_region, wrapped_tile_pixel};
use crate::grid::{Canvas, ImageGrid, Mask};
use crate::library::{ColorSample, SampleLibrary};
use crate::matcher::{closest_anchor, is_best_match};
use crate::pixel::{Pixel, within_tol};

verus! {

/// What one `step` call did.
#[derive(Clone, Copy, PartialEq, Eq, Structural, Debug)]
pub enum StepResult {
    /// One scan position was handled: filled, or skipped as consumed.
    Progress,
    /// One scan position was left unfilled, and why.
    Skipped(SynthError),
    /// The engine suspended: acquire a tile for this anchor, then resume
    /// with `provide_sample` or `acquisition_failed`.
    NeedSample(Pixel),
    /// The scan has passed the last position.
    Finished,
}

/// One synthesis run over one source image.
pub struct Synthesizer {
    /// The quantized source; never mutated, consumption is in `consumed`.
    pub source: ImageGrid,
    /// The known sample palette, in enumeration order.
    pub anchors: Vec<Pixel>,
    /// The sample store, owned by the run's caller between suspensions.
    pub library: SampleLibrary,
    /// Which source pixels have been consumed by a fill.
    pub consumed: Mask,
    /// The output; cells stay `None` where nothing was filled.
    pub dest: Canvas,
    /// Scan cursor column.
    pub cx: usize,
    /// Scan cursor row; the run is done when it reaches the height.
    pub cy: usize,
    /// The anchor whose acquisition is in flight, if any.
    pub pending: Option<Pixel>,
    /// Every anchor ever requested, in request order.
    pub requests: Vec<Pixel>,
}

impl Synthesizer {
    /// The run has scanned every position.
    pub open spec fn done(self) -> bool {
        self.cy == self.source.height
    }

    /// The color under the scan cursor.
    pub open spec fn current_color(self) -> Pixel {
        self.source.pixel_at(self.cx as int, self.cy as int)
    }

    /// Validity of a run's state:
    /// - grids are well-formed, share dimensions, and have positive area;
    /// - the cursor is on a scan position or just past the end;
    /// - the consumed mask and the canvas agree: a cell is written exactly
    ///   when its source pixel is consumed;
    /// - a pending anchor is neither stored nor failed;
    /// - no anchor was ever requested twice, and every requested anchor is
    ///   by now stored, failed, or the pending one.
    pub open spec fn wf(self) -> bool {
        &&& self.source.wf()
        &&& self.source.width > 0
        &&& self.source.height > 0
        &&& self.consumed.wf()
        &&& self.consumed.width == self.source.width
        &&& self.consumed.height == self.source.height
        &&& self.dest.wf()
        &&& self.dest.width == self.source.width
        &&& self.dest.height == self.source.height
        &&& self.library.wf()
        &&& self.cx < self.source.width
        &&& self.cy <= self.source.height
        &&& (self.done() ==> self.cx == 0)
        &&& forall|x: int, y: int|
            self.consumed.in_bounds(x, y)
                ==> (#[trigger] self.consumed.is_set(x, y)
                    == self.dest.cell_at(x, y) is Some)
        &&& (self.pending matches Some(a)
            ==> !self.library.contains_anchor(a) && !self.library.has_failed(a))
        &&& forall|i: int, j: int|
            0 <= i < j < self.requests@.len()
                ==> #[trigger] self.requests@[i] != #[trigger] self.requests@[j]
        &&& forall|i: int|
            0 <= i < self.requests@.len()
                ==> self.library.contains_anchor(#[trigger] self.requests@[i])
                    || self.library.has_failed(self.requests@[i])
                    || self.pending == Some(self.requests@[i])
    }

    /// The engine's fixed inputs are untouched.
    pub open spec fn same_config(pre: Synthesizer, post: Synthesizer) -> bool {
        &&& post.source == pre.source
        &&& post.anchors == pre.anchors
    }

    /// Every scan position strictly before the cursor, in row-major
    /// order, has been consumed — and so, by `wf`, written.
    pub open spec fn scanned_consumed(self) -> bool {
        forall|x: int, y: int|
            0 <= x < self.source.width && 0 <= y < self.source.height
                && (y < self.cy || (y == self.cy && x < self.cx))
                ==> #[trigger] self.consumed.is_set(x, y)
    }

    /// The cursor moved to the next row-major scan position.
    pub open spec fn advanced(pre: Synthesizer, post: Synthesizer) -> bool {
        if pre.cx + 1 < pre.source.width {
            post.cx == pre.cx + 1 && post.cy == pre.cy
        } else {
            post.cx == 0 && post.cy == pre.cy + 1
        }
    }

    /// Starts a run.  Fatal `InvalidImageDimensions` exactly on a
    /// zero-area source; nothing is filled in that case.
    pub fn new(source: ImageGrid, anchors: Vec<Pixel>, library: SampleLibrary) -> (r: Result<
        Synthesizer,
        SynthError,
    >)
        requires
            source.wf(),
            library.wf(),
        ensures
            r is Err <==> (source.width == 0 || source.height == 0),
            r matches Err(e) ==> e == SynthError::InvalidImageDimensions,
            r matches Ok(s) ==> {
                &&& s.wf()
                &&& s.source == source
                &&& s.anchors == anchors
                &&& s.library == library
                &&& s.cx == 0 && s.cy == 0
                &&& s.pending is None
                &&& s.requests@.len() == 0
                &&& forall|x: int, y: int|
                    s.dest.in_bounds(x, y) ==> #[trigger] s.dest.cell_at(x, y) is None
                &&& forall|x: int, y: int|
                    s.consumed.in_bounds(x, y) ==> !(#[trigger] s.consumed.is_set(x, y))
            },
    {
        let w = source.width();
        let h = source.height();
        if w == 0 || h == 0 {
            return Err(SynthError::InvalidImageDimensions);
        }
        proof {
            assert(source.pixels.len() == source.pixels@.len());
        }
        let consumed = Mask::new(w, h);
        let dest = Canvas::new(w, h);
        Ok(Synthesizer {
            source,
            anchors,
            library,
            consumed,
            dest,
            cx: 0,
            cy: 0,
            pending: None,
            requests: Vec::new(),
        })
    }

    /// Moves the cursor to the next row-major scan position.
    fn advance(&mut self)
        requires
            old(self).cx < old(self).source.width,
            old(self).cy < old(self).source.height,
        ensures
            *final(self) == (Synthesizer {
                cx: final(self).cx,
                cy: final(self).cy,
                ..*old(self)
            }),
            Self::advanced(*old(self), *final(self)),
    {
        if self.cx + 1 < self.source.width() {
            self.cx = self.cx + 1;
        } else {
            self.cx = 0;
            self.cy = self.cy + 1;
        }
    }

    /// Runs the scan at the current position:
    ///
    /// - `Finished` once every position has been handled;
    /// - `Progress` when the position was consumed already, or when its
    ///   region was matched and flood-filled;
    /// - `Skipped(NoMatchingSample)` when the anchor set is empty;
    /// - `Skipped(SampleAcquisitionFailed)` when the matched anchor failed
    ///   acquisition earlier; the pixel stays unfilled;
    /// - `NeedSample(a)` when the matched anchor has no resident tile: the
    ///   engine suspends, the cursor does not move, and `a` joins the
    ///   request log, never for a second time.
    pub fn step(&mut self) -> (r: StepResult)
        requires
            old(self).wf(),
            old(self).pending is None,
        ensures
            final(self).wf(),
            Self::same_config(*old(self), *final(self)),
            // consumption is monotone across the whole run
            forall|x: int, y: int|
                old(self).consumed.in_bounds(x, y) && #[trigger] old(self).consumed.is_set(x, y)
                    ==> final(self).consumed.is_set(x, y),
            // a written cell is never written again
            forall|x: int, y: int|
                #![trigger final(self).dest.cell_at(x, y)]
                old(self).consumed.in_bounds(x, y)
                    && (old(self).consumed.is_set(x, y) || !final(self).consumed.is_set(x, y))
                    ==> final(self).dest.cell_at(x, y) == old(self).dest.cell_at(x, y),
            (r == StepResult::Finished) == old(self).done(),
            r == StepResult::Finished ==> *final(self) == *old(self),
            r matches StepResult::NeedSample(a) ==> {
                &&& final(self).cx == old(self).cx && final(self).cy == old(self).cy
                &&& final(self).consumed == old(self).consumed
                &&& final(self).dest == old(self).dest
                &&& final(self).library == old(self).library
                &&& final(self).pending == Some(a)
                &&& final(self).requests@ == old(self).requests@.push(a)
                &&& !old(self).library.contains_anchor(a)
                &&& !old(self).library.has_failed(a)
                &&& !old(self).consumed.is_set(old(self).cx as int, old(self).cy as int)
                &&& exists|i: int|
                    #[trigger] is_best_match(old(self).current_color(), old(self).anchors@, i)
                        && a == old(self).anchors@[i]
            },
            (r == StepResult::Progress || r matches StepResult::Skipped(_)) ==> {
                &&& Self::advanced(*old(self), *final(self))
                &&& final(self).pending is None
                &&& final(self).requests == old(self).requests
                &&& final(self).library == old(self).library
            },
            r matches StepResult::Skipped(e) ==> {
                &&& final(self).consumed == old(self).consumed
                &&& final(self).dest == old(self).dest
                &&& !old(self).consumed.is_set(old(self).cx as int, old(self).cy as int)
                &&& (e == SynthError::NoMatchingSample <==> old(self).anchors@.len() == 0)
                &&& (e == SynthError::SampleAcquisitionFailed ==> exists|i: int|
                    #[trigger] is_best_match(old(self).current_color(), old(self).anchors@, i)
                        && old(self).library.has_failed(old(self).anchors@[i]))
                &&& (e == SynthError::NoMatchingSample
                    || e == SynthError::SampleAcquisitionFailed)
            },
            r == StepResult::Progress && old(self).consumed.is_set(
                old(self).cx as int,
                old(self).cy as int,
            ) ==> {
                &&& final(self).consumed == old(self).consumed
                &&& final(self).dest == old(self).dest
            },
            r == StepResult::Progress && !old(self).consumed.is_set(
                old(self).cx as int,
                old(self).cy as int,
            ) ==> exists|i: int|
                {
                    &&& #[trigger] is_best_match(old(self).current_color(), old(self).anchors@, i)
                    &&& old(self).library.contains_anchor(old(self).anchors@[i])
                    &&& fill_effect(
                        old(self).source,
                        old(self).cx as int,
                        old(self).cy as int,
                        old(self).library.stored_tile(old(self).anchors@[i]),
                        old(self).consumed,
                        old(self).dest,
                        final(self).consumed,
                        final(self).dest,
                    )
                },
    {
        let h = self.source.height();
        if self.cy >= h {
            return StepResult::Finished;
        }
        let x = self.cx;
        let y = self.cy;
        if self.consumed.get(x, y) {
            self.advance();
            return StepResult::Progress;
        }
        let color = self.source.get(x, y);
        match closest_anchor(&self.anchors, color) {
            None => {
                self.advance();
                StepResult::Skipped(SynthError::NoMatchingSample)
            },
            Some(i) => {
                let a = self.anchors[i];
                proof {
                    assert(is_best_match(old(self).current_color(), old(self).anchors@, i as int));
                }
                if self.library.is_failed(a) {
                    self.advance();
                    return StepResult::Skipped(SynthError::SampleAcquisitionFailed);
                }
                match self.library.lookup(a) {
                    Some(tile) => {
                        proof {
                            let j = choose|j: int|
                                0 <= j < self.library.entries@.len()
                                    && #[trigger] self.library.entries@[j].anchor == a;
                            assert(self.library.entries@[j].tile.wf());
                        }
                        let ghost m_before = self.consumed;
                        let ghost d_before = self.dest;
                        fill_region(&self.source, x, y, tile, &mut self.consumed, &mut self.dest);
                        self.advance();
                        proof {
                            assert(fill_effect(
                                old(self).source,
                                old(self).cx as int,
                                old(self).cy as int,
                                old(self).library.stored_tile(old(self).anchors@[i as int]),
                                m_before,
                                d_before,
                                self.consumed,
                                self.dest,
                            ));
                        }
                        StepResult::Progress
                    },
                    None => {
                        proof {
                            assert forall|k: int| 0 <= k < self.requests@.len()
                                implies self.requests@[k] != a by {
                                assert(self.library.contains_anchor(#[trigger] self.requests@[k])
                                    || self.library.has_failed(self.requests@[k])
                                    || self.pending == Some(self.requests@[k]));
                            }
                        }
                        self.pending = Some(a);
                        self.requests.push(a);
                        StepResult::NeedSample(a)
                    },
                }
            },
        }
    }

    /// Resumes after a successful acquisition: stores the tile under the
    /// pending anchor.  A zero-area tile cannot be wrapped, so it counts
    /// as a failed acquisition and is reported as `InvalidImageDimensions`.
    pub fn provide_sample(&mut self, tile: ImageGrid) -> (r: Result<(), SynthError>)
        requires
            old(self).wf(),
            old(self).pending is Some,
            tile.wf(),
        ensures
            final(self).wf(),
            Self::same_config(*old(self), *final(self)),
            final(self).cx == old(self).cx && final(self).cy == old(self).cy,
            final(self).consumed == old(self).consumed,
            final(self).dest == old(self).dest,
            final(self).requests == old(self).requests,
            final(self).pending is None,
            tile.width > 0 && tile.height > 0 ==> {
                &&& r is Ok
                &&& final(self).library.entries@ == old(self).library.entries@.push(
                    (ColorSample { anchor: old(self).pending->0, tile }),
                )
                &&& final(self).library.failed@ == old(self).library.failed@
                &&& final(self).library.contains_anchor(old(self).pending->0)
            },
            tile.width == 0 || tile.height == 0 ==> {
                &&& r == Result::<(), SynthError>::Err(SynthError::InvalidImageDimensions)
                &&& final(self).library.entries@ == old(self).library.entries@
                &&& final(self).library.failed@ == old(self).library.failed@.push(
                    old(self).pending->0,
                )
                &&& final(self).library.has_failed(old(self).pending->0)
            },
    {
        let a = match self.pending {
            Some(a) => a,
            None => {
                proof {
                    assert(false);
                }
                Pixel { r: 0, g: 0, b: 0 }
            },
        };
        self.pending = None;
        if tile.width() == 0 || tile.height() == 0 {
            self.library.mark_failed(a);
            return Err(SynthError::InvalidImageDimensions);
        }
        let res = self.library.insert_if_absent(a, tile);
        proof {
            assert(res is Ok);
            assert(self.library.contains_anchor(a)) by {
                let n = self.library.entries@.len() - 1;
                assert(self.library.entries@[n].anchor == a);
            }
            assert forall|k: int| 0 <= k < self.requests@.len()
                implies self.library.contains_anchor(#[trigger] self.requests@[k])
                    || self.library.has_failed(self.requests@[k])
                    || self.pending == Some(self.requests@[k]) by {
                let b = self.requests@[k];
                if old(self).library.contains_anchor(b) {
                    let j = choose|j: int|
                        0 <= j < old(self).library.entries@.len()
                            && #[trigger] old(self).library.entries@[j].anchor == b;
                    assert(self.library.entries@[j].anchor == b);
                }
            }
        }
        Ok(())
    }

    /// Resumes after a failed acquisition: the pending anchor is marked
    /// permanently unusable for this session and its pixels stay unfilled.
    pub fn acquisition_failed(&mut self)
        requires
            old(self).wf(),
            old(self).pending is Some,
        ensures
            final(self).wf(),
            Self::same_config(*old(self), *final(self)),
            final(self).cx == old(self).cx && final(self).cy == old(self).cy,
            final(self).consumed == old(self).consumed,
            final(self).dest == old(self).dest,
            final(self).requests == old(self).requests,
            final(self).pending is None,
            final(self).library.entries@ == old(self).library.entries@,
            final(self).library.failed@ == old(self).library.failed@.push(old(self).pending->0),
            final(self).library.has_failed(old(self).pending->0),
    {
        let a = match self.pending {
            Some(a) => a,
            None => {
                proof {
                    assert(false);
                }
                Pixel { r: 0, g: 0, b: 0 }
            },
        };
        self.pending = None;
        self.library.mark_failed(a);
    }

    /// The run's output so far; a valid partial result once `step` has
    /// returned `Finished`.  Unfilled cells stay `None`.
    pub fn result(&self) -> (r: &Canvas)
        ensures
            *r == self.dest,
    {
        &self.dest
    }

    /// Hands the finished output over, consuming the run.
    pub fn into_result(self) -> (r: Canvas)
        ensures
            r == self.dest,
    {
        self.dest
    }

    /// Whether the scan has passed the last position.
    pub fn is_done(&self) -> (r: bool)
        ensures
            r == self.done(),
    {
        self.cy == self.source.height()
    }

    /// The anchor whose acquisition is in flight, if any.
    pub fn pending_anchor(&self) -> (r: Option<Pixel>)
        ensures
            r == self.pending,
    {
        self.pending
    }

    /// How many acquisitions this run has requested.
    pub fn request_count(&self) -> (r: usize)
        ensures
            r == self.requests@.len(),
    {
        self.requests.len()
    }
}

/// One acquisition per anchor: a valid run never logs the same anchor in
/// its request log twice, however many pixels needed it.
pub proof fn lemma_requests_distinct(s: Synthesizer, i: int, j: int)
    requires
        s.wf(),
        0 <= i < j < s.requests@.len(),
    ensures
        s.requests@[i] != s.requests@[j],
{
}

/// Every filled cell of `c` holds the origin-wrapped pixel of some tile
/// stored in `lib` under an anchor of the palette `anchors`: synthesis
/// never invents a color.
pub open spec fn cells_from_palette(c: Canvas, lib: SampleLibrary, anchors: Seq<Pixel>) -> bool {
    forall|x: int, y: int|
        #![trigger c.cell_at(x, y)]
        c.in_bounds(x, y) && c.cell_at(x, y) is Some
            ==> exists|j: int|
                0 <= j < lib.entries@.len()
                    && anchors.contains((#[trigger] lib.entries@[j]).anchor)
                    && c.cell_at(x, y) == Some(wrapped_tile_pixel(lib.entries@[j].tile, x, y))
}

/// Every palette anchor has a stored tile.
pub open spec fn all_resident(lib: SampleLibrary, anchors: Seq<Pixel>) -> bool {
    forall|i: int| 0 <= i < anchors.len() ==> lib.contains_anchor(#[trigger] anchors[i])
}

/// Every filled cell of `c` was placed by the matcher: some seed position
/// of `src`, within tolerance of the cell's own source color, has a
/// best-match anchor whose stored tile the cell's pixel is drawn from,
/// origin-wrapped at the cell's coordinate.
pub open spec fn cells_match_regions(
    c: Canvas,
    src: ImageGrid,
    lib: SampleLibrary,
    anchors: Seq<Pixel>,
) -> bool {
    forall|x: int, y: int|
        #![trigger c.cell_at(x, y)]
        c.in_bounds(x, y) && c.cell_at(x, y) is Some
            ==> exists|sx: int, sy: int, i: int, j: int|
                {
                    &&& #[trigger] is_best_match(src.pixel_at(sx, sy), anchors, i)
                    &&& src.in_bounds(sx, sy)
                    &&& within_tol(src.pixel_at(x, y), src.pixel_at(sx, sy),
                        crate::pixel::TOLERANCE as int)
                    &&& 0 <= j < lib.entries@.len()
                    &&& (#[trigger] lib.entries@[j]).anchor == anchors[i]
                    &&& c.cell_at(x, y) == Some(wrapped_tile_pixel(lib.entries@[j].tile, x, y))
                }
}

/// One engine transition keeps every filled cell a palette tile pixel
/// placed by the matcher: cells already written are untouched, and a fill
/// writes only wrapped pixels of the stored tile of its seed's best-match
/// anchor, within the seed's tolerance region.
proof fn lemma_step_keeps_palette(
    pre: Synthesizer,
    post: Synthesizer,
    library: SampleLibrary,
    anchors: Seq<Pixel>,
)
    requires
        pre.wf(),
        post.wf(),
        pre.cy < pre.source.height,
        post.source == pre.source,
        pre.library.entries@ == library.entries@,
        pre.anchors@ == anchors,
        cells_from_palette(pre.dest, library, anchors),
        cells_match_regions(pre.dest, pre.source, library, anchors),
        forall|x: int, y: int|
            #![trigger post.dest.cell_at(x, y)]
            pre.consumed.in_bounds(x, y)
                && (pre.consumed.is_set(x, y) || !post.consumed.is_set(x, y))
                ==> post.dest.cell_at(x, y) == pre.dest.cell_at(x, y),
        post.dest == pre.dest || exists|i: int|
            {
                &&& #[trigger] is_best_match(pre.current_color(), pre.anchors@, i)
                &&& pre.library.contains_anchor(pre.anchors@[i])
                &&& fill_effect(
                    pre.source,
                    pre.cx as int,
                    pre.cy as int,
                    pre.library.stored_tile(pre.anchors@[i]),
                    pre.consumed,
                    pre.dest,
                    post.consumed,
                    post.dest,
                )
            },
    ensures
        cells_from_palette(post.dest, library, anchors),
        cells_match_regions(post.dest, pre.source, library, anchors),
{
    if post.dest == pre.dest {
        return;
    }
    let i = choose|i: int|
        {
            &&& #[trigger] is_best_match(pre.current_color(), pre.anchors@, i)
            &&& pre.library.contains_anchor(pre.anchors@[i])
            &&& fill_effect(
                pre.source,
                pre.cx as int,
                pre.cy as int,
                pre.library.stored_tile(pre.anchors@[i]),
                pre.consumed,
                pre.dest,
                post.consumed,
                post.dest,
            )
        };
    let a = pre.anchors@[i];
    assert(anchors.contains(a));
    let j = choose|j: int|
        0 <= j < pre.library.entries@.len() && #[trigger] pre.library.entries@[j].anchor == a;
    assert(pre.library.stored_tile(a) == pre.library.entries@[j].tile);
    assert forall|x: int, y: int|
        post.dest.in_bounds(x, y) && #[trigger] post.dest.cell_at(x, y) is Some
            implies exists|k: int|
                0 <= k < library.entries@.len()
                    && anchors.contains((#[trigger] library.entries@[k]).anchor)
                    && post.dest.cell_at(x, y) == Some(
                    wrapped_tile_pixel(library.entries@[k].tile, x, y),
                ) by {
        if pre.dest.cell_at(x, y) is Some {
            assert(pre.consumed.is_set(x, y));
            assert(post.dest.cell_at(x, y) == pre.dest.cell_at(x, y));
        } else {
            assert(!pre.consumed.is_set(x, y));
            assert(post.consumed.is_set(x, y));
            assert(post.dest.cell_at(x, y) == Some(
                wrapped_tile_pixel(pre.library.entries@[j].tile, x, y),
            ));
            assert(library.entries@[j].anchor == a);
        }
    }
    assert forall|x: int, y: int|
        post.dest.in_bounds(x, y) && #[trigger] post.dest.cell_at(x, y) is Some
            implies exists|sx: int, sy: int, i2: int, j2: int|
                {
                    &&& #[trigger] is_best_match(pre.source.pixel_at(sx, sy), anchors, i2)
                    &&& pre.source.in_bounds(sx, sy)
                    &&& within_tol(pre.source.pixel_at(x, y), pre.source.pixel_at(sx, sy),
                        crate::pixel::TOLERANCE as int)
                    &&& 0 <= j2 < library.entries@.len()
                    &&& (#[trigger] library.entries@[j2]).anchor == anchors[i2]
                    &&& post.dest.cell_at(x, y) == Some(
                        wrapped_tile_pixel(library.entries@[j2].tile, x, y),
                    )
                } by {
        if pre.dest.cell_at(x, y) is Some {
            assert(pre.consumed.is_set(x, y));
            assert(post.dest.cell_at(x, y) == pre.dest.cell_at(x, y));
        } else {
            assert(!pre.consumed.is_set(x, y));
            assert(post.consumed.is_set(x, y));
            assert(post.dest.cell_at(x, y) == Some(
                wrapped_tile_pixel(pre.library.entries@[j].tile, x, y),
            ));
            assert(within_tol(pre.source.pixel_at(x, y), pre.current_color(),
                crate::pixel::TOLERANCE as int));
            assert(pre.source.in_bounds(pre.cx as int, pre.cy as int));
            assert(is_best_match(pre.source.pixel_at(pre.cx as int, pre.cy as int), anchors, i));
            assert(library.entries@[j].anchor == anchors[i]);
        }
    }
}

/// Synchronous synthesis over whatever samples are already resident: scans
/// the whole image and flood-fills each matched region from the library.
/// An anchor without a resident tile counts as a failed acquisition and
/// its region stays unfilled; a caller that can acquire tiles drives
/// `step` itself and suspends instead of calling this.
///
/// Fatal `InvalidImageDimensions` exactly on a zero-area source; with an
/// empty anchor set every pixel stays unfilled; every filled pixel is an
/// origin-wrapped tile pixel of a stored sample whose anchor is in the
/// palette; and when the palette is non-empty and fully resident, every
/// pixel of the output is filled.
pub fn synthesize_resident(
    source: ImageGrid,
    anchors: Vec<Pixel>,
    library: SampleLibrary,
) -> (r: Result<Canvas, SynthError>)
    requires
        source.wf(),
        library.wf(),
    ensures
        r is Err <==> (source.width == 0 || source.height == 0),
        r matches Err(e) ==> e == SynthError::InvalidImageDimensions,
        r matches Ok(c) ==> {
            &&& c.wf()
            &&& c.width == source.width
            &&& c.height == source.height
            &&& (anchors@.len() == 0 ==> forall|x: int, y: int|
                c.in_bounds(x, y) ==> #[trigger] c.cell_at(x, y) is None)
            &&& cells_from_palette(c, library, anchors@)
            &&& cells_match_regions(c, source, library, anchors@)
            &&& (anchors@.len() > 0 && all_resident(library, anchors@)
                ==> forall|x: int, y: int|
                    c.in_bounds(x, y) ==> #[trigger] c.cell_at(x, y) is Some)
        },
{
    let mut s = match Synthesizer::new(source, anchors, library) {
        Ok(s) => s,
        Err(e) => {
            return Err(e);
        },
    };
    loop
        invariant
            s.wf(),
            s.pending is None,
            s.source == source,
            s.anchors@ == anchors@,
            s.library.entries@ == library.entries@,
            anchors@.len() == 0 ==> forall|x: int, y: int|
                s.dest.in_bounds(x, y) ==> #[trigger] s.dest.cell_at(x, y) is None,
            cells_from_palette(s.dest, library, anchors@),
            cells_match_regions(s.dest, source, library, anchors@),
            anchors@.len() > 0 && all_resident(library, anchors@) ==> s.scanned_consumed(),
        ensures
            s.wf(),
            s.done(),
            s.source == source,
            anchors@.len() == 0 ==> forall|x: int, y: int|
                s.dest.in_bounds(x, y) ==> #[trigger] s.dest.cell_at(x, y) is None,
            cells_from_palette(s.dest, library, anchors@),
            cells_match_regions(s.dest, source, library, anchors@),
            anchors@.len() > 0 && all_resident(library, anchors@) ==> s.scanned_consumed(),
        decreases s.source.height - s.cy, s.source.width - s.cx,
    {
        let ghost s0 = s;
        let r = s.step();
        match r {
            StepResult::Finished => {
                break;
            },
            StepResult::Progress | StepResult::Skipped(_) => {
                proof {
                    if anchors@.len() == 0 {
                        assert(s.dest == s0.dest);
                    }
                    assert(s0.cy < s0.source.height);
                    lemma_step_keeps_palette(s0, s, library, anchors@);
                    if anchors@.len() > 0 && all_resident(library, anchors@) {
                        // with every palette anchor stored and no anchor
                        // both stored and failed, nothing can be skipped
                        match r {
                            StepResult::Skipped(e) => {
                                if e == SynthError::SampleAcquisitionFailed {
                                    let i = choose|i: int|
                                        #[trigger] is_best_match(s0.current_color(),
                                            s0.anchors@, i)
                                            && s0.library.has_failed(s0.anchors@[i]);
                                    assert(library.contains_anchor(s0.anchors@[i]));
                                    let j = choose|j: int|
                                        0 <= j < library.entries@.len()
                                            && #[trigger] library.entries@[j].anchor
                                            == s0.anchors@[i];
                                    assert(s0.library.entries@[j].anchor == s0.anchors@[i]);
                                    assert(!s0.library.has_failed(
                                        s0.library.entries@[j].anchor));
                                    assert(false);
                                }
                                assert(false);
                            },
                            _ => {},
                        }
                        assert(r == StepResult::Progress);
                        // the position just passed is consumed: it was
                        // already, or the fill consumed its seed
                        if !s0.consumed.is_set(s0.cx as int, s0.cy as int) {
                            let i = choose|i: int|
                                {
                                    &&& #[trigger] is_best_match(s0.current_color(),
                                        s0.anchors@, i)
                                    &&& s0.library.contains_anchor(s0.anchors@[i])
                                    &&& fill_effect(
                                        s0.source,
                                        s0.cx as int,
                                        s0.cy as int,
                                        s0.library.stored_tile(s0.anchors@[i]),
                                        s0.consumed,
                                        s0.dest,
                                        s.consumed,
                                        s.dest,
                                    )
                                };
                        }
                        assert(s.consumed.is_set(s0.cx as int, s0.cy as int));
                        assert forall|x: int, y: int|
                            0 <= x < s.source.width && 0 <= y < s.source.height
                                && (y < s.cy || (y == s.cy && x < s.cx))
                            implies #[trigger] s.consumed.is_set(x, y) by {
                            if y < s0.cy || (y == s0.cy && x < s0.cx) {
                                assert(s0.consumed.is_set(x, y));
                            } else {
                                assert(x == s0.cx && y == s0.cy);
                            }
                        }
                    }
                }
            },
            StepResult::NeedSample(a) => {
                s.acquisition_failed();
                let ghost s1 = s;
                let r2 = s.step();
                proof {
                    // the position's matched anchor is now marked failed,
                    // so the engine cannot suspend on it again
                    match r2 {
                        StepResult::NeedSample(b) => {
                            let i = choose|i: int|
                                #[trigger] is_best_match(s0.current_color(), s0.anchors@, i)
                                    && a == s0.anchors@[i];
                            let j = choose|j: int|
                                #[trigger] is_best_match(s1.current_color(), s1.anchors@, j)
                                    && b == s1.anchors@[j];
                            crate::matcher::lemma_best_match_unique(
                                s0.current_color(),
                                s0.anchors@,
                                i,
                                j,
                            );
                            assert(false);
                        },
                        _ => {},
                    }
                    assert(!(r2 is Finished));
                    assert(Synthesizer::advanced(s1, s));
                    if anchors@.len() == 0 {
                        assert(false);
                    }
                    assert(s1.cy < s1.source.height);
                    lemma_step_keeps_palette(s1, s, library, anchors@);
                    if all_resident(library, anchors@) {
                        // a fully resident palette never suspends: the
                        // requested best-match anchor would be stored
                        let i = choose|i: int|
                            #[trigger] is_best_match(s0.current_color(), s0.anchors@, i)
                                && a == s0.anchors@[i];
                        assert(library.contains_anchor(s0.anchors@[i]));
                        let j = choose|j: int|
                            0 <= j < library.entries@.len()
                                && #[trigger] library.entries@[j].anchor == a;
                        assert(s0.library.entries@[j].anchor == a);
                        assert(s0.library.contains_anchor(a));
                        assert(false);
                    }
                }
            },
        }
    }
    proof {
        if anchors@.len() > 0 && all_resident(library, anchors@) {
            assert forall|x: int, y: int| s.dest.in_bounds(x, y)
                implies #[trigger] s.dest.cell_at(x, y) is Some by {
                assert(s.consumed.is_set(x, y));
            }
        }
    }
    Ok(s.into_result())
}

} // verus!
