//! The image grids of the engine: the pixel grid that holds source and tile
//! images, the destination canvas whose cells start in an explicit unfilled
//! state, and the boolean mask that marks source pixels as consumed.
//!
//! Consumption is tracked out of band, in the mask, rather than by
//! overwriting source pixels with a reserved color: no real color value
//! doubles as a marker, so true black source pixels are ordinary pixels.

use vstd::prelude::*;

use crate::pixel::Pixel;

verus! {

/// Row-major flat index of the cell at `(x, y)` in a grid `w` cells wide.
pub open spec fn flat_index(x: int, y: int, w: int) -> int {
    y * w + x
}

/// A cell's flat index lies inside the grid's buffer.
pub proof fn lemma_flat_index_bound(x: int, y: int, w: int, h: int)
    requires
        0 <= x < w,
        0 <= y < h,
    ensures
        0 <= flat_index(x, y, w) < w * h,
{
    assert(y * w + x < w * h) by (nonlinear_arith)
        requires 0 <= x < w && 0 <= y < h;
}

/// Distinct in-bounds coordinates have distinct flat indices.
pub proof fn lemma_flat_index_injective(x1: int, y1: int, x2: int, y2: int, w: int)
    requires
        0 <= x1 < w,
        0 <= x2 < w,
        0 <= y1,
        0 <= y2,
        flat_index(x1, y1, w) == flat_index(x2, y2, w),
    ensures
        x1 == x2 && y1 == y2,
{
    assert(y1 == y2 && x1 == x2) by (nonlinear_arith)
        requires
            0 <= x1 < w && 0 <= x2 < w && 0 <= y1 && 0 <= y2
                && y1 * w + x1 == y2 * w + x2;
}

/// A rectangular grid of pixels, addressed by `(x, y)` with `x` running
/// along a row.  Width and height are fixed at creation.
#[derive(Clone, Debug)]
pub struct ImageGrid {
    pub width: usize,
    pub height: usize,
    pub pixels: Vec<Pixel>,
}

impl ImageGrid {
    /// The buffer holds exactly one pixel per cell.
    pub open spec fn wf(self) -> bool {
        self.pixels@.len() == self.width * self.height
    }

    /// `(x, y)` lies strictly inside the grid.
    pub open spec fn in_bounds(self, x: int, y: int) -> bool {
        0 <= x < self.width && 0 <= y < self.height
    }

    /// The pixel stored at `(x, y)`.
    pub open spec fn pixel_at(self, x: int, y: int) -> Pixel {
        self.pixels@[flat_index(x, y, self.width as int)]
    }

    /// Builds a grid from a row-major pixel buffer.  Fails exactly when the
    /// buffer does not hold one pixel per cell.
    pub fn new(width: usize, height: usize, pixels: Vec<Pixel>) -> (r: Option<ImageGrid>)
        ensures
            r is Some <==> pixels@.len() == width * height,
            r is Some ==> {
                let g = r->0;
                g.width == width && g.height == height && g.pixels@ == pixels@ && g.wf()
            },
    {
        match width.checked_mul(height) {
            Some(area) => {
                if pixels.len() == area {
                    Some(ImageGrid { width, height, pixels })
                } else {
                    None
                }
            },
            None => {
                proof {
                    assert(pixels.len() == pixels@.len());
                }
                None
            },
        }
    }

    pub fn width(&self) -> (r: usize)
        ensures
            r == self.width,
    {
        self.width
    }

    pub fn height(&self) -> (r: usize)
        ensures
            r == self.height,
    {
        self.height
    }

    /// Reads the pixel at `(x, y)`.
    pub fn get(&self, x: usize, y: usize) -> (r: Pixel)
        requires
            self.wf(),
            self.in_bounds(x as int, y as int),
        ensures
            r == self.pixel_at(x as int, y as int),
    {
        proof {
            assert(self.pixels.len() == self.pixels@.len());
            lemma_flat_index_bound(x as int, y as int, self.width as int, self.height as int);
        }
        self.pixels[y * self.width + x]
    }
}

/// The destination buffer: every cell starts unfilled (`None`), which is
/// distinguishable from any real color, and is written at most once.
#[derive(Clone, Debug)]
pub struct Canvas {
    pub width: usize,
    pub height: usize,
    pub cells: Vec<Option<Pixel>>,
}

impl Canvas {
    pub open spec fn wf(self) -> bool {
        self.cells@.len() == self.width * self.height
    }

    pub open spec fn in_bounds(self, x: int, y: int) -> bool {
        0 <= x < self.width && 0 <= y < self.height
    }

    /// The cell at `(x, y)`: `None` while unfilled.
    pub open spec fn cell_at(self, x: int, y: int) -> Option<Pixel> {
        self.cells@[flat_index(x, y, self.width as int)]
    }

    /// A fresh, fully unfilled canvas.
    pub fn new(width: usize, height: usize) -> (r: Canvas)
        requires
            width * height <= usize::MAX,
        ensures
            r.width == width,
            r.height == height,
            r.wf(),
            forall|x: int, y: int| r.in_bounds(x, y) ==> #[trigger] r.cell_at(x, y) is None,
    {
        let area = width * height;
        let mut cells: Vec<Option<Pixel>> = Vec::new();
        let mut i: usize = 0;
        while i < area
            invariant
                i <= area,
                cells@.len() == i,
                forall|k: int| 0 <= k < i ==> cells@[k] is None,
            decreases area - i,
        {
            cells.push(None);
            i += 1;
        }
        let r = Canvas { width, height, cells };
        proof {
            assert forall|x: int, y: int| r.in_bounds(x, y) implies #[trigger] r.cell_at(x, y) is None by {
                lemma_flat_index_bound(x, y, width as int, height as int);
            }
        }
        r
    }

    /// Reads the cell at `(x, y)`.
    pub fn get(&self, x: usize, y: usize) -> (r: Option<Pixel>)
        requires
            self.wf(),
            self.in_bounds(x as int, y as int),
        ensures
            r == self.cell_at(x as int, y as int),
    {
        proof {
            assert(self.cells.len() == self.cells@.len());
            lemma_flat_index_bound(x as int, y as int, self.width as int, self.height as int);
        }
        self.cells[y * self.width + x]
    }

    /// Writes the cell at `(x, y)`.  The cell must still be unfilled, so a
    /// verified caller can never write the same destination coordinate
    /// twice.
    pub fn put(&mut self, x: usize, y: usize, p: Pixel)
        requires
            old(self).wf(),
            old(self).in_bounds(x as int, y as int),
            old(self).cell_at(x as int, y as int) is None,
        ensures
            final(self).wf(),
            final(self).width == old(self).width,
            final(self).height == old(self).height,
            final(self).cell_at(x as int, y as int) == Some(p),
            forall|x2: int, y2: int|
                final(self).in_bounds(x2, y2) && !(x2 == x && y2 == y)
                    ==> #[trigger] final(self).cell_at(x2, y2) == old(self).cell_at(x2, y2),
    {
        proof {
            assert(self.cells.len() == self.cells@.len());
            lemma_flat_index_bound(x as int, y as int, self.width as int, self.height as int);
        }
        let i = y * self.width + x;
        self.cells.set(i, Some(p));
        proof {
            assert forall|x2: int, y2: int|
                self.in_bounds(x2, y2) && !(x2 == x && y2 == y)
                    implies #[trigger] self.cell_at(x2, y2) == old(self).cell_at(x2, y2) by {
                lemma_flat_index_bound(x2, y2, self.width as int, self.height as int);
                if flat_index(x2, y2, self.width as int) == flat_index(x as int, y as int, self.width as int) {
                    lemma_flat_index_injective(x2, y2, x as int, y as int, self.width as int);
                }
            }
        }
    }
}

/// Counts the `false` entries of a boolean sequence: how many cells a mask
/// still leaves unconsumed.
pub open spec fn count_unset(s: Seq<bool>) -> nat
    decreases s.len(),
{
    if s.len() == 0 {
        0
    } else {
        count_unset(s.drop_last()) + (if s.last() { 0nat } else { 1nat })
    }
}

/// A sequence with a `false` entry has a positive unset count.
pub proof fn lemma_count_unset_pos(s: Seq<bool>, i: int)
    requires
        0 <= i < s.len(),
        !s[i],
    ensures
        count_unset(s) >= 1,
    decreases s.len(),
{
    if i < s.len() - 1 {
        lemma_count_unset_pos(s.drop_last(), i);
    }
}

/// Setting a `false` entry decreases the unset count by one; setting an
/// already-`true` entry leaves it unchanged.
pub proof fn lemma_count_unset_update(s: Seq<bool>, i: int)
    requires
        0 <= i < s.len(),
    ensures
        count_unset(s.update(i, true))
            == if s[i] { count_unset(s) } else { (count_unset(s) - 1) as nat },
    decreases s.len(),
{
    let t = s.update(i, true);
    if !s[i] {
        lemma_count_unset_pos(s, i);
    }
    if i == s.len() - 1 {
        assert(t.drop_last() =~= s.drop_last());
        assert(t.last());
    } else {
        assert(t.drop_last() =~= s.drop_last().update(i, true));
        assert(t.last() == s.last());
        lemma_count_unset_update(s.drop_last(), i);
        if !s[i] {
            lemma_count_unset_pos(s.drop_last(), i);
        }
    }
}

/// The consumed mask: one boolean per source pixel, `true` once the pixel
/// has been consumed by a flood fill.
#[derive(Clone, Debug)]
pub struct Mask {
    pub width: usize,
    pub height: usize,
    pub bits: Vec<bool>,
}

impl Mask {
    pub open spec fn wf(self) -> bool {
        self.bits@.len() == self.width * self.height
    }

    pub open spec fn in_bounds(self, x: int, y: int) -> bool {
        0 <= x < self.width && 0 <= y < self.height
    }

    /// Whether the pixel at `(x, y)` is marked consumed.
    pub open spec fn is_set(self, x: int, y: int) -> bool {
        self.bits@[flat_index(x, y, self.width as int)]
    }

    /// How many pixels are still unconsumed.
    pub open spec fn unset_count(self) -> nat {
        count_unset(self.bits@)
    }

    /// A fresh mask with every pixel unconsumed.
    pub fn new(width: usize, height: usize) -> (r: Mask)
        requires
            width * height <= usize::MAX,
        ensures
            r.width == width,
            r.height == height,
            r.wf(),
            forall|x: int, y: int| r.in_bounds(x, y) ==> !(#[trigger] r.is_set(x, y)),
    {
        let area = width * height;
        let mut bits: Vec<bool> = Vec::new();
        let mut i: usize = 0;
        while i < area
            invariant
                i <= area,
                bits@.len() == i,
                forall|k: int| 0 <= k < i ==> !bits@[k],
            decreases area - i,
        {
            bits.push(false);
            i += 1;
        }
        let r = Mask { width, height, bits };
        proof {
            assert forall|x: int, y: int| r.in_bounds(x, y) implies !(#[trigger] r.is_set(x, y)) by {
                lemma_flat_index_bound(x, y, width as int, height as int);
            }
        }
        r
    }

    /// Reads the consumed flag at `(x, y)`.
    pub fn get(&self, x: usize, y: usize) -> (r: bool)
        requires
            self.wf(),
            self.in_bounds(x as int, y as int),
        ensures
            r == self.is_set(x as int, y as int),
    {
        proof {
            assert(self.bits.len() == self.bits@.len());
            lemma_flat_index_bound(x as int, y as int, self.width as int, self.height as int);
        }
        self.bits[y * self.width + x]
    }

    /// Marks the pixel at `(x, y)` consumed.
    pub fn set(&mut self, x: usize, y: usize)
        requires
            old(self).wf(),
            old(self).in_bounds(x as int, y as int),
        ensures
            final(self).wf(),
            final(self).width == old(self).width,
            final(self).height == old(self).height,
            final(self).is_set(x as int, y as int),
            forall|x2: int, y2: int|
                final(self).in_bounds(x2, y2) && !(x2 == x && y2 == y)
                    ==> #[trigger] final(self).is_set(x2, y2) == old(self).is_set(x2, y2),
            final(self).unset_count()
                == if old(self).is_set(x as int, y as int) {
                    old(self).unset_count()
                } else {
                    (old(self).unset_count() - 1) as nat
                },
    {
        proof {
            assert(self.bits.len() == self.bits@.len());
            lemma_flat_index_bound(x as int, y as int, self.width as int, self.height as int);
        }
        let i = y * self.width + x;
        self.bits.set(i, true);
        proof {
            lemma_count_unset_update(old(self).bits@, i as int);
            assert forall|x2: int, y2: int|
                self.in_bounds(x2, y2) && !(x2 == x && y2 == y)
                    implies #[trigger] self.is_set(x2, y2) == old(self).is_set(x2, y2) by {
                lemma_flat_index_bound(x2, y2, self.width as int, self.height as int);
                if flat_index(x2, y2, self.width as int) == flat_index(x as int, y as int, self.width as int) {
                    lemma_flat_index_injective(x2, y2, x as int, y as int, self.width as int);
                }
            }
        }
    }
}

} // verus!
