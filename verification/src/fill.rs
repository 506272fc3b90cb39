//! The flood-fill compositor: iterative connected-region traversal that
//! consumes matched source pixels and writes tiled sample pixels into the
//! destination.  Tiling is pure repetition anchored at the absolute image
//! origin: tile-local coordinates are the absolute coordinates wrapped
//! modulo the tile's width and height.

use vstd::prelude::*;

use crate::grid::{Canvas, ImageGrid, Mask};
use crate::pixel::{Pixel, TOLERANCE, within_tol, within_tolerance};
use crate::stack::{Coord, CoordStack};

verus! {

/// 4-connectivity: the two coordinates share an edge.
pub open spec fn adjacent(ax: int, ay: int, bx: int, by: int) -> bool {
    ||| (ax == bx && ay == by + 1)
    ||| (ax == bx && ay + 1 == by)
    ||| (ay == by && ax == bx + 1)
    ||| (ay == by && ax + 1 == bx)
}

/// Whether the coordinate `(x, y)` is pending on the traversal stack.
pub open spec fn on_stack(s: Seq<Coord>, x: int, y: int) -> bool {
    exists|k: int| 0 <= k < s.len() && (#[trigger] s[k]).x == x && s[k].y == y
}

/// A pending coordinate is either the one popped last or still pending
/// afterwards.
proof fn lemma_on_stack_pop(s: Seq<Coord>, x: int, y: int)
    requires
        on_stack(s, x, y),
        s.len() > 0,
    ensures
        (s.last().x == x && s.last().y == y) || on_stack(s.drop_last(), x, y),
{
    let k = choose|k: int| 0 <= k < s.len() && (#[trigger] s[k]).x == x && s[k].y == y;
    if k < s.len() - 1 {
        assert(s.drop_last()[k] == s[k]);
    }
}

/// A push keeps pending coordinates pending — both those of the stack it
/// extends and those of any earlier stack whose coordinates were already
/// carried over — and makes the pushed coordinate pending.
proof fn lemma_on_stack_extend(base: Seq<Coord>, pre: Seq<Coord>, post: Seq<Coord>, c: Coord)
    requires
        post == pre.push(c),
        forall|x: int, y: int| on_stack(base, x, y) ==> #[trigger] on_stack(pre, x, y),
    ensures
        on_stack(post, c.x as int, c.y as int),
        forall|x: int, y: int| on_stack(pre, x, y) ==> #[trigger] on_stack(post, x, y),
        forall|x: int, y: int| on_stack(base, x, y) ==> #[trigger] on_stack(post, x, y),
{
    assert(post[pre.len() as int] == c);
    assert forall|x: int, y: int| on_stack(pre, x, y) implies #[trigger] on_stack(post, x, y) by {
        let k = choose|k: int| 0 <= k < pre.len() && (#[trigger] pre[k]).x == x && pre[k].y == y;
        assert(post[k] == pre[k]);
    }
}

/// `(x, y)` was consumed by the fill under comparison: unconsumed in the
/// mask before it, consumed after it.
pub open spec fn newly_consumed(m0: Mask, m1: Mask, x: int, y: int) -> bool {
    m1.in_bounds(x, y) && !m0.is_set(x, y) && m1.is_set(x, y)
}

/// `p` is a 4-connected walk from the seed `(sx, sy)` to `(x, y)` through
/// cells the fill consumed.
pub open spec fn path_connects(
    p: Seq<Coord>,
    m0: Mask,
    m1: Mask,
    sx: int,
    sy: int,
    x: int,
    y: int,
) -> bool {
    &&& p.len() > 0
    &&& p[0].x == sx && p[0].y == sy
    &&& p.last().x == x && p.last().y == y
    &&& forall|k: int|
        0 <= k < p.len()
            ==> newly_consumed(m0, m1, (#[trigger] p[k]).x as int, p[k].y as int)
    &&& forall|k: int|
        0 < k < p.len()
            ==> adjacent(p[k - 1].x as int, p[k - 1].y as int, (#[trigger] p[k]).x as int,
            p[k].y as int)
}

/// The pixel the tile contributes at absolute coordinate `(x, y)`: the
/// tile repeats from the image origin, so the tile-local coordinate is the
/// absolute one wrapped modulo the tile's size.
pub open spec fn wrapped_tile_pixel(tile: ImageGrid, x: int, y: int) -> Pixel {
    tile.pixel_at(x % (tile.width as int), y % (tile.height as int))
}

/// The complete effect of one flood fill seeded at `(sx, sy)` over source
/// `src`, filling from `tile`, comparing the consumed mask and destination
/// canvas before (`m0`, `d0`) and after (`m1`, `d1`):
///
/// - dimensions are unchanged;
/// - consumption is monotone: a consumed source pixel is never re-examined;
/// - a cell not newly consumed keeps its destination value, so no
///   destination coordinate is written twice across a run;
/// - every newly consumed cell lies within tolerance of the seed color and
///   received exactly the origin-wrapped tile pixel;
/// - the seed itself is consumed;
/// - the newly consumed set is closed under in-bounds 4-connected
///   neighbors within tolerance of the seed color: the fill covers the
///   whole connected region, not a fragment of it.
pub open spec fn fill_effect(
    src: ImageGrid,
    sx: int,
    sy: int,
    tile: ImageGrid,
    m0: Mask,
    d0: Canvas,
    m1: Mask,
    d1: Canvas,
) -> bool {
    let seed = src.pixel_at(sx, sy);
    &&& m1.width == m0.width && m1.height == m0.height && m1.wf()
    &&& d1.width == d0.width && d1.height == d0.height && d1.wf()
    &&& forall|x: int, y: int|
        m0.in_bounds(x, y) && #[trigger] m0.is_set(x, y) ==> m1.is_set(x, y)
    &&& forall|x: int, y: int|
        #![trigger d1.cell_at(x, y)]
        m1.in_bounds(x, y) && (m0.is_set(x, y) || !m1.is_set(x, y))
            ==> d1.cell_at(x, y) == d0.cell_at(x, y)
    &&& forall|x: int, y: int|
        #![trigger m1.is_set(x, y)]
        m1.in_bounds(x, y) && !m0.is_set(x, y) && m1.is_set(x, y)
            ==> within_tol(src.pixel_at(x, y), seed, TOLERANCE as int)
                && d1.cell_at(x, y) == Some(wrapped_tile_pixel(tile, x, y))
    &&& m1.is_set(sx, sy)
    &&& forall|x: int, y: int, nx: int, ny: int|
        #![trigger adjacent(x, y, nx, ny), m1.is_set(x, y)]
        m1.in_bounds(x, y) && m1.in_bounds(nx, ny) && !m0.is_set(x, y) && m1.is_set(x, y)
            && adjacent(x, y, nx, ny)
            ==> m1.is_set(nx, ny)
                || !within_tol(src.pixel_at(nx, ny), seed, TOLERANCE as int)
    &&& forall|x: int, y: int|
        #![trigger newly_consumed(m0, m1, x, y)]
        newly_consumed(m0, m1, x, y)
            ==> exists|p: Seq<Coord>| path_connects(p, m0, m1, sx, sy, x, y)
}

/// No destination coordinate is written twice: when the mask and canvas
/// agree before a fill, every cell already written keeps its pixel through
/// the fill — and hence through every later fill of the same run.
pub proof fn lemma_write_once(
    src: ImageGrid,
    sx: int,
    sy: int,
    tile: ImageGrid,
    m0: Mask,
    d0: Canvas,
    m1: Mask,
    d1: Canvas,
)
    requires
        fill_effect(src, sx, sy, tile, m0, d0, m1, d1),
        m0.width == d0.width && m0.height == d0.height,
        forall|x: int, y: int|
            m0.in_bounds(x, y) ==> (#[trigger] m0.is_set(x, y) == d0.cell_at(x, y) is Some),
    ensures
        forall|x: int, y: int|
            d0.in_bounds(x, y) && #[trigger] d0.cell_at(x, y) is Some
                ==> d1.cell_at(x, y) == d0.cell_at(x, y),
{
    assert forall|x: int, y: int|
        d0.in_bounds(x, y) && #[trigger] d0.cell_at(x, y) is Some
            implies d1.cell_at(x, y) == d0.cell_at(x, y) by {
        assert(m0.is_set(x, y));
        assert(m1.in_bounds(x, y));
    }
}

/// Flood-fills the connected tolerance region of the seed, writing wrapped
/// tile pixels into the destination and marking source pixels consumed.
///
/// The traversal is iterative over an explicit stack; neighbors strictly
/// inside the bounds are pushed unconditionally and re-checked when
/// popped, so no out-of-bounds coordinate is ever visited.
pub fn fill_region(
    src: &ImageGrid,
    sx: usize,
    sy: usize,
    tile: &ImageGrid,
    consumed: &mut Mask,
    dest: &mut Canvas,
)
    requires
        src.wf(),
        tile.wf(),
        tile.width > 0,
        tile.height > 0,
        old(consumed).wf(),
        old(dest).wf(),
        old(consumed).width == src.width,
        old(consumed).height == src.height,
        old(dest).width == src.width,
        old(dest).height == src.height,
        src.in_bounds(sx as int, sy as int),
        !old(consumed).is_set(sx as int, sy as int),
        forall|x: int, y: int|
            old(consumed).in_bounds(x, y)
                ==> (#[trigger] old(consumed).is_set(x, y)
                    == old(dest).cell_at(x, y) is Some),
    ensures
        fill_effect(*src, sx as int, sy as int, *tile, *old(consumed), *old(dest),
            *final(consumed), *final(dest)),
        forall|x: int, y: int|
            final(consumed).in_bounds(x, y)
                ==> (#[trigger] final(consumed).is_set(x, y)
                    == final(dest).cell_at(x, y) is Some),
{
    let ghost m0 = *consumed;
    let ghost d0 = *dest;
    let seed = src.get(sx, sy);
    let w = src.width();
    let h = src.height();
    let mut stack = CoordStack::new();
    let seed_coord = Coord { x: sx, y: sy };
    stack.push(seed_coord);
    proof {
        lemma_on_stack_extend(Seq::<Coord>::empty(), Seq::<Coord>::empty(), stack@, seed_coord);
        assert(stack@[0] == seed_coord);
        assert(*consumed == m0);
    }
    while !stack.is_empty()
        invariant
            src.wf(),
            tile.wf(),
            tile.width > 0,
            tile.height > 0,
            w == src.width,
            h == src.height,
            seed == src.pixel_at(sx as int, sy as int),
            src.in_bounds(sx as int, sy as int),
            m0.width == w && m0.height == h,
            consumed.wf() && consumed.width == w && consumed.height == h,
            dest.wf() && dest.width == w && dest.height == h,
            d0.width == w && d0.height == h,
            // every pending coordinate is strictly inside the bounds
            forall|k: int|
                0 <= k < stack@.len()
                    ==> (#[trigger] stack@[k]).x < w && stack@[k].y < h,
            // consumption is monotone
            forall|x: int, y: int|
                m0.in_bounds(x, y) && #[trigger] m0.is_set(x, y) ==> consumed.is_set(x, y),
            // cells not newly consumed keep their destination value
            forall|x: int, y: int|
                #![trigger dest.cell_at(x, y)]
                consumed.in_bounds(x, y) && (m0.is_set(x, y) || !consumed.is_set(x, y))
                    ==> dest.cell_at(x, y) == d0.cell_at(x, y),
            // newly consumed cells are in tolerance and hold the wrapped tile pixel
            forall|x: int, y: int|
                #![trigger consumed.is_set(x, y)]
                consumed.in_bounds(x, y) && !m0.is_set(x, y) && consumed.is_set(x, y)
                    ==> within_tol(src.pixel_at(x, y), seed, TOLERANCE as int)
                        && dest.cell_at(x, y) == Some(wrapped_tile_pixel(*tile, x, y)),
            // mask and canvas stay in step
            forall|x: int, y: int|
                consumed.in_bounds(x, y)
                    ==> (#[trigger] consumed.is_set(x, y) == dest.cell_at(x, y) is Some),
            // the seed is consumed or still pending
            consumed.is_set(sx as int, sy as int) || on_stack(stack@, sx as int, sy as int),
            // neighbors of newly consumed cells are consumed, pending, or
            // out of tolerance
            forall|x: int, y: int, nx: int, ny: int|
                #![trigger adjacent(x, y, nx, ny), consumed.is_set(x, y)]
                consumed.in_bounds(x, y) && consumed.in_bounds(nx, ny) && !m0.is_set(x, y)
                    && consumed.is_set(x, y) && adjacent(x, y, nx, ny)
                    ==> consumed.is_set(nx, ny) || on_stack(stack@, nx, ny)
                        || !within_tol(src.pixel_at(nx, ny), seed, TOLERANCE as int),
            // every newly consumed cell is connected to the seed through
            // newly consumed cells
            forall|x: int, y: int|
                #![trigger newly_consumed(m0, *consumed, x, y)]
                newly_consumed(m0, *consumed, x, y)
                    ==> exists|p: Seq<Coord>|
                        path_connects(p, m0, *consumed, sx as int, sy as int, x, y),
            // every pending coordinate is the seed or touches a newly
            // consumed cell
            forall|k: int|
                0 <= k < stack@.len()
                    ==> ((#[trigger] stack@[k]).x == sx && stack@[k].y == sy)
                        || exists|dx: int, dy: int|
                            newly_consumed(m0, *consumed, dx, dy)
                                && #[trigger] adjacent(dx, dy, stack@[k].x as int,
                                stack@[k].y as int),
        decreases consumed.unset_count(), stack@.len(),
    {
        let ghost s_full = stack@;
        let c = match stack.pop() {
            Some(c) => c,
            None => {
                proof {
                    assert(false);
                }
                Coord { x: 0, y: 0 }
            },
        };
        let ghost s_rest = stack@;
        if !consumed.get(c.x, c.y) && within_tolerance(src.get(c.x, c.y), seed, TOLERANCE) {
            let tx = c.x % tile.width();
            let ty = c.y % tile.height();
            let tp = tile.get(tx, ty);
            dest.put(c.x, c.y, tp);
            let ghost mpre = *consumed;
            consumed.set(c.x, c.y);
            proof {
                crate::grid::lemma_flat_index_bound(
                    c.x as int, c.y as int, mpre.width as int, mpre.height as int);
                crate::grid::lemma_count_unset_pos(
                    mpre.bits@,
                    crate::grid::flat_index(c.x as int, c.y as int, mpre.width as int),
                );
                // so far nothing is pushed: pending coordinates carry over
                assert forall|x: int, y: int| on_stack(s_rest, x, y)
                    implies #[trigger] on_stack(stack@, x, y) by {
                }
            }
            if c.x > 0 {
                let ghost sb = stack@;
                let nc = Coord { x: c.x - 1, y: c.y };
                stack.push(nc);
                proof {
                    lemma_on_stack_extend(s_rest, sb, stack@, nc);
                }
            }
            if c.y > 0 {
                let ghost sb = stack@;
                let nc = Coord { x: c.x, y: c.y - 1 };
                stack.push(nc);
                proof {
                    lemma_on_stack_extend(s_rest, sb, stack@, nc);
                }
            }
            if c.x + 1 < w {
                let ghost sb = stack@;
                let nc = Coord { x: c.x + 1, y: c.y };
                stack.push(nc);
                proof {
                    lemma_on_stack_extend(s_rest, sb, stack@, nc);
                }
            }
            if c.y + 1 < h {
                let ghost sb = stack@;
                let nc = Coord { x: c.x, y: c.y + 1 };
                stack.push(nc);
                proof {
                    lemma_on_stack_extend(s_rest, sb, stack@, nc);
                }
            }
            proof {
                // every coordinate pending before the pop is consumed now
                // or still pending
                assert forall|x: int, y: int| on_stack(s_full, x, y)
                    implies consumed.is_set(x, y) || on_stack(stack@, x, y) by {
                    lemma_on_stack_pop(s_full, x, y);
                    if !(s_full.last().x == x && s_full.last().y == y) {
                        assert(on_stack(s_rest, x, y));
                    }
                }
                // every in-bounds neighbor of the consumed cell is pending
                assert forall|nx: int, ny: int|
                    consumed.in_bounds(nx, ny) && adjacent(c.x as int, c.y as int, nx, ny)
                    implies on_stack(stack@, nx, ny) by {
                    if ny == c.y && nx == c.x - 1 {
                        assert(on_stack(stack@, nx, ny));
                    } else if nx == c.x && ny == c.y - 1 {
                        assert(on_stack(stack@, nx, ny));
                    } else if ny == c.y && nx == c.x + 1 {
                        assert(on_stack(stack@, nx, ny));
                    } else {
                        assert(nx == c.x && ny == c.y + 1);
                        assert(on_stack(stack@, nx, ny));
                    }
                }
                assert(newly_consumed(m0, *consumed, c.x as int, c.y as int));
                // earlier paths survive, and the consumed cell gains one:
                // either it is the seed, or it was pending and so touches
                // an earlier consumed cell whose path it extends
                assert forall|x: int, y: int| newly_consumed(m0, *consumed, x, y)
                    implies exists|p: Seq<Coord>|
                        path_connects(p, m0, *consumed, sx as int, sy as int, x, y) by {
                    if x == c.x as int && y == c.y as int {
                        if c.x == sx && c.y == sy {
                            let p = seq![c];
                            assert(path_connects(p, m0, *consumed, sx as int, sy as int, x, y));
                        } else {
                            assert(s_full[s_full.len() - 1] == c);
                            let (dx, dy) = choose|dx: int, dy: int|
                                newly_consumed(m0, mpre, dx, dy)
                                    && #[trigger] adjacent(dx, dy, c.x as int, c.y as int);
                            let pd = choose|p: Seq<Coord>|
                                path_connects(p, m0, mpre, sx as int, sy as int, dx, dy);
                            let p2 = pd.push(c);
                            assert forall|k: int| 0 <= k < p2.len()
                                implies newly_consumed(m0, *consumed,
                                    (#[trigger] p2[k]).x as int, p2[k].y as int) by {
                                if k < pd.len() {
                                    assert(p2[k] == pd[k]);
                                    assert(newly_consumed(m0, mpre, pd[k].x as int,
                                        pd[k].y as int));
                                }
                            }
                            assert forall|k: int| 0 < k < p2.len()
                                implies adjacent(p2[k - 1].x as int, p2[k - 1].y as int,
                                    (#[trigger] p2[k]).x as int, p2[k].y as int) by {
                                if k < pd.len() {
                                    assert(p2[k] == pd[k]);
                                    assert(p2[k - 1] == pd[k - 1]);
                                } else {
                                    assert(p2[k] == c);
                                    assert(p2[k - 1] == pd.last());
                                }
                            }
                            assert(path_connects(p2, m0, *consumed, sx as int, sy as int, x, y));
                        }
                    } else {
                        assert(newly_consumed(m0, mpre, x, y));
                        let pd = choose|p: Seq<Coord>|
                            path_connects(p, m0, mpre, sx as int, sy as int, x, y);
                        assert forall|k: int| 0 <= k < pd.len()
                            implies newly_consumed(m0, *consumed,
                                (#[trigger] pd[k]).x as int, pd[k].y as int) by {
                            assert(newly_consumed(m0, mpre, pd[k].x as int, pd[k].y as int));
                        }
                        assert(path_connects(pd, m0, *consumed, sx as int, sy as int, x, y));
                    }
                }
                // pending coordinates carried over keep their consumed
                // neighbor; freshly pushed ones touch the consumed cell
                assert forall|k: int| 0 <= k < stack@.len()
                    implies ((#[trigger] stack@[k]).x == sx && stack@[k].y == sy)
                        || exists|dx: int, dy: int|
                            newly_consumed(m0, *consumed, dx, dy)
                                && #[trigger] adjacent(dx, dy, stack@[k].x as int,
                                stack@[k].y as int) by {
                    if k < s_rest.len() {
                        assert(stack@[k] == s_rest[k]);
                        assert(s_rest[k] == s_full[k]);
                        if !(s_full[k].x == sx && s_full[k].y == sy) {
                            let (dx, dy) = choose|dx: int, dy: int|
                                newly_consumed(m0, mpre, dx, dy)
                                    && #[trigger] adjacent(dx, dy, s_full[k].x as int,
                                    s_full[k].y as int);
                            assert(newly_consumed(m0, *consumed, dx, dy));
                            assert(adjacent(dx, dy, stack@[k].x as int, stack@[k].y as int));
                        }
                    } else {
                        assert(adjacent(c.x as int, c.y as int, stack@[k].x as int,
                            stack@[k].y as int));
                    }
                }
            }
        } else {
            proof {
                assert forall|x: int, y: int| on_stack(s_full, x, y)
                    implies consumed.is_set(x, y) || on_stack(stack@, x, y)
                        || !within_tol(src.pixel_at(x, y), seed, TOLERANCE as int) by {
                    lemma_on_stack_pop(s_full, x, y);
                }
                assert forall|k: int| 0 <= k < stack@.len()
                    implies ((#[trigger] stack@[k]).x == sx && stack@[k].y == sy)
                        || exists|dx: int, dy: int|
                            newly_consumed(m0, *consumed, dx, dy)
                                && #[trigger] adjacent(dx, dy, stack@[k].x as int,
                                stack@[k].y as int) by {
                    assert(stack@[k] == s_full[k]);
                }
            }
        }
    }
}

} // verus!
