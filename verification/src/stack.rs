//! The traversal stack of the flood fill: an explicit last-in-first-out
//! sequence of pending coordinates.  Keeping the pending work on the heap
//! bounds memory by the image area and avoids the unbounded call-stack
//! growth a recursive fill would risk on large photographs.

use vstd::prelude::*;

verus! {

/// One pending image coordinate.
#[derive(Clone, Copy, PartialEq, Eq, Structural, Debug)]
pub struct Coord {
    pub x: usize,
    pub y: usize,
}

/// A last-in-first-out stack of coordinates.
pub struct CoordStack {
    items: Vec<Coord>,
}

impl View for CoordStack {
    type V = Seq<Coord>;

    closed spec fn view(&self) -> Seq<Coord> {
        self.items@
    }
}

impl CoordStack {
    /// An empty stack.
    pub fn new() -> (r: CoordStack)
        ensures
            r@ == Seq::<Coord>::empty(),
    {
        let r = CoordStack { items: Vec::new() };
        proof {
            assert(r@ =~= Seq::<Coord>::empty());
        }
        r
    }

    /// Pushes a coordinate on top.
    pub fn push(&mut self, c: Coord)
        ensures
            final(self)@ == old(self)@.push(c),
    {
        self.items.push(c);
    }

    /// Pops the most recently pushed coordinate; `None` on an empty stack.
    pub fn pop(&mut self) -> (r: Option<Coord>)
        ensures
            old(self)@.len() == 0 ==> r is None && final(self)@ == old(self)@,
            old(self)@.len() > 0 ==> r == Some(old(self)@.last())
                && final(self)@ == old(self)@.drop_last(),
    {
        self.items.pop()
    }

    /// Whether the stack holds no pending coordinate.
    pub fn is_empty(&self) -> (r: bool)
        ensures
            r == (self@.len() == 0),
    {
        self.items.len() == 0
    }
}

} // verus!
