//! Per-chunk interning table from block values to small dense indices.
//!
//! Indices are append-only: once a block value is seen, its index is
//! stable for the life of the palette and never reused.

use vstd::prelude::*;

use crate::block::Block;

verus! {

/// An append-only list of the distinct block values a chunk has seen.
#[derive(Clone, Debug)]
pub struct Palette {
    blocks: Vec<Block>,
}

impl View for Palette {
    type V = Seq<Block>;

    closed spec fn view(&self) -> Seq<Block> {
        self.blocks@
    }
}

impl Palette {
    /// A palette holds each block value at most once.
    pub open spec fn wf(&self) -> bool {
        forall|i: int, j: int|
            0 <= i < j < self@.len() ==> self@[i] != self@[j]
    }

    /// An empty palette.
    pub fn new() -> (r: Self)
        ensures
            r@ == Seq::<Block>::empty(),
            r.wf(),
    {
        Self { blocks: Vec::new() }
    }

    /// The interned block values, by index.
    pub fn elements(&self) -> (r: &Vec<Block>)
        ensures
            r@ == self@,
    {
        &self.blocks
    }

    /// The block value at an index.
    pub fn get(&self, index: usize) -> (r: &Block)
        requires
            index < self@.len(),
        ensures
            *r == self@[index as int],
    {
        &self.blocks[index]
    }

    /// How many distinct block values have been interned.
    pub fn len(&self) -> (r: usize)
        ensures
            r == self@.len(),
    {
        self.blocks.len()
    }

    /// A copy of the interned block values, by index.
    pub fn get_all_elements(&self) -> (r: Vec<Block>)
        ensures
            r@ == self@,
    {
        self.blocks.clone()
    }

    /// The index of a block value, interning it first if it is new.
    /// Existing entries are never moved or removed.
    pub fn index(&mut self, elem: Block) -> (r: usize)
        requires
            old(self).wf(),
        ensures
            final (self).wf(),
            old(self)@.contains(elem) ==> final (self)@ == old(self)@,
            !old(self)@.contains(elem) ==> final (self)@ == old(self)@.push(elem),
            r < final (self)@.len(),
            final (self)@[r as int] == elem,
    {
        let n = self.blocks.len();
        let mut i: usize = 0;
        while i < n
            invariant
                self == old(self),
                old(self).wf(),
                n == self.blocks@.len(),
                i <= n,
                forall|j: int| 0 <= j < i ==> self.blocks@[j] != elem,
            decreases n - i,
        {
            if self.blocks[i] == elem {
                proof {
                    assert(old(self)@[i as int] == elem);
                }
                return i;
            }
            i = i + 1;
        }
        proof {
            assert(!old(self)@.contains(elem));
        }
        self.blocks.push(elem);
        n
    }

    /// Builds a palette from an existing list of distinct block values.
    pub fn from_elements(elements: Vec<Block>) -> (r: Self)
        requires
            forall|i: int, j: int|
                0 <= i < j < elements@.len() ==> elements@[i] != elements@[j],
        ensures
            r@ == elements@,
            r.wf(),
    {
        Self { blocks: elements }
    }
}

} // verus!
