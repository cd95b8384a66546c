//! A full-height, single chunk column scratch buffer, indexed like `ChunkBuffer`.
use crate::level::generator::shared::{column_index, column_len, in_column};
use vstd::prelude::*;

verus! {

/// One chunk column of block ids, its view the blocks in `column_index` order.
pub struct Column {
    blocks: Box<[i32; 32768]>,
}

impl View for Column {
    type V = Seq<i32>;

    closed spec fn view(&self) -> Seq<i32> {
        self.blocks@
    }
}

impl Column {
    /// Every column has exactly `column_len()` blocks.
    pub proof fn lemma_len(&self)
        ensures
            self@.len() == column_len(),
    {
    }

    /// A column filled with `air_id`.
    pub fn new(air_id: i32) -> (r: Self)
        ensures
            r@ == Seq::new(column_len(), |i: int| air_id),
    {
        let blocks = Box::new([air_id; 32768]);
        assert(blocks@ =~= Seq::new(column_len(), |i: int| air_id));
        Column { blocks }
    }

    fn index(x: usize, y: usize, z: usize) -> (r: usize)
        requires
            in_column(x as int, y as int, z as int),
        ensures
            r == column_index(x as int, y as int, z as int),
            r < column_len(),
    {
        (x * 128 + y) * 16 + z
    }

    pub fn get(&self, x: usize, y: usize, z: usize) -> (r: i32)
        requires
            in_column(x as int, y as int, z as int),
        ensures
            r == self@[column_index(x as int, y as int, z as int)],
    {
        self.blocks[Self::index(x, y, z)]
    }

    pub fn set(&mut self, x: usize, y: usize, z: usize, block_id: i32)
        requires
            in_column(x as int, y as int, z as int),
        ensures
            final(self)@ == old(self)@.update(column_index(x as int, y as int, z as int), block_id),
    {
        let i = Self::index(x, y, z);
        self.blocks[i] = block_id;
    }
}

impl Clone for Column {
    fn clone(&self) -> (r: Self)
        ensures
            r@ == self@,
    {
        Column { blocks: Box::new(*self.blocks) }
    }
}

} // verus!
