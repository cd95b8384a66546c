use super::{CHUNK_HEIGHT, CHUNK_WIDTH, column_index, column_len, in_column};
use vstd::prelude::*;

verus! {

/// One chunk column of block ids, `CHUNK_WIDTH x CHUNK_HEIGHT x CHUNK_WIDTH`. Its view is
/// the blocks in `column_index` order.
pub struct ChunkBuffer(Box<[i32; 32768]>);

impl View for ChunkBuffer {
    type V = Seq<i32>;

    closed spec fn view(&self) -> Seq<i32> {
        self.0@
    }
}

impl ChunkBuffer {
    /// Every column has exactly `column_len()` blocks.
    pub proof fn lemma_len(&self)
        ensures
            self@.len() == column_len(),
    {
    }

    /// A column filled with `air_id`.
    pub fn new(air_id: i32) -> (r: Self)
        ensures
            r@ == Seq::new(column_len(), |i: int| air_id),
    {
        let blocks = Box::new([air_id; 32768]);
        assert(blocks@ =~= Seq::new(column_len(), |i: int| air_id));
        ChunkBuffer(blocks)
    }

    pub fn get(&self, x: usize, y: usize, z: usize) -> (r: i32)
        requires
            in_column(x as int, y as int, z as int),
        ensures
            r == self@[column_index(x as int, y as int, z as int)],
    {
        self.0[(x * CHUNK_HEIGHT + y) * CHUNK_WIDTH + z]
    }

    pub fn set(&mut self, x: usize, y: usize, z: usize, block_id: i32)
        requires
            in_column(x as int, y as int, z as int),
        ensures
            final(self)@ == old(self)@.update(column_index(x as int, y as int, z as int), block_id),
    {
        let i = (x * CHUNK_HEIGHT + y) * CHUNK_WIDTH + z;
        self.0[i] = block_id;
    }
}

impl Clone for ChunkBuffer {
    fn clone(&self) -> (r: Self)
        ensures
            r@ == self@,
    {
        ChunkBuffer(Box::new(*self.0))
    }
}

} // verus!
