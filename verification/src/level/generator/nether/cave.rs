//! The nether carves its caves with the shared cave carver; its tunnel tracing
//! (`CaveCarving`) and what a tunnel does to a block are its own.
pub use crate::level::generator::shared::cave::CaveCarver;
use super::BlockIds;
use crate::level::generator::shared::chunk_buffer::ChunkBuffer;
use crate::level::generator::shared::column_index;
use vstd::prelude::*;

verus! {

/// `column` after a nether tunnel reaches block `(x, y, z)` of it: netherrack becomes
/// air, any other block stays.
pub open spec fn nether_cave_cell(ids: BlockIds, column: Seq<i32>, x: int, y: int, z: int) -> Seq<i32> {
    if column[column_index(x, y, z)] == ids.netherrack {
        column.update(column_index(x, y, z), ids.air)
    } else {
        column
    }
}

/// Carves block `(x, y, z)` of a nether column (`nether_cave_cell`).
pub fn carve_nether_cell(column: &mut ChunkBuffer, ids: &BlockIds, x: usize, y: usize, z: usize)
    requires
        x < 16,
        y < 128,
        z < 16,
    ensures
        final(column)@ == nether_cave_cell(*ids, old(column)@, x as int, y as int, z as int),
{
    if column.get(x, y, z) == ids.netherrack {
        column.set(x, y, z, ids.air);
    }
}

} // verus!
