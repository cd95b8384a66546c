use std::sync::Arc;

use pyrite::level::generator::shared::chunk_buffer::ChunkBuffer;
use pyrite::level::generator::shared::population::{PopulationSource, populate};
use pyrite::level::generator::shared::quad_chunk_buffer;
use pyrite::level::generator::shared::quad_chunk_buffer::QuadChunkBuffer;
use pyrite::level::generator::shared::TerrainSource;

/// Stone below layer 10; each owner marks block (5, 70, 5) of every chunk of its quad
/// with its own number, and block (4, 50, 4) of its far corner chunk.
struct Marked;

impl TerrainSource for Marked {
    fn raw_terrain(&self, _x: i32, _z: i32) -> ChunkBuffer {
        let mut column = ChunkBuffer::new(0);
        for lx in 0..16 {
            for lz in 0..16 {
                for y in 0..10 {
                    column.set(lx, y, lz, 1);
                }
            }
        }
        column
    }

    fn carve_caves(&self, _x: i32, _z: i32, _column: &mut ChunkBuffer) {}

    fn min_sub_chunk_y(&self) -> i8 {
        0
    }

    fn dimension_sub_chunk_count(&self) -> usize {
        8
    }

    fn air_id(&self) -> i32 {
        0
    }

    fn biome(&self) -> i32 {
        1
    }
}

impl PopulationSource for Marked {
    fn owner_population(&self, owner_x: i32, owner_z: i32) -> Arc<QuadChunkBuffer> {
        let mut quad = QuadChunkBuffer::new(self, owner_x, owner_z);
        self.run_population(owner_x, owner_z, &mut quad);
        Arc::new(quad)
    }

    fn owner_population_isolated(&self, owner_x: i32, owner_z: i32) -> Arc<QuadChunkBuffer> {
        self.owner_population(owner_x, owner_z)
    }

    fn run_population(&self, owner_x: i32, owner_z: i32, buffer: &mut QuadChunkBuffer) {
        let mark = 1000 + owner_x * 10 + owner_z;
        for dx in 0..2 {
            for dz in 0..2 {
                quad_chunk_buffer::write(buffer, (owner_x + dx) * 16 + 5, 70, (owner_z + dz) * 16 + 5, mark);
            }
        }
        quad_chunk_buffer::write(buffer, owner_x * 16 + 20, 50, owner_z * 16 + 20, mark);
    }
}

#[test]
fn assembly_takes_the_last_owner_change_and_is_idempotent() {
    let g = Marked;
    let mut column = (*g.terrain_and_caves(3, 4)).clone();
    populate(&g, 3, 4, &mut column);
    // all four owners marked (5, 70, 5); the last in raster order, the chunk's own, wins
    assert_eq!(column.get(5, 70, 5), 1000 + 3 * 10 + 4);
    // only owner (2, 3) reaches (4, 50, 4)
    assert_eq!(column.get(4, 50, 4), 1000 + 2 * 10 + 3);
    assert_eq!(column.get(0, 5, 0), 1);
    assert_eq!(column.get(0, 50, 0), 0);
    let once = column.clone();
    populate(&g, 3, 4, &mut column);
    for lx in 0..16 {
        for y in 0..128 {
            for lz in 0..16 {
                assert_eq!(column.get(lx, y, lz), once.get(lx, y, lz));
            }
        }
    }
}
