//! The overworld's lakes: a water lake one time in 4, then a lava lake one time in 8
//! (deep down, or one time in 10 above sea level). Where a lake sits and what it does to
//! the blocks around it is `shared::lake`; the cells it fills are drawn as ellipsoids in
//! floating point by the program, through `OverworldFeatures::lake_shape`.
use crate::level::generator::overworld::population::OverworldFeatures;
use crate::level::generator::shared::block_ids::BlockIds;
use crate::level::generator::shared::lake::{lake_corner, lake_result, place_lake, world_lake_floor};
use crate::level::generator::shared::quad_chunk_buffer::{QuadChunkBuffer, QuadView};
use crate::level::generator::shared::{BlockPos, next_offset, offset_draw, owner_in_range};
use crate::rand::java::JavaRand;
use crate::rand::primitives::{Bound, i32_draw, lemma_draw_range};
use vstd::prelude::*;

verus! {

/// The corner of the box of a lake drawn at `pos`, as `lake_corner` finds it.
pub open spec fn lake_corner_of<G: OverworldFeatures>(generator: &G, q: QuadView, ids: BlockIds, pos: BlockPos) -> BlockPos {
    BlockPos {
        x: (pos.x - 8) as i32,
        y: (world_lake_floor(generator, q, ids, pos.x - 8, pos.y as int, pos.z - 8) - 4) as i32,
        z: (pos.z - 8) as i32,
    }
}

/// A lake of `fluid_id` drawn at `pos` from quad `q` and state `s`: its corner found, its
/// shape drawn, then placed (`lake_result`).
pub open spec fn lake_at<G: OverworldFeatures>(generator: &G, q: QuadView, s: int, ids: BlockIds, fluid_id: i32, pos: BlockPos) -> (QuadView, int) {
    let shape = generator.shape_of(s);
    lake_result(generator, q, shape.1, ids, fluid_id, lake_corner_of(generator, q, ids, pos), shape.0)
}

/// The lakes of the owner chunk with corner `(ox, oz)` from quad `q` and state `s`: a
/// draw (bound 4) of 0 places a water lake at a spot drawn 8 to 23 blocks from the corner
/// below layer 128; then a draw (bound 8) of 0 draws a spot (`x` and `z` 8 to 23 blocks
/// from the corner, a height below a draw below 120, plus 8) for a still-lava lake,
/// placed below layer 64, and above it only when a further draw (bound 10) is 0.
pub open spec fn lakes_after<G: OverworldFeatures>(generator: &G, ids: BlockIds, ox: int, oz: int, q: QuadView, s: int) -> (QuadView, int) {
    let w = i32_draw(s, Some(4));
    let water = if w.1 == 0 {
        let spot = offset_draw(w.0, 128, 8);
        lake_at(
            generator,
            q,
            spot.0,
            ids,
            ids.water,
            BlockPos { x: (ox + spot.1.x) as i32, y: spot.1.y, z: (oz + spot.1.z) as i32 },
        )
    } else {
        (q, w.0)
    };
    let l = i32_draw(water.1, Some(8));
    if l.1 != 0 {
        (water.0, l.0)
    } else {
        let a = i32_draw(l.0, Some(16));
        let v = i32_draw(a.0, Some(120));
        let y = i32_draw(v.0, Some(v.1 + 8));
        let c = i32_draw(y.0, Some(16));
        let pos = BlockPos { x: (ox + a.1 + 8) as i32, y: y.1, z: (oz + c.1 + 8) as i32 };
        if pos.y < 64 {
            lake_at(generator, water.0, c.0, ids, ids.lava_still, pos)
        } else {
            let t = i32_draw(c.0, Some(10));
            if t.1 == 0 {
                lake_at(generator, water.0, t.0, ids, ids.lava_still, pos)
            } else {
                (water.0, t.0)
            }
        }
    }
}

/// A lake of `fluid_id` drawn at `pos` (`lake_at`).
fn place_lake_at<G: OverworldFeatures>(
    generator: &G,
    buffer: &mut QuadChunkBuffer,
    block_ids: &BlockIds,
    fluid_id: i32,
    pos: BlockPos,
    rand: &mut JavaRand,
)
    requires
        -0x7fff_ff10 <= pos.x <= 0x7fff_ff10,
        -0x7fff_ff10 <= pos.z <= 0x7fff_ff10,
        0 <= pos.y < 128,
    ensures
        (final(buffer)@, final(rand)@) == lake_at(generator, old(buffer)@, old(rand)@, *block_ids, fluid_id, pos),
{
    let corner = lake_corner(generator, buffer, block_ids, pos);
    let shape = generator.lake_shape(rand);
    place_lake(generator, buffer, block_ids, fluid_id, corner, &shape, rand);
}

/// The lakes of owner chunk `(owner_x, owner_z)` (`lakes_after`).
pub fn populate_lakes<G: OverworldFeatures>(
    generator: &G,
    buffer: &mut QuadChunkBuffer,
    owner_x: i32,
    owner_z: i32,
    block_ids: &BlockIds,
    rand: &mut JavaRand,
)
    requires
        owner_in_range(owner_x as int),
        owner_in_range(owner_z as int),
    ensures
        (final(buffer)@, final(rand)@) == lakes_after(generator, *block_ids, owner_x * 16, owner_z * 16, old(buffer)@, old(rand)@),
{
    let origin_x = owner_x * 16;
    let origin_z = owner_z * 16;
    if rand.random_with::<i32>(Bound::new(4)) == 0 {
        let offset = next_offset(rand, 128, 8);
        let pos = BlockPos { x: origin_x + offset.x, y: offset.y, z: origin_z + offset.z };
        place_lake_at(generator, buffer, block_ids, block_ids.water, pos, rand);
    }
    if rand.random_with::<i32>(Bound::new(8)) == 0 {
        proof {
            lemma_draw_range(*rand, 16);
        }
        let x = rand.random_with::<i32>(Bound::new(16)) + 8;
        proof {
            lemma_draw_range(*rand, 120);
        }
        let v = rand.random_with::<i32>(Bound::new(120));
        proof {
            lemma_draw_range(*rand, v + 8);
        }
        let y = rand.random_with::<i32>(Bound::new(v + 8));
        proof {
            lemma_draw_range(*rand, 16);
        }
        let z = rand.random_with::<i32>(Bound::new(16)) + 8;
        let pos = BlockPos { x: origin_x + x, y, z: origin_z + z };
        if pos.y < 64 || rand.random_with::<i32>(Bound::new(10)) == 0 {
            place_lake_at(generator, buffer, block_ids, block_ids.lava_still, pos, rand);
        }
    }
}

} // verus!
