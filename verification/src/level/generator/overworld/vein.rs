//! The overworld's veins: clay in water, then the ores, in their fixed order, numbers,
//! sizes and depths. Each vein's spheres are sized in floating point by the program,
//! through `VeinPlacer`.
use crate::level::generator::shared::block_ids::BlockIds;
use crate::level::generator::shared::quad_chunk_buffer::{QuadChunkBuffer, QuadView, read, world_block};
use crate::level::generator::shared::{BlockPos, TerrainSource, next_offset, offset_draw, owner_in_range};
use crate::rand::java::JavaRand;
use crate::rand::primitives::{Bound, i32_draw, lemma_draw_range};
use vstd::prelude::*;

verus! {

/// Places one vein: `count` spheres of `place_id` replacing `replace_id` along a random
/// line through `pos`. What it makes of a quad is a function of the placer, the
/// arguments and the state of the generator it draws from alone, named by `vein_of`
/// (a placeholder body, as in `TerrainSource`).
pub trait VeinPlacer: TerrainSource {
    /// The quad and state `place_vein` leaves.
    closed spec fn vein_of(&self, q: QuadView, state: int, replace_id: i32, place_id: i32, count: i32, pos: BlockPos) -> (QuadView, int) {
        vstd::pervasive::arbitrary()
    }

    fn place_vein(&self, buffer: &mut QuadChunkBuffer, replace_id: i32, place_id: i32, count: i32, pos: BlockPos, rand: &mut JavaRand)
        ensures
            (final(buffer)@, final(rand)@) == self.vein_of(old(buffer)@, old(rand)@, replace_id, place_id, count, pos),
    ;
}

/// One kind of vein tried `tries` times in the owner chunk with corner `(ox, oz)`: each
/// try draws a spot (`offset_draw` below `max_y`) and places a vein there, where
/// `in_water` asks for water at the spot first. The quad and state after, from `q`, `s`.
pub open spec fn vein_tries<G: VeinPlacer>(
    generator: &G,
    ids: BlockIds,
    ox: int,
    oz: int,
    max_y: int,
    replace_id: i32,
    place_id: i32,
    count: i32,
    in_water: bool,
    tries: nat,
    q: QuadView,
    s: int,
) -> (QuadView, int)
    decreases tries,
{
    if tries == 0 {
        (q, s)
    } else {
        let before = vein_tries(generator, ids, ox, oz, max_y, replace_id, place_id, count, in_water, (tries - 1) as nat, q, s);
        let spot = offset_draw(before.1, max_y, 0);
        let pos = BlockPos { x: (ox + spot.1.x) as i32, y: spot.1.y, z: (oz + spot.1.z) as i32 };
        if in_water && world_block(generator, before.0, pos.x as int, pos.y as int, pos.z as int) != ids.water {
            (before.0, spot.0)
        } else {
            generator.vein_of(before.0, spot.0, replace_id, place_id, count, pos)
        }
    }
}

/// Tries one kind of vein `tries` times (`vein_tries`).
#[allow(clippy::too_many_arguments)]
fn try_veins<G: VeinPlacer>(
    generator: &G,
    buffer: &mut QuadChunkBuffer,
    block_ids: &BlockIds,
    ox: i32,
    oz: i32,
    max_y: i32,
    replace_id: i32,
    place_id: i32,
    count: i32,
    in_water: bool,
    tries: u32,
    rand: &mut JavaRand,
)
    requires
        -0x7fff_ff00 <= ox <= 0x7fff_ff00,
        -0x7fff_ff00 <= oz <= 0x7fff_ff00,
        0 < max_y <= 128,
    ensures
        (final(buffer)@, final(rand)@) == vein_tries(
            generator,
            *block_ids,
            ox as int,
            oz as int,
            max_y as int,
            replace_id,
            place_id,
            count,
            in_water,
            tries as nat,
            old(buffer)@,
            old(rand)@,
        ),
{
    let ghost q0 = buffer@;
    let ghost s0 = rand@;
    let mut i: u32 = 0;
    while i < tries
        invariant
            -0x7fff_ff00 <= ox <= 0x7fff_ff00,
            -0x7fff_ff00 <= oz <= 0x7fff_ff00,
            0 < max_y <= 128,
            i <= tries,
            (buffer@, rand@) == vein_tries(
                generator,
                *block_ids,
                ox as int,
                oz as int,
                max_y as int,
                replace_id,
                place_id,
                count,
                in_water,
                i as nat,
                q0,
                s0,
            ),
        decreases tries - i,
    {
        let offset = next_offset(rand, max_y, 0);
        let pos = BlockPos { x: ox + offset.x, y: offset.y, z: oz + offset.z };
        if !in_water || read(generator, buffer, pos.x, pos.y, pos.z) == block_ids.water {
            generator.place_vein(buffer, replace_id, place_id, count, pos, rand);
        }
        i += 1;
    }
}

/// The ores of the owner chunk with corner `(ox, oz)` after quad `q` and state `s`: dirt,
/// gravel, coal, iron, gold, redstone and diamond veins (tries, depth bound and size:
/// 20, 128, 32; 10, 128, 32; 20, 128, 16; 20, 64, 8; 2, 32, 8; 8, 16, 7; 1, 16, 7),
/// all replacing stone, then one lapis vein of 6 at `x` and `z` drawn in the chunk and a
/// height that is the sum of two draws below 16.
pub open spec fn ores_after<G: VeinPlacer>(generator: &G, ids: BlockIds, ox: int, oz: int, q: QuadView, s: int) -> (QuadView, int) {
    let a = vein_tries(generator, ids, ox, oz, 128, ids.stone, ids.dirt, 32, false, 20, q, s);
    let b = vein_tries(generator, ids, ox, oz, 128, ids.stone, ids.gravel, 32, false, 10, a.0, a.1);
    let c = vein_tries(generator, ids, ox, oz, 128, ids.stone, ids.coal_ore, 16, false, 20, b.0, b.1);
    let d = vein_tries(generator, ids, ox, oz, 64, ids.stone, ids.iron_ore, 8, false, 20, c.0, c.1);
    let e = vein_tries(generator, ids, ox, oz, 32, ids.stone, ids.gold_ore, 8, false, 2, d.0, d.1);
    let f = vein_tries(generator, ids, ox, oz, 16, ids.stone, ids.redstone_ore, 7, false, 8, e.0, e.1);
    let g = vein_tries(generator, ids, ox, oz, 16, ids.stone, ids.diamond_ore, 7, false, 1, f.0, f.1);
    let x = i32_draw(g.1, Some(16));
    let y1 = i32_draw(x.0, Some(16));
    let y2 = i32_draw(y1.0, Some(16));
    let z = i32_draw(y2.0, Some(16));
    let pos = BlockPos { x: (ox + x.1) as i32, y: (y1.1 + y2.1) as i32, z: (oz + z.1) as i32 };
    generator.vein_of(g.0, z.0, ids.stone, ids.lapis_ore, 6, pos)
}

/// The ores of owner chunk `(owner_x, owner_z)` (`ores_after`).
pub fn populate_ores<G: VeinPlacer>(
    generator: &G,
    buffer: &mut QuadChunkBuffer,
    owner_x: i32,
    owner_z: i32,
    block_ids: &BlockIds,
    rand: &mut JavaRand,
)
    requires
        owner_in_range(owner_x as int),
        owner_in_range(owner_z as int),
    ensures
        (final(buffer)@, final(rand)@) == ores_after(generator, *block_ids, owner_x * 16, owner_z * 16, old(buffer)@, old(rand)@),
{
    let ox = owner_x * 16;
    let oz = owner_z * 16;
    let stone = block_ids.stone;
    try_veins(generator, buffer, block_ids, ox, oz, 128, stone, block_ids.dirt, 32, false, 20, rand);
    try_veins(generator, buffer, block_ids, ox, oz, 128, stone, block_ids.gravel, 32, false, 10, rand);
    try_veins(generator, buffer, block_ids, ox, oz, 128, stone, block_ids.coal_ore, 16, false, 20, rand);
    try_veins(generator, buffer, block_ids, ox, oz, 64, stone, block_ids.iron_ore, 8, false, 20, rand);
    try_veins(generator, buffer, block_ids, ox, oz, 32, stone, block_ids.gold_ore, 8, false, 2, rand);
    try_veins(generator, buffer, block_ids, ox, oz, 16, stone, block_ids.redstone_ore, 7, false, 8, rand);
    try_veins(generator, buffer, block_ids, ox, oz, 16, stone, block_ids.diamond_ore, 7, false, 1, rand);
    proof {
        lemma_draw_range(*rand, 16);
    }
    let x = rand.random_with::<i32>(Bound::new(16));
    proof {
        lemma_draw_range(*rand, 16);
    }
    let y1 = rand.random_with::<i32>(Bound::new(16));
    proof {
        lemma_draw_range(*rand, 16);
    }
    let y2 = rand.random_with::<i32>(Bound::new(16));
    proof {
        lemma_draw_range(*rand, 16);
    }
    let z = rand.random_with::<i32>(Bound::new(16));
    generator.place_vein(buffer, stone, block_ids.lapis_ore, 6, BlockPos { x: ox + x, y: y1 + y2, z: oz + z }, rand);
}

/// The veins of the owner chunk with corner `(ox, oz)` after quad `q` and state `s`: ten
/// tries at clay (a vein of 32 replacing sand, where the spot drawn below 128 is water),
/// then the ores (`ores_after`).
pub open spec fn veins_after<G: VeinPlacer>(generator: &G, ids: BlockIds, ox: int, oz: int, q: QuadView, s: int) -> (QuadView, int) {
    let clay = vein_tries(generator, ids, ox, oz, 128, ids.sand, ids.clay, 32, true, 10, q, s);
    ores_after(generator, ids, ox, oz, clay.0, clay.1)
}

/// The veins of owner chunk `(owner_x, owner_z)` (`veins_after`).
pub fn populate_veins<G: VeinPlacer>(
    generator: &G,
    buffer: &mut QuadChunkBuffer,
    owner_x: i32,
    owner_z: i32,
    block_ids: &BlockIds,
    rand: &mut JavaRand,
)
    requires
        owner_in_range(owner_x as int),
        owner_in_range(owner_z as int),
    ensures
        (final(buffer)@, final(rand)@) == veins_after(generator, *block_ids, owner_x * 16, owner_z * 16, old(buffer)@, old(rand)@),
{
    try_veins(generator, buffer, block_ids, owner_x * 16, owner_z * 16, 128, block_ids.sand, block_ids.clay, 32, true, 10, rand);
    populate_ores(generator, buffer, owner_x, owner_z, block_ids, rand);
}

} // verus!
