//! Snow: a layer of snow on the top solid block of each column of an owner's chunk,
//! wherever the climate there, at that height, is cold enough.
use super::block_ids::BlockIds;
use super::quad_chunk_buffer::{
    QuadChunkBuffer, QuadView, changed_only_to, known_block, lemma_changed_only_to_refl, lemma_changed_only_to_write,
    lemma_known_after_write_all, quad_holds, quad_wf, read,
};
use super::{ClimateSource, TerrainSource, owner_in_range};
use vstd::prelude::*;

verus! {

/// The single-block plants snow does not rest on.
pub open spec fn small_plant(ids: BlockIds, id: i32) -> bool {
    id == ids.dandelion || id == ids.poppy || id == ids.tall_grass || id == ids.fern || id == ids.deadbush
        || id == ids.red_mushroom || id == ids.brown_mushroom || id == ids.reeds
}

pub fn is_small_plant(block_ids: &BlockIds, id: i32) -> (r: bool)
    ensures
        r == small_plant(*block_ids, id),
{
    id == block_ids.dandelion || id == block_ids.poppy || id == block_ids.tall_grass || id == block_ids.fern
        || id == block_ids.deadbush || id == block_ids.red_mushroom || id == block_ids.brown_mushroom
        || id == block_ids.reeds
}

/// Ground snow can lie on: not air, a liquid, ice or a small plant.
pub open spec fn solid_ground(ids: BlockIds, id: i32) -> bool {
    id != ids.air && id != ids.water && id != ids.water_flowing && id != ids.lava && id != ids.lava_still && id != ids.ice
        && !small_plant(ids, id)
}

pub fn is_solid_ground(block_ids: &BlockIds, id: i32) -> (r: bool)
    ensures
        r == solid_ground(*block_ids, id),
{
    id != block_ids.air && id != block_ids.water && id != block_ids.water_flowing && id != block_ids.lava
        && id != block_ids.lava_still && id != block_ids.ice && !is_small_plant(block_ids, id)
}

/// A block that snow falls through on its way down: air or a small plant.
pub open spec fn snow_passes(ids: BlockIds, id: i32) -> bool {
    id == ids.air || small_plant(ids, id)
}

/// One above the highest block of column `(wx, wz)` that is neither air nor a small
/// plant, or `None` if the column holds nothing else.
pub fn top_solid_or_liquid_height<G: TerrainSource>(generator: &G, buffer: &QuadChunkBuffer, block_ids: &BlockIds, wx: i32, wz: i32) -> (r: Option<i32>)
    ensures
        r matches Some(h) ==> 1 <= h <= 128,
        forall|y: int|
            (r matches Some(h) ==> h <= y) && 0 <= y < 128 ==> (#[trigger] known_block(buffer@, wx as int, y, wz as int) matches Some(v)
                ==> snow_passes(*block_ids, v)),
        r matches Some(h) ==> (known_block(buffer@, wx as int, h - 1, wz as int) matches Some(v) ==> !snow_passes(
            *block_ids,
            v,
        )),
{
    let mut wy: i32 = 128;
    while wy > 0
        invariant
            0 <= wy <= 128,
            forall|y: int| wy <= y < 128 ==> (#[trigger] known_block(buffer@, wx as int, y, wz as int) matches Some(v) ==> snow_passes(*block_ids, v)),
        decreases wy,
    {
        wy -= 1;
        let id = read(generator, buffer, wx, wy, wz);
        if id != block_ids.air && !is_small_plant(block_ids, id) {
            return Some(wy + 1);
        }
    }
    None
}

/// Where snow can lie in `q`: air at `(x, y, z)` below the top of the world, solid ground
/// under it, and nothing above it in its column but air and small plants.
pub open spec fn snow_spot(ids: BlockIds, q: QuadView, x: int, y: int, z: int) -> bool {
    &&& 1 <= y < 128
    &&& known_block(q, x, y, z) == Some(ids.air)
    &&& known_block(q, x, y - 1, z) matches Some(v) && solid_ground(ids, v)
    &&& forall|y2: int| y <= y2 < 128 ==> (#[trigger] known_block(q, x, y2, z) matches Some(v) ==> snow_passes(ids, v))
}

/// One above the highest block below `y` in column `(x, z)` of `q` that snow does not
/// pass through, or `None` if every such block passes (or is not held).
pub open spec fn top_below(ids: BlockIds, q: QuadView, x: int, z: int, y: int) -> Option<int>
    decreases y,
{
    if y <= 0 {
        None
    } else if known_block(q, x, y - 1, z) matches Some(v) && !snow_passes(ids, v) {
        Some(y)
    } else {
        top_below(ids, q, x, z, y - 1)
    }
}

/// The height snow would be laid at in column `(x, z)` of `q`, if the climate there is
/// cold enough: one above the column's top block, where that is below the top of the
/// world, air, and over solid ground.
pub open spec fn snow_height(ids: BlockIds, q: QuadView, x: int, z: int) -> Option<int> {
    match top_below(ids, q, x, z, 128) {
        Some(h) => if h < 128 && known_block(q, x, h, z) == Some(ids.air) && (known_block(q, x, h - 1, z) matches Some(
            v,
        ) && solid_ground(ids, v)) {
            Some(h)
        } else {
            None
        },
        None => None,
    }
}

/// Index of column `(x, z)` within the 16 x 16 area whose first column is `(x0, z0)`,
/// `x` outer and `z` inner.
pub open spec fn area_index(x0: int, z0: int, x: int, z: int) -> int {
    (x - x0) * 16 + (z - z0)
}

/// Column `(x, z)` is within the 16 x 16 area whose first column is `(x0, z0)`.
pub open spec fn in_area(x0: int, z0: int, x: int, z: int) -> bool {
    x0 <= x < x0 + 16 && z0 <= z < z0 + 16
}

/// The blocks of `q` after `lay_snow` with `heights` and `cold` over the area at
/// `(x0, z0)`: snow at each held height of a cold column, `q`'s block elsewhere.
pub open spec fn laid_block(
    ids: BlockIds,
    q: QuadView,
    x0: int,
    z0: int,
    heights: Seq<Option<i32>>,
    cold: Seq<bool>,
    x: int,
    y: int,
    z: int,
) -> Option<i32> {
    if in_area(x0, z0, x, z) && cold[area_index(x0, z0, x, z)] && heights[area_index(x0, z0, x, z)] == Some(y as i32)
        && quad_holds(q, x, y, z) {
        Some(ids.snow_layer)
    } else {
        known_block(q, x, y, z)
    }
}

/// The blocks of `q` after snowing the area at `(x0, z0)`, where `cold` tells, column by
/// column, whether the climate snows at its snow height: snow at the snow height of each
/// cold column, `q`'s block elsewhere.
pub open spec fn snowed_block(ids: BlockIds, q: QuadView, x0: int, z0: int, cold: Seq<bool>, x: int, y: int, z: int) -> Option<i32> {
    if in_area(x0, z0, x, z) && cold[area_index(x0, z0, x, z)] && snow_height(ids, q, x, z) == Some(y) {
        Some(ids.snow_layer)
    } else {
        known_block(q, x, y, z)
    }
}

/// Column by column over the area at `(x0, z0)`, `x` outer and `z` inner, whether the
/// climate snows at the column's snow height in `q` (`false` where it has none).
pub open spec fn climate_cold<G: ClimateSource>(generator: &G, ids: BlockIds, q: QuadView, x0: int, z0: int) -> Seq<bool> {
    Seq::new(
        256,
        |k: int|
            match snow_height(ids, q, x0 + k / 16, z0 + k % 16) {
                Some(h) => generator.snows((x0 + k / 16) as i32, (z0 + k % 16) as i32, h as i32),
                None => false,
            },
    )
}

/// Below the top of a column every block from its snow height up lets snow pass.
proof fn lemma_top_below_passes(ids: BlockIds, q: QuadView, x: int, z: int, y: int)
    requires
        0 <= y <= 128,
    ensures
        top_below(ids, q, x, z, y) matches Some(h) ==> 1 <= h <= y && (known_block(q, x, h - 1, z) matches Some(v) && !snow_passes(ids, v)),
        forall|y2: int|
            (top_below(ids, q, x, z, y) matches Some(h) ==> h <= y2) && 0 <= y2 < y ==> (#[trigger] known_block(q, x, y2, z) matches Some(
                v,
            ) ==> snow_passes(ids, v)),
    decreases y,
{
    if y > 0 {
        if known_block(q, x, y - 1, z) matches Some(v) && !snow_passes(ids, v) {
        } else {
            lemma_top_below_passes(ids, q, x, z, y - 1);
        }
    }
}

/// A snow height is a snow spot.
proof fn lemma_snow_height_spot(ids: BlockIds, q: QuadView, x: int, z: int)
    ensures
        snow_height(ids, q, x, z) matches Some(h) ==> snow_spot(ids, q, x, h, z),
{
    lemma_top_below_passes(ids, q, x, z, 128);
}

/// `top_below` read off a column whose blocks from `h` (or the bottom, for `None`) up to
/// `y` all pass and whose block under `h` does not.
proof fn lemma_top_below(ids: BlockIds, q: QuadView, x: int, z: int, y: int, h: Option<int>)
    requires
        0 <= y <= 128,
        forall|y2: int|
            (h matches Some(hh) ==> hh <= y2) && 0 <= y2 < y ==> (#[trigger] known_block(q, x, y2, z) matches Some(v)
                ==> snow_passes(ids, v)),
        h matches Some(hh) ==> 1 <= hh <= y && (known_block(q, x, hh - 1, z) matches Some(v) && !snow_passes(ids, v)),
    ensures
        top_below(ids, q, x, z, y) == h,
    decreases y,
{
    if y > 0 {
        if known_block(q, x, y - 1, z) matches Some(v) && !snow_passes(ids, v) {
        } else {
            lemma_top_below(ids, q, x, z, y - 1, h);
        }
    }
}

/// `new` is `old` with snow laid on some snow spots, inside the columns
/// `x0 <= x < x0 + 16`, `z0 <= z < z0 + 16`.
pub open spec fn snowed(ids: BlockIds, old: QuadView, new: QuadView, x0: int, z0: int) -> bool {
    forall|x: int, y: int, z: int|
        #[trigger] known_block(new, x, y, z) == known_block(old, x, y, z) || (x0 <= x < x0 + 16 && z0 <= z < z0 + 16
            && snow_spot(ids, old, x, y, z) && known_block(new, x, y, z) == Some(ids.snow_layer))
}

/// The snow height of each column of owner chunk `(owner_x, owner_z)`'s population area
/// (the columns 8 to 23 blocks from its corner), `x` outer and `z` inner: exactly
/// `snow_height` for each column the quad holds.
pub fn snow_heights<G: TerrainSource>(generator: &G, buffer: &QuadChunkBuffer, block_ids: &BlockIds, owner_x: i32, owner_z: i32) -> (r: Vec<Option<i32>>)
    requires
        owner_in_range(owner_x as int),
        owner_in_range(owner_z as int),
    ensures
        r@.len() == 256,
        forall|k: int| 0 <= k < 256 ==> (#[trigger] r@[k] matches Some(h) ==> 1 <= h < 128),
        forall|k: int|
            0 <= k < 256 && quad_holds(buffer@, owner_x * 16 + 8 + k / 16, 0, owner_z * 16 + 8 + k % 16) ==> match #[trigger] r@[k] {
                Some(h) => snow_height(*block_ids, buffer@, owner_x * 16 + 8 + k / 16, owner_z * 16 + 8 + k % 16) == Some(h as int),
                None => snow_height(*block_ids, buffer@, owner_x * 16 + 8 + k / 16, owner_z * 16 + 8 + k % 16) is None,
            },
{
    let origin_x = owner_x * 16;
    let origin_z = owner_z * 16;
    let mut out: Vec<Option<i32>> = Vec::new();
    let mut dx: i32 = 0;
    while dx < 16
        invariant
            owner_in_range(owner_x as int),
            owner_in_range(owner_z as int),
            origin_x == owner_x * 16,
            origin_z == owner_z * 16,
            0 <= dx <= 16,
            out@.len() == dx * 16,
            forall|k: int| 0 <= k < out@.len() ==> (#[trigger] out@[k] matches Some(h) ==> 1 <= h < 128),
            forall|k: int|
                0 <= k < out@.len() && quad_holds(buffer@, origin_x + 8 + k / 16, 0, origin_z + 8 + k % 16) ==> match #[trigger] out@[k] {
                    Some(h) => snow_height(*block_ids, buffer@, origin_x + 8 + k / 16, origin_z + 8 + k % 16) == Some(h as int),
                    None => snow_height(*block_ids, buffer@, origin_x + 8 + k / 16, origin_z + 8 + k % 16) is None,
                },
        decreases 16 - dx,
    {
        let wx = origin_x + 8 + dx;
        let mut dz: i32 = 0;
        while dz < 16
            invariant
                owner_in_range(owner_x as int),
                owner_in_range(owner_z as int),
                origin_x == owner_x * 16,
                origin_z == owner_z * 16,
                0 <= dx < 16,
                wx == origin_x + 8 + dx,
                0 <= dz <= 16,
                out@.len() == dx * 16 + dz,
                forall|k: int| 0 <= k < out@.len() ==> (#[trigger] out@[k] matches Some(h) ==> 1 <= h < 128),
                forall|k: int|
                    0 <= k < out@.len() && quad_holds(buffer@, origin_x + 8 + k / 16, 0, origin_z + 8 + k % 16) ==> match #[trigger] out@[k] {
                        Some(h) => snow_height(*block_ids, buffer@, origin_x + 8 + k / 16, origin_z + 8 + k % 16) == Some(h as int),
                        None => snow_height(*block_ids, buffer@, origin_x + 8 + k / 16, origin_z + 8 + k % 16) is None,
                    },
            decreases 16 - dz,
        {
            let wz = origin_z + 8 + dz;
            let top = top_solid_or_liquid_height(generator, buffer, block_ids, wx, wz);
            let mut found: Option<i32> = None;
            if let Some(h) = top {
                if 1 <= h && h < 128 {
                    if read(generator, buffer, wx, h, wz) == block_ids.air {
                        let below = read(generator, buffer, wx, h - 1, wz);
                        if is_solid_ground(block_ids, below) {
                            found = Some(h);
                        }
                    }
                }
            }
            proof {
                let n = out@.len() as int;
                assert(n / 16 == dx && n % 16 == dz);
                if quad_holds(buffer@, wx as int, 0, wz as int) {
                    lemma_top_below(*block_ids, buffer@, wx as int, wz as int, 128, match top {
                        Some(h) => Some(h as int),
                        None => None,
                    });
                }
            }
            out.push(found);
            dz += 1;
        }
        dx += 1;
    }
    out
}

/// Lays snow over the population area of owner chunk `(owner_x, owner_z)`: on each
/// column `k` (`x` outer, `z` inner) that `cold` marks and `heights` gives a height,
/// at that height, where the quad holds it (`laid_block`).
pub fn lay_snow(buffer: &mut QuadChunkBuffer, block_ids: &BlockIds, owner_x: i32, owner_z: i32, heights: &Vec<Option<i32>>, cold: &Vec<bool>)
    requires
        owner_in_range(owner_x as int),
        owner_in_range(owner_z as int),
        heights@.len() == 256,
        cold@.len() == 256,
    ensures
        changed_only_to(old(buffer)@, final(buffer)@, set![block_ids.snow_layer]),
        forall|x: int, y: int, z: int|
            #[trigger] known_block(final(buffer)@, x, y, z) == laid_block(
                *block_ids,
                old(buffer)@,
                owner_x * 16 + 8,
                owner_z * 16 + 8,
                heights@,
                cold@,
                x,
                y,
                z,
            ),
{
    let ghost b0 = buffer@;
    let ghost ids = set![block_ids.snow_layer];
    proof {
        buffer.lemma_wf();
        lemma_changed_only_to_refl(b0, ids);
    }
    let origin_x = owner_x * 16;
    let origin_z = owner_z * 16;
    let ghost x0 = origin_x + 8;
    let ghost z0 = origin_z + 8;
    let mut k: usize = 0;
    while k < 256
        invariant
            owner_in_range(owner_x as int),
            owner_in_range(owner_z as int),
            origin_x == owner_x * 16,
            origin_z == owner_z * 16,
            x0 == origin_x + 8,
            z0 == origin_z + 8,
            heights@.len() == 256,
            cold@.len() == 256,
            0 <= k <= 256,
            ids == set![block_ids.snow_layer],
            quad_wf(b0),
            quad_wf(buffer@),
            changed_only_to(b0, buffer@, ids),
            forall|x: int, y: int, z: int|
                #[trigger] known_block(buffer@, x, y, z) == if in_area(x0, z0, x, z) && area_index(x0, z0, x, z) < k {
                    laid_block(*block_ids, b0, x0, z0, heights@, cold@, x, y, z)
                } else {
                    known_block(b0, x, y, z)
                },
        decreases 256 - k,
    {
        let wx = origin_x + 8 + (k / 16) as i32;
        let wz = origin_z + 8 + (k % 16) as i32;
        let ghost mid = buffer@;
        proof {
            assert(area_index(x0, z0, wx as int, wz as int) == k);
            assert(in_area(x0, z0, wx as int, wz as int));
        }
        if cold[k] {
            if let Some(h) = heights[k] {
                crate::level::generator::shared::quad_chunk_buffer::write(buffer, wx, h, wz, block_ids.snow_layer);
                proof {
                    lemma_changed_only_to_write(b0, mid, buffer@, ids, wx as int, h as int, wz as int, block_ids.snow_layer);
                    lemma_known_after_write_all(mid, wx as int, h as int, wz as int, block_ids.snow_layer);
                    assert(quad_holds(mid, wx as int, h as int, wz as int) == quad_holds(b0, wx as int, h as int, wz as int));
                }
            }
        }
        proof {
            assert forall|x: int, y: int, z: int| #[trigger] known_block(buffer@, x, y, z) == if in_area(x0, z0, x, z) && area_index(x0, z0, x, z) < k + 1 {
                    laid_block(*block_ids, b0, x0, z0, heights@, cold@, x, y, z)
                } else {
                    known_block(b0, x, y, z)
                } by {
                if in_area(x0, z0, x, z) && area_index(x0, z0, x, z) == k {
                    assert(x == wx && z == wz);
                }
            }
        }
        k += 1;
    }
}

/// Lays snow over owner chunk `(owner_x, owner_z)`'s population area (the columns 8 to
/// 23 blocks from its corner): on each column whose top solid block is below the top of
/// the world, where the block above it is air, it is solid ground, and the climate there
/// snows at that height: the quad is the one `snowed_block` gives for the climate's
/// answers (`climate_cold`), and snow lands only on snow spots (`snowed`).
pub fn populate_from<G: TerrainSource + ClimateSource>(generator: &G, buffer: &mut QuadChunkBuffer, owner_x: i32, owner_z: i32, block_ids: &BlockIds)
    requires
        owner_in_range(owner_x as int),
        owner_in_range(owner_z as int),
    ensures
        changed_only_to(old(buffer)@, final(buffer)@, set![block_ids.snow_layer]),
        snowed(*block_ids, old(buffer)@, final(buffer)@, owner_x * 16 + 8, owner_z * 16 + 8),
        forall|x: int, y: int, z: int|
            #[trigger] known_block(final(buffer)@, x, y, z) == snowed_block(
                *block_ids,
                old(buffer)@,
                owner_x * 16 + 8,
                owner_z * 16 + 8,
                climate_cold(generator, *block_ids, old(buffer)@, owner_x * 16 + 8, owner_z * 16 + 8),
                x,
                y,
                z,
            ),
{
    let ghost b0 = buffer@;
    let origin_x = owner_x * 16;
    let origin_z = owner_z * 16;
    let ghost x0 = origin_x + 8;
    let ghost z0 = origin_z + 8;
    let heights = snow_heights(generator, buffer, block_ids, owner_x, owner_z);
    let mut cold: Vec<bool> = Vec::new();
    let mut k: usize = 0;
    while k < 256
        invariant
            owner_in_range(owner_x as int),
            owner_in_range(owner_z as int),
            origin_x == owner_x * 16,
            origin_z == owner_z * 16,
            heights@.len() == 256,
            0 <= k <= 256,
            cold@.len() == k,
            forall|j: int| 0 <= j < k ==> #[trigger] cold@[j] == match heights@[j] {
                Some(h) => generator.snows((origin_x + 8 + j / 16) as i32, (origin_z + 8 + j % 16) as i32, h),
                None => false,
            },
        decreases 256 - k,
    {
        let wx = origin_x + 8 + (k / 16) as i32;
        let wz = origin_z + 8 + (k % 16) as i32;
        let snows = match heights[k] {
            Some(h) => generator.snows_at(wx, wz, h),
            None => false,
        };
        cold.push(snows);
        k += 1;
    }
    lay_snow(buffer, block_ids, owner_x, owner_z, &heights, &cold);
    proof {
        buffer.lemma_wf();
        let cc = climate_cold(generator, *block_ids, b0, x0, z0);
        assert forall|x: int, y: int, z: int| #[trigger] known_block(buffer@, x, y, z) == snowed_block(*block_ids, b0, x0, z0, cc, x, y, z) by {
            assert(known_block(buffer@, x, y, z) == laid_block(*block_ids, b0, x0, z0, heights@, cold@, x, y, z));
            if in_area(x0, z0, x, z) {
                let k = area_index(x0, z0, x, z);
                assert(k / 16 == x - x0 && k % 16 == z - z0);
                assert(heights@[k] == heights@[k]);
                if quad_holds(b0, x, 0, z) {
                } else {
                    lemma_top_below(*block_ids, b0, x, z, 128, None);
                }
            }
        }
        assert forall|x: int, y: int, z: int|
            #[trigger] known_block(buffer@, x, y, z) == known_block(b0, x, y, z) || (in_area(x0, z0, x, z) && snow_spot(*block_ids, b0, x, y, z)
                && known_block(buffer@, x, y, z) == Some(block_ids.snow_layer)) by {
            assert(known_block(buffer@, x, y, z) == snowed_block(*block_ids, b0, x0, z0, cc, x, y, z));
            lemma_snow_height_spot(*block_ids, b0, x, z);
        }
    }
}

} // verus!
