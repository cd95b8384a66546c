//! Dungeons: a cobblestone room with a mob spawner and up to two chests, drawn from
//! an owner's population stream the way Beta 1.7.3 draws them.
use super::block_ids::BlockIds;
use super::outcome::{Outcome, and_then, lemma_repeat_from, reached, repeat};
use super::quad_chunk_buffer::{
    chunk_of, covers_around, lemma_covers_around, lemma_covers_between, lemma_owner_covers, quad_covers,
    QuadChunkBuffer, QuadView, changed_only_to, known_block, lemma_changed_only_to_refl,
    lemma_changed_only_to_trans, lemma_changed_only_to_write, lemma_known_after_write_all, quad_after_write, quad_block, quad_holds, quad_wf, read, world_block,
};
use super::{BlockPos, TerrainSource, next_offset, offset_draw, offset_position, well_inside};
use crate::rand::java::JavaRand;
use crate::rand::primitives::{Bound, draws_after, i32_draw, lemma_draw_range, lemma_draws_after_push};
use vstd::prelude::*;

verus! {

const CHEST_SLOT_COUNT: i32 = 27;

/// A block a dungeon counts as solid: anything but air, water or lava.
pub open spec fn solid(ids: BlockIds, id: i32) -> bool {
    id != ids.air && id != ids.water && id != ids.lava && id != ids.lava_still
}

fn is_solid(block_ids: &BlockIds, id: i32) -> (r: bool)
    ensures
        r == solid(*block_ids, id),
{
    id != block_ids.air && id != block_ids.water && id != block_ids.lava && id != block_ids.lava_still
}

/// The draws of one chest stack, as the game rolls an item without making one: a
/// draw in `[0, 11)` picks the item; some items draw a count in `[0, 4)`; a golden apple
/// appears one time in 100, a bucket one time in 2 (then drawing its count), a record
/// one time in 10 (then drawing which). The result says whether an item came out.
pub open spec fn chest_stack_roll(s: int) -> (int, bool) {
    let k = i32_draw(s, Some(11));
    if k.1 == 1 || k.1 == 4 || k.1 == 5 {
        (i32_draw(k.0, Some(4)).0, true)
    } else if k.1 == 7 {
        let d = i32_draw(k.0, Some(100));
        (d.0, d.1 == 0)
    } else if k.1 == 8 {
        let d = i32_draw(k.0, Some(2));
        if d.1 == 0 {
            (i32_draw(d.0, Some(4)).0, true)
        } else {
            (d.0, false)
        }
    } else if k.1 == 9 {
        let d = i32_draw(k.0, Some(10));
        if d.1 == 0 {
            (i32_draw(d.0, Some(2)).0, true)
        } else {
            (d.0, false)
        }
    } else {
        (k.0, 0 <= k.1 <= 10)
    }
}

/// Rolls one chest stack's draws; says whether an item came out (which decides whether a
/// slot index is drawn after it).
fn roll_chest_stack(rand: &mut JavaRand) -> (r: bool)
    ensures
        (final(rand)@, r) == chest_stack_roll(old(rand)@),
{
    let k = rand.random_with::<i32>(Bound::new(11));
    if k == 0 {
        true
    } else if k == 1 {
        rand.random_with::<i32>(Bound::new(4));
        true
    } else if k == 2 {
        true
    } else if k == 3 {
        true
    } else if k == 4 {
        rand.random_with::<i32>(Bound::new(4));
        true
    } else if k == 5 {
        rand.random_with::<i32>(Bound::new(4));
        true
    } else if k == 6 {
        true
    } else if k == 7 {
        rand.random_with::<i32>(Bound::new(100)) == 0
    } else if k == 8 {
        if rand.random_with::<i32>(Bound::new(2)) == 0 {
            rand.random_with::<i32>(Bound::new(4));
            true
        } else {
            false
        }
    } else if k == 9 {
        if rand.random_with::<i32>(Bound::new(10)) == 0 {
            rand.random_with::<i32>(Bound::new(2));
            true
        } else {
            false
        }
    } else if k == 10 {
        true
    } else {
        false
    }
}

/// The blocks a dungeon places.
pub open spec fn dungeon_ids(ids: BlockIds) -> Set<i32> {
    set![ids.air, ids.cobblestone, ids.mossy_cobblestone, ids.chest, ids.mob_spawner]
}

/// `(x, y, z)` is an opening of a dungeon's wall: air, with air above.
pub open spec fn opening(q: QuadView, ids: BlockIds, x: int, y: int, z: int) -> bool {
    known_block(q, x, y, z) == Some(ids.air) && known_block(q, x, y + 1, z) == Some(ids.air)
}

/// `(x, z)` lies on the walls of the room from `start` to `end`.
pub open spec fn on_wall(start: BlockPos, end: BlockPos, x: int, z: int) -> bool {
    x == start.x || x == end.x || z == start.z || z == end.z
}

/// The openings of the walls on layer `y`, in row `x`, for `z` from `start.z` up to
/// below `zt`.
pub open spec fn row_openings(q: QuadView, ids: BlockIds, start: BlockPos, end: BlockPos, x: int, y: int, zt: int) -> int
    decreases zt - start.z,
{
    if zt <= start.z {
        0
    } else {
        row_openings(q, ids, start, end, x, y, zt - 1) + if on_wall(start, end, x, zt - 1) && opening(q, ids, x, y, zt - 1) {
            1int
        } else {
            0int
        }
    }
}

/// The openings of the walls on layer `y`, for `x` from `start.x` up to below `xt`.
pub open spec fn layer_openings(q: QuadView, ids: BlockIds, start: BlockPos, end: BlockPos, xt: int, y: int) -> int
    decreases xt - start.x,
{
    if xt <= start.x {
        0
    } else {
        layer_openings(q, ids, start, end, xt - 1, y) + row_openings(q, ids, start, end, xt - 1, y, end.z + 1)
    }
}

/// The room from `start` to `end` can hold a dungeon whose spawner sits on layer `y`, as
/// far as the quad shows: its floor and ceiling layers are solid where known, and its
/// walls on layer `y` have between one and five openings.
pub open spec fn dungeon_fits(q: QuadView, ids: BlockIds, start: BlockPos, end: BlockPos, y: int) -> bool {
    &&& forall|x: int, z: int|
        start.x <= x <= end.x && start.z <= z <= end.z ==> (#[trigger] known_block(q, x, start.y as int, z) matches Some(v)
            ==> solid(ids, v))
    &&& forall|x: int, z: int|
        start.x <= x <= end.x && start.z <= z <= end.z ==> (#[trigger] known_block(q, x, end.y as int, z) matches Some(v)
            ==> solid(ids, v))
    &&& 1 <= layer_openings(q, ids, start, end, end.x + 1, y) <= 5
}

/// Blocks `(x, y, z)` and `(x, y + 1, z)` are air as `read` shows the world.
pub open spec fn world_opening<G: TerrainSource>(generator: &G, q: QuadView, ids: BlockIds, x: int, y: int, z: int) -> bool {
    world_block(generator, q, x, y, z) == ids.air && world_block(generator, q, x, y + 1, z) == ids.air
}

/// `row_openings` as `read` shows the world.
pub open spec fn world_row_openings<G: TerrainSource>(
    generator: &G,
    q: QuadView,
    ids: BlockIds,
    start: BlockPos,
    end: BlockPos,
    x: int,
    y: int,
    zt: int,
) -> int
    decreases zt - start.z,
{
    if zt <= start.z {
        0
    } else {
        world_row_openings(generator, q, ids, start, end, x, y, zt - 1) + if on_wall(start, end, x, zt - 1) && world_opening(
            generator,
            q,
            ids,
            x,
            y,
            zt - 1,
        ) {
            1int
        } else {
            0int
        }
    }
}

/// `layer_openings` as `read` shows the world.
pub open spec fn world_layer_openings<G: TerrainSource>(generator: &G, q: QuadView, ids: BlockIds, start: BlockPos, end: BlockPos, xt: int, y: int) -> int
    decreases xt - start.x,
{
    if xt <= start.x {
        0
    } else {
        world_layer_openings(generator, q, ids, start, end, xt - 1, y) + world_row_openings(generator, q, ids, start, end, xt - 1, y, end.z + 1)
    }
}

/// The room from `start` to `end` can hold a dungeon whose spawner sits on layer `y`, as
/// `read` shows the world: its floor and ceiling layers are solid, and its walls on layer
/// `y` have between one and five openings.
pub open spec fn dungeon_fits_world<G: TerrainSource>(generator: &G, q: QuadView, ids: BlockIds, start: BlockPos, end: BlockPos, y: int) -> bool {
    &&& forall|x: int, z: int|
        start.x <= x <= end.x && start.z <= z <= end.z ==> solid(ids, #[trigger] world_block(generator, q, x, start.y as int, z))
    &&& forall|x: int, z: int|
        start.x <= x <= end.x && start.z <= z <= end.z ==> solid(ids, #[trigger] world_block(generator, q, x, end.y as int, z))
    &&& 1 <= world_layer_openings(generator, q, ids, start, end, end.x + 1, y) <= 5
}

/// The quad alone determines every block the dungeon check reads: the whole room and the
/// layer above its wall layer `y`.
pub open spec fn dungeon_site_known(q: QuadView, start: BlockPos, end: BlockPos, y: int) -> bool {
    forall|x: int, wy: int, z: int|
        start.x <= x <= end.x && start.y <= wy <= end.y + 1 && start.z <= z <= end.z ==> (#[trigger] known_block(q, x, wy, z)) is Some
}

proof fn lemma_row_openings_bound(q: QuadView, ids: BlockIds, start: BlockPos, end: BlockPos, x: int, y: int, zt: int)
    ensures
        0 <= row_openings(q, ids, start, end, x, y, zt) <= if zt > start.z { zt - start.z } else { 0 },
    decreases zt - start.z,
{
    if zt > start.z {
        lemma_row_openings_bound(q, ids, start, end, x, y, zt - 1);
    }
}

proof fn lemma_layer_openings_bound(q: QuadView, ids: BlockIds, start: BlockPos, end: BlockPos, xt: int, y: int)
    requires
        start.z <= end.z,
    ensures
        0 <= layer_openings(q, ids, start, end, xt, y) <= if xt > start.x { (xt - start.x) * (end.z + 1 - start.z) } else { 0 },
    decreases xt - start.x,
{
    if xt > start.x {
        lemma_layer_openings_bound(q, ids, start, end, xt - 1, y);
        lemma_row_openings_bound(q, ids, start, end, xt - 1, y, end.z + 1);
        assert((xt - 1 - start.x) * (end.z + 1 - start.z) + (end.z + 1 - start.z) == (xt - start.x) * (end.z + 1 - start.z))
            by (nonlinear_arith);
    }
}

/// Whether the room around `pos` from `start` to `end` can hold a dungeon: its floor
/// and ceiling layers are solid everywhere, and between one and five openings (air
/// with air above) lie on the walls of the layer at `pos`. Where the quad holds every
/// block read, the answer is exactly `dungeon_fits`.
fn dungeon_site_ok<G: TerrainSource>(generator: &G, buffer: &QuadChunkBuffer, block_ids: &BlockIds, pos: BlockPos, start: BlockPos, end: BlockPos) -> (r: bool)
    requires
        well_inside(pos, 16),
        start.x <= end.x,
        start.y < pos.y < end.y,
        start.z <= end.z,
        pos.x - 8 <= start.x,
        end.x <= pos.x + 8,
        pos.y - 8 <= start.y,
        end.y <= pos.y + 8,
        pos.z - 8 <= start.z,
        end.z <= pos.z + 8,
    ensures
        r ==> dungeon_fits(buffer@, *block_ids, start, end, pos.y as int) || !dungeon_site_known(buffer@, start, end, pos.y as int),
        r ==> forall|x: int, z: int|
            start.x <= x <= end.x && start.z <= z <= end.z ==> (#[trigger] known_block(buffer@, x, start.y as int, z) matches Some(v)
                ==> solid(*block_ids, v)),
        dungeon_site_known(buffer@, start, end, pos.y as int) && dungeon_fits(buffer@, *block_ids, start, end, pos.y as int) ==> r,
        r == dungeon_fits_world(generator, buffer@, *block_ids, start, end, pos.y as int),
{
    let ghost q = buffer@;
    let ghost known = dungeon_site_known(q, start, end, pos.y as int);
    let mut air_count: i32 = 0;
    let mut wx = start.x;
    proof {
        lemma_layer_openings_bound(q, *block_ids, start, end, start.x as int, pos.y as int);
    }
    while wx <= end.x
        invariant
            q == buffer@,
            known == dungeon_site_known(q, start, end, pos.y as int),
            start.x <= wx <= end.x + 1,
            well_inside(pos, 16),
            start.y < pos.y < end.y,
            start.z <= end.z,
            pos.x - 8 <= start.x,
            end.x <= pos.x + 8,
            pos.y - 8 <= start.y,
            end.y <= pos.y + 8,
            pos.z - 8 <= start.z,
            end.z <= pos.z + 8,
            0 <= air_count <= (wx - start.x) * 17,
            known ==> air_count == layer_openings(q, *block_ids, start, end, wx as int, pos.y as int),
            air_count == world_layer_openings(generator, q, *block_ids, start, end, wx as int, pos.y as int),
            forall|x: int, z: int|
                start.x <= x < wx && start.z <= z <= end.z ==> solid(*block_ids, #[trigger] world_block(generator, q, x, start.y as int, z)),
            forall|x: int, z: int|
                start.x <= x < wx && start.z <= z <= end.z ==> solid(*block_ids, #[trigger] world_block(generator, q, x, end.y as int, z)),
            forall|x: int, z: int|
                start.x <= x < wx && start.z <= z <= end.z ==> (#[trigger] known_block(q, x, start.y as int, z) matches Some(v) ==> solid(
                    *block_ids,
                    v,
                )),
            forall|x: int, z: int|
                start.x <= x < wx && start.z <= z <= end.z ==> (#[trigger] known_block(q, x, end.y as int, z) matches Some(v) ==> solid(
                    *block_ids,
                    v,
                )),
        decreases end.x + 1 - wx,
    {
        let mut wy = start.y;
        while wy <= end.y
            invariant
                q == buffer@,
                known == dungeon_site_known(q, start, end, pos.y as int),
                start.x <= wx <= end.x,
                start.y <= wy <= end.y + 1,
                well_inside(pos, 16),
                start.y < pos.y < end.y,
                start.z <= end.z,
                pos.x - 8 <= start.x,
                end.x <= pos.x + 8,
                pos.y - 8 <= start.y,
                end.y <= pos.y + 8,
                pos.z - 8 <= start.z,
                end.z <= pos.z + 8,
                0 <= air_count <= (wx - start.x) * 17 + if wy > pos.y { 17int } else { 0int },
                known ==> air_count == layer_openings(q, *block_ids, start, end, wx as int, pos.y as int) + if wy > pos.y {
                    row_openings(q, *block_ids, start, end, wx as int, pos.y as int, end.z + 1)
                } else {
                    0
                },
                air_count == world_layer_openings(generator, q, *block_ids, start, end, wx as int, pos.y as int) + if wy > pos.y {
                    world_row_openings(generator, q, *block_ids, start, end, wx as int, pos.y as int, end.z + 1)
                } else {
                    0
                },
                forall|x: int, z: int|
                    start.x <= x < wx && start.z <= z <= end.z ==> solid(*block_ids, #[trigger] world_block(generator, q, x, start.y as int, z)),
                forall|x: int, z: int|
                    start.x <= x < wx && start.z <= z <= end.z ==> solid(*block_ids, #[trigger] world_block(generator, q, x, end.y as int, z)),
                wy > start.y ==> forall|z: int| start.z <= z <= end.z ==> solid(*block_ids, #[trigger] world_block(generator, q, wx as int, start.y as int, z)),
                wy > end.y ==> forall|z: int| start.z <= z <= end.z ==> solid(*block_ids, #[trigger] world_block(generator, q, wx as int, end.y as int, z)),
                forall|x: int, z: int|
                    start.x <= x < wx && start.z <= z <= end.z ==> (#[trigger] known_block(q, x, start.y as int, z) matches Some(v) ==> solid(
                        *block_ids,
                        v,
                    )),
                forall|x: int, z: int|
                    start.x <= x < wx && start.z <= z <= end.z ==> (#[trigger] known_block(q, x, end.y as int, z) matches Some(v) ==> solid(
                        *block_ids,
                        v,
                    )),
                wy > start.y ==> forall|z: int| start.z <= z <= end.z ==> (#[trigger] known_block(q, wx as int, start.y as int, z) matches Some(v)
                    ==> solid(*block_ids, v)),
                wy > end.y ==> forall|z: int| start.z <= z <= end.z ==> (#[trigger] known_block(q, wx as int, end.y as int, z) matches Some(v)
                    ==> solid(*block_ids, v)),
            decreases end.y + 1 - wy,
        {
            let mut wz = start.z;
            proof {
                lemma_row_openings_bound(q, *block_ids, start, end, wx as int, pos.y as int, start.z as int);
            }
            while wz <= end.z
                invariant
                    q == buffer@,
                    known == dungeon_site_known(q, start, end, pos.y as int),
                    start.x <= wx <= end.x,
                    start.y <= wy <= end.y,
                    start.z <= wz <= end.z + 1,
                    well_inside(pos, 16),
                    start.y < pos.y < end.y,
                    pos.x - 8 <= start.x,
                    end.x <= pos.x + 8,
                    pos.y - 8 <= start.y,
                    end.y <= pos.y + 8,
                    pos.z - 8 <= start.z,
                    end.z <= pos.z + 8,
                    0 <= air_count <= (wx - start.x) * 17 + if wy > pos.y { 17int } else if wy == pos.y { wz - start.z } else { 0int },
                    known ==> air_count == layer_openings(q, *block_ids, start, end, wx as int, pos.y as int) + if wy > pos.y {
                        row_openings(q, *block_ids, start, end, wx as int, pos.y as int, end.z + 1)
                    } else if wy == pos.y {
                        row_openings(q, *block_ids, start, end, wx as int, pos.y as int, wz as int)
                    } else {
                        0
                    },
                    air_count == world_layer_openings(generator, q, *block_ids, start, end, wx as int, pos.y as int) + if wy > pos.y {
                        world_row_openings(generator, q, *block_ids, start, end, wx as int, pos.y as int, end.z + 1)
                    } else if wy == pos.y {
                        world_row_openings(generator, q, *block_ids, start, end, wx as int, pos.y as int, wz as int)
                    } else {
                        0
                    },
                    forall|x: int, z: int|
                        start.x <= x < wx && start.z <= z <= end.z ==> solid(*block_ids, #[trigger] world_block(generator, q, x, start.y as int, z)),
                    forall|x: int, z: int|
                        start.x <= x < wx && start.z <= z <= end.z ==> solid(*block_ids, #[trigger] world_block(generator, q, x, end.y as int, z)),
                    wy > start.y ==> forall|z: int| start.z <= z <= end.z ==> solid(*block_ids, #[trigger] world_block(generator, q, wx as int, start.y as int, z)),
                    wy > end.y ==> forall|z: int| start.z <= z <= end.z ==> solid(*block_ids, #[trigger] world_block(generator, q, wx as int, end.y as int, z)),
                    wy == start.y ==> forall|z: int| start.z <= z < wz ==> solid(*block_ids, #[trigger] world_block(generator, q, wx as int, start.y as int, z)),
                    wy == end.y ==> forall|z: int| start.z <= z < wz ==> solid(*block_ids, #[trigger] world_block(generator, q, wx as int, end.y as int, z)),
                    forall|x: int, z: int|
                        start.x <= x < wx && start.z <= z <= end.z ==> (#[trigger] known_block(q, x, start.y as int, z) matches Some(v) ==> solid(
                            *block_ids,
                            v,
                        )),
                    forall|x: int, z: int|
                        start.x <= x < wx && start.z <= z <= end.z ==> (#[trigger] known_block(q, x, end.y as int, z) matches Some(v) ==> solid(
                            *block_ids,
                            v,
                        )),
                    wy > start.y ==> forall|z: int| start.z <= z <= end.z ==> (#[trigger] known_block(q, wx as int, start.y as int, z) matches Some(v)
                        ==> solid(*block_ids, v)),
                    wy == start.y ==> forall|z: int| start.z <= z < wz ==> (#[trigger] known_block(q, wx as int, start.y as int, z) matches Some(v)
                        ==> solid(*block_ids, v)),
                    wy == end.y ==> forall|z: int| start.z <= z < wz ==> (#[trigger] known_block(q, wx as int, end.y as int, z) matches Some(v)
                        ==> solid(*block_ids, v)),
                decreases end.z + 1 - wz,
            {
                let id = read(generator, buffer, wx, wy, wz);
                let solid = is_solid(block_ids, id);
                if (wy == start.y || wy == end.y) && !solid {
                    proof {
                        if known {
                            assert(known_block(q, wx as int, wy as int, wz as int) is Some);
                        }
                    }
                    return false;
                } else if wy == pos.y && (wx == start.x || wx == end.x || wz == start.z || wz == end.z) {
                    let above_id = read(generator, buffer, wx, wy + 1, wz);
                    if id == block_ids.air && above_id == block_ids.air {
                        air_count += 1;
                    }
                    proof {
                        if known {
                            assert(known_block(q, wx as int, wy as int, wz as int) is Some);
                            assert(known_block(q, wx as int, wy + 1, wz as int) is Some);
                        }
                    }
                }
                proof {
                    if known && wy == pos.y {
                        assert(known_block(q, wx as int, wy as int, wz as int) is Some);
                        assert(known_block(q, wx as int, wy + 1, wz as int) is Some);
                    }
                }
                wz += 1;
            }
            wy += 1;
        }
        wx += 1;
    }
    proof {
        if known {
            lemma_layer_openings_bound(q, *block_ids, start, end, end.x + 1, pos.y as int);
        }
    }
    1 <= air_count && air_count <= 5
}

/// One block `(x, y, z)` of a room being hollowed, from quad `q` and state `s`: air
/// inside the walls; on the walls and the floor, air over a block that is not solid
/// (from layer 0 up), else cobblestone over a solid block, on the floor layer mossy
/// where a draw in `[0, 4)` is not 0. `None` where the quad does not determine a block
/// read.
pub open spec fn carve_step(q: QuadView, s: int, ids: BlockIds, start: BlockPos, end: BlockPos, x: int, y: int, z: int) -> Outcome {
    if x != start.x && y != start.y && z != start.z && x != end.x && z != end.z {
        Some((quad_after_write(q, x, y, z, ids.air), s))
    } else {
        match known_block(q, x, y - 1, z) {
            None => None,
            Some(below) => if y >= 0 && !solid(ids, below) {
                Some((quad_after_write(q, x, y, z, ids.air), s))
            } else {
                match known_block(q, x, y, z) {
                    None => None,
                    Some(here) => if !solid(ids, here) {
                        Some((q, s))
                    } else if y == start.y {
                        let d = i32_draw(s, Some(4));
                        Some(
                            (
                                quad_after_write(q, x, y, z, if d.1 != 0 { ids.mossy_cobblestone } else { ids.cobblestone }),
                                d.0,
                            ),
                        )
                    } else {
                        Some((quad_after_write(q, x, y, z, ids.cobblestone), s))
                    },
                }
            },
        }
    }
}

/// The blocks `(x, y, z)` of a room being hollowed, for `z` from `start.z` up to below
/// `zt`, one after another after `o`.
pub open spec fn carve_row(o: Outcome, ids: BlockIds, start: BlockPos, end: BlockPos, x: int, y: int, zt: int) -> Outcome
    decreases zt - start.z,
{
    if zt <= start.z {
        o
    } else {
        and_then(
            carve_row(o, ids, start, end, x, y, zt - 1),
            |q: QuadView, s: int| carve_step(q, s, ids, start, end, x, y, zt - 1),
        )
    }
}

/// The rows of column `x` of a room being hollowed, from layer `end.y - 1` down to layer
/// `yb`, after `o`.
pub open spec fn carve_column(o: Outcome, ids: BlockIds, start: BlockPos, end: BlockPos, x: int, yb: int) -> Outcome
    decreases end.y - yb,
{
    if yb >= end.y {
        o
    } else {
        carve_row(carve_column(o, ids, start, end, x, yb + 1), ids, start, end, x, yb, end.z + 1)
    }
}

/// The columns of a room being hollowed, for `x` from `start.x` up to below `xt`, after
/// `o`.
pub open spec fn carve_room(o: Outcome, ids: BlockIds, start: BlockPos, end: BlockPos, xt: int) -> Outcome
    decreases xt - start.x,
{
    if xt <= start.x {
        o
    } else {
        carve_column(carve_room(o, ids, start, end, xt - 1), ids, start, end, xt - 1, start.y as int)
    }
}

/// Hollows the room from `start` to `end` (its ceiling layer excluded), top layer first:
/// air inside the walls, air where a wall block stands on something not solid (from
/// layer 0 up), and otherwise cobblestone over solid wall blocks, mossy three times in
/// four on the floor layer.
fn carve_dungeon_room<G: TerrainSource>(
    generator: &G,
    buffer: &mut QuadChunkBuffer,
    block_ids: &BlockIds,
    start: BlockPos,
    end: BlockPos,
    rand: &mut JavaRand,
)
    requires
        start.x <= end.x,
        start.y <= end.y,
        start.z <= end.z,
        well_inside(start, 8),
        well_inside(end, 8),
    ensures
        changed_only_to(old(buffer)@, final(buffer)@, dungeon_ids(*block_ids)),
        forall|x: int, y: int, z: int|
            start.x < x < end.x && start.y < y < end.y && start.z < z < end.z && quad_holds(old(buffer)@, x, y, z)
                ==> #[trigger] known_block(final(buffer)@, x, y, z) == Some(block_ids.air),
        reached(
            carve_room(Some((old(buffer)@, old(rand)@)), *block_ids, start, end, end.x + 1),
            final(buffer)@,
            final(rand)@,
        ),
        quad_covers(old(buffer)@, chunk_of(start.x as int), chunk_of(start.z as int)) && quad_covers(
            old(buffer)@,
            chunk_of(end.x as int),
            chunk_of(end.z as int),
        ) ==> carve_room(Some((old(buffer)@, old(rand)@)), *block_ids, start, end, end.x + 1) is Some,
{
    let ghost b0 = buffer@;
    let ghost s0 = rand@;
    let ghost o0: Outcome = Some((b0, s0));
    let ghost cov = quad_covers(b0, chunk_of(start.x as int), chunk_of(start.z as int)) && quad_covers(
        b0,
        chunk_of(end.x as int),
        chunk_of(end.z as int),
    );
    let ghost ids = dungeon_ids(*block_ids);
    proof {
        buffer.lemma_wf();
        lemma_changed_only_to_refl(b0, ids);
    }
    let mut wx = start.x;
    while wx <= end.x
        invariant
            start.x <= wx <= end.x + 1,
            start.y <= end.y,
            start.z <= end.z,
            well_inside(start, 8),
            well_inside(end, 8),
            quad_wf(b0),
            quad_wf(buffer@),
            ids == dungeon_ids(*block_ids),
            changed_only_to(b0, buffer@, ids),
            forall|x: int, y: int, z: int|
                start.x < x < end.x && start.y < y < end.y && start.z < z < end.z && quad_holds(b0, x, y, z) && x < wx
                    ==> #[trigger] known_block(buffer@, x, y, z) == Some(block_ids.air),
            o0 == Some((b0, s0)),
            reached(carve_room(o0, *block_ids, start, end, wx as int), buffer@, rand@),
            cov == (quad_covers(b0, chunk_of(start.x as int), chunk_of(start.z as int)) && quad_covers(
                b0,
                chunk_of(end.x as int),
                chunk_of(end.z as int),
            )),
            cov ==> carve_room(o0, *block_ids, start, end, wx as int) is Some,
        decreases end.x + 1 - wx,
    {
        let ghost col = carve_room(o0, *block_ids, start, end, wx as int);
        let mut wy = end.y;
        while wy > start.y
            invariant
                start.x <= wx <= end.x,
                start.y <= wy <= end.y,
                start.z <= end.z,
                well_inside(start, 8),
                well_inside(end, 8),
                quad_wf(b0),
                quad_wf(buffer@),
                ids == dungeon_ids(*block_ids),
                changed_only_to(b0, buffer@, ids),
                forall|x: int, y: int, z: int|
                    start.x < x < end.x && start.y < y < end.y && start.z < z < end.z && quad_holds(b0, x, y, z) && (x < wx || (x
                        == wx && y >= wy)) ==> #[trigger] known_block(buffer@, x, y, z) == Some(block_ids.air),
                col == carve_room(o0, *block_ids, start, end, wx as int),
                reached(carve_column(col, *block_ids, start, end, wx as int, wy as int), buffer@, rand@),
                cov == (quad_covers(b0, chunk_of(start.x as int), chunk_of(start.z as int)) && quad_covers(
                    b0,
                    chunk_of(end.x as int),
                    chunk_of(end.z as int),
                )),
                cov ==> carve_column(col, *block_ids, start, end, wx as int, wy as int) is Some,
            decreases wy - start.y,
        {
            wy -= 1;
            let ghost layer = carve_column(col, *block_ids, start, end, wx as int, wy + 1);
            let mut wz = start.z;
            while wz <= end.z
                invariant
                    start.x <= wx <= end.x,
                    start.y <= wy < end.y,
                    start.z <= wz <= end.z + 1,
                    well_inside(start, 8),
                    well_inside(end, 8),
                    quad_wf(b0),
                    quad_wf(buffer@),
                    ids == dungeon_ids(*block_ids),
                    changed_only_to(b0, buffer@, ids),
                    forall|x: int, y: int, z: int|
                        start.x < x < end.x && start.y < y < end.y && start.z < z < end.z && quad_holds(b0, x, y, z) && (x < wx || (x
                            == wx && y > wy) || (x == wx && y == wy && z < wz)) ==> #[trigger] known_block(buffer@, x, y, z) == Some(
                            block_ids.air,
                        ),
                    layer == carve_column(col, *block_ids, start, end, wx as int, wy + 1),
                    reached(carve_row(layer, *block_ids, start, end, wx as int, wy as int, wz as int), buffer@, rand@),
                    cov == (quad_covers(b0, chunk_of(start.x as int), chunk_of(start.z as int)) && quad_covers(
                        b0,
                        chunk_of(end.x as int),
                        chunk_of(end.z as int),
                    )),
                    cov ==> carve_row(layer, *block_ids, start, end, wx as int, wy as int, wz as int) is Some,
                decreases end.z + 1 - wz,
            {
                let ghost mid = buffer@;
                let ghost sm = rand@;
                proof {
                    if cov {
                        lemma_covers_between(b0, start.x as int, start.z as int, end.x as int, end.z as int, wx as int, wz as int);
                    }
                }
                let ghost mut placed: i32 = block_ids.air;
                if wx != start.x && wy != start.y && wz != start.z && wx != end.x && wz != end.z {
                    crate::level::generator::shared::quad_chunk_buffer::write(buffer, wx, wy, wz, block_ids.air);
                } else {
                    let below_id = read(generator, buffer, wx, wy - 1, wz);
                    if wy >= 0 && !is_solid(block_ids, below_id) {
                        crate::level::generator::shared::quad_chunk_buffer::write(buffer, wx, wy, wz, block_ids.air);
                    } else {
                        let here_id = read(generator, buffer, wx, wy, wz);
                        if is_solid(block_ids, here_id) {
                            if wy == start.y && rand.random_with::<i32>(Bound::new(4)) != 0 {
                                crate::level::generator::shared::quad_chunk_buffer::write(buffer, wx, wy, wz, block_ids.mossy_cobblestone);
                                proof {
                                    placed = block_ids.mossy_cobblestone;
                                }
                            } else {
                                crate::level::generator::shared::quad_chunk_buffer::write(buffer, wx, wy, wz, block_ids.cobblestone);
                                proof {
                                    placed = block_ids.cobblestone;
                                }
                            }
                        }
                    }
                }
                proof {
                    if buffer@ != mid {
                        lemma_changed_only_to_write(b0, mid, buffer@, ids, wx as int, wy as int, wz as int, placed);
                        lemma_known_after_write_all(mid, wx as int, wy as int, wz as int, placed);
                    }
                    assert(quad_holds(mid, wx as int, wy as int, wz as int) == quad_holds(b0, wx as int, wy as int, wz as int));
                    let before = carve_row(layer, *block_ids, start, end, wx as int, wy as int, wz as int);
                    if before is Some {
                        assert(before == Some((mid, sm)));
                        assert(carve_row(layer, *block_ids, start, end, wx as int, wy as int, wz + 1) == carve_step(
                            mid,
                            sm,
                            *block_ids,
                            start,
                            end,
                            wx as int,
                            wy as int,
                            wz as int,
                        ));
                    }
                }
                wz += 1;
            }
        }
        wx += 1;
    }
}

/// The state after rolling `n` chest stacks from state `s`, a slot drawn (bound 27)
/// after each stack that came out.
pub open spec fn stacks_after(s: int, n: nat) -> int
    decreases n,
{
    if n == 0 {
        s
    } else {
        let r = chest_stack_roll(stacks_after(s, (n - 1) as nat));
        if r.1 {
            i32_draw(r.0, Some(27)).0
        } else {
            r.0
        }
    }
}

/// How many of four blocks are solid.
pub open spec fn solid_among(ids: BlockIds, a: i32, b: i32, c: i32, d: i32) -> int {
    (if solid(ids, a) { 1int } else { 0 }) + (if solid(ids, b) { 1int } else { 0 }) + (if solid(ids, c) { 1int } else { 0 }) + (
    if solid(ids, d) { 1int } else { 0 })
}

/// How many of the four horizontal neighbours of `(x, y, z)` are solid, where the quad
/// holds all four.
fn solid_neighbours<G: TerrainSource>(generator: &G, buffer: &QuadChunkBuffer, block_ids: &BlockIds, x: i32, y: i32, z: i32) -> (r: i32)
    requires
        i32::MIN < x < i32::MAX,
        i32::MIN < z < i32::MAX,
    ensures
        0 <= r <= 4,
        match (
            known_block(buffer@, x as int, y as int, z - 1),
            known_block(buffer@, x as int, y as int, z + 1),
            known_block(buffer@, x - 1, y as int, z as int),
            known_block(buffer@, x + 1, y as int, z as int),
        ) {
            (Some(n0), Some(n1), Some(n2), Some(n3)) => r == solid_among(*block_ids, n0, n1, n2, n3),
            _ => true,
        },
{
    let mut solid_count: i32 = 0;
    if is_solid(block_ids, read(generator, buffer, x, y, z - 1)) {
        solid_count += 1;
    }
    if is_solid(block_ids, read(generator, buffer, x, y, z + 1)) {
        solid_count += 1;
    }
    if is_solid(block_ids, read(generator, buffer, x - 1, y, z)) {
        solid_count += 1;
    }
    if is_solid(block_ids, read(generator, buffer, x + 1, y, z)) {
        solid_count += 1;
    }
    solid_count
}

/// One try at a chest of a dungeon at `pos`, from quad `q` and state `s`: a spot drawn
/// within `x_radius` and `z_radius` of `pos` on its layer; while `pos` is air, a spot
/// with exactly one solid horizontal neighbour gets a chest after its eight stacks are
/// rolled. The quad, the state, and whether a chest was placed; `None` where the quad
/// does not determine a block read.
pub open spec fn chest_try(q: QuadView, s: int, ids: BlockIds, pos: BlockPos, x_radius: int, z_radius: int) -> Option<(QuadView, int, bool)> {
    let a = i32_draw(s, Some(2 * x_radius + 1));
    let b = i32_draw(a.0, Some(2 * z_radius + 1));
    let cx = pos.x + a.1 - x_radius;
    let cz = pos.z + b.1 - z_radius;
    match known_block(q, pos.x as int, pos.y as int, pos.z as int) {
        None => None,
        Some(here) => if here != ids.air {
            Some((q, b.0, false))
        } else {
            match (
                known_block(q, cx, pos.y as int, cz - 1),
                known_block(q, cx, pos.y as int, cz + 1),
                known_block(q, cx - 1, pos.y as int, cz),
                known_block(q, cx + 1, pos.y as int, cz),
            ) {
                (Some(n0), Some(n1), Some(n2), Some(n3)) => if solid_among(ids, n0, n1, n2, n3) == 1 {
                    Some((quad_after_write(q, cx, pos.y as int, cz, ids.chest), stacks_after(b.0, 8), true))
                } else {
                    Some((q, b.0, false))
                },
                _ => None,
            }
        },
    }
}

/// Up to `n` tries at one chest after `o`, stopping at the first that places it.
pub open spec fn chest_tries(o: Outcome, ids: BlockIds, pos: BlockPos, x_radius: int, z_radius: int, n: nat) -> Outcome
    decreases n,
{
    if n == 0 {
        o
    } else {
        match o {
            None => None,
            Some((q, s)) => match chest_try(q, s, ids, pos, x_radius, z_radius) {
                None => None,
                Some((q2, s2, placed)) => if placed {
                    Some((q2, s2))
                } else {
                    chest_tries(Some((q2, s2)), ids, pos, x_radius, z_radius, (n - 1) as nat)
                },
            },
        }
    }
}

/// One chest of a dungeon at `pos`: up to three tries.
pub open spec fn chest_step(ids: BlockIds, pos: BlockPos, x_radius: int, z_radius: int) -> spec_fn(QuadView, int) -> Outcome {
    |q: QuadView, s: int| chest_tries(Some((q, s)), ids, pos, x_radius, z_radius, 3)
}

/// Up to two chests: each takes up to three tries at a spot drawn inside the room's
/// floor area (`x` within `x_radius`, `z` within `z_radius` of `pos`), keeping the first
/// spot with exactly one solid horizontal neighbour; its eight stacks are rolled (with
/// a slot drawn for each item) and a chest is placed there. A try only looks for a spot
/// while `pos` itself is air.
#[verifier::spinoff_prover]
#[verifier::rlimit(30)]
fn place_dungeon_chests<G: TerrainSource>(
    generator: &G,
    buffer: &mut QuadChunkBuffer,
    block_ids: &BlockIds,
    pos: BlockPos,
    x_radius: i32,
    z_radius: i32,
    rand: &mut JavaRand,
)
    requires
        well_inside(pos, 16),
        2 <= x_radius <= 3,
        2 <= z_radius <= 3,
    ensures
        changed_only_to(old(buffer)@, final(buffer)@, dungeon_ids(*block_ids)),
        forall|x: int, y: int, z: int|
            #[trigger] known_block(final(buffer)@, x, y, z) == known_block(old(buffer)@, x, y, z) || (y == pos.y
                && known_block(final(buffer)@, x, y, z) == Some(block_ids.chest)),
        reached(
            repeat(Some((old(buffer)@, old(rand)@)), chest_step(*block_ids, pos, x_radius as int, z_radius as int), 2),
            final(buffer)@,
            final(rand)@,
        ),
        covers_around(old(buffer)@, pos, 8) ==> repeat(
            Some((old(buffer)@, old(rand)@)),
            chest_step(*block_ids, pos, x_radius as int, z_radius as int),
            2,
        ) is Some,
{
    let ghost b0 = buffer@;
    let ghost s0 = rand@;
    let ghost f = chest_step(*block_ids, pos, x_radius as int, z_radius as int);
    let ghost ids = dungeon_ids(*block_ids);
    proof {
        buffer.lemma_wf();
        lemma_changed_only_to_refl(b0, ids);
    }
    for chest in 0..2u32
        invariant
            well_inside(pos, 16),
            2 <= x_radius <= 3,
            2 <= z_radius <= 3,
            quad_wf(b0),
            quad_wf(buffer@),
            ids == dungeon_ids(*block_ids),
            changed_only_to(b0, buffer@, ids),
            forall|x: int, y: int, z: int|
                #[trigger] known_block(buffer@, x, y, z) == known_block(b0, x, y, z) || (y == pos.y && known_block(buffer@, x, y, z)
                    == Some(block_ids.chest)),
            f == chest_step(*block_ids, pos, x_radius as int, z_radius as int),
            reached(repeat(Some((b0, s0)), f, chest as nat), buffer@, rand@),
            covers_around(b0, pos, 8) ==> repeat(Some((b0, s0)), f, chest as nat) is Some,
    {
        let ghost qc = buffer@;
        let ghost sc = rand@;
        let mut tries: u32 = 0;
        while tries < 3
            invariant_except_break
                f(qc, sc) is Some ==> f(qc, sc) == chest_tries(
                    Some((buffer@, rand@)),
                    *block_ids,
                    pos,
                    x_radius as int,
                    z_radius as int,
                    (3 - tries) as nat,
                ),
                covers_around(b0, pos, 8) ==> (chest_tries(
                    Some((buffer@, rand@)),
                    *block_ids,
                    pos,
                    x_radius as int,
                    z_radius as int,
                    (3 - tries) as nat,
                ) is Some ==> f(qc, sc) is Some),
            invariant
                tries <= 3,
                f == chest_step(*block_ids, pos, x_radius as int, z_radius as int),
                well_inside(pos, 16),
                2 <= x_radius <= 3,
                2 <= z_radius <= 3,
                quad_wf(b0),
                quad_wf(buffer@),
                ids == dungeon_ids(*block_ids),
                changed_only_to(b0, buffer@, ids),
                forall|x: int, y: int, z: int|
                    #[trigger] known_block(buffer@, x, y, z) == known_block(b0, x, y, z) || (y == pos.y && known_block(buffer@, x, y, z)
                        == Some(block_ids.chest)),
            ensures
                reached(f(qc, sc), buffer@, rand@),
                covers_around(b0, pos, 8) ==> f(qc, sc) is Some,
            decreases 3 - tries,
        {
            let ghost q1 = buffer@;
            let ghost s1 = rand@;
            tries += 1;
            let bound = z_radius * 2 + 1;
            let bound1 = x_radius * 2 + 1;
            proof {
                lemma_draw_range(*rand, bound1 as int);
            }
            let dx = rand.random_with::<i32>(Bound::new(bound1)) - x_radius;
            proof {
                lemma_draw_range(*rand, bound as int);
            }
            let dz = rand.random_with::<i32>(Bound::new(bound)) - z_radius;
            let chest_pos = pos.offset(dx, 0, dz);
            proof {
                if covers_around(b0, pos, 8) {
                    lemma_covers_around(b0, pos, 8, pos.x as int, pos.z as int);
                    lemma_covers_around(b0, pos, 8, chest_pos.x as int, chest_pos.z - 1);
                    lemma_covers_around(b0, pos, 8, chest_pos.x as int, chest_pos.z + 1);
                    lemma_covers_around(b0, pos, 8, chest_pos.x - 1, chest_pos.z as int);
                    lemma_covers_around(b0, pos, 8, chest_pos.x + 1, chest_pos.z as int);
                }
            }
            if read(generator, buffer, pos.x, pos.y, pos.z) == block_ids.air {
                let solid_count = solid_neighbours(generator, buffer, block_ids, chest_pos.x, chest_pos.y, chest_pos.z);
                if solid_count == 1 {
                    let ghost sb = rand@;
                    for stack in 0..8u32
                        invariant
                            rand@ == stacks_after(sb, stack as nat),
                    {
                        if roll_chest_stack(rand) {
                            rand.random_with::<i32>(Bound::new(CHEST_SLOT_COUNT));
                        }
                    }
                    let ghost mid = buffer@;
                    crate::level::generator::shared::quad_chunk_buffer::write(buffer, chest_pos.x, chest_pos.y, chest_pos.z, block_ids.chest);
                    proof {
                        lemma_changed_only_to_write(b0, mid, buffer@, ids, chest_pos.x as int, chest_pos.y as int, chest_pos.z as int, block_ids.chest);
                        lemma_known_after_write_all(mid, chest_pos.x as int, chest_pos.y as int, chest_pos.z as int, block_ids.chest);
                    }
                    break;
                }
            }
        }
    }
}

/// A dungeon at `pos` from quad `q` and state `s`: room radii drawn (bound 2, plus 2)
/// for `x` and `z`, the room reaching the `x` radius plus one both ways on both
/// horizontal axes, from one below `pos` to four above; nothing more where it does not
/// fit, else the room hollowed (`carve_room`), two chests (`chest_step`), the spawned
/// kind drawn (bound 4) and a mob spawner at `pos`. `None` where the quad does not
/// determine a block read.
pub open spec fn dungeon(q: QuadView, ids: BlockIds, pos: BlockPos, s: int) -> Outcome {
    let a = i32_draw(s, Some(2));
    let b = i32_draw(a.0, Some(2));
    let x_radius = a.1 + 2;
    let z_radius = b.1 + 2;
    let start = BlockPos { x: (pos.x - x_radius - 1) as i32, y: (pos.y - 1) as i32, z: (pos.z - x_radius - 1) as i32 };
    let end = BlockPos { x: (pos.x + x_radius + 1) as i32, y: (pos.y + 4) as i32, z: (pos.z + x_radius + 1) as i32 };
    if !dungeon_site_known(q, start, end, pos.y as int) {
        None
    } else if !dungeon_fits(q, ids, start, end, pos.y as int) {
        Some((q, b.0))
    } else {
        let carved = carve_room(Some((q, b.0)), ids, start, end, end.x + 1);
        let chests = repeat(carved, chest_step(ids, pos, x_radius as int, z_radius as int), 2);
        and_then(
            chests,
            |q2: QuadView, s2: int|
                Some((quad_after_write(q2, pos.x as int, pos.y as int, pos.z as int, ids.mob_spawner), i32_draw(s2, Some(4)).0)),
        )
    }
}

/// A dungeon centred at `pos` (Beta 1.7.3's dungeon): room radii `2` or
/// `3` are drawn for `x` and `z`, and the room's `x` extent is used for both
/// horizontal axes. When the site is unsuitable (see `dungeon_site_ok`) nothing more is
/// drawn or placed and the result is `false`. Otherwise the room is hollowed, chests
/// are tried, the spawned kind is drawn, and a mob spawner is placed at `pos`.
pub fn place_dungeon<G: TerrainSource>(generator: &G, buffer: &mut QuadChunkBuffer, block_ids: &BlockIds, pos: BlockPos, rand: &mut JavaRand) -> (r: bool)
    requires
        well_inside(pos, 16),
    ensures
        changed_only_to(old(buffer)@, final(buffer)@, dungeon_ids(*block_ids)),
        !r ==> final(buffer)@ == old(buffer)@ && final(rand)@ == draws_after(old(rand)@, seq![2, 2]),
        ({
            let reach = i32_draw(old(rand)@, Some(2)).1 + 3;
            let start = BlockPos { x: (pos.x - reach) as i32, y: (pos.y - 1) as i32, z: (pos.z - reach) as i32 };
            let end = BlockPos { x: (pos.x + reach) as i32, y: (pos.y + 4) as i32, z: (pos.z + reach) as i32 };
            &&& r == dungeon_fits_world(generator, old(buffer)@, *block_ids, start, end, pos.y as int)
            &&& dungeon_site_known(old(buffer)@, start, end, pos.y as int) ==> (r == dungeon_fits(
                old(buffer)@,
                *block_ids,
                start,
                end,
                pos.y as int,
            ))
            &&& r ==> forall|x: int, y: int, z: int|
                start.x < x < end.x && start.y < y < end.y && start.z < z < end.z && y != pos.y && quad_holds(old(buffer)@, x, y, z)
                    ==> #[trigger] known_block(final(buffer)@, x, y, z) == Some(block_ids.air)
        }),
        r && quad_holds(old(buffer)@, pos.x as int, pos.y as int, pos.z as int)
            ==> quad_block(final(buffer)@, pos.x as int, pos.y as int, pos.z as int) == block_ids.mob_spawner,
        reached(dungeon(old(buffer)@, *block_ids, pos, old(rand)@), final(buffer)@, final(rand)@),
        covers_around(old(buffer)@, pos, 8) ==> dungeon(old(buffer)@, *block_ids, pos, old(rand)@) is Some,
{
    let ghost b0 = buffer@;
    let ghost s0 = rand@;
    let ghost ids = dungeon_ids(*block_ids);
    proof {
        buffer.lemma_wf();
        lemma_draw_range(*rand, 2);
    }
    let x_radius = rand.random_with::<i32>(Bound::new(2)) + 2;
    proof {
        lemma_draw_range(*rand, 2);
    }
    let z_radius = rand.random_with::<i32>(Bound::new(2)) + 2;
    proof {
        lemma_draws_after_push(s0, seq![2], 2);
        lemma_draws_after_push(s0, Seq::empty(), 2);
        assert(Seq::<int>::empty().push(2) =~= seq![2]);
        assert(seq![2int].push(2) =~= seq![2, 2]);
    }
    let height: i32 = 3;

    let start = pos.offset(-(x_radius + 1), -1, -(x_radius + 1));
    let end = pos.offset(x_radius + 1, height + 1, x_radius + 1);

    proof {
        if covers_around(b0, pos, 8) {
            assert forall|x: int, wy: int, z: int|
                start.x <= x <= end.x && start.y <= wy <= end.y + 1 && start.z <= z <= end.z implies (#[trigger] known_block(
                    b0,
                    x,
                    wy,
                    z,
                )) is Some by {
                lemma_covers_around(b0, pos, 8, x, z);
            }
            lemma_covers_around(b0, pos, 8, start.x as int, start.z as int);
            lemma_covers_around(b0, pos, 8, end.x as int, end.z as int);
        }
    }
    if !dungeon_site_ok(generator, buffer, block_ids, pos, start, end) {
        return false;
    }

    let ghost sd = rand@;
    carve_dungeon_room(generator, buffer, block_ids, start, end, rand);
    let ghost b1 = buffer@;
    let ghost s1 = rand@;
    let ghost carved = carve_room(Some((b0, sd)), *block_ids, start, end, end.x + 1);
    place_dungeon_chests(generator, buffer, block_ids, pos, x_radius, z_radius, rand);
    let ghost b2 = buffer@;
    let ghost f = chest_step(*block_ids, pos, x_radius as int, z_radius as int);
    proof {
        lemma_repeat_from(carved, b1, s1, f, 2);
    }
    let ghost chests = repeat(carved, f, 2);
    assert(reached(chests, b2, rand@));

    let _entity_kind = rand.random_with::<i32>(Bound::new(4));
    crate::level::generator::shared::quad_chunk_buffer::write(buffer, pos.x, pos.y, pos.z, block_ids.mob_spawner);
    proof {
        lemma_changed_only_to_trans(b0, b1, b2, ids);
        lemma_changed_only_to_write(b0, b2, buffer@, ids, pos.x as int, pos.y as int, pos.z as int, block_ids.mob_spawner);
        lemma_known_after_write_all(b2, pos.x as int, pos.y as int, pos.z as int, block_ids.mob_spawner);
    }
    true
}

/// One dungeon attempt of the owner chunk with corner `origin`, at a spot drawn by
/// `next_offset(rand, 128, 8)` from there.
pub open spec fn dungeon_step(ids: BlockIds, origin: BlockPos) -> spec_fn(QuadView, int) -> Outcome {
    |q: QuadView, s: int|
        {
            let spot = offset_draw(s, 128, 8);
            dungeon(q, ids, offset_position(origin, spot.1.x as int, spot.1.y as int, spot.1.z as int), spot.0)
        }
}

/// Owner `(owner_x, owner_z)`'s dungeons: eight attempts (`dungeon_step`), each at an
/// offset inside the owner's forward quad, continuing `rand`'s stream. The owner's own
/// quad determines every block they read.
pub fn populate_from<G: TerrainSource>(
    generator: &G,
    buffer: &mut QuadChunkBuffer,
    owner_x: i32,
    owner_z: i32,
    block_ids: &BlockIds,
    rand: &mut JavaRand,
)
    requires
        crate::level::generator::shared::owner_in_range(owner_x as int),
        crate::level::generator::shared::owner_in_range(owner_z as int),
    ensures
        changed_only_to(old(buffer)@, final(buffer)@, dungeon_ids(*block_ids)),
        reached(
            repeat(
                Some((old(buffer)@, old(rand)@)),
                dungeon_step(*block_ids, BlockPos { x: (owner_x * 16) as i32, y: 0, z: (owner_z * 16) as i32 }),
                8,
            ),
            final(buffer)@,
            final(rand)@,
        ),
        old(buffer)@.x == owner_x && old(buffer)@.z == owner_z ==> repeat(
            Some((old(buffer)@, old(rand)@)),
            dungeon_step(*block_ids, BlockPos { x: (owner_x * 16) as i32, y: 0, z: (owner_z * 16) as i32 }),
            8,
        ) is Some,
{
    let ghost b0 = buffer@;
    let ghost s0 = rand@;
    let ghost ids = dungeon_ids(*block_ids);
    proof {
        buffer.lemma_wf();
        lemma_changed_only_to_refl(b0, ids);
    }
    let origin = BlockPos::new(owner_x * 16, 0, owner_z * 16);
    let ghost f = dungeon_step(*block_ids, origin);
    for i in 0..8u32
        invariant
            well_inside(origin, 256),
            quad_wf(b0),
            ids == dungeon_ids(*block_ids),
            changed_only_to(b0, buffer@, ids),
            f == dungeon_step(*block_ids, origin),
            reached(repeat(Some((b0, s0)), f, i as nat), buffer@, rand@),
            origin.x == owner_x * 16,
            origin.z == owner_z * 16,
            b0.x == owner_x && b0.z == owner_z ==> repeat(Some((b0, s0)), f, i as nat) is Some,
    {
        let ghost s = rand@;
        let offset = next_offset(rand, 128, 8);
        let pos = origin.offset(offset.x, offset.y, offset.z);
        let ghost mid = buffer@;
        proof {
            if b0.x == owner_x && b0.z == owner_z {
                lemma_owner_covers(mid, b0.x, b0.z, pos);
            }
        }
        place_dungeon(generator, buffer, block_ids, pos, rand);
        proof {
            lemma_changed_only_to_trans(b0, mid, buffer@, ids);
            assert(repeat(Some((b0, s0)), f, (i + 1) as nat) == and_then(repeat(Some((b0, s0)), f, i as nat), f));
        }
    }
}

} // verus!
