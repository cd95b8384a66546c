//! Lakes: a blob of water or still lava sunk into the ground, with the integer work of
//! Beta 1.7.3's lakes (the blob's shape itself is drawn as real numbers
//! by the caller and handed in as a `LakeShape`).
use super::block_ids::BlockIds;
use super::box_walk::{
    cell_before, lemma_walk_done, lemma_walk_next_x, lemma_walk_next_z, lemma_walk_start, lemma_walk_step, target_inside,
    walk_cell_before, walked,
};
use super::quad_chunk_buffer::{
    QuadChunkBuffer, QuadView, changed_only_to, known_block, lemma_changed_only_to_refl, lemma_changed_only_to_trans,
    lemma_changed_only_to_write, lemma_known_after_write_all, quad_block, quad_covers, quad_holds, quad_wf, read, chunk_of, world_block, quad_rebuilt, lemma_quad_rebuilt, lemma_quad_ext,
};
use super::{BlockPos, TerrainSource, well_inside};
use crate::rand::java::JavaRand;
use crate::rand::primitives::{Bound, draws_after, i32_draw, lemma_draws_after_concat, lemma_draws_after_push, repeated};
use vstd::prelude::*;

verus! {

/// Which cells of a `16 x 16 x 8` box (`[x][z][y]`) a lake fills.
pub struct LakeShape {
    cells: [bool; 2048],
}

/// Position of cell `(dx, dz, dy)` in a lake shape's view.
pub open spec fn lake_cell(dx: int, dz: int, dy: int) -> int {
    (dx * 16 + dz) * 8 + dy
}

/// A cell of the lake box.
pub open spec fn in_lake_box(dx: int, dz: int, dy: int) -> bool {
    0 <= dx < 16 && 0 <= dz < 16 && 0 <= dy < 8
}

/// Cell `(dx, dz, dy)` is filled (false outside the box).
pub open spec fn filled(shape: Seq<bool>, dx: int, dz: int, dy: int) -> bool {
    in_lake_box(dx, dz, dy) && shape[lake_cell(dx, dz, dy)]
}

/// Cell `(dx, dz, dy)` is a lake's edge: not filled, next to a filled cell.
pub open spec fn lake_edge(shape: Seq<bool>, dx: int, dz: int, dy: int) -> bool {
    !filled(shape, dx, dz, dy) && (filled(shape, dx + 1, dz, dy) || filled(shape, dx - 1, dz, dy)
        || filled(shape, dx, dz + 1, dy) || filled(shape, dx, dz - 1, dy) || filled(shape, dx, dz, dy + 1)
        || filled(shape, dx, dz, dy - 1))
}

impl View for LakeShape {
    type V = Seq<bool>;

    closed spec fn view(&self) -> Seq<bool> {
        self.cells@
    }
}

impl LakeShape {
    pub proof fn lemma_len(&self)
        ensures
            self@.len() == 2048,
    {
    }

    /// A shape with no cell filled.
    pub fn new() -> (r: Self)
        ensures
            r@ == Seq::new(2048, |i: int| false),
    {
        let r = LakeShape { cells: [false; 2048] };
        assert(r@ =~= Seq::new(2048, |i: int| false));
        r
    }

    pub fn get(&self, dx: usize, dz: usize, dy: usize) -> (r: bool)
        requires
            in_lake_box(dx as int, dz as int, dy as int),
        ensures
            r == filled(self@, dx as int, dz as int, dy as int),
    {
        self.cells[(dx * 16 + dz) * 8 + dy]
    }

    /// Marks cell `(dx, dz, dy)` filled.
    pub fn fill(&mut self, dx: usize, dz: usize, dy: usize)
        requires
            in_lake_box(dx as int, dz as int, dy as int),
        ensures
            final(self)@ == old(self)@.update(lake_cell(dx as int, dz as int, dy as int), true),
    {
        self.cells[(dx * 16 + dz) * 8 + dy] = true;
    }
}

/// Whether cell `(dx, dz, dy)` is an edge of the lake.
fn is_edge(fill: &LakeShape, dx: usize, dz: usize, dy: usize) -> (r: bool)
    requires
        in_lake_box(dx as int, dz as int, dy as int),
    ensures
        r == lake_edge(fill@, dx as int, dz as int, dy as int),
{
    !fill.get(dx, dz, dy) && ((dx < 15 && fill.get(dx + 1, dz, dy)) || (dx > 0 && fill.get(dx - 1, dz, dy))
        || (dz < 15 && fill.get(dx, dz + 1, dy)) || (dz > 0 && fill.get(dx, dz - 1, dy)) || (dy < 7 && fill.get(
        dx,
        dz,
        dy + 1,
    )) || (dy > 0 && fill.get(dx, dz, dy - 1)))
}

/// A block a lake counts as solid: anything but air, water or lava.
pub open spec fn lake_solid(ids: BlockIds, id: i32) -> bool {
    id != ids.air && id != ids.water && id != ids.lava && id != ids.lava_still
}

/// A fluid a lake refuses to border above its surface.
pub open spec fn lake_fluid(ids: BlockIds, id: i32) -> bool {
    id == ids.water || id == ids.lava || id == ids.lava_still
}

fn is_solid(block_ids: &BlockIds, id: i32) -> (r: bool)
    ensures
        r == lake_solid(*block_ids, id),
{
    id != block_ids.air && id != block_ids.water && id != block_ids.lava && id != block_ids.lava_still
}

fn is_fluid(block_ids: &BlockIds, id: i32) -> (r: bool)
    ensures
        r == lake_fluid(*block_ids, id),
{
    id == block_ids.water || id == block_ids.lava || id == block_ids.lava_still
}

/// The layer a lake settles on below `(x, y, z)`: down through air, not below layer 0.
pub open spec fn lake_floor(q: QuadView, ids: BlockIds, x: int, y: int, z: int) -> int
    decreases y,
{
    if y > 0 && known_block(q, x, y, z) == Some(ids.air) {
        lake_floor(q, ids, x, y - 1, z)
    } else {
        y
    }
}

/// The layer a lake settles on below `(x, y, z)` as `read` shows the world: down
/// through air, not below layer 0.
pub open spec fn world_lake_floor<G: TerrainSource>(generator: &G, q: QuadView, ids: BlockIds, x: int, y: int, z: int) -> int
    decreases y,
{
    if y > 0 && world_block(generator, q, x, y, z) == ids.air {
        world_lake_floor(generator, q, ids, x, y - 1, z)
    } else {
        y
    }
}

/// The corner of a lake's box for a lake drawn at `pos`: `8` back in `x` and `z`, and
/// `4` below the first non-air block at or below `pos` (or below layer 0); where the quad
/// holds that column, `4` below `lake_floor`.
pub fn lake_corner<G: TerrainSource>(generator: &G, buffer: &QuadChunkBuffer, block_ids: &BlockIds, pos: BlockPos) -> (r: BlockPos)
    requires
        well_inside(pos, 16),
    ensures
        r.x == pos.x - 8,
        r.z == pos.z - 8,
        r.y <= pos.y - 4,
        r.y >= (if pos.y > 0 { -4 } else { pos.y - 4 }),
        r.y == world_lake_floor(generator, buffer@, *block_ids, pos.x - 8, pos.y as int, pos.z - 8) - 4,
        quad_covers(buffer@, chunk_of(pos.x - 8), chunk_of(pos.z - 8)) ==> r.y == lake_floor(
            buffer@,
            *block_ids,
            pos.x - 8,
            pos.y as int,
            pos.z - 8,
        ) - 4,
{
    let mut corner = pos.offset(-8, 0, -8);
    while corner.y > 0 && read(generator, buffer, corner.x, corner.y, corner.z) == block_ids.air
        invariant
            well_inside(pos, 16),
            corner.x == pos.x - 8,
            corner.z == pos.z - 8,
            corner.y <= pos.y,
            corner.y >= (if pos.y > 0 { 0 } else { pos.y }),
            quad_covers(buffer@, chunk_of(pos.x - 8), chunk_of(pos.z - 8)) ==> lake_floor(
                buffer@,
                *block_ids,
                pos.x - 8,
                pos.y as int,
                pos.z - 8,
            ) == lake_floor(buffer@, *block_ids, corner.x as int, corner.y as int, corner.z as int),
            world_lake_floor(generator, buffer@, *block_ids, pos.x - 8, pos.y as int, pos.z - 8) == world_lake_floor(
                generator,
                buffer@,
                *block_ids,
                corner.x as int,
                corner.y as int,
                corner.z as int,
            ),
        decreases corner.y,
    {
        corner.y -= 1;
    }
    proof {
        if quad_covers(buffer@, chunk_of(pos.x - 8), chunk_of(pos.z - 8)) && corner.y > 0 {
            assert(known_block(buffer@, corner.x as int, corner.y as int, corner.z as int) is Some);
        }
    }
    corner.offset(0, -4, 0)
}

/// The ids a lake of `fluid_id` places.
pub open spec fn lake_ids(ids: BlockIds, fluid_id: i32) -> Set<i32> {
    set![ids.air, fluid_id, ids.grass, ids.stone]
}

/// What the quad alone determines of cell `(dx, dz, dy)` of the box at `corner`.
pub open spec fn cell_block(q: QuadView, corner: BlockPos, dx: int, dz: int, dy: int) -> Option<i32> {
    known_block(q, corner.x + dx, corner.y + dy, corner.z + dz)
}

/// What an edge cell at height `dy` of the box may hold: no fluid in the upper half,
/// something solid or the lake's own fluid in the lower half.
pub open spec fn edge_ok(ids: BlockIds, fluid_id: i32, dy: int, v: i32) -> bool {
    if dy >= 4 {
        !lake_fluid(ids, v)
    } else {
        lake_solid(ids, v) || v == fluid_id
    }
}

/// The lake fits as far as the quad shows: every edge cell it knows is `edge_ok`.
pub open spec fn lake_fits(q: QuadView, ids: BlockIds, fluid_id: i32, corner: BlockPos, shape: Seq<bool>) -> bool {
    forall|dx: int, dz: int, dy: int|
        #[trigger] lake_edge(shape, dx, dz, dy) && in_lake_box(dx, dz, dy) ==> (cell_block(q, corner, dx, dz, dy) matches Some(
            v,
        ) ==> edge_ok(ids, fluid_id, dy, v))
}

/// The quad alone determines every edge cell of the lake.
pub open spec fn lake_site_known(q: QuadView, corner: BlockPos, shape: Seq<bool>) -> bool {
    forall|dx: int, dz: int, dy: int|
        #[trigger] lake_edge(shape, dx, dz, dy) && in_lake_box(dx, dz, dy) ==> cell_block(q, corner, dx, dz, dy) is Some
}

/// The lake fits as `read` shows the world: every edge cell is `edge_ok`.
pub open spec fn lake_fits_world<G: TerrainSource>(generator: &G, q: QuadView, ids: BlockIds, fluid_id: i32, corner: BlockPos, shape: Seq<bool>) -> bool {
    forall|dx: int, dz: int, dy: int|
        #[trigger] lake_edge(shape, dx, dz, dy) && in_lake_box(dx, dz, dy) ==> edge_ok(
            ids,
            fluid_id,
            dy,
            world_block(generator, q, corner.x + dx, corner.y + dy, corner.z + dz),
        )
}

/// Whether the lake fits: no edge cell in the upper half of the box (`dy >= 4`) holds
/// fluid, and every edge cell in the lower half is solid or already `fluid_id`.
fn lake_site_ok<G: TerrainSource>(generator: &G, buffer: &QuadChunkBuffer, block_ids: &BlockIds, fluid_id: i32, corner: BlockPos, fill: &LakeShape) -> (r: bool)
    requires
        well_inside(corner, 32),
    ensures
        r == lake_fits_world(generator, buffer@, *block_ids, fluid_id, corner, fill@),
        r ==> lake_fits(buffer@, *block_ids, fluid_id, corner, fill@),
        lake_site_known(buffer@, corner, fill@) && lake_fits(buffer@, *block_ids, fluid_id, corner, fill@) ==> r,
{
    for dx in 0..16usize
        invariant
            well_inside(corner, 32),
            forall|a: int, b: int, c: int|
                a < dx && #[trigger] lake_edge(fill@, a, b, c) && in_lake_box(a, b, c) ==> (cell_block(buffer@, corner, a, b, c) matches Some(
                    v,
                ) ==> edge_ok(*block_ids, fluid_id, c, v)),
            forall|a: int, b: int, c: int|
                a < dx && #[trigger] lake_edge(fill@, a, b, c) && in_lake_box(a, b, c) ==> edge_ok(
                    *block_ids,
                    fluid_id,
                    c,
                    world_block(generator, buffer@, corner.x + a, corner.y + c, corner.z + b),
                ),
    {
        for dz in 0..16usize
            invariant
                well_inside(corner, 32),
                dx < 16,
                forall|a: int, b: int, c: int|
                    cell_before(a, b, c, dx as int, dz as int, 0) && #[trigger] lake_edge(fill@, a, b, c) && in_lake_box(a, b, c)
                        ==> (cell_block(buffer@, corner, a, b, c) matches Some(v) ==> edge_ok(*block_ids, fluid_id, c, v)),
                forall|a: int, b: int, c: int|
                    cell_before(a, b, c, dx as int, dz as int, 0) && #[trigger] lake_edge(fill@, a, b, c) && in_lake_box(a, b, c)
                        ==> edge_ok(*block_ids, fluid_id, c, world_block(generator, buffer@, corner.x + a, corner.y + c, corner.z + b)),
        {
            for dy in 0..8usize
                invariant
                    well_inside(corner, 32),
                    dx < 16,
                    dz < 16,
                    forall|a: int, b: int, c: int|
                        cell_before(a, b, c, dx as int, dz as int, dy as int) && #[trigger] lake_edge(fill@, a, b, c) && in_lake_box(
                            a,
                            b,
                            c,
                        ) ==> (cell_block(buffer@, corner, a, b, c) matches Some(v) ==> edge_ok(*block_ids, fluid_id, c, v)),
                    forall|a: int, b: int, c: int|
                        cell_before(a, b, c, dx as int, dz as int, dy as int) && #[trigger] lake_edge(fill@, a, b, c) && in_lake_box(
                            a,
                            b,
                            c,
                        ) ==> edge_ok(*block_ids, fluid_id, c, world_block(generator, buffer@, corner.x + a, corner.y + c, corner.z + b)),
            {
                if is_edge(fill, dx, dz, dy) {
                    let check = corner.offset(dx as i32, dy as i32, dz as i32);
                    let check_id = read(generator, buffer, check.x, check.y, check.z);
                    if (dy >= 4 && is_fluid(block_ids, check_id)) || (dy < 4 && !is_solid(block_ids, check_id) && check_id != fluid_id) {
                        proof {
                            if lake_site_known(buffer@, corner, fill@) {
                                assert(cell_block(buffer@, corner, dx as int, dz as int, dy as int) is Some);
                            }
                        }
                        return false;
                    }
                }
            }
        }
    }
    true
}

/// The block at `(x, y, z)` after the lake's cells are filled: a filled cell the quad
/// holds is air in the upper half of the box and `fluid_id` in the lower half; anything
/// else is as before.
pub open spec fn filled_block(q: QuadView, ids: BlockIds, fluid_id: i32, corner: BlockPos, shape: Seq<bool>, x: int, y: int, z: int) -> Option<i32> {
    let dy = y - corner.y;
    if filled(shape, x - corner.x, z - corner.z, dy) && quad_holds(q, x, y, z) {
        Some(if dy >= 4 { ids.air } else { fluid_id })
    } else {
        known_block(q, x, y, z)
    }
}

/// `filled_block` as a function of the position.
pub open spec fn fill_target(q: QuadView, ids: BlockIds, fluid_id: i32, corner: BlockPos, shape: Seq<bool>) -> spec_fn(int, int, int) -> Option<i32> {
    |x: int, y: int, z: int| filled_block(q, ids, fluid_id, corner, shape, x, y, z)
}

/// Fills the lake: its filled cells become air in the upper half of the box and
/// `fluid_id` in the lower half.
fn fill_lake(buffer: &mut QuadChunkBuffer, block_ids: &BlockIds, fluid_id: i32, corner: BlockPos, fill: &LakeShape)
    requires
        well_inside(corner, 32),
    ensures
        changed_only_to(old(buffer)@, final(buffer)@, lake_ids(*block_ids, fluid_id)),
        forall|x: int, y: int, z: int|
            #[trigger] known_block(final(buffer)@, x, y, z) == filled_block(old(buffer)@, *block_ids, fluid_id, corner, fill@, x, y, z),
{
    let ghost b0 = buffer@;
    let ghost ids = lake_ids(*block_ids, fluid_id);
    let ghost target = fill_target(b0, *block_ids, fluid_id, corner, fill@);
    proof {
        buffer.lemma_wf();
        lemma_changed_only_to_refl(b0, ids);
        lemma_walk_start(b0, target, corner, 0, 0);
    }
    for dx in 0..16usize
        invariant
            well_inside(corner, 32),
            quad_wf(b0),
            quad_wf(buffer@),
            ids == lake_ids(*block_ids, fluid_id),
            changed_only_to(b0, buffer@, ids),
            target == fill_target(b0, *block_ids, fluid_id, corner, fill@),
            target_inside(b0, target, corner, 0, 0),
            walked(b0, buffer@, target, corner, 0, dx as int, 0, 0),
    {
        for dz in 0..16usize
            invariant
                well_inside(corner, 32),
                dx < 16,
                quad_wf(b0),
                quad_wf(buffer@),
                ids == lake_ids(*block_ids, fluid_id),
                changed_only_to(b0, buffer@, ids),
                target == fill_target(b0, *block_ids, fluid_id, corner, fill@),
                target_inside(b0, target, corner, 0, 0),
                walked(b0, buffer@, target, corner, 0, dx as int, dz as int, 0),
        {
            for dy in 0..8usize
                invariant
                    well_inside(corner, 32),
                    dx < 16,
                    dz < 16,
                    quad_wf(b0),
                    quad_wf(buffer@),
                    ids == lake_ids(*block_ids, fluid_id),
                    changed_only_to(b0, buffer@, ids),
                    target == fill_target(b0, *block_ids, fluid_id, corner, fill@),
                    target_inside(b0, target, corner, 0, 0),
                    walked(b0, buffer@, target, corner, 0, dx as int, dz as int, dy as int),
            {
                let ghost q = buffer@;
                let place = corner.offset(dx as i32, dy as i32, dz as i32);
                if fill.get(dx, dz, dy) {
                    let id = if dy >= 4 {
                        block_ids.air
                    } else {
                        fluid_id
                    };
                    crate::level::generator::shared::quad_chunk_buffer::write(buffer, place.x, place.y, place.z, id);
                    proof {
                        lemma_changed_only_to_write(b0, q, buffer@, ids, place.x as int, place.y as int, place.z as int, id);
                        lemma_known_after_write_all(q, place.x as int, place.y as int, place.z as int, id);
                    }
                }
                proof {
                    lemma_walk_step(b0, q, buffer@, target, corner, 0, dx as int, dz as int, dy as int);
                }
            }
            proof {
                lemma_walk_next_z(b0, buffer@, target, corner, 0, 0, dx as int, dz as int);
            }
        }
        proof {
            lemma_walk_next_x(b0, buffer@, target, corner, 0, 0, dx as int);
        }
    }
    proof {
        lemma_walk_done(b0, buffer@, target, corner, 0, 0);
    }
}

/// Position `(x, y, z)` is right below a filled cell of the lake's upper half.
pub open spec fn rim_cell(corner: BlockPos, shape: Seq<bool>, x: int, y: int, z: int) -> bool {
    let dy = y + 1 - corner.y;
    dy >= 4 && filled(shape, x - corner.x, z - corner.z, dy)
}

/// The block at `(x, y, z)` after the rim turns to grass: dirt right below a filled cell
/// of the upper half, where the quad holds it, becomes grass.
pub open spec fn rim_block(q: QuadView, ids: BlockIds, corner: BlockPos, shape: Seq<bool>, x: int, y: int, z: int) -> Option<i32> {
    if rim_cell(corner, shape, x, y, z) && quad_holds(q, x, y, z) && known_block(q, x, y, z) == Some(ids.dirt) {
        Some(ids.grass)
    } else {
        known_block(q, x, y, z)
    }
}

/// `rim_block` as a function of the position.
pub open spec fn rim_target(q: QuadView, ids: BlockIds, corner: BlockPos, shape: Seq<bool>) -> spec_fn(int, int, int) -> Option<i32> {
    |x: int, y: int, z: int| rim_block(q, ids, corner, shape, x, y, z)
}

/// Turns dirt right below the lake's open upper half into grass.
fn grass_lake_rim<G: TerrainSource>(generator: &G, buffer: &mut QuadChunkBuffer, block_ids: &BlockIds, fluid_id: i32, corner: BlockPos, fill: &LakeShape)
    requires
        well_inside(corner, 32),
    ensures
        changed_only_to(old(buffer)@, final(buffer)@, lake_ids(*block_ids, fluid_id)),
        forall|x: int, y: int, z: int|
            #[trigger] known_block(final(buffer)@, x, y, z) == rim_block(old(buffer)@, *block_ids, corner, fill@, x, y, z),
{
    let ghost b0 = buffer@;
    let ghost ids = lake_ids(*block_ids, fluid_id);
    let ghost target = rim_target(b0, *block_ids, corner, fill@);
    proof {
        buffer.lemma_wf();
        lemma_changed_only_to_refl(b0, ids);
        lemma_walk_start(b0, target, corner, 1, 4);
    }
    for dx in 0..16usize
        invariant
            well_inside(corner, 32),
            quad_wf(b0),
            quad_wf(buffer@),
            ids == lake_ids(*block_ids, fluid_id),
            changed_only_to(b0, buffer@, ids),
            target == rim_target(b0, *block_ids, corner, fill@),
            target_inside(b0, target, corner, 1, 4),
            walked(b0, buffer@, target, corner, 1, dx as int, 0, 4),
    {
        for dz in 0..16usize
            invariant
                well_inside(corner, 32),
                dx < 16,
                quad_wf(b0),
                quad_wf(buffer@),
                ids == lake_ids(*block_ids, fluid_id),
                changed_only_to(b0, buffer@, ids),
                target == rim_target(b0, *block_ids, corner, fill@),
                target_inside(b0, target, corner, 1, 4),
                walked(b0, buffer@, target, corner, 1, dx as int, dz as int, 4),
        {
            for dy in 4..8usize
                invariant
                    well_inside(corner, 32),
                    dx < 16,
                    dz < 16,
                    quad_wf(b0),
                    quad_wf(buffer@),
                    ids == lake_ids(*block_ids, fluid_id),
                    changed_only_to(b0, buffer@, ids),
                    target == rim_target(b0, *block_ids, corner, fill@),
                    target_inside(b0, target, corner, 1, 4),
                    walked(b0, buffer@, target, corner, 1, dx as int, dz as int, dy as int),
            {
                let ghost q = buffer@;
                let below = corner.offset(dx as i32, dy as i32 - 1, dz as i32);
                if fill.get(dx, dz, dy) {
                    if read(generator, buffer, below.x, below.y, below.z) == block_ids.dirt {
                        crate::level::generator::shared::quad_chunk_buffer::write(buffer, below.x, below.y, below.z, block_ids.grass);
                        proof {
                            lemma_changed_only_to_write(b0, q, buffer@, ids, below.x as int, below.y as int, below.z as int, block_ids.grass);
                            lemma_known_after_write_all(q, below.x as int, below.y as int, below.z as int, block_ids.grass);
                        }
                    }
                }
                proof {
                    assert(known_block(q, below.x as int, below.y as int, below.z as int) == known_block(b0, below.x as int, below.y as int, below.z as int));
                    lemma_walk_step(b0, q, buffer@, target, corner, 1, dx as int, dz as int, dy as int);
                }
            }
            proof {
                lemma_walk_next_z(b0, buffer@, target, corner, 1, 4, dx as int, dz as int);
            }
        }
        proof {
            lemma_walk_next_x(b0, buffer@, target, corner, 1, 4, dx as int);
        }
    }
    proof {
        lemma_walk_done(b0, buffer@, target, corner, 1, 4);
    }
}

/// Whether cell `(dx, dz, dy)` of the lake box is an edge in its upper half, where the
/// walls of a lava lake draw.
pub open spec fn upper_edge(shape: Seq<bool>, dx: int, dz: int, dy: int) -> bool {
    dy >= 4 && lake_edge(shape, dx, dz, dy)
}

/// The number of upper edge cells before cell `(i, j, k)` in the walk.
pub open spec fn upper_edges_before(shape: Seq<bool>, i: int, j: int, k: int) -> nat
    decreases i, j, k,
{
    if i <= 0 && j <= 0 && k <= 0 {
        0
    } else if k > 0 {
        upper_edges_before(shape, i, j, k - 1) + if upper_edge(shape, i, j, k - 1) { 1nat } else { 0nat }
    } else if j > 0 {
        upper_edges_before(shape, i, j - 1, 8)
    } else {
        upper_edges_before(shape, i - 1, 16, 0)
    }
}

/// Whether a lava lake's wall goes at `(x, y, z)` of the box at `corner`, its draws made
/// from state `s`: an edge cell of the box, in the lower half, or in the upper half where
/// its draw (bound 2, one for each upper edge cell in the walk's order) is not 0.
pub open spec fn wall_cell(shape: Seq<bool>, corner: BlockPos, s: int, x: int, y: int, z: int) -> bool {
    let dx = x - corner.x;
    let dz = z - corner.z;
    let dy = y - corner.y;
    &&& in_lake_box(dx, dz, dy)
    &&& lake_edge(shape, dx, dz, dy)
    &&& (dy < 4 || i32_draw(draws_after(s, repeated(seq![2], upper_edges_before(shape, dx, dz, dy))), Some(2)).1 != 0)
}

/// The block at `(x, y, z)` after a lava lake's wall is built in `q`: stone where the
/// wall goes and `q` holds something solid, as before everywhere else.
pub open spec fn wall_block(q: QuadView, ids: BlockIds, corner: BlockPos, shape: Seq<bool>, s: int, x: int, y: int, z: int) -> Option<i32> {
    if wall_cell(shape, corner, s, x, y, z) && quad_holds(q, x, y, z) && lake_solid(ids, quad_block(q, x, y, z)) {
        Some(ids.stone)
    } else {
        known_block(q, x, y, z)
    }
}

/// `wall_block`, for the cells of the walk before `(i, j, k)`; no other cell changed.
pub open spec fn wall_built_upto(old: QuadView, new: QuadView, ids: BlockIds, corner: BlockPos, shape: Seq<bool>, s: int, i: int, j: int, k: int) -> bool {
    forall|x: int, y: int, z: int|
        #[trigger] known_block(new, x, y, z) == if walk_cell_before(corner, 0, x, y, z, i, j, k) {
            wall_block(old, ids, corner, shape, s, x, y, z)
        } else {
            known_block(old, x, y, z)
        }
}

/// Walls a lava lake in stone: solid edge cells of the lower half, and of the upper
/// half where a draw with bound 2 is not 0, become stone. Each upper edge cell draws.
fn wall_lava_lake<G: TerrainSource>(generator: &G, buffer: &mut QuadChunkBuffer, block_ids: &BlockIds, fluid_id: i32, corner: BlockPos, fill: &LakeShape, rand: &mut JavaRand)
    requires
        well_inside(corner, 32),
    ensures
        changed_only_to(old(buffer)@, final(buffer)@, lake_ids(*block_ids, fluid_id)),
        final(rand)@ == draws_after(old(rand)@, repeated(seq![2], upper_edges_before(fill@, 16, 0, 0))),
        forall|x: int, y: int, z: int|
            #[trigger] known_block(final(buffer)@, x, y, z) == wall_block(old(buffer)@, *block_ids, corner, fill@, old(rand)@, x, y, z),
{
    let ghost b0 = buffer@;
    let ghost s0 = rand@;
    let ghost ids = lake_ids(*block_ids, fluid_id);
    proof {
        buffer.lemma_wf();
        lemma_changed_only_to_refl(b0, ids);
    }
    for dx in 0..16usize
        invariant
            well_inside(corner, 32),
            quad_wf(b0),
            quad_wf(buffer@),
            ids == lake_ids(*block_ids, fluid_id),
            changed_only_to(b0, buffer@, ids),
            wall_built_upto(b0, buffer@, *block_ids, corner, fill@, s0, dx as int, 0, 0),
            rand@ == draws_after(s0, repeated(seq![2], upper_edges_before(fill@, dx as int, 0, 0))),
    {
        for dz in 0..16usize
            invariant
                well_inside(corner, 32),
                dx < 16,
                quad_wf(b0),
                quad_wf(buffer@),
                ids == lake_ids(*block_ids, fluid_id),
                changed_only_to(b0, buffer@, ids),
                wall_built_upto(b0, buffer@, *block_ids, corner, fill@, s0, dx as int, dz as int, 0),
                rand@ == draws_after(s0, repeated(seq![2], upper_edges_before(fill@, dx as int, dz as int, 0))),
        {
            for dy in 0..8usize
                invariant
                    well_inside(corner, 32),
                    dx < 16,
                    dz < 16,
                    quad_wf(b0),
                    quad_wf(buffer@),
                    ids == lake_ids(*block_ids, fluid_id),
                    changed_only_to(b0, buffer@, ids),
                    wall_built_upto(b0, buffer@, *block_ids, corner, fill@, s0, dx as int, dz as int, dy as int),
                    rand@ == draws_after(s0, repeated(seq![2], upper_edges_before(fill@, dx as int, dz as int, dy as int))),
            {
                let ghost q = buffer@;
                let ghost sq = rand@;
                let ghost n = upper_edges_before(fill@, dx as int, dz as int, dy as int);
                let edge = is_edge(fill, dx, dz, dy);
                proof {
                    lemma_draws_after_concat(s0, repeated(seq![2], n), seq![2]);
                    assert(repeated(seq![2], n + 1) == repeated(seq![2], n) + seq![2]);
                    assert(draws_after(rand@, seq![2]) == i32_draw(rand@, Some(2)).0) by {
                        lemma_draws_after_push(rand@, Seq::empty(), 2);
                        assert(Seq::<int>::empty().push(2) =~= seq![2]);
                    }
                }
                if edge && (dy < 4 || rand.random_with::<i32>(Bound::new(2)) != 0) {
                    let place = corner.offset(dx as i32, dy as i32, dz as i32);
                    let id = read(generator, buffer, place.x, place.y, place.z);
                    if is_solid(block_ids, id) {
                        crate::level::generator::shared::quad_chunk_buffer::write(buffer, place.x, place.y, place.z, block_ids.stone);
                        proof {
                            lemma_changed_only_to_write(b0, q, buffer@, ids, place.x as int, place.y as int, place.z as int, block_ids.stone);
                            lemma_known_after_write_all(q, place.x as int, place.y as int, place.z as int, block_ids.stone);
                        }
                    }
                }
                proof {
                    let px = corner.x + dx;
                    let py = corner.y + dy;
                    let pz = corner.z + dz;
                    assert(known_block(q, px, py, pz) == known_block(b0, px, py, pz));
                    assert forall|x: int, y: int, z: int|
                        #[trigger] known_block(buffer@, x, y, z) == if walk_cell_before(corner, 0, x, y, z, dx as int, dz as int, dy + 1) {
                            wall_block(b0, *block_ids, corner, fill@, s0, x, y, z)
                        } else {
                            known_block(b0, x, y, z)
                        } by {
                        if x == px && y == py && z == pz {
                            assert(wall_cell(fill@, corner, s0, x, y, z) == (edge && (dy < 4 || i32_draw(sq, Some(2)).1 != 0)));
                            if quad_holds(b0, x, y, z) {
                                assert(known_block(b0, x, y, z) == Some(quad_block(b0, x, y, z)));
                                assert(quad_holds(q, x, y, z));
                                assert(known_block(q, x, y, z) == Some(quad_block(q, x, y, z)));
                            }
                        } else {
                            assert(known_block(buffer@, x, y, z) == known_block(q, x, y, z));
                        }
                    }
                }
            }
            proof {
                lemma_wall_built_carry(b0, buffer@, *block_ids, corner, fill@, s0, dx as int, dz as int, 8, dx as int, dz + 1, 0);
            }
        }
        proof {
            lemma_wall_built_carry(b0, buffer@, *block_ids, corner, fill@, s0, dx as int, 16, 0, dx + 1, 0, 0);
        }
    }
    proof {
        assert forall|x: int, y: int, z: int|
            #[trigger] known_block(buffer@, x, y, z) == wall_block(b0, *block_ids, corner, fill@, s0, x, y, z) by {
            if !walk_cell_before(corner, 0, x, y, z, 16, 0, 0) {
                assert(!in_lake_box(x - corner.x, z - corner.z, y - corner.y));
            }
        }
    }
}

/// Carrying `wall_built_upto` from `(i, j, k)` to `(i2, j2, k2)`, where the cells in
/// between lie outside the box.
proof fn lemma_wall_built_carry(
    old: QuadView,
    new: QuadView,
    ids: BlockIds,
    corner: BlockPos,
    shape: Seq<bool>,
    s: int,
    i: int,
    j: int,
    k: int,
    i2: int,
    j2: int,
    k2: int,
)
    requires
        wall_built_upto(old, new, ids, corner, shape, s, i, j, k),
        forall|a: int, b: int, c: int| cell_before(a, b, c, i, j, k) ==> cell_before(a, b, c, i2, j2, k2),
        forall|a: int, b: int, c: int| cell_before(a, b, c, i2, j2, k2) && !cell_before(a, b, c, i, j, k) ==> !in_lake_box(a, b, c),
    ensures
        wall_built_upto(old, new, ids, corner, shape, s, i2, j2, k2),
{
    assert forall|x: int, y: int, z: int|
        #[trigger] known_block(new, x, y, z) == if walk_cell_before(corner, 0, x, y, z, i2, j2, k2) {
            wall_block(old, ids, corner, shape, s, x, y, z)
        } else {
            known_block(old, x, y, z)
        } by {
        if walk_cell_before(corner, 0, x, y, z, i2, j2, k2) && !walk_cell_before(corner, 0, x, y, z, i, j, k) {
            assert(!in_lake_box(x - corner.x, z - corner.z, y - corner.y));
        }
    }
}

/// The block at `(x, y, z)` after a lake's cells are filled and its rim turned to grass.
pub open spec fn lake_block(q: QuadView, ids: BlockIds, fluid_id: i32, corner: BlockPos, shape: Seq<bool>, x: int, y: int, z: int) -> Option<i32> {
    let f = filled_block(q, ids, fluid_id, corner, shape, x, y, z);
    if rim_cell(corner, shape, x, y, z) && quad_holds(q, x, y, z) && f == Some(ids.dirt) {
        Some(ids.grass)
    } else {
        f
    }
}

/// The block at `(x, y, z)` after a still-lava lake is placed in `q`, its wall's draws
/// made from state `s`: `lake_block`, but stone where the wall goes over something solid.
pub open spec fn lava_lake_block(q: QuadView, ids: BlockIds, corner: BlockPos, shape: Seq<bool>, s: int, x: int, y: int, z: int) -> Option<i32> {
    let before = lake_block(q, ids, ids.lava_still, corner, shape, x, y, z);
    if wall_cell(shape, corner, s, x, y, z) && quad_holds(q, x, y, z) && (before matches Some(v) && lake_solid(ids, v)) {
        Some(ids.stone)
    } else {
        before
    }
}

/// The block a held position of `q` reads after a lake: `o`'s block (`-1` for none).
pub open spec fn block_or_none(o: Option<i32>) -> i32 {
    match o {
        Some(v) => v,
        None => -1i32,
    }
}

/// The quad and state a lake of `fluid_id` in the box at `corner` with the filled cells
/// of `shape` leaves, from quad `q` and state `s`, as `read` shows the world: unchanged
/// where it does not fit (`lake_fits_world`); otherwise `lake_block`, or for still lava
/// `lava_lake_block` after one draw per upper edge cell.
pub open spec fn lake_result<G: TerrainSource>(
    generator: &G,
    q: QuadView,
    s: int,
    ids: BlockIds,
    fluid_id: i32,
    corner: BlockPos,
    shape: Seq<bool>,
) -> (QuadView, int) {
    if !lake_fits_world(generator, q, ids, fluid_id, corner, shape) {
        (q, s)
    } else if fluid_id == ids.lava_still {
        (
            quad_rebuilt(q, |x: int, y: int, z: int| block_or_none(lava_lake_block(q, ids, corner, shape, s, x, y, z))),
            draws_after(s, repeated(seq![2], upper_edges_before(shape, 16, 0, 0))),
        )
    } else {
        (quad_rebuilt(q, |x: int, y: int, z: int| block_or_none(lake_block(q, ids, fluid_id, corner, shape, x, y, z))), s)
    }
}

/// A lake of `fluid_id` (water or still lava) in the box at `corner` with the filled
/// cells of `fill`. Where an edge cell rules the lake out (`lake_fits`), nothing is
/// placed or drawn and the result is `false`. Otherwise the filled cells become air or
/// fluid and the dirt under the open upper half turns to grass (`lake_block`); a
/// still-lava lake then gets stone walls, drawing once for each upper edge cell
/// (`lava_lake_block`).
pub fn place_lake<G: TerrainSource>(
    generator: &G,
    buffer: &mut QuadChunkBuffer,
    block_ids: &BlockIds,
    fluid_id: i32,
    corner: BlockPos,
    fill: &LakeShape,
    rand: &mut JavaRand,
) -> (r: bool)
    requires
        well_inside(corner, 32),
    ensures
        r == lake_fits_world(generator, old(buffer)@, *block_ids, fluid_id, corner, fill@),
        (final(buffer)@, final(rand)@) == lake_result(generator, old(buffer)@, old(rand)@, *block_ids, fluid_id, corner, fill@),
        changed_only_to(old(buffer)@, final(buffer)@, lake_ids(*block_ids, fluid_id)),
        r ==> lake_fits(old(buffer)@, *block_ids, fluid_id, corner, fill@),
        lake_site_known(old(buffer)@, corner, fill@) && lake_fits(old(buffer)@, *block_ids, fluid_id, corner, fill@) ==> r,
        !r ==> final(buffer)@ == old(buffer)@ && final(rand)@ == old(rand)@,
        r && fluid_id != block_ids.lava_still ==> final(rand)@ == old(rand)@ && forall|x: int, y: int, z: int|
            #[trigger] known_block(final(buffer)@, x, y, z) == lake_block(old(buffer)@, *block_ids, fluid_id, corner, fill@, x, y, z),
        r && fluid_id == block_ids.lava_still ==> final(rand)@ == draws_after(old(rand)@, repeated(seq![2], upper_edges_before(fill@, 16, 0, 0)))
            && forall|x: int, y: int, z: int|
            #[trigger] known_block(final(buffer)@, x, y, z) == lava_lake_block(old(buffer)@, *block_ids, corner, fill@, old(rand)@, x, y, z),
{
    let ghost ids = lake_ids(*block_ids, fluid_id);
    let ghost b0 = buffer@;
    proof {
        buffer.lemma_wf();
    }
    if !lake_site_ok(generator, buffer, block_ids, fluid_id, corner, fill) {
        return false;
    }
    fill_lake(buffer, block_ids, fluid_id, corner, fill);
    let ghost b1 = buffer@;
    grass_lake_rim(generator, buffer, block_ids, fluid_id, corner, fill);
    let ghost b2 = buffer@;
    proof {
        lemma_changed_only_to_trans(b0, b1, b2, ids);
        assert forall|x: int, y: int, z: int|
            #[trigger] known_block(b2, x, y, z) == lake_block(b0, *block_ids, fluid_id, corner, fill@, x, y, z) by {
            assert(known_block(b2, x, y, z) == rim_block(b1, *block_ids, corner, fill@, x, y, z));
            assert(known_block(b1, x, y, z) == filled_block(b0, *block_ids, fluid_id, corner, fill@, x, y, z));
        }
    }
    if fluid_id == block_ids.lava_still {
        let ghost s0 = rand@;
        wall_lava_lake(generator, buffer, block_ids, fluid_id, corner, fill, rand);
        proof {
            lemma_changed_only_to_trans(b0, b2, buffer@, ids);
            assert forall|x: int, y: int, z: int|
                #[trigger] known_block(buffer@, x, y, z) == lava_lake_block(b0, *block_ids, corner, fill@, s0, x, y, z) by {
                assert(known_block(b2, x, y, z) == lake_block(b0, *block_ids, fluid_id, corner, fill@, x, y, z));
                assert(known_block(buffer@, x, y, z) == wall_block(b2, *block_ids, corner, fill@, s0, x, y, z));
                if quad_holds(b0, x, y, z) {
                    assert(quad_holds(b2, x, y, z));
                    assert(known_block(b2, x, y, z) == Some(quad_block(b2, x, y, z)));
                }
            }
            let f = |x: int, y: int, z: int| block_or_none(lava_lake_block(b0, *block_ids, corner, fill@, s0, x, y, z));
            lemma_quad_rebuilt(b0, f);
            buffer.lemma_wf();
            assert forall|x: int, y: int, z: int| #[trigger] known_block(buffer@, x, y, z) == known_block(quad_rebuilt(b0, f), x, y, z) by {
                assert(known_block(buffer@, x, y, z) == lava_lake_block(b0, *block_ids, corner, fill@, s0, x, y, z));
            }
            lemma_quad_ext(buffer@, quad_rebuilt(b0, f));
        }
    } else {
        proof {
            let f = |x: int, y: int, z: int| block_or_none(lake_block(b0, *block_ids, fluid_id, corner, fill@, x, y, z));
            lemma_quad_rebuilt(b0, f);
            buffer.lemma_wf();
            assert forall|x: int, y: int, z: int| #[trigger] known_block(buffer@, x, y, z) == known_block(quad_rebuilt(b0, f), x, y, z) by {
                assert(known_block(buffer@, x, y, z) == lake_block(b0, *block_ids, fluid_id, corner, fill@, x, y, z));
            }
            lemma_quad_ext(buffer@, quad_rebuilt(b0, f));
        }
    }
    true
}

} // verus!
