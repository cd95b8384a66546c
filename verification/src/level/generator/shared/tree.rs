//! Trees: the integer tree shapes of Beta 1.7.3 (plain oak and birch, both kinds of
//! spruce), the ground search they start from, and the test for leaves.
use super::block_ids::BlockIds;
use super::outcome::{Outcome, and_then, reached, repeat};
use super::quad_chunk_buffer::{
    QuadChunkBuffer, QuadView, changed_only_to, known_block, lemma_changed_only_to_refl, lemma_changed_only_to_trans,
    lemma_changed_only_to_widen, lemma_changed_only_to_write, lemma_known_after_write_all, lemma_quad_ext, lemma_quad_rebuilt,
    chunk_of, covers_around, lemma_covers_around, lemma_owner_covers, quad_block, quad_covers, quad_holds, quad_rebuilt,
    quad_wf, read, world_block,
};
use super::{BlockPos, ClimateSource, TerrainSource, owner_in_range, well_inside};
use crate::level::generator::overworld::biome::Biome;
use crate::rand::java::{JavaRand, JavaRandType};
use crate::rand::primitives::{
    Bound, double_bits, double_bits_draw, draws_after, i32_draw, lemma_draw_range, lemma_draws_after_concat, lemma_draws_after_push,
    lemma_repeated_add, repeated,
};
use vstd::prelude::*;

verus! {

/// Leaves of any kind of tree.
pub open spec fn leaves(ids: BlockIds, id: i32) -> bool {
    id == ids.oak_leaves || id == ids.birch_leaves || id == ids.spruce_leaves
}

pub fn is_leaves(block_ids: &BlockIds, id: i32) -> (r: bool)
    ensures
        r == leaves(*block_ids, id),
{
    id == block_ids.oak_leaves || id == block_ids.birch_leaves || id == block_ids.spruce_leaves
}

/// The surface height of a column: one above the first non-air block scanning down
/// from the top of the world, or 0 if the column is all air.
/// One above the highest block below layer `y` of column `(x, z)` of the quad that is not
/// air, or 0 where there is none.
pub open spec fn surface_below(q: QuadView, ids: BlockIds, x: int, z: int, y: int) -> int
    decreases y,
{
    if y <= 0 {
        0
    } else if quad_block(q, x, y - 1, z) != ids.air {
        y
    } else {
        surface_below(q, ids, x, z, y - 1)
    }
}

/// One above the highest block below layer `y` of column `(x, z)` that `read` gives as
/// not air, or 0 where there is none.
pub open spec fn world_surface_below<G: TerrainSource>(generator: &G, q: QuadView, ids: BlockIds, x: int, z: int, y: int) -> int
    decreases y,
{
    if y <= 0 {
        0
    } else if world_block(generator, q, x, y - 1, z) != ids.air {
        y
    } else {
        world_surface_below(generator, q, ids, x, z, y - 1)
    }
}

pub fn surface_height<G: TerrainSource>(generator: &G, buffer: &QuadChunkBuffer, block_ids: &BlockIds, wx: i32, wz: i32) -> (r: i32)
    ensures
        r == world_surface_below(generator, buffer@, *block_ids, wx as int, wz as int, 128),
        0 <= r <= 128,
        forall|y: int| r <= y < 128 ==> (#[trigger] known_block(buffer@, wx as int, y, wz as int) matches Some(v) ==> v == block_ids.air),
        r > 0 ==> (known_block(buffer@, wx as int, r - 1, wz as int) matches Some(v) ==> v != block_ids.air),
        quad_covers(buffer@, chunk_of(wx as int), chunk_of(wz as int)) ==> r == surface_below(buffer@, *block_ids, wx as int, wz as int, 128),
{
    let air = block_ids.air;
    let mut wy: i32 = 128;
    while wy > 0
        invariant
            0 <= wy <= 128,
            air == block_ids.air,
            forall|y: int| wy <= y < 128 ==> (#[trigger] known_block(buffer@, wx as int, y, wz as int) matches Some(v) ==> v == block_ids.air),
            quad_covers(buffer@, chunk_of(wx as int), chunk_of(wz as int)) ==> surface_below(buffer@, *block_ids, wx as int, wz as int, 128)
                == surface_below(buffer@, *block_ids, wx as int, wz as int, wy as int),
            world_surface_below(generator, buffer@, *block_ids, wx as int, wz as int, 128) == world_surface_below(
                generator,
                buffer@,
                *block_ids,
                wx as int,
                wz as int,
                wy as int,
            ),
        decreases wy,
    {
        wy -= 1;
        if read(generator, buffer, wx, wy, wz) != air {
            return wy + 1;
        }
    }
    0
}

/// How far from the trunk a growing tree needs clear space at each layer.
#[derive(Clone, Copy, Debug, PartialEq, Eq, Structural)]
pub enum ClearanceRule {
    /// A plain tree of height `height` rooted at layer `base_y`: nothing beside the
    /// trunk at the root layer, two blocks from two layers below the top up, one block
    /// in between.
    Plain { base_y: i32, height: i32 },
    /// A spruce: nothing beside the trunk below `leaves_y`, `max_radius` blocks from there
    /// up.
    Spruce { leaves_y: i32, max_radius: i32 },
}

/// The clearance radius `rule` asks for at layer `y`.
pub open spec fn clearance(rule: ClearanceRule, y: int) -> int {
    match rule {
        ClearanceRule::Plain { base_y, height } => if y == base_y {
            0
        } else if y >= base_y + height - 1 {
            2
        } else {
            1
        },
        ClearanceRule::Spruce { leaves_y, max_radius } => if y < leaves_y {
            0
        } else {
            max_radius as int
        },
    }
}

/// A clearance rule with radii between 0 and 8.
pub open spec fn clearance_ok(rule: ClearanceRule) -> bool {
    match rule {
        ClearanceRule::Plain { .. } => true,
        ClearanceRule::Spruce { max_radius, .. } => 0 <= max_radius <= 8,
    }
}

fn clearance_at(rule: ClearanceRule, y: i32) -> (r: i32)
    requires
        clearance_ok(rule),
    ensures
        r == clearance(rule, y as int),
        0 <= r <= 8,
{
    match rule {
        ClearanceRule::Plain { base_y, height } => {
            if y as i64 == base_y as i64 {
                0
            } else if y as i64 >= base_y as i64 + height as i64 - 1 {
                2
            } else {
                1
            }
        },
        ClearanceRule::Spruce { leaves_y, max_radius } => {
            if y < leaves_y {
                0
            } else {
                max_radius
            }
        },
    }
}

/// A block a tree may grow into: air or leaves.
pub open spec fn tree_space(ids: BlockIds, id: i32) -> bool {
    id == ids.air || leaves(ids, id)
}

/// `(wx, wy, wz)` lies within the clearance `rule` asks for around a trunk of height
/// `height` at `pos`, from `pos` up to one layer above the top.
pub open spec fn in_clearance(pos: BlockPos, height: int, rule: ClearanceRule, wx: int, wy: int, wz: int) -> bool {
    &&& pos.y <= wy <= pos.y + height + 1
    &&& pos.x - clearance(rule, wy) <= wx <= pos.x + clearance(rule, wy)
    &&& pos.z - clearance(rule, wy) <= wz <= pos.z + clearance(rule, wy)
}

/// A tree of height `height` fits at `pos` as far as the quad shows: it fits in the world
/// with a layer to spare, stands on grass or dirt, and every block within its clearance
/// is air or leaves.
pub open spec fn tree_fits(q: QuadView, ids: BlockIds, pos: BlockPos, height: int, rule: ClearanceRule) -> bool {
    &&& 1 <= pos.y && pos.y + height + 1 < 128
    &&& (known_block(q, pos.x as int, pos.y - 1, pos.z as int) matches Some(v) ==> v == ids.grass || v == ids.dirt)
    &&& forall|wx: int, wy: int, wz: int|
        in_clearance(pos, height, rule, wx, wy, wz) ==> (#[trigger] known_block(q, wx, wy, wz) matches Some(v)
            ==> tree_space(ids, v))
}

/// The quad alone determines every block the tree check reads.
pub open spec fn tree_site_known(q: QuadView, pos: BlockPos, height: int, rule: ClearanceRule) -> bool {
    &&& known_block(q, pos.x as int, pos.y - 1, pos.z as int) is Some
    &&& forall|wx: int, wy: int, wz: int|
        in_clearance(pos, height, rule, wx, wy, wz) ==> (#[trigger] known_block(q, wx, wy, wz)) is Some
}

/// A quad covering the columns within 8 of `pos` determines every block a tree check
/// there reads, for a clearance of at most 8.
pub proof fn lemma_tree_site_covered(q: QuadView, pos: BlockPos, height: int, rule: ClearanceRule)
    requires
        covers_around(q, pos, 8),
        rule matches ClearanceRule::Spruce { max_radius, .. } ==> max_radius <= 8,
    ensures
        tree_site_known(q, pos, height, rule),
{
    lemma_covers_around(q, pos, 8, pos.x as int, pos.z as int);
    assert forall|wx: int, wy: int, wz: int|
        in_clearance(pos, height, rule, wx, wy, wz) implies (#[trigger] known_block(q, wx, wy, wz)) is Some by {
        assert(clearance(rule, wy) <= 8);
        lemma_covers_around(q, pos, 8, wx, wz);
    }
}

/// A tree of height `height` fits at `pos` as `read` shows the world: it fits with a
/// layer to spare, stands on grass or dirt, and every block within its clearance is air
/// or leaves.
pub open spec fn tree_fits_world<G: TerrainSource>(
    generator: &G,
    q: QuadView,
    ids: BlockIds,
    pos: BlockPos,
    height: int,
    rule: ClearanceRule,
) -> bool {
    &&& 1 <= pos.y && pos.y + height + 1 < 128
    &&& (world_block(generator, q, pos.x as int, pos.y - 1, pos.z as int) == ids.grass || world_block(
        generator,
        q,
        pos.x as int,
        pos.y - 1,
        pos.z as int,
    ) == ids.dirt)
    &&& forall|wx: int, wy: int, wz: int|
        in_clearance(pos, height, rule, wx, wy, wz) ==> tree_space(ids, #[trigger] world_block(generator, q, wx, wy, wz))
}

/// Whether a tree of height `height` can grow at `pos`: it fits in the world with a
/// layer to spare, stands on grass or dirt, and every block within the clearance radius
/// of the trunk, from `pos` up to one layer above the top, is air or leaves
/// (`tree_fits_world`). Where the quad holds every block read, the answer is exactly
/// `tree_fits`.
pub fn check_tree<G: TerrainSource>(
    generator: &G,
    buffer: &QuadChunkBuffer,
    block_ids: &BlockIds,
    pos: BlockPos,
    height: i32,
    rule: ClearanceRule,
) -> (r: bool)
    requires
        well_inside(pos, 16),
        0 <= height,
        clearance_ok(rule),
    ensures
        r == tree_fits_world(generator, buffer@, *block_ids, pos, height as int, rule),
        r ==> tree_fits(buffer@, *block_ids, pos, height as int, rule),
        tree_site_known(buffer@, pos, height as int, rule) && tree_fits(buffer@, *block_ids, pos, height as int, rule)
            ==> r,
{
    if pos.y < 1 || pos.y as i64 + height as i64 + 1 >= 128 {
        return false;
    }
    let max_y = pos.y + height + 1;
    let below = read(generator, buffer, pos.x, pos.y - 1, pos.z);
    if below != block_ids.grass && below != block_ids.dirt {
        return false;
    }
    let mut wy = pos.y;
    while wy <= max_y
        invariant
            well_inside(pos, 16),
            clearance_ok(rule),
            1 <= pos.y <= wy <= max_y + 1,
            max_y == pos.y + height + 1,
            max_y < 128,
            below == block_ids.grass || below == block_ids.dirt,
            world_block(generator, buffer@, pos.x as int, pos.y - 1, pos.z as int) == below,
            forall|x: int, y: int, z: int|
                y < wy && in_clearance(pos, height as int, rule, x, y, z) ==> tree_space(
                    *block_ids,
                    #[trigger] world_block(generator, buffer@, x, y, z),
                ),
        decreases max_y + 1 - wy,
    {
        let radius = clearance_at(rule, wy);
        let mut wx = pos.x - radius;
        while wx <= pos.x + radius
            invariant
                well_inside(pos, 16),
                clearance_ok(rule),
                1 <= pos.y <= wy <= max_y,
                max_y == pos.y + height + 1,
                max_y < 128,
                radius == clearance(rule, wy as int),
                0 <= radius <= 8,
                pos.x - radius <= wx <= pos.x + radius + 1,
                forall|x: int, y: int, z: int|
                    y < wy && in_clearance(pos, height as int, rule, x, y, z) ==> tree_space(
                        *block_ids,
                        #[trigger] world_block(generator, buffer@, x, y, z),
                    ),
                forall|x: int, z: int|
                    pos.x - radius <= x < wx && pos.z - radius <= z <= pos.z + radius ==> tree_space(
                        *block_ids,
                        #[trigger] world_block(generator, buffer@, x, wy as int, z),
                    ),
            decreases pos.x + radius + 1 - wx,
        {
            let mut wz = pos.z - radius;
            while wz <= pos.z + radius
                invariant
                    well_inside(pos, 16),
                    clearance_ok(rule),
                    1 <= pos.y <= wy <= max_y,
                    max_y == pos.y + height + 1,
                    max_y < 128,
                    radius == clearance(rule, wy as int),
                    0 <= radius <= 8,
                    pos.x - radius <= wx <= pos.x + radius,
                    pos.z - radius <= wz <= pos.z + radius + 1,
                    forall|z: int| pos.z - radius <= z < wz ==> tree_space(
                        *block_ids,
                        #[trigger] world_block(generator, buffer@, wx as int, wy as int, z),
                    ),
                decreases pos.z + radius + 1 - wz,
            {
                let id = read(generator, buffer, wx, wy, wz);
                if !(id == block_ids.air || is_leaves(block_ids, id)) {
                    proof {
                        assert(in_clearance(pos, height as int, rule, wx as int, wy as int, wz as int));
                        if tree_site_known(buffer@, pos, height as int, rule) {
                            assert(known_block(buffer@, wx as int, wy as int, wz as int) is Some);
                        }
                    }
                    return false;
                }
                wz += 1;
            }
            wx += 1;
        }
        wy += 1;
    }
    proof {
        assert forall|x: int, y: int, z: int|
            in_clearance(pos, height as int, rule, x, y, z) implies (#[trigger] known_block(buffer@, x, y, z) matches Some(v)
                ==> tree_space(*block_ids, v)) by {
            assert(tree_space(*block_ids, world_block(generator, buffer@, x, y, z)));
        }
    }
    true
}

/// `(x, z)` is a corner of the square of radius `radius` around `(cx, cz)`.
pub open spec fn leaf_corner(cx: int, cz: int, radius: int, x: int, z: int) -> bool {
    (x - cx == radius || cx - x == radius) && (z - cz == radius || cz - z == radius)
}

/// The blocks of layer `wy` in the square of radius `radius` around `(cx, cz)` that a
/// leaf layer grows into for sure: all but the corners, and with a radius of 0 and no
/// random corners the single block itself.
pub open spec fn leaf_square_sure(cx: int, cz: int, radius: int, random_corners: bool, x: int, z: int) -> bool {
    &&& cx - radius <= x <= cx + radius
    &&& cz - radius <= z <= cz + radius
    &&& !leaf_corner(cx, cz, radius, x, z) || (!random_corners && radius == 0)
}

/// `new` differs from `old` only at layer `wy`, and only by blocks turned to `id`.
pub open spec fn grown_at_layer(old: QuadView, new: QuadView, wy: int, id: i32) -> bool {
    forall|x: int, y: int, z: int|
        #[trigger] known_block(new, x, y, z) == known_block(old, x, y, z) || (y == wy && known_block(new, x, y, z) == Some(
            id,
        ))
}

/// How many corners of the square of radius `radius` (at least 1) around `(cx, cz)` come
/// before `(x, z)` in the order the square is walked: by `x`, then by `z`.
pub open spec fn corners_before(cx: int, cz: int, radius: int, x: int, z: int) -> nat {
    let in_row = (if cz - radius < z { 1nat } else { 0nat }) + (if cz + radius < z { 1nat } else { 0nat });
    let col = |c: int| if c < x { 2nat } else if c == x { in_row } else { 0nat };
    col(cx - radius) + col(cx + radius)
}

/// The draws of `n` corners, each with bound 2.
pub open spec fn corner_bounds(n: nat) -> Seq<int> {
    repeated(seq![2int], n)
}

/// Whether the leaf square of radius `radius` around `(cx, cz)` grows into `(x, z)`,
/// the corners' draws made from state `s`: every block of the square but the corners;
/// with `random_corners` a corner where its draw is not 0 and the layer is not the top
/// one; without, a corner only where the radius is 0.
pub open spec fn leaf_grows(s: int, cx: int, cz: int, radius: int, random_corners: bool, top_layer: bool, x: int, z: int) -> bool {
    &&& cx - radius <= x <= cx + radius
    &&& cz - radius <= z <= cz + radius
    &&& if !leaf_corner(cx, cz, radius, x, z) {
        true
    } else if random_corners {
        !top_layer && i32_draw(draws_after(s, corner_bounds(corners_before(cx, cz, radius, x, z))), Some(2)).1 != 0
    } else {
        radius <= 0
    }
}

/// What a position reads after a change that turns the air or leaves at each position of
/// `grows` into `id`: `id` there, as before everywhere else.
pub open spec fn grown_block(q: QuadView, ids: BlockIds, grows: bool, id: i32, x: int, y: int, z: int) -> Option<i32> {
    if grows && quad_holds(q, x, y, z) && tree_space(ids, quad_block(q, x, y, z)) {
        Some(id)
    } else {
        known_block(q, x, y, z)
    }
}

/// The block a tree grown at `pos` into quad `q` leaves at `(x, y, z)`: dirt under the
/// trunk; then, where `canopy` holds, leaves on what was air or leaves; then, where
/// `trunk` holds, log on what is by then air or leaves.
pub open spec fn tree_block(
    q: QuadView,
    ids: BlockIds,
    pos: BlockPos,
    canopy: bool,
    trunk: bool,
    log_id: i32,
    leaves_id: i32,
    x: int,
    y: int,
    z: int,
) -> Option<i32> {
    let rooted = if x == pos.x && y == pos.y - 1 && z == pos.z && quad_holds(q, x, y, z) {
        Some(ids.dirt)
    } else {
        known_block(q, x, y, z)
    };
    let leafy = if canopy && quad_holds(q, x, y, z) && tree_space(ids, quad_block(q, x, y, z)) {
        Some(leaves_id)
    } else {
        rooted
    };
    if trunk && quad_holds(q, x, y, z) && (leafy matches Some(v) && tree_space(ids, v)) {
        Some(log_id)
    } else {
        leafy
    }
}

/// The quad a tree grown at `pos` into `q` leaves, its canopy and trunk given by the
/// positions they cover: `tree_block` at every position `q` holds.
pub open spec fn tree_grown(
    q: QuadView,
    ids: BlockIds,
    pos: BlockPos,
    canopy: spec_fn(int, int, int) -> bool,
    trunk: spec_fn(int, int, int) -> bool,
    log_id: i32,
    leaves_id: i32,
) -> QuadView {
    quad_rebuilt(
        q,
        |x: int, y: int, z: int|
            match tree_block(q, ids, pos, canopy(x, y, z), trunk(x, y, z), log_id, leaves_id, x, y, z) {
                Some(v) => v,
                None => 0i32,
            },
    )
}

/// A quad that reads `tree_block` everywhere is the grown tree.
proof fn lemma_tree_grown(
    q: QuadView,
    n: QuadView,
    ids: BlockIds,
    pos: BlockPos,
    canopy: spec_fn(int, int, int) -> bool,
    trunk: spec_fn(int, int, int) -> bool,
    log_id: i32,
    leaves_id: i32,
)
    requires
        quad_wf(q),
        quad_wf(n),
        n.x == q.x,
        n.z == q.z,
        forall|x: int, y: int, z: int|
            #[trigger] known_block(n, x, y, z) == tree_block(q, ids, pos, canopy(x, y, z), trunk(x, y, z), log_id, leaves_id, x, y, z),
    ensures
        n == tree_grown(q, ids, pos, canopy, trunk, log_id, leaves_id),
{
    let f = |x: int, y: int, z: int|
        match tree_block(q, ids, pos, canopy(x, y, z), trunk(x, y, z), log_id, leaves_id, x, y, z) {
            Some(v) => v,
            None => 0i32,
        };
    let t = quad_rebuilt(q, f);
    lemma_quad_rebuilt(q, f);
    assert forall|x: int, y: int, z: int| #[trigger] known_block(n, x, y, z) == known_block(t, x, y, z) by {
        assert(known_block(n, x, y, z) == tree_block(q, ids, pos, canopy(x, y, z), trunk(x, y, z), log_id, leaves_id, x, y, z));
        if quad_holds(q, x, y, z) {
            assert(known_block(q, x, y, z) == Some(quad_block(q, x, y, z)));
        }
    }
    lemma_quad_ext(n, t);
}

/// A tree grows only into air and leaves: a block that is neither, other than the one
/// under the trunk, stays as it was.
pub proof fn lemma_tree_spares_solid(
    q: QuadView,
    ids: BlockIds,
    pos: BlockPos,
    canopy: spec_fn(int, int, int) -> bool,
    trunk: spec_fn(int, int, int) -> bool,
    log_id: i32,
    leaves_id: i32,
    x: int,
    y: int,
    z: int,
)
    requires
        quad_wf(q),
        !tree_space(ids, quad_block(q, x, y, z)),
        !(x == pos.x && y == pos.y - 1 && z == pos.z),
    ensures
        known_block(tree_grown(q, ids, pos, canopy, trunk, log_id, leaves_id), x, y, z) == known_block(q, x, y, z),
{
    let f = |x: int, y: int, z: int|
        match tree_block(q, ids, pos, canopy(x, y, z), trunk(x, y, z), log_id, leaves_id, x, y, z) {
            Some(v) => v,
            None => 0i32,
        };
    lemma_quad_rebuilt(q, f);
    if quad_holds(q, x, y, z) {
        assert(known_block(q, x, y, z) == Some(quad_block(q, x, y, z)));
    }
}

/// A square layer of leaves around `(cx, wy, cz)`: each block of the square that is air
/// or leaves becomes `leaves_id`, but for the corners. With `random_corners` a corner
/// grows when a draw with bound 2 is not 0 and the layer is not the top one; without,
/// a corner grows only when the radius is 0.
fn place_leaf_square<G: TerrainSource>(
    generator: &G,
    buffer: &mut QuadChunkBuffer,
    block_ids: &BlockIds,
    cx: i32,
    wy: i32,
    cz: i32,
    radius: i32,
    leaves_id: i32,
    random_corners: bool,
    top_layer: bool,
    rand: &mut JavaRand,
)
    requires
        well_inside(BlockPos { x: cx, y: wy, z: cz }, 16),
        0 <= radius <= 8,
        random_corners ==> radius > 0,
    ensures
        changed_only_to(old(buffer)@, final(buffer)@, set![leaves_id]),
        grown_at_layer(old(buffer)@, final(buffer)@, wy as int, leaves_id),
        forall|x: int, y: int, z: int|
            #[trigger] known_block(final(buffer)@, x, y, z) == grown_block(
                old(buffer)@,
                *block_ids,
                y == wy && leaf_grows(old(rand)@, cx as int, cz as int, radius as int, random_corners, top_layer, x, z),
                leaves_id,
                x,
                y,
                z,
            ),
        random_corners ==> final(rand)@ == draws_after(old(rand)@, corner_bounds(4)),
        forall|x: int, z: int|
            leaf_square_sure(cx as int, cz as int, radius as int, random_corners, x, z) && quad_holds(
                old(buffer)@,
                x,
                wy as int,
                z,
            ) && tree_space(*block_ids, quad_block(old(buffer)@, x, wy as int, z)) ==> #[trigger] known_block(
                final(buffer)@,
                x,
                wy as int,
                z,
            ) == Some(leaves_id),
        !random_corners ==> final(rand)@ == old(rand)@,
{
    let ghost b0 = buffer@;
    let ghost s0 = rand@;
    let ghost ids = set![leaves_id];
    proof {
        buffer.lemma_wf();
        lemma_changed_only_to_refl(b0, ids);
    }
    let mut wx = cx - radius;
    while wx <= cx + radius
        invariant
            well_inside(BlockPos { x: cx, y: wy, z: cz }, 16),
            0 <= radius <= 8,
            cx - radius <= wx <= cx + radius + 1,
            ids == set![leaves_id],
            quad_wf(b0),
            quad_wf(buffer@),
            changed_only_to(b0, buffer@, ids),
            grown_at_layer(b0, buffer@, wy as int, leaves_id),
            forall|x: int, z: int|
                x < wx && leaf_square_sure(cx as int, cz as int, radius as int, random_corners, x, z) && quad_holds(
                    b0,
                    x,
                    wy as int,
                    z,
                ) && tree_space(*block_ids, quad_block(b0, x, wy as int, z)) ==> #[trigger] known_block(
                    buffer@,
                    x,
                    wy as int,
                    z,
                ) == Some(leaves_id),
            !random_corners ==> rand@ == s0,
            random_corners ==> radius > 0 && rand@ == draws_after(
                s0,
                corner_bounds(corners_before(cx as int, cz as int, radius as int, wx as int, cz - radius)),
            ),
            forall|x: int, y: int, z: int|
                #[trigger] known_block(buffer@, x, y, z) == grown_block(
                    b0,
                    *block_ids,
                    y == wy && x < wx && leaf_grows(s0, cx as int, cz as int, radius as int, random_corners, top_layer, x, z),
                    leaves_id,
                    x,
                    y,
                    z,
                ),
        decreases cx + radius + 1 - wx,
    {
        let mut wz = cz - radius;
        while wz <= cz + radius
            invariant
                well_inside(BlockPos { x: cx, y: wy, z: cz }, 16),
                0 <= radius <= 8,
                cx - radius <= wx <= cx + radius,
                cz - radius <= wz <= cz + radius + 1,
                ids == set![leaves_id],
                quad_wf(b0),
                quad_wf(buffer@),
                changed_only_to(b0, buffer@, ids),
                grown_at_layer(b0, buffer@, wy as int, leaves_id),
                forall|x: int, z: int|
                    (x < wx || (x == wx && z < wz)) && leaf_square_sure(cx as int, cz as int, radius as int, random_corners, x, z)
                        && quad_holds(b0, x, wy as int, z) && tree_space(*block_ids, quad_block(b0, x, wy as int, z))
                        ==> #[trigger] known_block(buffer@, x, wy as int, z) == Some(leaves_id),
                !random_corners ==> rand@ == s0,
                random_corners ==> radius > 0 && rand@ == draws_after(
                    s0,
                    corner_bounds(corners_before(cx as int, cz as int, radius as int, wx as int, wz as int)),
                ),
                forall|x: int, y: int, z: int|
                    #[trigger] known_block(buffer@, x, y, z) == grown_block(
                        b0,
                        *block_ids,
                        y == wy && (x < wx || (x == wx && z < wz)) && leaf_grows(
                            s0,
                            cx as int,
                            cz as int,
                            radius as int,
                            random_corners,
                            top_layer,
                            x,
                            z,
                        ),
                        leaves_id,
                        x,
                        y,
                        z,
                    ),
            decreases cz + radius + 1 - wz,
        {
            let ghost q = buffer@;
            let ghost sq = rand@;
            let dx = if wx >= cx {
                wx - cx
            } else {
                cx - wx
            };
            let dz = if wz >= cz {
                wz - cz
            } else {
                cz - wz
            };
            let place = if dx != radius || dz != radius {
                true
            } else if random_corners {
                let c = rand.random_with::<i32>(Bound::new(2));
                proof {
                    lemma_draws_after_push(
                        s0,
                        corner_bounds(corners_before(cx as int, cz as int, radius as int, wx as int, wz as int)),
                        2,
                    );
                }
                c != 0 && !top_layer
            } else {
                radius <= 0
            };
            proof {
                assert(leaf_corner(cx as int, cz as int, radius as int, wx as int, wz as int) <==> (dx == radius && dz == radius));
                assert(place == leaf_grows(s0, cx as int, cz as int, radius as int, random_corners, top_layer, wx as int, wz as int));
                if random_corners {
                    let k = corners_before(cx as int, cz as int, radius as int, wx as int, wz as int);
                    if dx == radius && dz == radius {
                        assert(corners_before(cx as int, cz as int, radius as int, wx as int, wz + 1) == k + 1);
                        assert(corner_bounds(k + 1) == corner_bounds(k).push(2));
                    } else {
                        assert(corners_before(cx as int, cz as int, radius as int, wx as int, wz + 1) == k);
                    }
                }
            }
            if place {
                let id = read(generator, buffer, wx, wy, wz);
                if id == block_ids.air || is_leaves(block_ids, id) {
                    let ghost mid = buffer@;
                    crate::level::generator::shared::quad_chunk_buffer::write(buffer, wx, wy, wz, leaves_id);
                    proof {
                        lemma_changed_only_to_write(b0, mid, buffer@, ids, wx as int, wy as int, wz as int, leaves_id);
                        lemma_known_after_write_all(mid, wx as int, wy as int, wz as int, leaves_id);
                    }
                }
            }
            proof {
                assert forall|x: int, z: int|
                    (x < wx || (x == wx && z < wz + 1)) && leaf_square_sure(cx as int, cz as int, radius as int, random_corners, x, z)
                        && quad_holds(b0, x, wy as int, z) && tree_space(*block_ids, quad_block(b0, x, wy as int, z))
                        implies #[trigger] known_block(buffer@, x, wy as int, z) == Some(leaves_id) by {
                    if x == wx && z == wz {
                        assert(known_block(b0, x, wy as int, z) == Some(quad_block(b0, x, wy as int, z)));
                        assert(place);
                    }
                }
                assert forall|x: int, y: int, z: int|
                    #[trigger] known_block(buffer@, x, y, z) == grown_block(
                        b0,
                        *block_ids,
                        y == wy && (x < wx || (x == wx && z < wz + 1)) && leaf_grows(
                            s0,
                            cx as int,
                            cz as int,
                            radius as int,
                            random_corners,
                            top_layer,
                            x,
                            z,
                        ),
                        leaves_id,
                        x,
                        y,
                        z,
                    ) by {
                    assert(known_block(q, x, y, z) == grown_block(
                        b0,
                        *block_ids,
                        y == wy && (x < wx || (x == wx && z < wz)) && leaf_grows(s0, cx as int, cz as int, radius as int, random_corners, top_layer, x, z),
                        leaves_id,
                        x,
                        y,
                        z,
                    ));
                    if x == wx && y == wy && z == wz {
                        assert(quad_holds(q, x, y, z) == quad_holds(b0, x, y, z));
                        if quad_holds(b0, x, y, z) {
                            assert(known_block(q, x, y, z) == known_block(b0, x, y, z));
                            assert(quad_block(q, x, y, z) == quad_block(b0, x, y, z));
                        }
                    }
                }
            }
            wz += 1;
        }
        proof {
            assert(corners_before(cx as int, cz as int, radius as int, wx + 1, cz - radius) == corners_before(
                cx as int,
                cz as int,
                radius as int,
                wx as int,
                wz as int,
            ));
        }
        wx += 1;
    }
    proof {
        assert(corners_before(cx as int, cz as int, radius as int, wx as int, cz - radius) == 4);
    }
}

/// `new` differs from `old` only in column `(cx, cz)` from layer `from` up to below `to`,
/// and only by blocks turned to `id`.
pub open spec fn grown_in_column(old: QuadView, new: QuadView, cx: int, cz: int, from: int, to: int, id: i32) -> bool {
    forall|x: int, y: int, z: int|
        #[trigger] known_block(new, x, y, z) == known_block(old, x, y, z) || (x == cx && z == cz && from <= y < to
            && known_block(new, x, y, z) == Some(id))
}

/// A trunk in column `(cx, cz)` from layer `from` up to below `to`: each block of it that
/// is air or leaves becomes `log_id`.
fn place_trunk<G: TerrainSource>(
    generator: &G,
    buffer: &mut QuadChunkBuffer,
    block_ids: &BlockIds,
    cx: i32,
    from: i32,
    to: i32,
    cz: i32,
    log_id: i32,
)
    ensures
        changed_only_to(old(buffer)@, final(buffer)@, set![log_id]),
        grown_in_column(old(buffer)@, final(buffer)@, cx as int, cz as int, from as int, to as int, log_id),
        forall|y: int|
            from <= y < to && quad_holds(old(buffer)@, cx as int, y, cz as int) && tree_space(
                *block_ids,
                quad_block(old(buffer)@, cx as int, y, cz as int),
            ) ==> #[trigger] known_block(final(buffer)@, cx as int, y, cz as int) == Some(log_id),
        forall|x: int, y: int, z: int|
            #[trigger] known_block(final(buffer)@, x, y, z) == grown_block(
                old(buffer)@,
                *block_ids,
                x == cx && z == cz && from <= y < to,
                log_id,
                x,
                y,
                z,
            ),
{
    let ghost b0 = buffer@;
    let ghost ids = set![log_id];
    proof {
        buffer.lemma_wf();
        lemma_changed_only_to_refl(b0, ids);
    }
    if from >= to {
        return;
    }
    let mut wy = from;
    while wy < to
        invariant
            from <= wy <= to,
            ids == set![log_id],
            quad_wf(b0),
            quad_wf(buffer@),
            changed_only_to(b0, buffer@, ids),
            grown_in_column(b0, buffer@, cx as int, cz as int, from as int, to as int, log_id),
            forall|y: int|
                from <= y < wy && quad_holds(b0, cx as int, y, cz as int) && tree_space(
                    *block_ids,
                    quad_block(b0, cx as int, y, cz as int),
                ) ==> #[trigger] known_block(buffer@, cx as int, y, cz as int) == Some(log_id),
            forall|x: int, y: int, z: int|
                #[trigger] known_block(buffer@, x, y, z) == grown_block(b0, *block_ids, x == cx && z == cz && from <= y < wy, log_id, x, y, z),
        decreases to - wy,
    {
        let ghost q = buffer@;
        let id = read(generator, buffer, cx, wy, cz);
        if id == block_ids.air || is_leaves(block_ids, id) {
            let ghost mid = buffer@;
            crate::level::generator::shared::quad_chunk_buffer::write(buffer, cx, wy, cz, log_id);
            proof {
                lemma_changed_only_to_write(b0, mid, buffer@, ids, cx as int, wy as int, cz as int, log_id);
                lemma_known_after_write_all(mid, cx as int, wy as int, cz as int, log_id);
            }
        }
        proof {
            assert(known_block(b0, cx as int, wy as int, cz as int) == known_block(buffer@, cx as int, wy as int, cz as int)
                || known_block(buffer@, cx as int, wy as int, cz as int) == Some(log_id));
            assert forall|x: int, y: int, z: int|
                #[trigger] known_block(buffer@, x, y, z) == grown_block(
                    b0,
                    *block_ids,
                    x == cx && z == cz && from <= y < wy + 1,
                    log_id,
                    x,
                    y,
                    z,
                ) by {
                assert(known_block(q, x, y, z) == grown_block(b0, *block_ids, x == cx && z == cz && from <= y < wy, log_id, x, y, z));
                if x == cx && y == wy && z == cz && quad_holds(b0, x, y, z) {
                    assert(quad_holds(q, x, y, z));
                    assert(known_block(q, x, y, z) == known_block(b0, x, y, z));
                    assert(quad_block(q, x, y, z) == quad_block(b0, x, y, z));
                }
            }
        }
        wy += 1;
    }
}

/// The height of a plain tree drawn from state `s`: `min_height` plus a draw with bound 3.
pub open spec fn simple_tree_height(s: int, min_height: int) -> int {
    i32_draw(s, Some(3)).1 + min_height
}

/// The clearance of a plain tree of height `height` at `pos`.
pub open spec fn plain_rule(pos: BlockPos, height: int) -> ClearanceRule {
    ClearanceRule::Plain { base_y: pos.y, height: height as i32 }
}

/// The radius of a plain tree's leaf layer `wy`, with the top layer at `top`: 2 for the
/// two lowest layers, 1 for the two above.
pub open spec fn simple_leaf_radius(top: int, wy: int) -> int {
    if wy - top <= -2 {
        2
    } else {
        1
    }
}

/// Every block of a plain tree's canopy below layer `upto` that grows for sure, and was
/// air or leaves in `b0`, holds `leaves_id` in `q`.
pub open spec fn simple_canopy_grown(b0: QuadView, q: QuadView, ids: BlockIds, pos: BlockPos, top: int, leaves_id: i32, upto: int) -> bool {
    forall|x: int, y: int, z: int|
        top - 3 <= y < upto && leaf_square_sure(pos.x as int, pos.z as int, simple_leaf_radius(top, y), true, x, z)
            && quad_holds(b0, x, y, z) && tree_space(ids, quad_block(b0, x, y, z)) ==> #[trigger] known_block(q, x, y, z)
            == Some(leaves_id)
}

/// The ids a tree writes: dirt under its trunk, its log, its leaves.
pub open spec fn tree_ids(ids: BlockIds, log_id: i32, leaves_id: i32) -> Set<i32> {
    set![ids.dirt, log_id, leaves_id]
}

/// The canopy of a plain tree at `pos` whose height is drawn from state `s`: its four
/// leaf layers up to one above the top, of radius `simple_leaf_radius`, each corner
/// growing where its draw (four a layer, from the state after the height) is not 0 and
/// the layer is not the top one.
pub open spec fn simple_canopy(pos: BlockPos, s: int, min_height: int) -> spec_fn(int, int, int) -> bool {
    |x: int, y: int, z: int|
        {
            let top = pos.y + simple_tree_height(s, min_height);
            let layer_state = draws_after(i32_draw(s, Some(3)).0, corner_bounds((4 * (y - (top - 3))) as nat));
            top - 3 <= y <= top && leaf_grows(
                layer_state,
                pos.x as int,
                pos.z as int,
                simple_leaf_radius(top, y),
                true,
                y == top,
                x,
                z,
            )
        }
}

/// The trunk of a plain tree at `pos` whose height is drawn from state `s`: its column
/// from `pos` up to below the top.
pub open spec fn simple_trunk(pos: BlockPos, s: int, min_height: int) -> spec_fn(int, int, int) -> bool {
    |x: int, y: int, z: int| x == pos.x && z == pos.z && pos.y <= y < pos.y + simple_tree_height(s, min_height)
}

/// A plain tree (oak, birch) of height `min_height` plus a draw with bound 3 at `pos`:
/// dirt under the trunk, four layers of leaves around the top (radius 2, 2, 1, 1, with
/// each corner drawn), then the trunk. It grows only where `check_tree` lets it.
pub fn place_simple_tree<G: TerrainSource>(
    generator: &G,
    buffer: &mut QuadChunkBuffer,
    block_ids: &BlockIds,
    pos: BlockPos,
    min_height: i32,
    log_id: i32,
    leaves_id: i32,
    rand: &mut JavaRand,
) -> (r: bool)
    requires
        well_inside(pos, 32),
        3 <= min_height <= 16,
    ensures
        changed_only_to(old(buffer)@, final(buffer)@, tree_ids(*block_ids, log_id, leaves_id)),
        r == tree_fits_world(
            generator,
            old(buffer)@,
            *block_ids,
            pos,
            simple_tree_height(old(rand)@, min_height as int),
            plain_rule(pos, simple_tree_height(old(rand)@, min_height as int)),
        ),
        r ==> tree_fits(
            old(buffer)@,
            *block_ids,
            pos,
            simple_tree_height(old(rand)@, min_height as int),
            plain_rule(pos, simple_tree_height(old(rand)@, min_height as int)),
        ),
        tree_site_known(
            old(buffer)@,
            pos,
            simple_tree_height(old(rand)@, min_height as int),
            plain_rule(pos, simple_tree_height(old(rand)@, min_height as int)),
        ) && tree_fits(
            old(buffer)@,
            *block_ids,
            pos,
            simple_tree_height(old(rand)@, min_height as int),
            plain_rule(pos, simple_tree_height(old(rand)@, min_height as int)),
        ) ==> r,
        !r ==> final(buffer)@ == old(buffer)@ && final(rand)@ == i32_draw(old(rand)@, Some(3)).0,
        covers_around(old(buffer)@, pos, 8) ==> tree_site_known(
            old(buffer)@,
            pos,
            simple_tree_height(old(rand)@, min_height as int),
            plain_rule(pos, simple_tree_height(old(rand)@, min_height as int)),
        ),
        r && quad_holds(old(buffer)@, pos.x as int, pos.y - 1, pos.z as int) ==> known_block(
            final(buffer)@,
            pos.x as int,
            pos.y - 1,
            pos.z as int,
        ) == Some(block_ids.dirt),
        r && leaves(*block_ids, leaves_id) ==> forall|y: int|
            pos.y <= y < pos.y + simple_tree_height(old(rand)@, min_height as int) && quad_holds(
                old(buffer)@,
                pos.x as int,
                y,
                pos.z as int,
            ) ==> #[trigger] known_block(final(buffer)@, pos.x as int, y, pos.z as int) == Some(log_id),
        r ==> forall|x: int, y: int, z: int|
            simple_canopy_site(pos, simple_tree_height(old(rand)@, min_height as int), x, y, z) && quad_holds(old(buffer)@, x, y, z)
                && tree_space(*block_ids, quad_block(old(buffer)@, x, y, z)) ==> #[trigger] known_block(final(buffer)@, x, y, z)
                == Some(leaves_id),
        r ==> final(rand)@ == draws_after(i32_draw(old(rand)@, Some(3)).0, corner_bounds(16)),
        r ==> final(buffer)@ == tree_grown(
            old(buffer)@,
            *block_ids,
            pos,
            simple_canopy(pos, old(rand)@, min_height as int),
            simple_trunk(pos, old(rand)@, min_height as int),
            log_id,
            leaves_id,
        ),
{
    let ghost b0 = buffer@;
    let ghost s0 = rand@;
    let ghost ids = tree_ids(*block_ids, log_id, leaves_id);
    proof {
        buffer.lemma_wf();
        lemma_draw_range(*rand, 3);
        lemma_changed_only_to_refl(b0, ids);
    }
    let height = rand.random_with::<i32>(Bound::new(3)) + min_height;
    let rule = ClearanceRule::Plain { base_y: pos.y, height };
    proof {
        if covers_around(b0, pos, 8) {
            lemma_tree_site_covered(b0, pos, height as int, rule);
        }
    }
    if !check_tree(generator, buffer, block_ids, pos, height, rule) {
        return false;
    }
    let top = pos.y + height;
    proof {
        assert forall|y: int| pos.y <= y < top implies #[trigger] known_block(b0, pos.x as int, y, pos.z as int) matches Some(v)
            ==> tree_space(*block_ids, v) by {
            assert(in_clearance(pos, height as int, rule, pos.x as int, y, pos.z as int));
        }
    }
    crate::level::generator::shared::quad_chunk_buffer::write(buffer, pos.x, pos.y - 1, pos.z, block_ids.dirt);
    proof {
        lemma_changed_only_to_write(b0, b0, buffer@, ids, pos.x as int, pos.y - 1, pos.z as int, block_ids.dirt);
        lemma_known_after_write_all(b0, pos.x as int, pos.y - 1, pos.z as int, block_ids.dirt);
    }
    let ghost b1 = buffer@;
    let ghost s1 = rand@;
    let ghost canopy = simple_canopy(pos, s0, min_height as int);
    let mut wy = top - 3;
    while wy <= top
        invariant
            well_inside(pos, 32),
            1 <= pos.y,
            top == pos.y + height,
            3 <= height <= 18,
            top + 1 < 128,
            top - 3 <= wy <= top + 1,
            ids == tree_ids(*block_ids, log_id, leaves_id),
            quad_wf(b0),
            quad_wf(buffer@),
            changed_only_to(b0, buffer@, ids),
            forall|x: int, y: int, z: int| y < top - 3 ==> #[trigger] known_block(buffer@, x, y, z) == known_block(b1, x, y, z),
            forall|x: int, y: int, z: int|
                #[trigger] known_block(buffer@, x, y, z) == known_block(b1, x, y, z) || known_block(buffer@, x, y, z) == Some(
                    leaves_id,
                ),
            forall|x: int, y: int, z: int|
                y != pos.y - 1 ==> #[trigger] known_block(b1, x, y, z) == known_block(b0, x, y, z),
            simple_canopy_grown(b0, buffer@, *block_ids, pos, top as int, leaves_id, wy as int),
            canopy == simple_canopy(pos, s0, min_height as int),
            s1 == i32_draw(s0, Some(3)).0,
            height == simple_tree_height(s0, min_height as int),
            rand@ == draws_after(s1, corner_bounds((4 * (wy - (top - 3))) as nat)),
            forall|x: int, y: int, z: int|
                #[trigger] known_block(buffer@, x, y, z) == if y < wy && canopy(x, y, z) && quad_holds(b0, x, y, z) && tree_space(
                    *block_ids,
                    quad_block(b0, x, y, z),
                ) {
                    Some(leaves_id)
                } else {
                    known_block(b1, x, y, z)
                },
        decreases top + 1 - wy,
    {
        let radius: i32 = if wy - top <= -2 {
            2
        } else {
            1
        };
        let ghost mid = buffer@;
        let ghost layer_state = rand@;
        place_leaf_square(generator, buffer, block_ids, pos.x, wy, pos.z, radius, leaves_id, true, wy == top, rand);
        proof {
            let k = (4 * (wy - (top - 3))) as nat;
            lemma_draws_after_concat(s1, corner_bounds(k), corner_bounds(4));
            lemma_repeated_add(seq![2int], k, 4);
            assert((4 * (wy + 1 - (top - 3))) as nat == k + 4);
            assert forall|x: int, y: int, z: int|
                #[trigger] known_block(buffer@, x, y, z) == if y < wy + 1 && canopy(x, y, z) && quad_holds(b0, x, y, z)
                    && tree_space(*block_ids, quad_block(b0, x, y, z)) {
                    Some(leaves_id)
                } else {
                    known_block(b1, x, y, z)
                } by {
                assert(known_block(buffer@, x, y, z) == grown_block(
                    mid,
                    *block_ids,
                    y == wy && leaf_grows(layer_state, pos.x as int, pos.z as int, radius as int, true, wy == top, x, z),
                    leaves_id,
                    x,
                    y,
                    z,
                ));
                if y == wy {
                    assert(canopy(x, y, z) == leaf_grows(layer_state, pos.x as int, pos.z as int, radius as int, true, wy == top, x, z));
                    if quad_holds(b0, x, y, z) {
                        assert(known_block(b0, x, y, z) == Some(quad_block(b0, x, y, z)));
                        assert(known_block(b1, x, y, z) == known_block(b0, x, y, z));
                        assert(quad_holds(mid, x, y, z));
                        assert(known_block(mid, x, y, z) == Some(quad_block(mid, x, y, z)));
                    }
                }
            }
            lemma_changed_only_to_widen(mid, buffer@, set![leaves_id], ids);
            lemma_changed_only_to_trans(b0, mid, buffer@, ids);
            assert forall|x: int, y: int, z: int|
                top - 3 <= y < wy + 1 && leaf_square_sure(pos.x as int, pos.z as int, simple_leaf_radius(top as int, y), true, x, z)
                    && quad_holds(b0, x, y, z) && tree_space(*block_ids, quad_block(b0, x, y, z)) implies #[trigger] known_block(
                    buffer@,
                    x,
                    y,
                    z,
                ) == Some(leaves_id) by {
                if y == wy {
                    assert(known_block(b0, x, y, z) == Some(quad_block(b0, x, y, z)));
                    assert(known_block(b1, x, y, z) == known_block(b0, x, y, z));
                    if known_block(mid, x, y, z) == known_block(b1, x, y, z) {
                        assert(quad_holds(mid, x, y, z));
                        assert(quad_block(mid, x, y, z) == quad_block(b0, x, y, z));
                    } else {
                        assert(quad_holds(mid, x, y, z));
                        assert(quad_block(mid, x, y, z) == leaves_id);
                        assert(known_block(buffer@, x, y, z) == known_block(mid, x, y, z) || known_block(buffer@, x, y, z) == Some(leaves_id));
                    }
                } else {
                    assert(known_block(buffer@, x, y, z) == known_block(mid, x, y, z));
                }
            }
        }
        wy += 1;
    }
    let ghost b2 = buffer@;
    place_trunk(generator, buffer, block_ids, pos.x, pos.y, top, pos.z, log_id);
    proof {
        lemma_changed_only_to_widen(b2, buffer@, set![log_id], ids);
        lemma_changed_only_to_trans(b0, b2, buffer@, ids);
        if quad_holds(b0, pos.x as int, pos.y - 1, pos.z as int) {
            assert(known_block(b2, pos.x as int, pos.y - 1, pos.z as int) == known_block(b1, pos.x as int, pos.y - 1, pos.z as int));
            assert(known_block(buffer@, pos.x as int, pos.y - 1, pos.z as int) == known_block(b2, pos.x as int, pos.y - 1, pos.z as int));
        }
        if leaves(*block_ids, leaves_id) {
            assert forall|y: int|
                pos.y <= y < pos.y + height && quad_holds(b0, pos.x as int, y, pos.z as int) implies #[trigger] known_block(
                    buffer@,
                    pos.x as int,
                    y,
                    pos.z as int,
                ) == Some(log_id) by {
                assert(known_block(b0, pos.x as int, y, pos.z as int) matches Some(v) ==> tree_space(*block_ids, v));
                assert(known_block(b1, pos.x as int, y, pos.z as int) == known_block(b0, pos.x as int, y, pos.z as int));
                assert(known_block(b2, pos.x as int, y, pos.z as int) == known_block(b1, pos.x as int, y, pos.z as int)
                    || known_block(b2, pos.x as int, y, pos.z as int) == Some(leaves_id));
                assert(quad_holds(b2, pos.x as int, y, pos.z as int));
                assert(known_block(b2, pos.x as int, y, pos.z as int) == Some(quad_block(b2, pos.x as int, y, pos.z as int)));
            }
        }
        assert forall|x: int, y: int, z: int|
            simple_canopy_site(pos, height as int, x, y, z) && quad_holds(b0, x, y, z) && tree_space(
                *block_ids,
                quad_block(b0, x, y, z),
            ) implies #[trigger] known_block(buffer@, x, y, z) == Some(leaves_id) by {
            assert(known_block(b2, x, y, z) == Some(leaves_id));
            assert(known_block(buffer@, x, y, z) == known_block(b2, x, y, z));
        }
    }
    proof {
        let trunk = simple_trunk(pos, s0, min_height as int);
        assert forall|x: int, y: int, z: int|
            #[trigger] known_block(buffer@, x, y, z) == tree_block(b0, *block_ids, pos, canopy(x, y, z), trunk(x, y, z), log_id, leaves_id, x, y, z)
            by {
            assert(known_block(buffer@, x, y, z) == grown_block(b2, *block_ids, x == pos.x && z == pos.z && pos.y <= y < top, log_id, x, y, z));
            if quad_holds(b0, x, y, z) {
                assert(quad_holds(b2, x, y, z));
                assert(known_block(b2, x, y, z) == Some(quad_block(b2, x, y, z)));
                assert(known_block(b0, x, y, z) == Some(quad_block(b0, x, y, z)));
            }
        }
        lemma_tree_grown(b0, buffer@, *block_ids, pos, canopy, trunk, log_id, leaves_id);
        assert(4 * (top + 1 - (top - 3)) == 16);
    }
    true
}

/// A block of a plain tree's canopy that grows for sure and that the trunk does not
/// replace.
pub open spec fn simple_canopy_site(pos: BlockPos, height: int, x: int, y: int, z: int) -> bool {
    let top = pos.y + height;
    &&& top - 3 <= y <= top
    &&& leaf_square_sure(pos.x as int, pos.z as int, simple_leaf_radius(top, y), true, x, z)
    &&& !(x == pos.x && z == pos.z && y < top)
}

/// Every block of the layers `lo..hi` of a canopy whose layer `y` has radius
/// `radius_at(y)`, that grows for sure and was air or leaves in `b0`, holds `leaves_id`
/// in `q`.
pub open spec fn canopy_grown(
    b0: QuadView,
    q: QuadView,
    ids: BlockIds,
    cx: int,
    cz: int,
    lo: int,
    hi: int,
    radius_at: spec_fn(int) -> int,
    leaves_id: i32,
) -> bool {
    forall|x: int, y: int, z: int|
        lo <= y < hi && leaf_square_sure(cx, cz, radius_at(y), false, x, z) && quad_holds(b0, x, y, z) && tree_space(
            ids,
            quad_block(b0, x, y, z),
        ) ==> #[trigger] known_block(q, x, y, z) == Some(leaves_id)
}

/// A block of a spruce's canopy (layers `leaves_y..=top`, layer `y` of radius
/// `radius_at(y)`) that grows for sure and that the trunk (up to below `trunk_top`) does
/// not replace.
pub open spec fn spruce_canopy_site(
    pos: BlockPos,
    leaves_y: int,
    top: int,
    trunk_top: int,
    radius_at: spec_fn(int) -> int,
    x: int,
    y: int,
    z: int,
) -> bool {
    &&& leaves_y <= y <= top
    &&& leaf_square_sure(pos.x as int, pos.z as int, radius_at(y), false, x, z)
    &&& !(x == pos.x && z == pos.z && y < trunk_top)
}

/// The clearance of a spruce whose leaves start at layer `leaves_y` and reach out to
/// `max_radius`.
pub open spec fn spruce_rule(leaves_y: int, max_radius: int) -> ClearanceRule {
    ClearanceRule::Spruce { leaves_y: leaves_y as i32, max_radius: max_radius as i32 }
}

/// The draws of a tapering spruce from state `s`: the state after them, the height
/// (7 plus a draw with bound 5), the layer its leaves start at above the root (the
/// height less 3 less a draw with bound 2), and its widest radius (a draw bounded by the
/// number of leaf layers above the first, plus one).
pub open spec fn spruce1_shape(s: int) -> (int, int, int, int) {
    let a = i32_draw(s, Some(5));
    let height = a.1 + 7;
    let b = i32_draw(a.0, Some(2));
    let leaves_offset = height - b.1 - 3;
    let c = i32_draw(b.0, Some(height - leaves_offset + 1));
    (c.0, height, leaves_offset, c.1 as int)
}

/// The radius of a tapering spruce's leaf layer `k` above its first: 0 at the first, then
/// growing by one a layer up to `max_radius`, but for a step back after the second layer.
pub open spec fn spruce1_radius(max_radius: int, k: nat) -> int
    decreases k,
{
    if k == 0 {
        0
    } else {
        let p = spruce1_radius(max_radius, (k - 1) as nat);
        if p >= 1 && k - 1 == 1 {
            p - 1
        } else if p < max_radius {
            p + 1
        } else {
            p
        }
    }
}

/// The radius of a tapering spruce's leaf layer `y`, its leaves starting at `leaves_y`.
pub open spec fn spruce1_radius_at(leaves_y: int, max_radius: int) -> spec_fn(int) -> int {
    |y: int| spruce1_radius(max_radius, (y - leaves_y) as nat)
}

/// The canopy of a tapering spruce at `pos` whose shape is drawn from state `s`: from its
/// first leaf layer up to one above the top, each layer a square of `spruce1_radius`
/// without its corners (a single block at radius 0).
pub open spec fn spruce1_canopy(pos: BlockPos, s: int) -> spec_fn(int, int, int) -> bool {
    |x: int, y: int, z: int|
        {
            let shape = spruce1_shape(s);
            let leaves_y = pos.y + shape.2;
            leaves_y <= y <= pos.y + shape.1 && leaf_grows(
                s,
                pos.x as int,
                pos.z as int,
                spruce1_radius_at(leaves_y, shape.3)(y),
                false,
                false,
                x,
                z,
            )
        }
}

/// The trunk of a tapering spruce at `pos` whose shape is drawn from state `s`: its
/// column from `pos` up to two below the top.
pub open spec fn spruce1_trunk(pos: BlockPos, s: int) -> spec_fn(int, int, int) -> bool {
    |x: int, y: int, z: int| x == pos.x && z == pos.z && pos.y <= y < pos.y + spruce1_shape(s).1 - 1
}

/// A spruce that tapers to a point, at `pos`: dirt under the trunk, layers of spruce
/// leaves from partway up to one above the top (`spruce1_radius`), then a trunk of spruce
/// log up to two below the top. It grows only where `check_tree` lets it; its draws are
/// made either way.
pub fn place_spruce1_tree<G: TerrainSource>(
    generator: &G,
    buffer: &mut QuadChunkBuffer,
    block_ids: &BlockIds,
    pos: BlockPos,
    rand: &mut JavaRand,
) -> (r: bool)
    requires
        well_inside(pos, 32),
    ensures
        ({
            let (s1, height, leaves_offset, max_radius) = spruce1_shape(old(rand)@);
            let rule = spruce_rule(pos.y + leaves_offset, max_radius);
            &&& final(rand)@ == s1
            &&& changed_only_to(old(buffer)@, final(buffer)@, tree_ids(*block_ids, block_ids.spruce_log, block_ids.spruce_leaves))
            &&& r == tree_fits_world(generator, old(buffer)@, *block_ids, pos, height, rule)
            &&& r ==> tree_fits(old(buffer)@, *block_ids, pos, height, rule)
            &&& tree_site_known(old(buffer)@, pos, height, rule) && tree_fits(old(buffer)@, *block_ids, pos, height, rule) ==> r
            &&& covers_around(old(buffer)@, pos, 8) ==> tree_site_known(old(buffer)@, pos, height, rule)
            &&& !r ==> final(buffer)@ == old(buffer)@
            &&& r && quad_holds(old(buffer)@, pos.x as int, pos.y - 1, pos.z as int) ==> known_block(
                final(buffer)@,
                pos.x as int,
                pos.y - 1,
                pos.z as int,
            ) == Some(block_ids.dirt)
            &&& r ==> forall|y: int|
                pos.y <= y < pos.y + height - 1 && quad_holds(old(buffer)@, pos.x as int, y, pos.z as int)
                    ==> #[trigger] known_block(final(buffer)@, pos.x as int, y, pos.z as int) == Some(block_ids.spruce_log)
            &&& r ==> forall|x: int, y: int, z: int|
                spruce_canopy_site(
                    pos,
                    pos.y + leaves_offset,
                    pos.y + height,
                    pos.y + height - 1,
                    spruce1_radius_at(pos.y + leaves_offset, max_radius),
                    x,
                    y,
                    z,
                ) && quad_holds(old(buffer)@, x, y, z) && tree_space(*block_ids, quad_block(old(buffer)@, x, y, z))
                    ==> #[trigger] known_block(final(buffer)@, x, y, z) == Some(block_ids.spruce_leaves)
            &&& r ==> final(buffer)@ == tree_grown(
                old(buffer)@,
                *block_ids,
                pos,
                spruce1_canopy(pos, old(rand)@),
                spruce1_trunk(pos, old(rand)@),
                block_ids.spruce_log,
                block_ids.spruce_leaves,
            )
        }),
{
    let ghost b0 = buffer@;
    let ghost s0 = rand@;
    let ghost ids = tree_ids(*block_ids, block_ids.spruce_log, block_ids.spruce_leaves);
    proof {
        buffer.lemma_wf();
        lemma_draw_range(*rand, 5);
        lemma_changed_only_to_refl(b0, ids);
    }
    let height = rand.random_with::<i32>(Bound::new(5)) + 7;
    proof {
        lemma_draw_range(*rand, 2);
    }
    let leaves_offset = height - rand.random_with::<i32>(Bound::new(2)) - 3;
    let leaves_height = height - leaves_offset;
    proof {
        lemma_draw_range(*rand, leaves_height + 1);
    }
    let max_radius = rand.random_with::<i32>(Bound::new(leaves_height + 1));
    let leaves_y = pos.y + leaves_offset;
    let rule = ClearanceRule::Spruce { leaves_y, max_radius };
    proof {
        if covers_around(b0, pos, 8) {
            lemma_tree_site_covered(b0, pos, height as int, rule);
        }
    }
    if !check_tree(generator, buffer, block_ids, pos, height, rule) {
        return false;
    }
    let top = pos.y + height;
    let ghost radius_at = spruce1_radius_at(leaves_y as int, max_radius as int);
    proof {
        assert forall|y: int| pos.y <= y < top implies #[trigger] known_block(b0, pos.x as int, y, pos.z as int) matches Some(v)
            ==> tree_space(*block_ids, v) by {
            assert(in_clearance(pos, height as int, rule, pos.x as int, y, pos.z as int));
        }
    }
    crate::level::generator::shared::quad_chunk_buffer::write(buffer, pos.x, pos.y - 1, pos.z, block_ids.dirt);
    proof {
        lemma_changed_only_to_write(b0, b0, buffer@, ids, pos.x as int, pos.y - 1, pos.z as int, block_ids.dirt);
        lemma_known_after_write_all(b0, pos.x as int, pos.y - 1, pos.z as int, block_ids.dirt);
    }
    let ghost b1 = buffer@;
    let ghost s1 = rand@;
    let ghost canopy = spruce1_canopy(pos, s0);
    let mut current_radius: i32 = 0;
    let mut wy = leaves_y;
    while wy <= top
        invariant
            rand@ == s1,
            well_inside(pos, 32),
            1 <= pos.y < leaves_y,
            top == pos.y + height,
            7 <= height <= 11,
            top + 1 < 128,
            leaves_y <= wy <= top + 1,
            0 <= max_radius <= 4,
            0 <= current_radius <= max_radius,
            current_radius == spruce1_radius(max_radius as int, (wy - leaves_y) as nat),
            radius_at == spruce1_radius_at(leaves_y as int, max_radius as int),
            ids == tree_ids(*block_ids, block_ids.spruce_log, block_ids.spruce_leaves),
            quad_wf(b0),
            quad_wf(buffer@),
            changed_only_to(b0, buffer@, ids),
            forall|x: int, y: int, z: int| y < leaves_y ==> #[trigger] known_block(buffer@, x, y, z) == known_block(b1, x, y, z),
            forall|x: int, y: int, z: int|
                #[trigger] known_block(buffer@, x, y, z) == known_block(b1, x, y, z) || known_block(buffer@, x, y, z) == Some(
                    block_ids.spruce_leaves,
                ),
            forall|x: int, y: int, z: int|
                y != pos.y - 1 ==> #[trigger] known_block(b1, x, y, z) == known_block(b0, x, y, z),
            canopy_grown(b0, buffer@, *block_ids, pos.x as int, pos.z as int, leaves_y as int, wy as int, radius_at, block_ids.spruce_leaves),
            canopy == spruce1_canopy(pos, s0),
            spruce1_shape(s0) == (s1, height as int, leaves_offset as int, max_radius as int),
            leaves_y == pos.y + leaves_offset,
            forall|x: int, y: int, z: int|
                #[trigger] known_block(buffer@, x, y, z) == if y < wy && canopy(x, y, z) && quad_holds(b0, x, y, z) && tree_space(
                    *block_ids,
                    quad_block(b0, x, y, z),
                ) {
                    Some(block_ids.spruce_leaves)
                } else {
                    known_block(b1, x, y, z)
                },
        decreases top + 1 - wy,
    {
        let ghost mid = buffer@;
        place_leaf_square(generator, buffer, block_ids, pos.x, wy, pos.z, current_radius, block_ids.spruce_leaves, false, false, rand);
        proof {
            assert forall|x: int, y: int, z: int|
                #[trigger] known_block(buffer@, x, y, z) == if y < wy + 1 && canopy(x, y, z) && quad_holds(b0, x, y, z) && tree_space(
                    *block_ids,
                    quad_block(b0, x, y, z),
                ) {
                    Some(block_ids.spruce_leaves)
                } else {
                    known_block(b1, x, y, z)
                } by {
                assert(known_block(buffer@, x, y, z) == grown_block(
                    mid,
                    *block_ids,
                    y == wy && leaf_grows(s1, pos.x as int, pos.z as int, current_radius as int, false, false, x, z),
                    block_ids.spruce_leaves,
                    x,
                    y,
                    z,
                ));
                if y == wy {
                    assert(canopy(x, y, z) == leaf_grows(s1, pos.x as int, pos.z as int, current_radius as int, false, false, x, z));
                    if quad_holds(b0, x, y, z) {
                        assert(known_block(b0, x, y, z) == Some(quad_block(b0, x, y, z)));
                        assert(known_block(b1, x, y, z) == known_block(b0, x, y, z));
                        assert(quad_holds(mid, x, y, z));
                        assert(known_block(mid, x, y, z) == Some(quad_block(mid, x, y, z)));
                    }
                }
            }
            lemma_changed_only_to_widen(mid, buffer@, set![block_ids.spruce_leaves], ids);
            lemma_changed_only_to_trans(b0, mid, buffer@, ids);
            assert forall|x: int, y: int, z: int|
                leaves_y <= y < wy + 1 && leaf_square_sure(pos.x as int, pos.z as int, radius_at(y), false, x, z) && quad_holds(b0, x, y, z)
                    && tree_space(*block_ids, quad_block(b0, x, y, z)) implies #[trigger] known_block(buffer@, x, y, z) == Some(
                    block_ids.spruce_leaves,
                ) by {
                if y == wy {
                    assert(known_block(b0, x, y, z) == Some(quad_block(b0, x, y, z)));
                    assert(known_block(b1, x, y, z) == known_block(b0, x, y, z));
                    assert(quad_holds(mid, x, y, z));
                    if known_block(mid, x, y, z) == known_block(b1, x, y, z) {
                        assert(quad_block(mid, x, y, z) == quad_block(b0, x, y, z));
                    } else {
                        assert(quad_block(mid, x, y, z) == block_ids.spruce_leaves);
                        assert(known_block(buffer@, x, y, z) == known_block(mid, x, y, z) || known_block(buffer@, x, y, z)
                            == Some(block_ids.spruce_leaves));
                    }
                } else {
                    assert(known_block(buffer@, x, y, z) == known_block(mid, x, y, z));
                }
            }
        }
        if current_radius >= 1 && wy == leaves_y + 1 {
            current_radius -= 1;
        } else if current_radius < max_radius {
            current_radius += 1;
        }
        proof {
            assert((wy + 1 - leaves_y) as nat - 1 == (wy - leaves_y) as nat);
        }
        wy += 1;
    }
    let ghost b2 = buffer@;
    place_trunk(generator, buffer, block_ids, pos.x, pos.y, top - 1, pos.z, block_ids.spruce_log);
    proof {
        lemma_changed_only_to_widen(b2, buffer@, set![block_ids.spruce_log], ids);
        lemma_changed_only_to_trans(b0, b2, buffer@, ids);
        if quad_holds(b0, pos.x as int, pos.y - 1, pos.z as int) {
            assert(known_block(b2, pos.x as int, pos.y - 1, pos.z as int) == known_block(b1, pos.x as int, pos.y - 1, pos.z as int));
            assert(known_block(buffer@, pos.x as int, pos.y - 1, pos.z as int) == known_block(b2, pos.x as int, pos.y - 1, pos.z as int));
        }
        assert forall|y: int|
            pos.y <= y < top - 1 && quad_holds(b0, pos.x as int, y, pos.z as int) implies #[trigger] known_block(
                buffer@,
                pos.x as int,
                y,
                pos.z as int,
            ) == Some(block_ids.spruce_log) by {
            assert(known_block(b0, pos.x as int, y, pos.z as int) matches Some(v) ==> tree_space(*block_ids, v));
            assert(known_block(b1, pos.x as int, y, pos.z as int) == known_block(b0, pos.x as int, y, pos.z as int));
            assert(known_block(b2, pos.x as int, y, pos.z as int) == known_block(b1, pos.x as int, y, pos.z as int)
                || known_block(b2, pos.x as int, y, pos.z as int) == Some(block_ids.spruce_leaves));
            assert(quad_holds(b2, pos.x as int, y, pos.z as int));
            assert(known_block(b2, pos.x as int, y, pos.z as int) == Some(quad_block(b2, pos.x as int, y, pos.z as int)));
        }
        assert forall|x: int, y: int, z: int|
            spruce_canopy_site(pos, leaves_y as int, top as int, top - 1, radius_at, x, y, z) && quad_holds(b0, x, y, z)
                && tree_space(*block_ids, quad_block(b0, x, y, z)) implies #[trigger] known_block(buffer@, x, y, z) == Some(
                block_ids.spruce_leaves,
            ) by {
            assert(known_block(b2, x, y, z) == Some(block_ids.spruce_leaves));
            assert(known_block(buffer@, x, y, z) == known_block(b2, x, y, z));
        }
    }
    proof {
        let trunk = spruce1_trunk(pos, s0);
        assert forall|x: int, y: int, z: int|
            #[trigger] known_block(buffer@, x, y, z) == tree_block(
                b0,
                *block_ids,
                pos,
                canopy(x, y, z),
                trunk(x, y, z),
                block_ids.spruce_log,
                block_ids.spruce_leaves,
                x,
                y,
                z,
            ) by {
            assert(known_block(buffer@, x, y, z) == grown_block(
                b2,
                *block_ids,
                x == pos.x && z == pos.z && pos.y <= y < top - 1,
                block_ids.spruce_log,
                x,
                y,
                z,
            ));
            if quad_holds(b0, x, y, z) {
                assert(quad_holds(b2, x, y, z));
                assert(known_block(b2, x, y, z) == Some(quad_block(b2, x, y, z)));
                assert(known_block(b0, x, y, z) == Some(quad_block(b0, x, y, z)));
            }
        }
        lemma_tree_grown(b0, buffer@, *block_ids, pos, canopy, trunk, block_ids.spruce_log, block_ids.spruce_leaves);
    }
    true
}

/// The draws a wide spruce makes before its check, from state `s`: the state after them,
/// the height (6 plus a draw with bound 4), the layer its leaves start at above the root
/// (1 plus a draw with bound 2), and its widest radius (2 plus a draw with bound 2).
pub open spec fn spruce2_shape(s: int) -> (int, int, int, int) {
    let a = i32_draw(s, Some(4));
    let b = i32_draw(a.0, Some(2));
    let c = i32_draw(b.0, Some(2));
    (c.0, a.1 + 6, b.1 + 1, c.1 + 2)
}

/// The radius of a wide spruce's leaf layer `k` below its top, with the radius it starts
/// from and the two it cycles by: the radius grows by one a layer until it reaches the
/// cycle's limit, then falls back (to 0 the first time, to 1 after), the limit growing by
/// one each time up to `max_radius`.
pub open spec fn spruce2_radii(first_radius: int, max_radius: int, k: nat) -> (int, int, int)
    decreases k,
{
    if k == 0 {
        (first_radius, 0, 1)
    } else {
        let (current, start, limit) = spruce2_radii(first_radius, max_radius, (k - 1) as nat);
        if current >= limit {
            (start, 1, if max_radius < limit + 1 {
                max_radius
            } else {
                limit + 1
            })
        } else {
            (current + 1, start, limit)
        }
    }
}

/// The radius of a wide spruce's leaf layer `y`, its top at `top`.
pub open spec fn spruce2_radius_at(top: int, first_radius: int, max_radius: int) -> spec_fn(int) -> int {
    |y: int| spruce2_radii(first_radius, max_radius, (top - y) as nat).0
}

/// The canopy of a wide spruce at `pos` whose shape is drawn from state `s`: from its
/// first leaf layer up to one above the top, layer `y` a square of `spruce2_radius_at`
/// without its corners (a single block at radius 0).
pub open spec fn spruce2_canopy(pos: BlockPos, s: int) -> spec_fn(int, int, int) -> bool {
    |x: int, y: int, z: int|
        {
            let shape = spruce2_shape(s);
            let top = pos.y + shape.1;
            let first = i32_draw(shape.0, Some(2));
            pos.y + shape.2 <= y <= top && leaf_grows(
                s,
                pos.x as int,
                pos.z as int,
                spruce2_radius_at(top, first.1 as int, shape.3)(y),
                false,
                false,
                x,
                z,
            )
        }
}

/// The trunk of a wide spruce at `pos` whose shape is drawn from state `s`: its column
/// from `pos` up to below the top less a draw with bound 3.
pub open spec fn spruce2_trunk(pos: BlockPos, s: int) -> spec_fn(int, int, int) -> bool {
    |x: int, y: int, z: int|
        {
            let shape = spruce2_shape(s);
            let log = i32_draw(i32_draw(shape.0, Some(2)).0, Some(3));
            x == pos.x && z == pos.z && pos.y <= y < pos.y + shape.1 - log.1
        }
}

/// A spruce with a wider, irregular canopy, at `pos`: dirt under the trunk, layers of
/// spruce leaves from the top down (`spruce2_radii`, starting from a draw with bound 2),
/// then a trunk of spruce log up to below the top less a draw with bound 3. It grows only
/// where `check_tree` lets it.
pub fn place_spruce2_tree<G: TerrainSource>(
    generator: &G,
    buffer: &mut QuadChunkBuffer,
    block_ids: &BlockIds,
    pos: BlockPos,
    rand: &mut JavaRand,
) -> (r: bool)
    requires
        well_inside(pos, 32),
    ensures
        ({
            let (s1, height, leaves_offset, max_radius) = spruce2_shape(old(rand)@);
            let rule = spruce_rule(pos.y + leaves_offset, max_radius);
            let first = i32_draw(s1, Some(2));
            let log = i32_draw(first.0, Some(3));
            &&& changed_only_to(old(buffer)@, final(buffer)@, tree_ids(*block_ids, block_ids.spruce_log, block_ids.spruce_leaves))
            &&& r == tree_fits_world(generator, old(buffer)@, *block_ids, pos, height, rule)
            &&& r ==> tree_fits(old(buffer)@, *block_ids, pos, height, rule)
            &&& tree_site_known(old(buffer)@, pos, height, rule) && tree_fits(old(buffer)@, *block_ids, pos, height, rule) ==> r
            &&& covers_around(old(buffer)@, pos, 8) ==> tree_site_known(old(buffer)@, pos, height, rule)
            &&& !r ==> final(buffer)@ == old(buffer)@ && final(rand)@ == s1
            &&& r ==> final(rand)@ == log.0
            &&& r && quad_holds(old(buffer)@, pos.x as int, pos.y - 1, pos.z as int) ==> known_block(
                final(buffer)@,
                pos.x as int,
                pos.y - 1,
                pos.z as int,
            ) == Some(block_ids.dirt)
            &&& r ==> forall|y: int|
                pos.y <= y < pos.y + height - log.1 && quad_holds(old(buffer)@, pos.x as int, y, pos.z as int)
                    ==> #[trigger] known_block(final(buffer)@, pos.x as int, y, pos.z as int) == Some(block_ids.spruce_log)
            &&& r ==> forall|x: int, y: int, z: int|
                spruce_canopy_site(
                    pos,
                    pos.y + leaves_offset,
                    pos.y + height,
                    pos.y + height - log.1,
                    spruce2_radius_at(pos.y + height, first.1 as int, max_radius),
                    x,
                    y,
                    z,
                ) && quad_holds(old(buffer)@, x, y, z) && tree_space(*block_ids, quad_block(old(buffer)@, x, y, z))
                    ==> #[trigger] known_block(final(buffer)@, x, y, z) == Some(block_ids.spruce_leaves)
            &&& r ==> final(buffer)@ == tree_grown(
                old(buffer)@,
                *block_ids,
                pos,
                spruce2_canopy(pos, old(rand)@),
                spruce2_trunk(pos, old(rand)@),
                block_ids.spruce_log,
                block_ids.spruce_leaves,
            )
        }),
{
    let ghost b0 = buffer@;
    let ghost s0 = rand@;
    let ghost ids = tree_ids(*block_ids, block_ids.spruce_log, block_ids.spruce_leaves);
    proof {
        buffer.lemma_wf();
        lemma_draw_range(*rand, 4);
        lemma_changed_only_to_refl(b0, ids);
    }
    let height = rand.random_with::<i32>(Bound::new(4)) + 6;
    proof {
        lemma_draw_range(*rand, 2);
    }
    let leaves_offset = rand.random_with::<i32>(Bound::new(2)) + 1;
    let leaves_height = height - leaves_offset;
    proof {
        lemma_draw_range(*rand, 2);
    }
    let max_radius = rand.random_with::<i32>(Bound::new(2)) + 2;
    let leaves_y = pos.y + leaves_offset;
    let rule = ClearanceRule::Spruce { leaves_y, max_radius };
    proof {
        if covers_around(b0, pos, 8) {
            lemma_tree_site_covered(b0, pos, height as int, rule);
        }
    }
    if !check_tree(generator, buffer, block_ids, pos, height, rule) {
        return false;
    }
    let top = pos.y + height;
    proof {
        assert forall|y: int| pos.y <= y < top implies #[trigger] known_block(b0, pos.x as int, y, pos.z as int) matches Some(v)
            ==> tree_space(*block_ids, v) by {
            assert(in_clearance(pos, height as int, rule, pos.x as int, y, pos.z as int));
        }
    }
    crate::level::generator::shared::quad_chunk_buffer::write(buffer, pos.x, pos.y - 1, pos.z, block_ids.dirt);
    proof {
        lemma_changed_only_to_write(b0, b0, buffer@, ids, pos.x as int, pos.y - 1, pos.z as int, block_ids.dirt);
        lemma_known_after_write_all(b0, pos.x as int, pos.y - 1, pos.z as int, block_ids.dirt);
        lemma_draw_range(*rand, 2);
    }
    let ghost b1 = buffer@;
    let mut current_radius = rand.random_with::<i32>(Bound::new(2));
    let ghost s1 = rand@;
    let ghost first_radius = current_radius as int;
    let ghost radius_at = spruce2_radius_at(top as int, first_radius, max_radius as int);
    let ghost canopy = spruce2_canopy(pos, s0);
    let mut start_radius: i32 = 0;
    let mut global_radius: i32 = 1;
    let mut dy: i32 = 0;
    while dy <= leaves_height
        invariant
            rand@ == s1,
            well_inside(pos, 32),
            1 <= pos.y,
            top == pos.y + height,
            6 <= height <= 9,
            1 <= leaves_offset <= 2,
            leaves_height == height - leaves_offset,
            top + 1 < 128,
            0 <= dy <= leaves_height + 1,
            2 <= max_radius <= 3,
            0 <= current_radius <= global_radius,
            1 <= global_radius <= 3,
            0 <= start_radius <= 1,
            0 <= first_radius <= 1,
            (current_radius as int, start_radius as int, global_radius as int) == spruce2_radii(
                first_radius,
                max_radius as int,
                dy as nat,
            ),
            radius_at == spruce2_radius_at(top as int, first_radius, max_radius as int),
            ids == tree_ids(*block_ids, block_ids.spruce_log, block_ids.spruce_leaves),
            quad_wf(b0),
            quad_wf(buffer@),
            changed_only_to(b0, buffer@, ids),
            forall|x: int, y: int, z: int| y <= top - dy ==> #[trigger] known_block(buffer@, x, y, z) == known_block(b1, x, y, z),
            forall|x: int, y: int, z: int|
                #[trigger] known_block(buffer@, x, y, z) == known_block(b1, x, y, z) || known_block(buffer@, x, y, z) == Some(
                    block_ids.spruce_leaves,
                ),
            forall|x: int, y: int, z: int|
                y != pos.y - 1 ==> #[trigger] known_block(b1, x, y, z) == known_block(b0, x, y, z),
            canopy_grown(b0, buffer@, *block_ids, pos.x as int, pos.z as int, top - dy + 1, top + 1, radius_at, block_ids.spruce_leaves),
            canopy == spruce2_canopy(pos, s0),
            spruce2_shape(s0).1 == height,
            spruce2_shape(s0).2 == leaves_offset,
            spruce2_shape(s0).3 == max_radius,
            i32_draw(spruce2_shape(s0).0, Some(2)) == (s1, first_radius as i32),
            forall|x: int, y: int, z: int|
                #[trigger] known_block(buffer@, x, y, z) == if y > top - dy && canopy(x, y, z) && quad_holds(b0, x, y, z) && tree_space(
                    *block_ids,
                    quad_block(b0, x, y, z),
                ) {
                    Some(block_ids.spruce_leaves)
                } else {
                    known_block(b1, x, y, z)
                },
        decreases leaves_height + 1 - dy,
    {
        let wy = top - dy;
        let ghost mid = buffer@;
        place_leaf_square(generator, buffer, block_ids, pos.x, wy, pos.z, current_radius, block_ids.spruce_leaves, false, false, rand);
        proof {
            assert(radius_at(wy as int) == current_radius);
            assert forall|x: int, y: int, z: int|
                #[trigger] known_block(buffer@, x, y, z) == if y > top - dy - 1 && canopy(x, y, z) && quad_holds(b0, x, y, z)
                    && tree_space(*block_ids, quad_block(b0, x, y, z)) {
                    Some(block_ids.spruce_leaves)
                } else {
                    known_block(b1, x, y, z)
                } by {
                assert(known_block(buffer@, x, y, z) == grown_block(
                    mid,
                    *block_ids,
                    y == wy && leaf_grows(s1, pos.x as int, pos.z as int, current_radius as int, false, false, x, z),
                    block_ids.spruce_leaves,
                    x,
                    y,
                    z,
                ));
                if y == wy {
                    assert(canopy(x, y, z) == leaf_grows(s1, pos.x as int, pos.z as int, current_radius as int, false, false, x, z));
                    if quad_holds(b0, x, y, z) {
                        assert(known_block(b0, x, y, z) == Some(quad_block(b0, x, y, z)));
                        assert(known_block(b1, x, y, z) == known_block(b0, x, y, z));
                        assert(quad_holds(mid, x, y, z));
                        assert(known_block(mid, x, y, z) == Some(quad_block(mid, x, y, z)));
                    }
                }
            }
            lemma_changed_only_to_widen(mid, buffer@, set![block_ids.spruce_leaves], ids);
            lemma_changed_only_to_trans(b0, mid, buffer@, ids);
            assert(radius_at(wy as int) == current_radius);
            assert forall|x: int, y: int, z: int|
                wy <= y < top + 1 && leaf_square_sure(pos.x as int, pos.z as int, radius_at(y), false, x, z) && quad_holds(b0, x, y, z)
                    && tree_space(*block_ids, quad_block(b0, x, y, z)) implies #[trigger] known_block(buffer@, x, y, z) == Some(
                    block_ids.spruce_leaves,
                ) by {
                if y == wy {
                    assert(known_block(b0, x, y, z) == Some(quad_block(b0, x, y, z)));
                    assert(known_block(b1, x, y, z) == known_block(b0, x, y, z));
                    assert(quad_holds(mid, x, y, z));
                    if known_block(mid, x, y, z) == known_block(b1, x, y, z) {
                        assert(quad_block(mid, x, y, z) == quad_block(b0, x, y, z));
                    } else {
                        assert(quad_block(mid, x, y, z) == block_ids.spruce_leaves);
                        assert(known_block(buffer@, x, y, z) == known_block(mid, x, y, z) || known_block(buffer@, x, y, z)
                            == Some(block_ids.spruce_leaves));
                    }
                } else {
                    assert(known_block(buffer@, x, y, z) == known_block(mid, x, y, z));
                }
            }
        }
        if current_radius >= global_radius {
            current_radius = start_radius;
            start_radius = 1;
            global_radius = if max_radius < global_radius + 1 {
                max_radius
            } else {
                global_radius + 1
            };
        } else {
            current_radius += 1;
        }
        proof {
            assert((dy + 1) as nat - 1 == dy as nat);
        }
        dy += 1;
    }
    proof {
        lemma_draw_range(*rand, 3);
    }
    let log_offset = rand.random_with::<i32>(Bound::new(3));
    let ghost b2 = buffer@;
    place_trunk(generator, buffer, block_ids, pos.x, pos.y, top - log_offset, pos.z, block_ids.spruce_log);
    proof {
        lemma_changed_only_to_widen(b2, buffer@, set![block_ids.spruce_log], ids);
        lemma_changed_only_to_trans(b0, b2, buffer@, ids);
        if quad_holds(b0, pos.x as int, pos.y - 1, pos.z as int) {
            assert(known_block(b2, pos.x as int, pos.y - 1, pos.z as int) == known_block(b1, pos.x as int, pos.y - 1, pos.z as int));
            assert(known_block(buffer@, pos.x as int, pos.y - 1, pos.z as int) == known_block(b2, pos.x as int, pos.y - 1, pos.z as int));
        }
        assert forall|y: int|
            pos.y <= y < top - log_offset && quad_holds(b0, pos.x as int, y, pos.z as int) implies #[trigger] known_block(
                buffer@,
                pos.x as int,
                y,
                pos.z as int,
            ) == Some(block_ids.spruce_log) by {
            assert(known_block(b0, pos.x as int, y, pos.z as int) matches Some(v) ==> tree_space(*block_ids, v));
            assert(known_block(b1, pos.x as int, y, pos.z as int) == known_block(b0, pos.x as int, y, pos.z as int));
            assert(known_block(b2, pos.x as int, y, pos.z as int) == known_block(b1, pos.x as int, y, pos.z as int)
                || known_block(b2, pos.x as int, y, pos.z as int) == Some(block_ids.spruce_leaves));
            assert(quad_holds(b2, pos.x as int, y, pos.z as int));
            assert(known_block(b2, pos.x as int, y, pos.z as int) == Some(quad_block(b2, pos.x as int, y, pos.z as int)));
        }
        assert forall|x: int, y: int, z: int|
            spruce_canopy_site(pos, leaves_y as int, top as int, top - log_offset, radius_at, x, y, z) && quad_holds(b0, x, y, z)
                && tree_space(*block_ids, quad_block(b0, x, y, z)) implies #[trigger] known_block(buffer@, x, y, z) == Some(
                block_ids.spruce_leaves,
            ) by {
            assert(known_block(b2, x, y, z) == Some(block_ids.spruce_leaves));
            assert(known_block(buffer@, x, y, z) == known_block(b2, x, y, z));
        }
    }
    proof {
        let trunk = spruce2_trunk(pos, s0);
        assert forall|x: int, y: int, z: int|
            #[trigger] known_block(buffer@, x, y, z) == tree_block(
                b0,
                *block_ids,
                pos,
                canopy(x, y, z),
                trunk(x, y, z),
                block_ids.spruce_log,
                block_ids.spruce_leaves,
                x,
                y,
                z,
            ) by {
            assert(known_block(buffer@, x, y, z) == grown_block(
                b2,
                *block_ids,
                x == pos.x && z == pos.z && pos.y <= y < top - log_offset,
                block_ids.spruce_log,
                x,
                y,
                z,
            ));
            if quad_holds(b0, x, y, z) {
                assert(quad_holds(b2, x, y, z));
                assert(known_block(b2, x, y, z) == Some(quad_block(b2, x, y, z)));
                assert(known_block(b0, x, y, z) == Some(quad_block(b0, x, y, z)));
            }
        }
        lemma_tree_grown(b0, buffer@, *block_ids, pos, canopy, trunk, block_ids.spruce_log, block_ids.spruce_leaves);
    }
    true
}

/// The kinds of tree population grows.
#[derive(Clone, Copy, Debug, PartialEq, Eq, Structural)]
pub enum TreeKind {
    /// A spruce that tapers to a point.
    Spruce1,
    /// A spruce with a wide, irregular canopy.
    Spruce2,
    /// A plain birch.
    Birch,
    /// A big oak.
    Big,
    /// A plain oak.
    Oak,
}

/// The kind of tree `biome` grows, drawn from state `s`, and the state after: taiga a
/// tapering spruce one time in 3, else a wide one; forest a birch one time in 5, else a
/// big oak one time in 3, else an oak; rain forest a big oak one time in 3, else an oak;
/// any other biome a big oak one time in 10, else an oak.
pub open spec fn tree_kind_draw(biome: Biome, s: int) -> (int, TreeKind) {
    match biome {
        Biome::Taiga => {
            let a = i32_draw(s, Some(3));
            (a.0, if a.1 == 0 { TreeKind::Spruce1 } else { TreeKind::Spruce2 })
        },
        Biome::Forest => {
            let a = i32_draw(s, Some(5));
            if a.1 == 0 {
                (a.0, TreeKind::Birch)
            } else {
                let b = i32_draw(a.0, Some(3));
                (b.0, if b.1 == 0 { TreeKind::Big } else { TreeKind::Oak })
            }
        },
        Biome::RainForest => {
            let a = i32_draw(s, Some(3));
            (a.0, if a.1 == 0 { TreeKind::Big } else { TreeKind::Oak })
        },
        _ => {
            let a = i32_draw(s, Some(10));
            (a.0, if a.1 == 0 { TreeKind::Big } else { TreeKind::Oak })
        },
    }
}

/// Draws the kind of tree `biome` grows.
pub fn choose_tree(biome: Biome, rand: &mut JavaRand) -> (r: TreeKind)
    ensures
        (final(rand)@, r) == tree_kind_draw(biome, old(rand)@),
{
    match biome {
        Biome::Taiga => {
            if rand.random_with::<i32>(Bound::new(3)) == 0 {
                TreeKind::Spruce1
            } else {
                TreeKind::Spruce2
            }
        },
        Biome::Forest => {
            if rand.random_with::<i32>(Bound::new(5)) == 0 {
                TreeKind::Birch
            } else if rand.random_with::<i32>(Bound::new(3)) == 0 {
                TreeKind::Big
            } else {
                TreeKind::Oak
            }
        },
        Biome::RainForest => {
            if rand.random_with::<i32>(Bound::new(3)) == 0 {
                TreeKind::Big
            } else {
                TreeKind::Oak
            }
        },
        _ => {
            if rand.random_with::<i32>(Bound::new(10)) == 0 {
                TreeKind::Big
            } else {
                TreeKind::Oak
            }
        },
    }
}

/// The number of trees an owner's chunk of `biome` grows: one more on a lucky draw, plus
/// the base count and 5 in taiga, rain forest and forest, plus the base count and 2 in
/// seasonal forest, 20 fewer in desert, tundra and plains.
pub open spec fn tree_count_of(biome: Biome, base: int, lucky: bool) -> int {
    let extra: int = if lucky { 1 } else { 0 };
    match biome {
        Biome::Taiga | Biome::RainForest | Biome::Forest => extra + base + 5,
        Biome::SeasonalForest => extra + base + 2,
        Biome::Desert | Biome::Tundra | Biome::Plains => extra - 20,
        _ => extra,
    }
}

pub fn tree_count(biome: Biome, base: i32, lucky: bool) -> (r: i64)
    ensures
        r == tree_count_of(biome, base as int, lucky),
{
    let extra: i64 = if lucky {
        1
    } else {
        0
    };
    match biome {
        Biome::Taiga | Biome::RainForest | Biome::Forest => extra + base as i64 + 5,
        Biome::SeasonalForest => extra + base as i64 + 2,
        Biome::Desert | Biome::Tundra | Biome::Plains => extra - 20,
        _ => extra,
    }
}

/// Desert, tundra and plains grow no trees: whatever the base count and the lucky draw,
/// their count is at most `1 - 20`, and their tree population makes only the lucky draw
/// and leaves the quad as it was.
pub proof fn lemma_barren_biomes_grow_no_trees(
    biome: Biome,
    base: int,
    lucky: bool,
    q: QuadView,
    s: int,
    ids: BlockIds,
    ox: int,
    oz: int,
    big: spec_fn(QuadView, BlockPos, i64) -> QuadView,
)
    requires
        biome == Biome::Desert || biome == Biome::Tundra || biome == Biome::Plains,
    ensures
        tree_count_of(biome, base, lucky) <= 1 - 20,
        tree_population(q, s, ids, ox, oz, biome, base, big) == Some((q, i32_draw(s, Some(10)).0)),
{
    reveal(tree_population);
    assert(tree_count_of(biome, base, i32_draw(s, Some(10)).1 == 0) <= 0);
}

/// The forest biomes grow more trees the higher the base count, one more on a lucky
/// draw, and taiga, rain forest and forest 3 more than seasonal forest.
pub proof fn lemma_forest_tree_counts(base: int, lucky: bool)
    ensures
        tree_count_of(Biome::Forest, base, lucky) == tree_count_of(Biome::SeasonalForest, base, lucky) + 3,
        tree_count_of(Biome::Taiga, base, lucky) == tree_count_of(Biome::Forest, base, lucky),
        tree_count_of(Biome::RainForest, base, lucky) == tree_count_of(Biome::Forest, base, lucky),
        tree_count_of(Biome::Forest, base + 1, lucky) == tree_count_of(Biome::Forest, base, lucky) + 1,
        tree_count_of(Biome::Forest, base, true) == tree_count_of(Biome::Forest, base, false) + 1,
{
}

/// A plain tree of `min_height` plus a draw at `pos`, from state `s`: nothing but the
/// height draw where it does not fit, the grown tree and its corner draws where it does;
/// `None` where the quad does not determine a block the check reads.
pub open spec fn simple_tree(q: QuadView, ids: BlockIds, pos: BlockPos, s: int, min_height: int, log_id: i32, leaves_id: i32) -> Outcome {
    let height = simple_tree_height(s, min_height);
    let rule = plain_rule(pos, height);
    let s1 = i32_draw(s, Some(3)).0;
    if !tree_site_known(q, pos, height, rule) {
        None
    } else if !tree_fits(q, ids, pos, height, rule) {
        Some((q, s1))
    } else {
        Some(
            (
                tree_grown(q, ids, pos, simple_canopy(pos, s, min_height), simple_trunk(pos, s, min_height), log_id, leaves_id),
                draws_after(s1, corner_bounds(16)),
            ),
        )
    }
}

/// A tapering spruce at `pos` from state `s`, as `simple_tree` for plain trees.
pub open spec fn spruce1_tree(q: QuadView, ids: BlockIds, pos: BlockPos, s: int) -> Outcome {
    let shape = spruce1_shape(s);
    let rule = spruce_rule(pos.y + shape.2, shape.3);
    if !tree_site_known(q, pos, shape.1, rule) {
        None
    } else if !tree_fits(q, ids, pos, shape.1, rule) {
        Some((q, shape.0))
    } else {
        Some((tree_grown(q, ids, pos, spruce1_canopy(pos, s), spruce1_trunk(pos, s), ids.spruce_log, ids.spruce_leaves), shape.0))
    }
}

/// A wide spruce at `pos` from state `s`, as `simple_tree` for plain trees.
pub open spec fn spruce2_tree(q: QuadView, ids: BlockIds, pos: BlockPos, s: int) -> Outcome {
    let shape = spruce2_shape(s);
    let rule = spruce_rule(pos.y + shape.2, shape.3);
    let log = i32_draw(i32_draw(shape.0, Some(2)).0, Some(3));
    if !tree_site_known(q, pos, shape.1, rule) {
        None
    } else if !tree_fits(q, ids, pos, shape.1, rule) {
        Some((q, shape.0))
    } else {
        Some((tree_grown(q, ids, pos, spruce2_canopy(pos, s), spruce2_trunk(pos, s), ids.spruce_log, ids.spruce_leaves), log.0))
    }
}

/// One tree of the owner chunk with corner `(ox, oz)` and biome `biome`: a spot drawn 8
/// to 23 blocks from the corner, on the surface there, its kind drawn by
/// `tree_kind_draw`. A big oak draws an `i64` seed and leaves the quad `big` gives for
/// the quad, its position and that seed.
pub open spec fn tree_step(ids: BlockIds, ox: int, oz: int, biome: Biome, big: spec_fn(QuadView, BlockPos, i64) -> QuadView) -> spec_fn(QuadView, int) -> Outcome {
    |q: QuadView, s: int|
        {
            let a = i32_draw(s, Some(16));
            let b = i32_draw(a.0, Some(16));
            let x = ox + a.1 + 8;
            let z = oz + b.1 + 8;
            if !quad_covers(q, chunk_of(x), chunk_of(z)) {
                None
            } else {
                let pos = BlockPos { x: x as i32, y: surface_below(q, ids, x, z, 128) as i32, z: z as i32 };
                let kind = tree_kind_draw(biome, b.0);
                match kind.1 {
                    TreeKind::Spruce1 => spruce1_tree(q, ids, pos, kind.0),
                    TreeKind::Spruce2 => spruce2_tree(q, ids, pos, kind.0),
                    TreeKind::Birch => simple_tree(q, ids, pos, kind.0, 5, ids.birch_log, ids.birch_leaves),
                    TreeKind::Oak => simple_tree(q, ids, pos, kind.0, 4, ids.oak_log, ids.oak_leaves),
                    TreeKind::Big => {
                        let seed = <i64 as JavaRandType>::draw(kind.0, ());
                        Some((big(q, pos, seed.1), seed.0))
                    },
                }
            }
        }
}

/// The trees of the owner chunk with corner `(ox, oz)` and biome `biome`, from quad `q`
/// and state `s`, with `base` from the feature noise: a lucky draw (bound 10), then
/// `tree_count_of` trees one after another.
#[verifier::opaque]
pub open spec fn tree_population(
    q: QuadView,
    s: int,
    ids: BlockIds,
    ox: int,
    oz: int,
    biome: Biome,
    base: int,
    big: spec_fn(QuadView, BlockPos, i64) -> QuadView,
) -> Outcome {
    let lucky = i32_draw(s, Some(10));
    let count = tree_count_of(biome, base, lucky.1 == 0);
    repeat(Some((q, lucky.0)), tree_step(ids, ox, oz, biome, big), if count > 0 { count as nat } else { 0 })
}

/// The tree population of `biome` with base count `base` from quad `q` and state `s`
/// ends, where it is known, in quad `q2` and state `s2`.
#[verifier::opaque]
pub open spec fn trees_reached(
    q: QuadView,
    s: int,
    ids: BlockIds,
    ox: int,
    oz: int,
    biome: Biome,
    base: int,
    big: spec_fn(QuadView, BlockPos, i64) -> QuadView,
    q2: QuadView,
    s2: int,
) -> bool {
    reached(tree_population(q, s, ids, ox, oz, biome, base, big), q2, s2)
}

/// What tree population needs of a dimension beyond its terrain: the tree density of the
/// feature noise, and big oaks. Both work in floating point in the program around this
/// library.
///
/// Both are functions of the generator and the arguments alone, named by
/// `base_count_of` and `big_tree_of` (placeholder bodies, as in `TerrainSource`).
pub trait TreeSource {
    /// The count `base_tree_count` gives.
    closed spec fn base_count_of(&self, x: i32, z: i32, unit_bits: i64) -> i32 {
        vstd::pervasive::arbitrary()
    }

    /// The quad `place_big_tree` leaves, grown from quad `q`.
    closed spec fn big_tree_of(&self, q: QuadView, pos: BlockPos, seed: i64) -> QuadView {
        vstd::pervasive::arbitrary()
    }

    /// The base number of trees of the owner chunk whose corner is block `(x, z)`, from
    /// the feature noise there and a `double` draw made of the 53 bits `unit_bits`.
    fn base_tree_count(&self, x: i32, z: i32, unit_bits: i64) -> (r: i32)
        ensures
            r == self.base_count_of(x, z, unit_bits),
    ;

    /// Grows a big oak at `pos`, drawing from a generator of its own seeded with `seed`;
    /// the quad stays that of the same owner.
    fn place_big_tree(&self, buffer: &mut QuadChunkBuffer, pos: BlockPos, seed: i64) -> (r: bool)
        ensures
            final(buffer)@ == self.big_tree_of(old(buffer)@, pos, seed),
            final(buffer)@.x == old(buffer)@.x,
            final(buffer)@.z == old(buffer)@.z,
    ;
}

/// The big oaks of a generator, as `tree_step` takes them.
pub open spec fn big_trees<G: TreeSource>(generator: &G) -> spec_fn(QuadView, BlockPos, i64) -> QuadView {
    |q: QuadView, pos: BlockPos, seed: i64| generator.big_tree_of(q, pos, seed)
}

/// One tree of the owner chunk with corner `(origin_x, origin_z)`, as `tree_step`
/// states it.
fn grow_one_tree<G: TerrainSource + TreeSource>(
    generator: &G,
    buffer: &mut QuadChunkBuffer,
    origin_x: i32,
    origin_z: i32,
    block_ids: &BlockIds,
    biome: Biome,
    rand: &mut JavaRand,
)
    requires
        i32::MIN + 64 <= origin_x <= i32::MAX - 64,
        i32::MIN + 64 <= origin_z <= i32::MAX - 64,
    ensures
        reached(tree_step(*block_ids, origin_x as int, origin_z as int, biome, big_trees(generator))(old(buffer)@, old(rand)@), final(buffer)@, final(rand)@),
        old(buffer)@.x * 16 == origin_x && old(buffer)@.z * 16 == origin_z && biome == Biome::Taiga ==> tree_step(
            *block_ids,
            origin_x as int,
            origin_z as int,
            biome,
            big_trees(generator),
        )(old(buffer)@, old(rand)@) is Some,
        tree_step(*block_ids, origin_x as int, origin_z as int, biome, big_trees(generator))(old(buffer)@, old(rand)@) matches Some((q2, _)) ==> q2.x
            == old(buffer)@.x && q2.z == old(buffer)@.z,
{
    let ghost ids = *block_ids;
    let ghost q = buffer@;
    let ghost s = rand@;
    proof {
        buffer.lemma_wf();
        lemma_draw_range(*rand, 16);
    }
    let tree_x = origin_x + rand.random_with::<i32>(Bound::new(16)) + 8;
    proof {
        lemma_draw_range(*rand, 16);
    }
    let tree_z = origin_z + rand.random_with::<i32>(Bound::new(16)) + 8;
    let tree_y = surface_height(generator, buffer, block_ids, tree_x, tree_z);
    let pos = BlockPos { x: tree_x, y: tree_y, z: tree_z };
    proof {
        if q.x * 16 == origin_x && q.z * 16 == origin_z {
            lemma_owner_covers(q, q.x, q.z, pos);
            lemma_covers_around(q, pos, 8, pos.x as int, pos.z as int);
        }
        if quad_covers(q, chunk_of(tree_x as int), chunk_of(tree_z as int)) {
            assert(pos == BlockPos {
                x: (origin_x + i32_draw(s, Some(16)).1 + 8) as i32,
                y: surface_below(q, ids, tree_x as int, tree_z as int, 128) as i32,
                z: (origin_z + i32_draw(i32_draw(s, Some(16)).0, Some(16)).1 + 8) as i32,
            });
        }
    }
    match choose_tree(biome, rand) {
        TreeKind::Spruce1 => {
            place_spruce1_tree(generator, buffer, block_ids, pos, rand);
        },
        TreeKind::Spruce2 => {
            place_spruce2_tree(generator, buffer, block_ids, pos, rand);
        },
        TreeKind::Birch => {
            place_simple_tree(generator, buffer, block_ids, pos, 5, block_ids.birch_log, block_ids.birch_leaves, rand);
        },
        TreeKind::Big => {
            let seed = rand.random::<i64>();
            generator.place_big_tree(buffer, pos, seed);
        },
        TreeKind::Oak => {
            place_simple_tree(generator, buffer, block_ids, pos, 4, block_ids.oak_log, block_ids.oak_leaves, rand);
        },
    }
}

/// Grows the trees of owner chunk `(owner_x, owner_z)` of `biome`, with `base_count`
/// from the feature noise: a lucky draw (bound 10) adds one to `tree_count_of`; each tree
/// then stands at a drawn spot 8 to 23 blocks from the chunk's corner on the surface,
/// its kind drawn by `choose_tree`. A big oak always draws the seed of its own
/// generator (one `i64` draw) and grows what the dimension's `big_tree_of` gives
/// (`TreeSource`). `tree_population` follows every tree wherever the quad determines the
/// blocks read, and in the owner's own quad it follows all of a taiga's.
pub fn populate_trees<G: TerrainSource + TreeSource>(
    generator: &G,
    buffer: &mut QuadChunkBuffer,
    owner_x: i32,
    owner_z: i32,
    block_ids: &BlockIds,
    biome: Biome,
    base_count: i32,
    rand: &mut JavaRand,
)
    requires
        owner_in_range(owner_x as int),
        owner_in_range(owner_z as int),
    ensures
        tree_count_of(biome, base_count as int, i32_draw(old(rand)@, Some(10)).1 == 0) <= 0 ==> final(buffer)@ == old(buffer)@
            && final(rand)@ == i32_draw(old(rand)@, Some(10)).0,
        reached(
            tree_population(old(buffer)@, old(rand)@, *block_ids, owner_x * 16, owner_z * 16, biome, base_count as int, big_trees(generator)),
            final(buffer)@,
            final(rand)@,
        ),
        old(buffer)@.x == owner_x && old(buffer)@.z == owner_z && biome == Biome::Taiga ==> tree_population(
            old(buffer)@,
            old(rand)@,
            *block_ids,
            owner_x * 16,
            owner_z * 16,
            biome,
            base_count as int,
            big_trees(generator),
        ) is Some,
{
    reveal(tree_population);
    let ghost b0 = buffer@;
    let ghost ids = *block_ids;
    let origin_x = owner_x * 16;
    let origin_z = owner_z * 16;
    let lucky = rand.random_with::<i32>(Bound::new(10)) == 0;
    let ghost s1 = rand@;
    let ghost f = tree_step(ids, origin_x as int, origin_z as int, biome, big_trees(generator));
    let count = tree_count(biome, base_count, lucky);
    if count <= 0 {
        return;
    }
    let mut i: i64 = 0;
    while i < count
        invariant
            owner_in_range(owner_x as int),
            owner_in_range(owner_z as int),
            origin_x == owner_x * 16,
            origin_z == owner_z * 16,
            0 <= i <= count,
            ids == *block_ids,
            f == tree_step(ids, origin_x as int, origin_z as int, biome, big_trees(generator)),
            reached(repeat(Some((b0, s1)), f, i as nat), buffer@, rand@),
            b0.x == owner_x && b0.z == owner_z && biome == Biome::Taiga ==> repeat(Some((b0, s1)), f, i as nat) is Some,
            repeat(Some((b0, s1)), f, i as nat) matches Some((q, _)) ==> q.x == b0.x && q.z == b0.z,
        decreases count - i,
    {
        grow_one_tree(generator, buffer, origin_x, origin_z, block_ids, biome, rand);
        proof {
            assert(repeat(Some((b0, s1)), f, (i + 1) as nat) == and_then(repeat(Some((b0, s1)), f, i as nat), f));
        }
        i += 1;
    }
}

/// Grows the trees of owner chunk `(owner_x, owner_z)`: the biome the climate gives at
/// the centre of its population area, the base count from the feature noise and a
/// `double` draw, then `populate_trees`.
#[verifier::rlimit(40)]
pub fn populate_from<G: TerrainSource + ClimateSource + TreeSource>(
    generator: &G,
    buffer: &mut QuadChunkBuffer,
    owner_x: i32,
    owner_z: i32,
    block_ids: &BlockIds,
    rand: &mut JavaRand,
)
    requires
        owner_in_range(owner_x as int),
        owner_in_range(owner_z as int),
    ensures
        trees_reached(
            old(buffer)@,
            double_bits_draw(old(rand)@).0,
            *block_ids,
            owner_x * 16,
            owner_z * 16,
            generator.biome_of((owner_x * 16 + 16) as i32, (owner_z * 16 + 16) as i32),
            generator.base_count_of((owner_x * 16) as i32, (owner_z * 16) as i32, double_bits_draw(old(rand)@).1) as int,
            big_trees(generator),
            final(buffer)@,
            final(rand)@,
        ),
        old(buffer)@.x == owner_x && old(buffer)@.z == owner_z && generator.biome_of(
            (owner_x * 16 + 16) as i32,
            (owner_z * 16 + 16) as i32,
        ) == Biome::Taiga ==> tree_population(
            old(buffer)@,
            double_bits_draw(old(rand)@).0,
            *block_ids,
            owner_x * 16,
            owner_z * 16,
            Biome::Taiga,
            generator.base_count_of((owner_x * 16) as i32, (owner_z * 16) as i32, double_bits_draw(old(rand)@).1) as int,
            big_trees(generator),
        ) is Some,
{
    let origin_x = owner_x * 16;
    let origin_z = owner_z * 16;
    let biome = generator.biome_at(origin_x + 16, origin_z + 16);
    let ghost b0 = buffer@;
    let unit_bits = double_bits(rand);
    let ghost s1 = rand@;
    let base_count = generator.base_tree_count(origin_x, origin_z, unit_bits);
    populate_trees(generator, buffer, owner_x, owner_z, block_ids, biome, base_count, rand);
    assert(trees_reached(b0, s1, *block_ids, owner_x * 16, owner_z * 16, biome, base_count as int, big_trees(generator), buffer@, rand@)) by {
        reveal(trees_reached);
    }
    assert(s1 == double_bits_draw(old(rand)@).0);
    assert(b0 == old(buffer)@);
}

} // verus!
