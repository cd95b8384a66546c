//! Small plants scattered around a spot: flowers, grass, dead bushes, mushrooms, sugar
//! cane, pumpkins and cacti.
use super::block_ids::BlockIds;
use super::quad_chunk_buffer::{
    QuadChunkBuffer, QuadView, changed_only_to, chunk_of, covers_around, known_block, lemma_changed_only_to_refl,
    lemma_changed_only_to_write, lemma_covers_around, lemma_known_after_write_all, quad_after_write, quad_block, quad_covers,
    quad_holds, quad_wf, quad_with_block, read, world_block,
};
use super::tree::{is_leaves, leaves};
use super::{BlockPos, TerrainSource, horizontal_face, scatter_around, scatter_bounds, scattered, well_inside};
use crate::rand::java::JavaRand;
use crate::rand::lcg::{is_state, lemma_bounded_draw_range};
use crate::rand::primitives::{Bound, draws_after, i32_draw, lemma_draw_range, lemma_draws_after_concat, repeated};
use vstd::prelude::*;

verus! {

/// What a plant needs under it.
#[derive(Clone, Copy, Debug, PartialEq, Eq, Structural)]
pub enum SupportRule {
    /// Grass or dirt (flowers, tall grass).
    GrassOrDirt,
    /// Sand (dead bushes).
    Sand,
    /// Anything but air or water (mushrooms).
    NotAirOrWater,
}

/// The block `support` holds a plant that needs `rule`.
pub open spec fn supports(rule: SupportRule, ids: BlockIds, support: i32) -> bool {
    match rule {
        SupportRule::GrassOrDirt => support == ids.grass || support == ids.dirt,
        SupportRule::Sand => support == ids.sand,
        SupportRule::NotAirOrWater => support != ids.air && support != ids.water,
    }
}

pub fn is_valid_support(rule: SupportRule, block_ids: &BlockIds, support: i32) -> (r: bool)
    ensures
        r == supports(rule, *block_ids, support),
{
    match rule {
        SupportRule::GrassOrDirt => support == block_ids.grass || support == block_ids.dirt,
        SupportRule::Sand => support == block_ids.sand,
        SupportRule::NotAirOrWater => support != block_ids.air && support != block_ids.water,
    }
}

/// What the block under a position the quad holds reads as: the quad's block, or `-1`
/// below the world.
pub open spec fn block_below(q: QuadView, p: BlockPos) -> i32 {
    match known_block(q, p.x as int, p.y - 1, p.z as int) {
        Some(v) => v,
        None => -1i32,
    }
}

/// One plant of `plant_id` at `p`: placed where the quad holds `p`, it is air, and the
/// block below meets `rule`; anywhere else nothing changes.
pub open spec fn plant_at(q: QuadView, ids: BlockIds, rule: SupportRule, plant_id: i32, p: BlockPos) -> QuadView {
    if quad_holds(q, p.x as int, p.y as int, p.z as int) && quad_block(q, p.x as int, p.y as int, p.z as int) == ids.air
        && supports(rule, ids, block_below(q, p)) {
        quad_with_block(q, p.x as int, p.y as int, p.z as int, plant_id)
    } else {
        q
    }
}

/// The quad after the first `n` plants of a patch around `center`, scattered from state
/// `s` one after another.
pub open spec fn plants_after(q: QuadView, ids: BlockIds, rule: SupportRule, plant_id: i32, center: BlockPos, s: int, n: nat) -> QuadView
    decreases n,
{
    if n == 0 {
        q
    } else {
        let k = (n - 1) as nat;
        plant_at(
            plants_after(q, ids, rule, plant_id, center, s, k),
            ids,
            rule,
            plant_id,
            scattered(draws_after(s, repeated(scatter_bounds(), k)), center),
        )
    }
}

/// Where a patch that looks for the ground starts: `pos` moved down through air and
/// leaves, not below layer 0.
pub open spec fn ground_of(q: QuadView, ids: BlockIds, pos: BlockPos) -> BlockPos
    decreases pos.y,
{
    if pos.y <= 0 {
        pos
    } else if known_block(q, pos.x as int, pos.y as int, pos.z as int) matches Some(v) && !(v == ids.air || leaves(ids, v)) {
        pos
    } else {
        ground_of(q, ids, BlockPos { y: (pos.y - 1) as i32, ..pos })
    }
}

/// Where a patch that looks for the ground starts, as `read` shows the world: `pos`
/// moved down through air and leaves, not below layer 0.
pub open spec fn world_ground_of<G: TerrainSource>(generator: &G, q: QuadView, ids: BlockIds, pos: BlockPos) -> BlockPos
    decreases pos.y,
{
    if pos.y <= 0 {
        pos
    } else if !(world_block(generator, q, pos.x as int, pos.y as int, pos.z as int) == ids.air || leaves(
        ids,
        world_block(generator, q, pos.x as int, pos.y as int, pos.z as int),
    )) {
        pos
    } else {
        world_ground_of(generator, q, ids, BlockPos { y: (pos.y - 1) as i32, ..pos })
    }
}

/// A patch of `count` single plants of `plant_id` scattered around `pos`: each
/// scattered spot that is air over a block meeting `rule` gets one (`plant_at`). With
/// `find_ground`, `pos` first moves down through air and leaves to the ground (not below
/// layer 0); where the quad holds the column of `pos`, that is `ground_of`.
#[allow(clippy::too_many_arguments)]
pub fn place_plants<G: TerrainSource>(
    generator: &G,
    buffer: &mut QuadChunkBuffer,
    pos: BlockPos,
    block_ids: &BlockIds,
    plant_id: i32,
    count: i32,
    find_ground: bool,
    rand: &mut JavaRand,
    rule: SupportRule,
)
    requires
        well_inside(pos, 16),
    ensures
        changed_only_to(old(buffer)@, final(buffer)@, set![plant_id]),
        final(rand)@ == draws_after(old(rand)@, repeated(scatter_bounds(), if count > 0 { count as nat } else { 0 })),
        !find_ground ==> final(buffer)@ == plants_after(
            old(buffer)@,
            *block_ids,
            rule,
            plant_id,
            pos,
            old(rand)@,
            if count > 0 { count as nat } else { 0 },
        ),
        find_ground ==> final(buffer)@ == plants_after(
            old(buffer)@,
            *block_ids,
            rule,
            plant_id,
            world_ground_of(generator, old(buffer)@, *block_ids, pos),
            old(rand)@,
            if count > 0 { count as nat } else { 0 },
        ),
        find_ground && quad_covers(old(buffer)@, chunk_of(pos.x as int), chunk_of(pos.z as int)) ==> final(buffer)@
            == plants_after(
            old(buffer)@,
            *block_ids,
            rule,
            plant_id,
            ground_of(old(buffer)@, *block_ids, pos),
            old(rand)@,
            if count > 0 { count as nat } else { 0 },
        ),
{
    let ghost b0 = buffer@;
    let ghost s0 = rand@;
    proof {
        buffer.lemma_wf();
        lemma_changed_only_to_refl(b0, set![plant_id]);
    }
    let mut pos = pos;
    if find_ground {
        let ghost start = pos;
        loop
            invariant
                buffer@ == b0,
                well_inside(pos, 16),
                pos.x == start.x,
                pos.z == start.z,
                quad_covers(b0, chunk_of(start.x as int), chunk_of(start.z as int)) ==> ground_of(b0, *block_ids, pos)
                    == ground_of(b0, *block_ids, start),
                world_ground_of(generator, b0, *block_ids, pos) == world_ground_of(generator, b0, *block_ids, start),
            ensures
                well_inside(pos, 16),
                quad_covers(b0, chunk_of(start.x as int), chunk_of(start.z as int)) ==> pos == ground_of(b0, *block_ids, start),
                pos == world_ground_of(generator, b0, *block_ids, start),
            decreases pos.y,
        {
            if pos.y <= 0 {
                break;
            }
            let id = read(generator, buffer, pos.x, pos.y, pos.z);
            if id != block_ids.air && !is_leaves(block_ids, id) {
                proof {
                    if quad_covers(b0, chunk_of(start.x as int), chunk_of(start.z as int)) {
                        assert(known_block(b0, pos.x as int, pos.y as int, pos.z as int) == Some(id));
                    }
                }
                break;
            }
            proof {
                if quad_covers(b0, chunk_of(start.x as int), chunk_of(start.z as int)) {
                    assert(known_block(b0, pos.x as int, pos.y as int, pos.z as int) == Some(id));
                    assert(ground_of(b0, *block_ids, pos) == ground_of(b0, *block_ids, BlockPos { y: (pos.y - 1) as i32, ..pos }));
                }
            }
            pos.y = pos.y - 1;
        }
    }
    let center = pos;
    let mut i: i32 = 0;
    while i < count
        invariant
            well_inside(center, 16),
            0 <= i,
            count > 0 ==> i <= count,
            count <= 0 ==> i == 0,
            quad_wf(b0),
            quad_wf(buffer@),
            changed_only_to(b0, buffer@, set![plant_id]),
            rand@ == draws_after(s0, repeated(scatter_bounds(), i as nat)),
            buffer@ == plants_after(b0, *block_ids, rule, plant_id, center, s0, i as nat),
        decreases count - i,
    {
        proof {
            lemma_draws_after_concat(s0, repeated(scatter_bounds(), i as nat), scatter_bounds());
            assert(repeated(scatter_bounds(), (i + 1) as nat) == repeated(scatter_bounds(), i as nat) + scatter_bounds());
        }
        let ghost q = buffer@;
        let place = scatter_around(rand, center);
        i += 1;
        proof {
            assert((i - 1) as nat == (i as nat - 1) as nat);
        }
        if read(generator, buffer, place.x, place.y, place.z) == block_ids.air {
            let support = read(generator, buffer, place.x, place.y - 1, place.z);
            if is_valid_support(rule, block_ids, support) {
                let ghost mid = buffer@;
                crate::level::generator::shared::quad_chunk_buffer::write(buffer, place.x, place.y, place.z, plant_id);
                proof {
                    lemma_changed_only_to_write(b0, mid, buffer@, set![plant_id], place.x as int, place.y as int, place.z as int, plant_id);
                    lemma_known_after_write_all(mid, place.x as int, place.y as int, place.z as int, plant_id);
                    if quad_holds(q, place.x as int, place.y as int, place.z as int) {
                        assert(known_block(q, place.x as int, place.y - 1, place.z as int) is Some);
                    }
                }
            }
        }
        proof {
            if quad_holds(q, place.x as int, place.y as int, place.z as int) {
                assert(known_block(q, place.x as int, place.y - 1, place.z as int) is Some);
            }
        }
    }
}

/// A horizontal neighbour of `p` (`-z, +z, -x, +x` for `face` `0..4`).
fn horizontal_neighbor(p: BlockPos, face: u32) -> (r: BlockPos)
    requires
        well_inside(p, 1),
        face < 4,
    ensures
        r == (if face == 0 {
            BlockPos { z: (p.z - 1) as i32, ..p }
        } else if face == 1 {
            BlockPos { z: (p.z + 1) as i32, ..p }
        } else if face == 2 {
            BlockPos { x: (p.x - 1) as i32, ..p }
        } else {
            BlockPos { x: (p.x + 1) as i32, ..p }
        }),
{
    if face == 0 {
        p.offset(0, 0, -1)
    } else if face == 1 {
        p.offset(0, 0, 1)
    } else if face == 2 {
        p.offset(-1, 0, 0)
    } else {
        p.offset(1, 0, 0)
    }
}

/// What the quad determines of the horizontal neighbour `face` (`-z, +z, -x, +x`) of
/// `p`.
pub open spec fn known_beside(q: QuadView, p: BlockPos, face: int) -> Option<i32> {
    known_block(q, p.x + horizontal_face(face).0, p.y as int, p.z + horizontal_face(face).1)
}

/// Whether any horizontal neighbour of `p` is water; it is whenever the quad shows water
/// beside `p`.
fn touches_water<G: TerrainSource>(generator: &G, buffer: &QuadChunkBuffer, block_ids: &BlockIds, p: BlockPos) -> (r: bool)
    requires
        well_inside(p, 1),
    ensures
        known_beside(buffer@, p, 0) == Some(block_ids.water) || known_beside(buffer@, p, 1) == Some(block_ids.water)
            || known_beside(buffer@, p, 2) == Some(block_ids.water) || known_beside(buffer@, p, 3) == Some(block_ids.water) ==> r,
{
    let mut face: u32 = 0;
    while face < 4
        invariant
            well_inside(p, 1),
            face <= 4,
            forall|f: int| 0 <= f < face ==> known_beside(buffer@, p, f) != Some(block_ids.water),
        decreases 4 - face,
    {
        let n = horizontal_neighbor(p, face);
        if read(generator, buffer, n.x, n.y, n.z) == block_ids.water {
            return true;
        }
        face += 1;
    }
    false
}

/// A sugar cane spot drawn around `center` from state `s`: `x` and `z` move by the
/// difference of two draws in `[0, 4)` each, `y` stays. The state after and the spot.
pub open spec fn cane_spot(s: int, center: BlockPos) -> (int, BlockPos) {
    let a = i32_draw(s, Some(4));
    let b = i32_draw(a.0, Some(4));
    let c = i32_draw(b.0, Some(4));
    let d = i32_draw(c.0, Some(4));
    (d.0, BlockPos { x: (center.x + (a.1 - b.1)) as i32, z: (center.z + (c.1 - d.1)) as i32, ..center })
}

/// Face `f` of the block below an air spot `p`, from state `s`: where the quad shows
/// water there, a height is drawn (bound 3, then a bound of one more than that draw,
/// plus two) and, over grass or dirt, that much cane is stacked from `p` up.
pub open spec fn cane_face(q: QuadView, ids: BlockIds, p: BlockPos, s: int, f: int) -> Option<(QuadView, int)> {
    let below = BlockPos { y: (p.y - 1) as i32, ..p };
    match known_beside(q, below, f) {
        None => None,
        Some(w) => if w != ids.water {
            Some((q, s))
        } else {
            let a = i32_draw(s, Some(3));
            let b = i32_draw(a.0, Some(a.1 + 1));
            match known_block(q, p.x as int, p.y - 1, p.z as int) {
                None => None,
                Some(g) => Some(
                    (if g == ids.grass || g == ids.dirt {
                        column_written(q, p, b.1 + 2, ids.reeds)
                    } else {
                        q
                    }, b.0),
                ),
            }
        },
    }
}

/// The first `n` faces of the block below an air spot `p`, one after another.
pub open spec fn cane_faces(q: QuadView, ids: BlockIds, p: BlockPos, s: int, n: nat) -> Option<(QuadView, int)>
    decreases n,
{
    if n == 0 {
        Some((q, s))
    } else {
        match cane_faces(q, ids, p, s, (n - 1) as nat) {
            None => None,
            Some((q1, s1)) => cane_face(q1, ids, p, s1, n - 1),
        }
    }
}

/// One sugar cane spot `p` from state `s`: nothing where `p` is not air, else its four
/// faces.
pub open spec fn cane_step(q: QuadView, ids: BlockIds, p: BlockPos, s: int) -> Option<(QuadView, int)> {
    match known_block(q, p.x as int, p.y as int, p.z as int) {
        None => None,
        Some(here) => if here != ids.air {
            Some((q, s))
        } else {
            cane_faces(q, ids, p, s, 4)
        },
    }
}

/// The first `n` sugar cane spots around `center` from state `s`, one after another.
pub open spec fn canes_after(q: QuadView, ids: BlockIds, center: BlockPos, s: int, n: nat) -> Option<(QuadView, int)>
    decreases n,
{
    if n == 0 {
        Some((q, s))
    } else {
        match canes_after(q, ids, center, s, (n - 1) as nat) {
            None => None,
            Some((q1, s1)) => cane_step(q1, ids, cane_spot(s1, center).1, cane_spot(s1, center).0),
        }
    }
}

/// Sugar cane around `pos`: 20 spots are drawn at `pos`'s height; at each air spot,
/// every horizontal neighbour of the block below that is water draws a height in
/// `2..=4` and, when that block is grass or dirt beside water, stacks that much cane
/// (`canes_after`, where the quad determines every block read, as it does wherever it
/// covers the columns within 8 of `pos`).
pub fn place_sugar_canes<G: TerrainSource>(generator: &G, buffer: &mut QuadChunkBuffer, pos: BlockPos, block_ids: &BlockIds, rand: &mut JavaRand)
    requires
        well_inside(pos, 16),
    ensures
        changed_only_to(old(buffer)@, final(buffer)@, set![block_ids.reeds]),
        canes_after(old(buffer)@, *block_ids, pos, old(rand)@, 20) matches Some((q, s)) ==> final(buffer)@ == q && final(rand)@ == s,
        covers_around(old(buffer)@, pos, 8) ==> canes_after(old(buffer)@, *block_ids, pos, old(rand)@, 20) is Some,
{
    let ghost b0 = buffer@;
    let ghost s0 = rand@;
    let ghost ids = set![block_ids.reeds];
    proof {
        buffer.lemma_wf();
        lemma_changed_only_to_refl(b0, ids);
    }
    for i in 0..20u32
        invariant
            well_inside(pos, 16),
            quad_wf(b0),
            quad_wf(buffer@),
            ids == set![block_ids.reeds],
            changed_only_to(b0, buffer@, ids),
            canes_after(b0, *block_ids, pos, s0, i as nat) matches Some((q, s)) ==> buffer@ == q && rand@ == s,
            covers_around(b0, pos, 8) ==> canes_after(b0, *block_ids, pos, s0, i as nat) is Some,
    {
        let ghost qs = buffer@;
        let ghost ss = rand@;
        proof {
            lemma_draw_range(*rand, 4);
        }
        let a = rand.random_with::<i32>(Bound::new(4));
        proof {
            lemma_draw_range(*rand, 4);
        }
        let b = rand.random_with::<i32>(Bound::new(4));
        proof {
            lemma_draw_range(*rand, 4);
        }
        let c = rand.random_with::<i32>(Bound::new(4));
        proof {
            lemma_draw_range(*rand, 4);
        }
        let d = rand.random_with::<i32>(Bound::new(4));
        let place = pos.offset(a - b, 0, c - d);
        proof {
            assert((i + 1) as nat - 1 == i as nat);
            assert(cane_spot(ss, pos) == (rand@, place));
        }
        if read(generator, buffer, place.x, place.y, place.z) == block_ids.air {
            let below = place.offset(0, -1, 0);
            let ghost s_spot = rand@;
            let mut face: u32 = 0;
            while face < 4
                invariant
                    well_inside(pos, 16),
                    place.x == pos.x + (a - b),
                    place.y == pos.y,
                    place.z == pos.z + (c - d),
                    -4 < a - b < 4,
                    -4 < c - d < 4,
                    below == (BlockPos { y: (place.y - 1) as i32, ..place }),
                    face <= 4,
                    quad_wf(b0),
                    quad_wf(qs),
                    quad_wf(buffer@),
                    ids == set![block_ids.reeds],
                    changed_only_to(b0, buffer@, ids),
                    forall|x: int, y: int, z: int|
                        !(x == place.x && z == place.z && y >= place.y) ==> #[trigger] known_block(buffer@, x, y, z) == known_block(qs, x, y, z),
                    cane_faces(qs, *block_ids, place, s_spot, face as nat) matches Some((q, s)) ==> buffer@ == q && rand@ == s,
                    covers_around(b0, pos, 8) && canes_after(b0, *block_ids, pos, s0, i as nat) is Some ==> cane_faces(
                        qs,
                        *block_ids,
                        place,
                        s_spot,
                        face as nat,
                    ) is Some,
                decreases 4 - face,
            {
                let ghost qf = buffer@;
                let water = horizontal_neighbor(below, face);
                proof {
                    if covers_around(b0, pos, 8) {
                        lemma_covers_around(b0, pos, 8, water.x as int, water.z as int);
                        lemma_covers_around(b0, pos, 8, below.x as int, below.z as int);
                    }
                    assert((face + 1) as nat - 1 == face as nat);
                    assert(known_block(buffer@, water.x as int, water.y as int, water.z as int) == known_beside(buffer@, below, face as int));
                    assert(known_block(buffer@, below.x as int, below.y as int, below.z as int) == known_block(qs, below.x as int, below.y as int, below.z as int));
                }
                face += 1;
                if read(generator, buffer, water.x, water.y, water.z) == block_ids.water {
                    proof {
                        lemma_draw_range(*rand, 3);
                    }
                    let v = rand.random_with::<i32>(Bound::new(3)) + 1;
                    proof {
                        lemma_draw_range(*rand, v as int);
                    }
                    let height = rand.random_with::<i32>(Bound::new(v)) + 2;
                    let ground = read(generator, buffer, below.x, below.y, below.z);
                    let can_place = (ground == block_ids.grass || ground == block_ids.dirt) && touches_water(
                        generator,
                        buffer,
                        block_ids,
                        below,
                    );
                    if can_place {
                        let mut dy: i32 = 0;
                        while dy < height
                            invariant
                                well_inside(pos, 16),
                                place.y == pos.y,
                                -4 < place.x - pos.x < 4,
                                -4 < place.z - pos.z < 4,
                                0 <= dy <= height <= 4,
                                quad_wf(b0),
                                quad_wf(buffer@),
                                ids == set![block_ids.reeds],
                                changed_only_to(b0, buffer@, ids),
                                forall|x: int, y: int, z: int|
                                    !(x == place.x && z == place.z && y >= place.y) ==> #[trigger] known_block(buffer@, x, y, z)
                                        == known_block(qs, x, y, z),
                                buffer@ == column_written(qf, place, dy as int, block_ids.reeds),
                            decreases height - dy,
                        {
                            let ghost mid = buffer@;
                            crate::level::generator::shared::quad_chunk_buffer::write(buffer, place.x, place.y + dy, place.z, block_ids.reeds);
                            proof {
                                lemma_changed_only_to_write(b0, mid, buffer@, ids, place.x as int, place.y + dy, place.z as int, block_ids.reeds);
                                lemma_known_after_write_all(mid, place.x as int, place.y + dy, place.z as int, block_ids.reeds);
                            }
                            dy += 1;
                        }
                    }
                }
            }
        }
    }
}

/// One pumpkin spot `p`, its scatter drawn, from state `s`: where the quad shows air at
/// `p` over grass, the facing is drawn (bound 4) and a pumpkin placed. The quad after and
/// the state after, or `None` where the quad does not determine the blocks read.
pub open spec fn pumpkin_step(q: QuadView, ids: BlockIds, p: BlockPos, s: int) -> Option<(QuadView, int)> {
    match known_block(q, p.x as int, p.y as int, p.z as int) {
        None => None,
        Some(here) => if here != ids.air {
            Some((q, s))
        } else {
            match known_block(q, p.x as int, p.y - 1, p.z as int) {
                None => None,
                Some(below) => if below == ids.grass {
                    Some((quad_after_write(q, p.x as int, p.y as int, p.z as int, ids.pumpkin), i32_draw(s, Some(4)).0))
                } else {
                    Some((q, s))
                },
            }
        },
    }
}

/// The first `n` pumpkin spots around `center` from state `s`, one after another.
pub open spec fn pumpkins_after(q: QuadView, ids: BlockIds, center: BlockPos, s: int, n: nat) -> Option<(QuadView, int)>
    decreases n,
{
    if n == 0 {
        Some((q, s))
    } else {
        match pumpkins_after(q, ids, center, s, (n - 1) as nat) {
            None => None,
            Some((q1, s1)) => pumpkin_step(q1, ids, scattered(s1, center), draws_after(s1, scatter_bounds())),
        }
    }
}

/// Pumpkins around `pos`: of 64 scattered spots, each that is air over grass draws a
/// facing and gets a pumpkin (`pumpkins_after`, where the quad determines every block
/// read, as it does wherever it covers the columns within 8 of `pos`).
pub fn place_pumpkin<G: TerrainSource>(generator: &G, buffer: &mut QuadChunkBuffer, pos: BlockPos, block_ids: &BlockIds, rand: &mut JavaRand)
    requires
        well_inside(pos, 16),
    ensures
        changed_only_to(old(buffer)@, final(buffer)@, set![block_ids.pumpkin]),
        pumpkins_after(old(buffer)@, *block_ids, pos, old(rand)@, 64) matches Some((q, s)) ==> final(buffer)@ == q && final(rand)@ == s,
        covers_around(old(buffer)@, pos, 8) ==> pumpkins_after(old(buffer)@, *block_ids, pos, old(rand)@, 64) is Some,
{
    let ghost b0 = buffer@;
    let ghost s0 = rand@;
    let ghost ids = set![block_ids.pumpkin];
    proof {
        buffer.lemma_wf();
        lemma_changed_only_to_refl(b0, ids);
    }
    for i in 0..64u32
        invariant
            well_inside(pos, 16),
            quad_wf(b0),
            ids == set![block_ids.pumpkin],
            changed_only_to(b0, buffer@, ids),
            pumpkins_after(b0, *block_ids, pos, s0, i as nat) matches Some((q, s)) ==> buffer@ == q && rand@ == s,
            covers_around(b0, pos, 8) ==> pumpkins_after(b0, *block_ids, pos, s0, i as nat) is Some,
    {
        let ghost q = buffer@;
        let ghost s = rand@;
        let place = scatter_around(rand, pos);
        proof {
            assert((i + 1) as nat - 1 == i as nat);
            if covers_around(b0, pos, 8) {
                lemma_covers_around(b0, pos, 8, place.x as int, place.z as int);
                assert(quad_covers(q, chunk_of(place.x as int), chunk_of(place.z as int)));
            }
        }
        if read(generator, buffer, place.x, place.y, place.z) == block_ids.air
            && read(generator, buffer, place.x, place.y - 1, place.z) == block_ids.grass {
            // The facing is not modelled, but its draw keeps the stream in step.
            let _facing = rand.random_with::<i32>(Bound::new(4));
            let ghost mid = buffer@;
            crate::level::generator::shared::quad_chunk_buffer::write(buffer, place.x, place.y, place.z, block_ids.pumpkin);
            proof {
                lemma_changed_only_to_write(b0, mid, buffer@, ids, place.x as int, place.y as int, place.z as int, block_ids.pumpkin);
            }
        }
    }
}

/// A cactus can stand at `pos` when its four horizontal neighbours are air or water and
/// the block below is cactus or sand.
pub open spec fn cactus_rule(ids: BlockIds, a: i32, b: i32, c: i32, d: i32, below: i32) -> bool {
    &&& (a == ids.air || a == ids.water)
    &&& (b == ids.air || b == ids.water)
    &&& (c == ids.air || c == ids.water)
    &&& (d == ids.air || d == ids.water)
    &&& (below == ids.cactus || below == ids.sand)
}

/// A cactus stands on sand (or on cactus) with air or water on all four sides; over any
/// other block it cannot stand, and a solid side rules it out.
pub proof fn lemma_cactus_stands_on_sand(ids: BlockIds, a: i32, b: i32, c: i32, d: i32, below: i32)
    ensures
        (a == ids.air || a == ids.water) && (b == ids.air || b == ids.water) && (c == ids.air || c == ids.water) && (d
            == ids.air || d == ids.water) && below == ids.sand ==> cactus_rule(ids, a, b, c, d, below),
        below != ids.sand && below != ids.cactus ==> !cactus_rule(ids, a, b, c, d, below),
        a != ids.air && a != ids.water ==> !cactus_rule(ids, a, b, c, d, below),
{
}

/// Where a cactus spot is air, its four sides are air or water and sand lies below it, the
/// spot gets cactus: at least one block, at the spot itself.
pub proof fn lemma_cactus_grows_on_sand(q: QuadView, ids: BlockIds, p: BlockPos, s: int)
    requires
        is_state(s),
        quad_wf(q),
        quad_holds(q, p.x as int, p.y as int, p.z as int),
        known_block(q, p.x as int, p.y as int, p.z as int) == Some(ids.air),
        known_block(q, p.x as int, p.y as int, p.z - 1) matches Some(v) && (v == ids.air || v == ids.water),
        known_block(q, p.x as int, p.y as int, p.z + 1) matches Some(v) && (v == ids.air || v == ids.water),
        known_block(q, p.x - 1, p.y as int, p.z as int) matches Some(v) && (v == ids.air || v == ids.water),
        known_block(q, p.x + 1, p.y as int, p.z as int) matches Some(v) && (v == ids.air || v == ids.water),
        known_block(q, p.x as int, p.y - 1, p.z as int) == Some(ids.sand),
    ensures
        cactus_step(q, ids, p, s) matches Some((q2, _)) && known_block(q2, p.x as int, p.y as int, p.z as int) == Some(ids.cactus),
{
    let a = i32_draw(s, Some(3));
    let b = i32_draw(a.0, Some(a.1 + 1));
    lemma_bounded_draw_range(s, 3);
    lemma_bounded_draw_range(a.0, a.1 + 1);
    lemma_column_written_base(q, p, b.1 + 1, ids.cactus);
}

/// Stacking `id` from `p` up, `h >= 1` blocks high, puts `id` at `p` where the quad
/// holds it.
proof fn lemma_column_written_base(q: QuadView, p: BlockPos, h: int, id: i32)
    requires
        quad_wf(q),
        h >= 1,
        quad_holds(q, p.x as int, p.y as int, p.z as int),
    ensures
        quad_wf(column_written(q, p, h, id)),
        known_block(column_written(q, p, h, id), p.x as int, p.y as int, p.z as int) == Some(id),
    decreases h,
{
    if h == 1 {
        assert(column_written(q, p, 0, id) == q);
        lemma_known_after_write_all(q, p.x as int, p.y as int, p.z as int, id);
    } else {
        lemma_column_written_base(q, p, h - 1, id);
        let prev = column_written(q, p, h - 1, id);
        lemma_known_after_write_all(prev, p.x as int, p.y + h - 1, p.z as int, id);
    }
}

pub fn can_place_cactus<G: TerrainSource>(generator: &G, buffer: &QuadChunkBuffer, block_ids: &BlockIds, pos: BlockPos) -> (r: bool)
    requires
        well_inside(pos, 1),
    ensures
        ({
            let q = buffer@;
            let k = |dx: int, dy: int, dz: int| known_block(q, pos.x + dx, pos.y + dy, pos.z + dz);
            match (k(0, 0, -1), k(0, 0, 1), k(-1, 0, 0), k(1, 0, 0), k(0, -1, 0)) {
                (Some(a), Some(b), Some(c), Some(d), Some(below)) => r == cactus_rule(*block_ids, a, b, c, d, below),
                _ => true,
            }
        }),
{
    let a = read(generator, buffer, pos.x, pos.y, pos.z - 1);
    if a != block_ids.air && a != block_ids.water {
        return false;
    }
    let b = read(generator, buffer, pos.x, pos.y, pos.z + 1);
    if b != block_ids.air && b != block_ids.water {
        return false;
    }
    let c = read(generator, buffer, pos.x - 1, pos.y, pos.z);
    if c != block_ids.air && c != block_ids.water {
        return false;
    }
    let d = read(generator, buffer, pos.x + 1, pos.y, pos.z);
    if d != block_ids.air && d != block_ids.water {
        return false;
    }
    let below = read(generator, buffer, pos.x, pos.y - 1, pos.z);
    below == block_ids.cactus || below == block_ids.sand
}

/// The quad with `id` written at `p` and at the `h - 1` blocks above it.
pub open spec fn column_written(q: QuadView, p: BlockPos, h: int, id: i32) -> QuadView
    decreases h,
{
    if h <= 0 {
        q
    } else {
        quad_after_write(column_written(q, p, h - 1, id), p.x as int, p.y + h - 1, p.z as int, id)
    }
}

/// One cactus spot `p`, its scatter drawn, from state `s`: where the quad shows air at
/// `p`, a height is drawn (bound 3, then a bound of one more than that draw, plus one)
/// and, where `cactus_rule` holds at `p`, that many cactus blocks are stacked from `p`
/// up. The quad after and the state after, or `None` where the quad does not determine
/// the blocks read.
pub open spec fn cactus_step(q: QuadView, ids: BlockIds, p: BlockPos, s: int) -> Option<(QuadView, int)> {
    match known_block(q, p.x as int, p.y as int, p.z as int) {
        None => None,
        Some(here) => if here != ids.air {
            Some((q, s))
        } else {
            let a = i32_draw(s, Some(3));
            let b = i32_draw(a.0, Some(a.1 + 1));
            let k = |dx: int, dy: int, dz: int| known_block(q, p.x + dx, p.y + dy, p.z + dz);
            match (k(0, 0, -1), k(0, 0, 1), k(-1, 0, 0), k(1, 0, 0), k(0, -1, 0)) {
                (Some(n0), Some(n1), Some(n2), Some(n3), Some(below)) => Some(
                    (
                        if cactus_rule(ids, n0, n1, n2, n3, below) {
                            column_written(q, p, b.1 + 1, ids.cactus)
                        } else {
                            q
                        },
                        b.0,
                    ),
                ),
                _ => None,
            }
        },
    }
}

/// The first `n` cactus spots around `center` from state `s`, one after another.
pub open spec fn cacti_after(q: QuadView, ids: BlockIds, center: BlockPos, s: int, n: nat) -> Option<(QuadView, int)>
    decreases n,
{
    if n == 0 {
        Some((q, s))
    } else {
        match cacti_after(q, ids, center, s, (n - 1) as nat) {
            None => None,
            Some((q1, s1)) => cactus_step(q1, ids, scattered(s1, center), draws_after(s1, scatter_bounds())),
        }
    }
}

/// Cacti around `pos`: of 10 scattered spots, each that is air draws a height in
/// `1..=3` and stacks cactus that high, one block per layer where the spot itself can
/// hold a cactus (`cacti_after`, where the quad determines every block read, as it does
/// wherever it covers the columns within 8 of `pos`).
pub fn place_cactus<G: TerrainSource>(generator: &G, buffer: &mut QuadChunkBuffer, pos: BlockPos, block_ids: &BlockIds, rand: &mut JavaRand)
    requires
        well_inside(pos, 16),
    ensures
        changed_only_to(old(buffer)@, final(buffer)@, set![block_ids.cactus]),
        cacti_after(old(buffer)@, *block_ids, pos, old(rand)@, 10) matches Some((q, s)) ==> final(buffer)@ == q && final(rand)@ == s,
        covers_around(old(buffer)@, pos, 8) ==> cacti_after(old(buffer)@, *block_ids, pos, old(rand)@, 10) is Some,
{
    let ghost b0 = buffer@;
    let ghost s0 = rand@;
    let ghost ids = set![block_ids.cactus];
    proof {
        buffer.lemma_wf();
        lemma_changed_only_to_refl(b0, ids);
    }
    for i in 0..10u32
        invariant
            well_inside(pos, 16),
            quad_wf(b0),
            quad_wf(buffer@),
            ids == set![block_ids.cactus],
            changed_only_to(b0, buffer@, ids),
            cacti_after(b0, *block_ids, pos, s0, i as nat) matches Some((q, s)) ==> buffer@ == q && rand@ == s,
            covers_around(b0, pos, 8) ==> cacti_after(b0, *block_ids, pos, s0, i as nat) is Some,
    {
        let ghost qs = buffer@;
        let place = scatter_around(rand, pos);
        proof {
            assert((i + 1) as nat - 1 == i as nat);
            if covers_around(b0, pos, 8) {
                lemma_covers_around(b0, pos, 8, place.x as int, place.z as int);
                lemma_covers_around(b0, pos, 8, place.x - 1, place.z as int);
                lemma_covers_around(b0, pos, 8, place.x + 1, place.z as int);
                lemma_covers_around(b0, pos, 8, place.x as int, place.z - 1);
                lemma_covers_around(b0, pos, 8, place.x as int, place.z + 1);
            }
        }
        if read(generator, buffer, place.x, place.y, place.z) == block_ids.air {
            proof {
                lemma_draw_range(*rand, 3);
            }
            let v = rand.random_with::<i32>(Bound::new(3)) + 1;
            proof {
                lemma_draw_range(*rand, v as int);
            }
            let height = rand.random_with::<i32>(Bound::new(v)) + 1;
            let ghost k = |dx: int, dy: int, dz: int| known_block(qs, place.x + dx, place.y + dy, place.z + dz);
            let ghost all_known = k(0, 0, -1) is Some && k(0, 0, 1) is Some && k(-1, 0, 0) is Some && k(1, 0, 0) is Some && k(
                0,
                -1,
                0,
            ) is Some;
            let ghost rule = all_known && cactus_rule(
                *block_ids,
                k(0, 0, -1)->0,
                k(0, 0, 1)->0,
                k(-1, 0, 0)->0,
                k(1, 0, 0)->0,
                k(0, -1, 0)->0,
            );
            let mut dy: i32 = 0;
            while dy < height
                invariant
                    well_inside(pos, 16),
                    -8 < place.x - pos.x < 8,
                    -4 < place.y - pos.y < 4,
                    -8 < place.z - pos.z < 8,
                    0 <= dy <= height <= 3,
                    quad_wf(b0),
                    quad_wf(qs),
                    quad_wf(buffer@),
                    ids == set![block_ids.cactus],
                    changed_only_to(b0, buffer@, ids),
                    k == (|dx: int, dy: int, dz: int| known_block(qs, place.x + dx, place.y + dy, place.z + dz)),
                    all_known == (k(0, 0, -1) is Some && k(0, 0, 1) is Some && k(-1, 0, 0) is Some && k(1, 0, 0) is Some && k(
                        0,
                        -1,
                        0,
                    ) is Some),
                    rule == (all_known && cactus_rule(
                        *block_ids,
                        k(0, 0, -1)->0,
                        k(0, 0, 1)->0,
                        k(-1, 0, 0)->0,
                        k(1, 0, 0)->0,
                        k(0, -1, 0)->0,
                    )),
                    forall|x: int, y: int, z: int|
                        !(x == place.x && z == place.z && y >= place.y) ==> #[trigger] known_block(buffer@, x, y, z) == known_block(qs, x, y, z),
                    all_known ==> buffer@ == if rule {
                        column_written(qs, place, dy as int, block_ids.cactus)
                    } else {
                        qs
                    },
                decreases height - dy,
            {
                proof {
                    assert(known_block(buffer@, place.x as int, place.y as int, place.z - 1) == k(0, 0, -1));
                    assert(known_block(buffer@, place.x as int, place.y as int, place.z + 1) == k(0, 0, 1));
                    assert(known_block(buffer@, place.x - 1, place.y as int, place.z as int) == k(-1, 0, 0));
                    assert(known_block(buffer@, place.x + 1, place.y as int, place.z as int) == k(1, 0, 0));
                    assert(known_block(buffer@, place.x as int, place.y - 1, place.z as int) == k(0, -1, 0));
                }
                if can_place_cactus(generator, buffer, block_ids, place) {
                    let ghost mid = buffer@;
                    crate::level::generator::shared::quad_chunk_buffer::write(buffer, place.x, place.y + dy, place.z, block_ids.cactus);
                    proof {
                        lemma_changed_only_to_write(b0, mid, buffer@, ids, place.x as int, place.y + dy, place.z as int, block_ids.cactus);
                        lemma_known_after_write_all(mid, place.x as int, place.y + dy, place.z as int, block_ids.cactus);
                    }
                }
                dy += 1;
            }
        }
    }
}

} // verus!
