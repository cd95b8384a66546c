//! Springs: single water or lava source blocks set into stone walls.
use super::block_ids::BlockIds;
use super::quad_chunk_buffer::{
    QuadChunkBuffer, QuadView, changed_only_to, chunk_of, known_block, lemma_changed_only_to_refl,
    lemma_changed_only_to_write, lemma_known_after_write_all, quad_after_write, quad_holds, quad_wf, read, world_block,
};
use super::{BlockPos, TerrainSource, offset_position, owner_in_range, well_inside};
use crate::rand::java::JavaRand;
use crate::rand::primitives::{Bound, i32_draw, lemma_draw_range};
use vstd::prelude::*;

verus! {

/// How many of `a, b, c, d` equal `v`.
pub open spec fn count4(a: i32, b: i32, c: i32, d: i32, v: i32) -> int {
    (if a == v { 1int } else { 0 }) + (if b == v { 1int } else { 0 }) + (if c == v { 1int } else { 0 }) + (if d
        == v { 1int } else { 0 })
}

/// The rule for a spring: stone above and below, air or stone at the spot, and among
/// the horizontal neighbours (`-z, +z, -x, +x`) exactly three stone and one air.
pub open spec fn spring_rule(ids: BlockIds, above: i32, below: i32, here: i32, a: i32, b: i32, c: i32, d: i32) -> bool {
    &&& above == ids.stone
    &&& below == ids.stone
    &&& (here == ids.air || here == ids.stone)
    &&& count4(a, b, c, d, ids.stone) == 3
    &&& count4(a, b, c, d, ids.air) == 1
}

/// The quad's verdict on a spring at `p`, when it determines all seven blocks the rule
/// looks at.
pub open spec fn spring_site(q: QuadView, ids: BlockIds, p: BlockPos) -> Option<bool> {
    let k = |dx: int, dy: int, dz: int| known_block(q, p.x + dx, p.y + dy, p.z + dz);
    match (k(0, 1, 0), k(0, -1, 0), k(0, 0, 0), k(0, 0, -1), k(0, 0, 1), k(-1, 0, 0), k(1, 0, 0)) {
        (Some(above), Some(below), Some(here), Some(a), Some(b), Some(c), Some(d)) =>
            Some(spring_rule(ids, above, below, here, a, b, c, d)),
        _ => None,
    }
}

/// Whether `spring_rule` holds at `p` of the blocks `read` gives.
pub open spec fn spring_site_world<G: TerrainSource>(generator: &G, q: QuadView, ids: BlockIds, p: BlockPos) -> bool {
    let w = |dx: int, dy: int, dz: int| world_block(generator, q, p.x + dx, p.y + dy, p.z + dz);
    spring_rule(ids, w(0, 1, 0), w(0, -1, 0), w(0, 0, 0), w(0, 0, -1), w(0, 0, 1), w(-1, 0, 0), w(1, 0, 0))
}

/// A spring of `fluid_id` at `pos`, placed where `spring_rule` holds of the blocks read
/// around it. Draws nothing.
pub fn place_spring<G: TerrainSource>(generator: &G, buffer: &mut QuadChunkBuffer, block_ids: &BlockIds, fluid_id: i32, pos: BlockPos)
    requires
        well_inside(pos, 1),
    ensures
        final(buffer)@ == if spring_site_world(generator, old(buffer)@, *block_ids, pos) {
            quad_after_write(old(buffer)@, pos.x as int, pos.y as int, pos.z as int, fluid_id)
        } else {
            old(buffer)@
        },
        final(buffer)@ == old(buffer)@ || final(buffer)@ == quad_after_write(old(buffer)@, pos.x as int, pos.y as int, pos.z as int, fluid_id),
        spring_site(old(buffer)@, *block_ids, pos) == Some(true)
            ==> final(buffer)@ == quad_after_write(old(buffer)@, pos.x as int, pos.y as int, pos.z as int, fluid_id),
        spring_site(old(buffer)@, *block_ids, pos) == Some(false) ==> final(buffer)@ == old(buffer)@,
{
    if read(generator, buffer, pos.x, pos.y + 1, pos.z) != block_ids.stone {
        return;
    }
    if read(generator, buffer, pos.x, pos.y - 1, pos.z) != block_ids.stone {
        return;
    }
    let here = read(generator, buffer, pos.x, pos.y, pos.z);
    if here != block_ids.air && here != block_ids.stone {
        return;
    }
    let a = read(generator, buffer, pos.x, pos.y, pos.z - 1);
    let b = read(generator, buffer, pos.x, pos.y, pos.z + 1);
    let c = read(generator, buffer, pos.x - 1, pos.y, pos.z);
    let d = read(generator, buffer, pos.x + 1, pos.y, pos.z);
    let mut stone_count: i32 = 0;
    let mut air_count: i32 = 0;
    if a == block_ids.stone { stone_count += 1; } else if a == block_ids.air { air_count += 1; }
    if b == block_ids.stone { stone_count += 1; } else if b == block_ids.air { air_count += 1; }
    if c == block_ids.stone { stone_count += 1; } else if c == block_ids.air { air_count += 1; }
    if d == block_ids.stone { stone_count += 1; } else if d == block_ids.air { air_count += 1; }
    if stone_count == 3 && air_count == 1 {
        crate::level::generator::shared::quad_chunk_buffer::write(buffer, pos.x, pos.y, pos.z, fluid_id);
    }
}

/// Where a spring goes, drawn from state `s` around the corner `origin` of an owner
/// chunk, and the state after: `x` and `z` in `[8, 24)`; for water a height drawn below
/// a draw below 120, plus 8; for lava a height drawn below a draw below a draw below
/// 112, each plus 8.
pub open spec fn spring_spot(s: int, origin: BlockPos, lava: bool) -> (int, BlockPos) {
    let a = i32_draw(s, Some(16));
    if lava {
        let b = i32_draw(a.0, Some(112));
        let c = i32_draw(b.0, Some(b.1 + 8));
        let d = i32_draw(c.0, Some(c.1 + 8));
        let e = i32_draw(d.0, Some(16));
        (e.0, offset_position(origin, a.1 + 8, d.1 as int, e.1 + 8))
    } else {
        let b = i32_draw(a.0, Some(120));
        let c = i32_draw(b.0, Some(b.1 + 8));
        let d = i32_draw(c.0, Some(16));
        (d.0, offset_position(origin, a.1 + 8, c.1 as int, d.1 + 8))
    }
}

/// One spring of `fluid_id` at `p`: placed where `spring_rule` holds, nothing where it
/// does not, and `None` where the quad does not determine the blocks the rule reads.
pub open spec fn spring_at(q: QuadView, ids: BlockIds, fluid_id: i32, p: BlockPos) -> Option<QuadView> {
    match spring_site(q, ids, p) {
        Some(true) => Some(quad_after_write(q, p.x as int, p.y as int, p.z as int, fluid_id)),
        Some(false) => Some(q),
        None => None,
    }
}

/// `n` springs, water or lava, one after another from state `s` and quad `q` (where
/// known): the quad after them where the quad determined every block read, and the state
/// after them.
pub open spec fn springs_after(q: Option<QuadView>, ids: BlockIds, origin: BlockPos, s: int, lava: bool, n: nat) -> (Option<QuadView>, int)
    decreases n,
{
    if n == 0 {
        (q, s)
    } else {
        let before = springs_after(q, ids, origin, s, lava, (n - 1) as nat);
        let spot = spring_spot(before.1, origin, lava);
        let fluid_id = if lava {
            ids.lava
        } else {
            ids.water_flowing
        };
        (
            match before.0 {
                Some(q1) => spring_at(q1, ids, fluid_id, spot.1),
                None => None,
            },
            spot.0,
        )
    }
}

/// Lava springs place nothing but lava, and water springs nothing but flowing water:
/// every block the springs change ends up as their fluid.
pub proof fn lemma_springs_place_their_fluid(q: QuadView, ids: BlockIds, origin: BlockPos, s: int, lava: bool, n: nat)
    requires
        quad_wf(q),
    ensures
        springs_after(Some(q), ids, origin, s, lava, n).0 matches Some(q2) ==> quad_wf(q2),
        lava ==> (springs_after(Some(q), ids, origin, s, lava, n).0 matches Some(q2) ==> changed_only_to(q, q2, set![ids.lava])),
        !lava ==> (springs_after(Some(q), ids, origin, s, lava, n).0 matches Some(q2) ==> changed_only_to(
            q,
            q2,
            set![ids.water_flowing],
        )),
    decreases n,
{
    let fluids = if lava {
        set![ids.lava]
    } else {
        set![ids.water_flowing]
    };
    if n == 0 {
        lemma_changed_only_to_refl(q, fluids);
    } else {
        lemma_springs_place_their_fluid(q, ids, origin, s, lava, (n - 1) as nat);
        let before = springs_after(Some(q), ids, origin, s, lava, (n - 1) as nat);
        let spot = spring_spot(before.1, origin, lava).1;
        let fluid_id = if lava { ids.lava } else { ids.water_flowing };
        if let Some(q1) = before.0 {
            if spring_site(q1, ids, spot) == Some(true) {
                let q2 = quad_after_write(q1, spot.x as int, spot.y as int, spot.z as int, fluid_id);
                assert(fluids.contains(fluid_id));
                lemma_changed_only_to_write(q, q1, q2, fluids, spot.x as int, spot.y as int, spot.z as int, fluid_id);
                lemma_known_after_write_all(q1, spot.x as int, spot.y as int, spot.z as int, fluid_id);
            }
        }
    }
}

/// A lava spring whose drawn spot has stone above and below, air or stone at the spot and
/// exactly three stone sides and one air side puts lava there; a water spring puts
/// flowing water there.
pub proof fn lemma_spring_fills_a_fitting_spot(q: QuadView, ids: BlockIds, origin: BlockPos, s: int, lava: bool)
    requires
        quad_wf(q),
        spring_site(q, ids, spring_spot(s, origin, lava).1) == Some(true),
        ({
            let p = spring_spot(s, origin, lava).1;
            quad_holds(q, p.x as int, p.y as int, p.z as int)
        }),
    ensures
        ({
            let p = spring_spot(s, origin, lava).1;
            springs_after(Some(q), ids, origin, s, lava, 1).0 matches Some(q2) && known_block(q2, p.x as int, p.y as int, p.z as int)
                == Some(if lava { ids.lava } else { ids.water_flowing })
        }),
{
    let p = spring_spot(s, origin, lava).1;
    let fluid_id = if lava { ids.lava } else { ids.water_flowing };
    assert(springs_after(Some(q), ids, origin, s, lava, 0) == (Some(q), s));
    lemma_known_after_write_all(q, p.x as int, p.y as int, p.z as int, fluid_id);
}

/// An owner's springs: its 50 water springs place only flowing water, and its 20 lava
/// springs after them only lava.
pub proof fn lemma_spring_population_fluids(q: QuadView, ids: BlockIds, origin: BlockPos, s: int)
    requires
        quad_wf(q),
    ensures
        ({
            let water = springs_after(Some(q), ids, origin, s, false, 50);
            &&& water.0 matches Some(qw) ==> changed_only_to(q, qw, set![ids.water_flowing])
            &&& water.0 matches Some(qw) ==> (spring_population(q, ids, origin, s).0 matches Some(ql) ==> changed_only_to(
                qw,
                ql,
                set![ids.lava],
            ))
        }),
{
    lemma_springs_place_their_fluid(q, ids, origin, s, false, 50);
    let water = springs_after(Some(q), ids, origin, s, false, 50);
    if let Some(qw) = water.0 {
        lemma_springs_place_their_fluid(qw, ids, origin, water.1, true, 20);
    }
}

/// An owner's springs around chunk corner `origin`: 50 water springs, then 20 lava
/// springs.
pub open spec fn spring_population(q: QuadView, ids: BlockIds, origin: BlockPos, s: int) -> (Option<QuadView>, int) {
    let water = springs_after(Some(q), ids, origin, s, false, 50);
    springs_after(water.0, ids, origin, water.1, true, 20)
}

/// Springs never draw depending on the blocks they find: whatever the quad holds, the
/// springs of an owner leave the generator in the same state.
pub proof fn lemma_spring_draws_ignore_blocks(q1: Option<QuadView>, q2: Option<QuadView>, ids: BlockIds, origin: BlockPos, s: int, lava: bool, n: nat)
    ensures
        springs_after(q1, ids, origin, s, lava, n).1 == springs_after(q2, ids, origin, s, lava, n).1,
    decreases n,
{
    if n > 0 {
        lemma_spring_draws_ignore_blocks(q1, q2, ids, origin, s, lava, (n - 1) as nat);
    }
}

/// The state after an owner's springs is the same whatever the two quads hold.
pub proof fn lemma_spring_population_draws(q1: QuadView, q2: QuadView, ids: BlockIds, origin: BlockPos, s: int)
    ensures
        spring_population(q1, ids, origin, s).1 == spring_population(q2, ids, origin, s).1,
{
    let w1 = springs_after(Some(q1), ids, origin, s, false, 50);
    let w2 = springs_after(Some(q2), ids, origin, s, false, 50);
    lemma_spring_draws_ignore_blocks(Some(q1), Some(q2), ids, origin, s, false, 50);
    lemma_spring_draws_ignore_blocks(w1.0, w2.0, ids, origin, w1.1, true, 20);
}

/// The quad of owner `(ox, oz)` determines every block next to a spot 8 to 23 blocks
/// from the owner's corner.
proof fn lemma_spot_covered(q: QuadView, ox: int, oz: int, p: BlockPos)
    requires
        q.x == ox,
        q.z == oz,
        ox * 16 + 8 <= p.x < ox * 16 + 24,
        oz * 16 + 8 <= p.z < oz * 16 + 24,
    ensures
        forall|dx: int, dy: int, dz: int|
            -1 <= dx <= 1 && -1 <= dz <= 1 ==> (#[trigger] known_block(q, p.x + dx, p.y + dy, p.z + dz)) is Some,
{
    assert forall|dx: int, dy: int, dz: int|
        -1 <= dx <= 1 && -1 <= dz <= 1 implies (#[trigger] known_block(q, p.x + dx, p.y + dy, p.z + dz)) is Some by {
        assert(chunk_of(p.x + dx) == ox || chunk_of(p.x + dx) == ox + 1);
        assert(chunk_of(p.z + dz) == oz || chunk_of(p.z + dz) == oz + 1);
    }
}

/// Owner `(owner_x, owner_z)`'s springs, continuing `rand`'s stream: 50 water springs at
/// heights drawn below a draw below 128, then 20 lava springs at heights drawn below a
/// draw below a draw below 120 (so lava keeps low); `spring_population`, whose draws do
/// not depend on the blocks read, and whose blocks the owner's own quad determines.
pub fn populate_from<G: TerrainSource>(generator: &G, buffer: &mut QuadChunkBuffer, owner_x: i32, owner_z: i32, block_ids: &BlockIds, rand: &mut JavaRand)
    requires
        owner_in_range(owner_x as int),
        owner_in_range(owner_z as int),
    ensures
        changed_only_to(old(buffer)@, final(buffer)@, set![block_ids.water_flowing, block_ids.lava]),
        final(rand)@ == spring_population(
            old(buffer)@,
            *block_ids,
            BlockPos { x: (owner_x * 16) as i32, y: 0, z: (owner_z * 16) as i32 },
            old(rand)@,
        ).1,
        spring_population(
            old(buffer)@,
            *block_ids,
            BlockPos { x: (owner_x * 16) as i32, y: 0, z: (owner_z * 16) as i32 },
            old(rand)@,
        ).0 matches Some(q) ==> final(buffer)@ == q,
        old(buffer)@.x == owner_x && old(buffer)@.z == owner_z ==> spring_population(
            old(buffer)@,
            *block_ids,
            BlockPos { x: (owner_x * 16) as i32, y: 0, z: (owner_z * 16) as i32 },
            old(rand)@,
        ).0 is Some,
{
    let ghost ids = set![block_ids.water_flowing, block_ids.lava];
    let ghost b0 = buffer@;
    let ghost s0 = rand@;
    proof {
        buffer.lemma_wf();
        lemma_changed_only_to_refl(b0, ids);
    }
    let origin = BlockPos::new(owner_x * 16, 0, owner_z * 16);
    for i in 0..50u32
        invariant
            well_inside(origin, 256),
            origin.y == 0,
            quad_wf(b0),
            ids == set![block_ids.water_flowing, block_ids.lava],
            changed_only_to(b0, buffer@, ids),
            rand@ == springs_after(Some(b0), *block_ids, origin, s0, false, i as nat).1,
            springs_after(Some(b0), *block_ids, origin, s0, false, i as nat).0 matches Some(q) ==> buffer@ == q,
            origin.x == owner_x * 16,
            origin.z == owner_z * 16,
            b0.x == owner_x && b0.z == owner_z ==> springs_after(Some(b0), *block_ids, origin, s0, false, i as nat).0 is Some,
    {
        let ghost s = rand@;
        proof {
            lemma_draw_range(*rand, 16);
        }
        let x = rand.random_with::<i32>(Bound::new(16)) + 8;
        proof {
            lemma_draw_range(*rand, 120);
        }
        let v = rand.random_with::<i32>(Bound::new(120));
        proof {
            lemma_draw_range(*rand, v + 8);
        }
        let y = rand.random_with::<i32>(Bound::new(v + 8));
        proof {
            lemma_draw_range(*rand, 16);
        }
        let z = rand.random_with::<i32>(Bound::new(16)) + 8;
        let pos = origin.offset(x, y, z);
        proof {
            assert(spring_spot(s, origin, false) == (rand@, pos));
        }
        let ghost mid = buffer@;
        place_spring(generator, buffer, block_ids, block_ids.water_flowing, pos);
        proof {
            if b0.x == owner_x && b0.z == owner_z {
                lemma_spot_covered(mid, owner_x as int, owner_z as int, pos);
            }
            if buffer@ != mid {
                lemma_changed_only_to_write(b0, mid, buffer@, ids, pos.x as int, pos.y as int, pos.z as int, block_ids.water_flowing);
            }
        }
    }
    let ghost water = springs_after(Some(b0), *block_ids, origin, s0, false, 50);
    for i in 0..20u32
        invariant
            well_inside(origin, 256),
            origin.y == 0,
            quad_wf(b0),
            ids == set![block_ids.water_flowing, block_ids.lava],
            changed_only_to(b0, buffer@, ids),
            rand@ == springs_after(water.0, *block_ids, origin, water.1, true, i as nat).1,
            springs_after(water.0, *block_ids, origin, water.1, true, i as nat).0 matches Some(q) ==> buffer@ == q,
            origin.x == owner_x * 16,
            origin.z == owner_z * 16,
            b0.x == owner_x && b0.z == owner_z ==> springs_after(water.0, *block_ids, origin, water.1, true, i as nat).0 is Some,
    {
        let ghost s = rand@;
        proof {
            lemma_draw_range(*rand, 16);
        }
        let x = rand.random_with::<i32>(Bound::new(16)) + 8;
        proof {
            lemma_draw_range(*rand, 112);
        }
        let v = rand.random_with::<i32>(Bound::new(112));
        proof {
            lemma_draw_range(*rand, v + 8);
        }
        let v = rand.random_with::<i32>(Bound::new(v + 8));
        proof {
            lemma_draw_range(*rand, v + 8);
        }
        let y = rand.random_with::<i32>(Bound::new(v + 8));
        proof {
            lemma_draw_range(*rand, 16);
        }
        let z = rand.random_with::<i32>(Bound::new(16)) + 8;
        let pos = origin.offset(x, y, z);
        proof {
            assert(spring_spot(s, origin, true) == (rand@, pos));
        }
        let ghost mid = buffer@;
        place_spring(generator, buffer, block_ids, block_ids.lava, pos);
        proof {
            if b0.x == owner_x && b0.z == owner_z {
                lemma_spot_covered(mid, owner_x as int, owner_z as int, pos);
            }
            if buffer@ != mid {
                lemma_changed_only_to_write(b0, mid, buffer@, ids, pos.x as int, pos.y as int, pos.z as int, block_ids.lava);
            }
        }
    }
}

} // verus!
