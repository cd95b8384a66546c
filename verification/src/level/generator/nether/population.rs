//! The nether's population: lava springs, fire, glowstone clusters and mushrooms,
//! drawn from one chunk-seeded stream in Beta 1.7.3's order.
use super::BlockIds;
use crate::level::generator::shared::quad_chunk_buffer::{
    covers_around, lemma_covers_around, lemma_owner_covers,
    QuadChunkBuffer, QuadView, changed_only_to, known_block, lemma_changed_only_to_refl,
    lemma_changed_only_to_trans, lemma_changed_only_to_widen, lemma_changed_only_to_write, quad_block, quad_holds,
    quad_wf, quad_with_block, read,
};
use crate::level::generator::shared::outcome::{Outcome, and_then, lemma_repeat_from, on_chance, reached, repeat};
use crate::level::generator::shared::plant::block_below;
use crate::level::generator::shared::{
    BlockPos, CHUNK_HEIGHT, CHUNK_WIDTH, TerrainSource, chunk_seed, chunk_seed_of, owner_in_range, scatter_around, scatter_bounds,
    scattered, well_inside,
};
use crate::rand::java::{JavaRand, initial_state};
use crate::rand::primitives::{
    Bound, draws_after, i32_draw, lemma_draw_range, lemma_draws_after_concat, repeated,
};
use vstd::prelude::*;

verus! {

/// A position `(x + 8, y + 4, z + 8)` from `origin` with `x, z` drawn in `[0, 16)` and `y`
/// in `[0, 120)`, and the state after the three draws.
pub open spec fn mid_height_position(s: int, origin: BlockPos) -> (int, BlockPos) {
    let a = i32_draw(s, Some(16));
    let b = i32_draw(a.0, Some(120));
    let c = i32_draw(b.0, Some(16));
    (c.0, BlockPos { x: (origin.x + a.1 + 8) as i32, y: (origin.y + b.1 + 4) as i32, z: (origin.z + c.1 + 8) as i32 })
}

/// A position `(x + 8, y, z + 8)` from `origin` with `x, z` drawn in `[0, 16)` and `y` in
/// `[0, 128)`, and the state after the three draws.
pub open spec fn full_height_position(s: int, origin: BlockPos) -> (int, BlockPos) {
    let a = i32_draw(s, Some(16));
    let b = i32_draw(a.0, Some(128));
    let c = i32_draw(b.0, Some(16));
    (c.0, BlockPos { x: (origin.x + a.1 + 8) as i32, y: (origin.y + b.1) as i32, z: (origin.z + c.1 + 8) as i32 })
}

pub fn next_mid_height_position(rand: &mut JavaRand, origin: BlockPos) -> (r: BlockPos)
    requires
        well_inside(origin, 128),
    ensures
        (final(rand)@, r) == mid_height_position(old(rand)@, origin),
        origin.x + 8 <= r.x < origin.x + 24,
        origin.y + 4 <= r.y < origin.y + 124,
        origin.z + 8 <= r.z < origin.z + 24,
{
    proof {
        lemma_draw_range(*rand, 16);
    }
    let x = rand.random_with::<i32>(Bound::new(CHUNK_WIDTH as i32)) + 8;
    proof {
        lemma_draw_range(*rand, 120);
    }
    let y = rand.random_with::<i32>(Bound::new(120)) + 4;
    proof {
        lemma_draw_range(*rand, 16);
    }
    let z = rand.random_with::<i32>(Bound::new(CHUNK_WIDTH as i32)) + 8;
    let r = BlockPos::new(origin.x + x, origin.y + y, origin.z + z);
    r
}

pub fn next_full_height_position(rand: &mut JavaRand, origin: BlockPos) -> (r: BlockPos)
    requires
        well_inside(origin, 128),
    ensures
        (final(rand)@, r) == full_height_position(old(rand)@, origin),
        origin.x + 8 <= r.x < origin.x + 24,
        origin.y <= r.y < origin.y + 128,
        origin.z + 8 <= r.z < origin.z + 24,
{
    proof {
        lemma_draw_range(*rand, 16);
    }
    let x = rand.random_with::<i32>(Bound::new(CHUNK_WIDTH as i32)) + 8;
    proof {
        lemma_draw_range(*rand, 128);
    }
    let y = rand.random_with::<i32>(Bound::new(CHUNK_HEIGHT as i32));
    proof {
        lemma_draw_range(*rand, 16);
    }
    let z = rand.random_with::<i32>(Bound::new(CHUNK_WIDTH as i32)) + 8;
    let r = BlockPos::new(origin.x + x, origin.y + y, origin.z + z);
    r
}

/// What the quad determines of the block at offset `(dx, dy, dz)` from `p`.
pub open spec fn known_at(q: QuadView, p: BlockPos, dx: int, dy: int, dz: int) -> Option<i32> {
    known_block(q, p.x + dx, p.y + dy, p.z + dz)
}

/// The quad after `write` puts `id` at `p`.
pub open spec fn written_at(q: QuadView, p: BlockPos, id: i32) -> QuadView {
    crate::level::generator::shared::quad_chunk_buffer::quad_after_write(q, p.x as int, p.y as int, p.z as int, id)
}

/// How many of `a, b, c, d, e` equal `v`.
pub open spec fn count_of(a: i32, b: i32, c: i32, d: i32, e: i32, v: i32) -> int {
    (if a == v { 1int } else { 0 }) + (if b == v { 1int } else { 0 }) + (if c == v { 1int } else { 0 })
        + (if d == v { 1int } else { 0 }) + (if e == v { 1int } else { 0 })
}

/// The rule for a lava spring: netherrack above, air or netherrack at the spot, and
/// exactly four netherrack and one air among the neighbours `-x, +x, -z, +z, -y`.
pub open spec fn lava_spring_rule(ids: BlockIds, above: i32, here: i32, a: i32, b: i32, c: i32, d: i32, e: i32) -> bool {
    &&& above == ids.netherrack
    &&& (here == ids.air || here == ids.netherrack)
    &&& count_of(a, b, c, d, e, ids.netherrack) == 4
    &&& count_of(a, b, c, d, e, ids.air) == 1
}

/// The quad's verdict on a lava spring at `p`, when the quad determines all seven blocks
/// the rule looks at.
pub open spec fn lava_spring_site(q: QuadView, ids: BlockIds, p: BlockPos) -> Option<bool> {
    match (known_at(q, p, 0, 1, 0), known_at(q, p, 0, 0, 0), known_at(q, p, -1, 0, 0), known_at(q, p, 1, 0, 0),
        known_at(q, p, 0, 0, -1), known_at(q, p, 0, 0, 1), known_at(q, p, 0, -1, 0)) {
        (Some(above), Some(here), Some(a), Some(b), Some(c), Some(d), Some(e)) =>
            Some(lava_spring_rule(ids, above, here, a, b, c, d, e)),
        _ => None,
    }
}

/// A lava spring at `pos`: flowing lava is placed where `lava_spring_rule` holds of the
/// blocks read around it. Draws nothing.
pub fn place_lava_spring<G: TerrainSource>(generator: &G, buffer: &mut QuadChunkBuffer, block_ids: &BlockIds, pos: BlockPos)
    requires
        well_inside(pos, 1),
    ensures
        final(buffer)@ == old(buffer)@ || final(buffer)@ == written_at(old(buffer)@, pos, block_ids.lava),
        lava_spring_site(old(buffer)@, *block_ids, pos) == Some(true) ==> final(buffer)@ == written_at(old(buffer)@, pos, block_ids.lava),
        lava_spring_site(old(buffer)@, *block_ids, pos) == Some(false) ==> final(buffer)@ == old(buffer)@,
{
    let above = read(generator, buffer, pos.x, pos.y + 1, pos.z);
    if above != block_ids.netherrack {
        return;
    }
    let here = read(generator, buffer, pos.x, pos.y, pos.z);
    if here != block_ids.air && here != block_ids.netherrack {
        return;
    }
    let a = read(generator, buffer, pos.x - 1, pos.y, pos.z);
    let b = read(generator, buffer, pos.x + 1, pos.y, pos.z);
    let c = read(generator, buffer, pos.x, pos.y, pos.z - 1);
    let d = read(generator, buffer, pos.x, pos.y, pos.z + 1);
    let e = read(generator, buffer, pos.x, pos.y - 1, pos.z);
    let mut netherrack_count: i32 = 0;
    let mut air_count: i32 = 0;
    if a == block_ids.netherrack { netherrack_count += 1; }
    if a == block_ids.air { air_count += 1; }
    if b == block_ids.netherrack { netherrack_count += 1; }
    if b == block_ids.air { air_count += 1; }
    if c == block_ids.netherrack { netherrack_count += 1; }
    if c == block_ids.air { air_count += 1; }
    if d == block_ids.netherrack { netherrack_count += 1; }
    if d == block_ids.air { air_count += 1; }
    if e == block_ids.netherrack { netherrack_count += 1; }
    if e == block_ids.air { air_count += 1; }
    if netherrack_count == 4 && air_count == 1 {
        crate::level::generator::shared::quad_chunk_buffer::write(buffer, pos.x, pos.y, pos.z, block_ids.lava);
    }
}

/// One block of `id` at `p`: placed where the quad holds `p` and `rule` accepts the
/// block there and the one below it; anywhere else nothing changes.
pub open spec fn scatter_step(q: QuadView, p: BlockPos, id: i32, rule: spec_fn(i32, i32) -> bool) -> QuadView {
    if quad_holds(q, p.x as int, p.y as int, p.z as int) && rule(quad_block(q, p.x as int, p.y as int, p.z as int), block_below(q, p)) {
        quad_with_block(q, p.x as int, p.y as int, p.z as int, id)
    } else {
        q
    }
}

/// The quad after the first `n` blocks of a patch around `center`, scattered from state
/// `s` one after another.
pub open spec fn scatter_after(q: QuadView, center: BlockPos, s: int, n: nat, id: i32, rule: spec_fn(i32, i32) -> bool) -> QuadView
    decreases n,
{
    if n == 0 {
        q
    } else {
        let k = (n - 1) as nat;
        scatter_step(scatter_after(q, center, s, k, id, rule), scattered(draws_after(s, repeated(scatter_bounds(), k)), center), id, rule)
    }
}

/// Fire goes on air over netherrack.
pub open spec fn fire_rule(ids: BlockIds) -> spec_fn(i32, i32) -> bool {
    |here: i32, below: i32| here == ids.air && below == ids.netherrack
}

/// A mushroom goes on air over mushroom ground.
pub open spec fn mushroom_rule(ids: BlockIds) -> spec_fn(i32, i32) -> bool {
    |here: i32, below: i32| here == ids.air && is_mushroom_ground(ids, below)
}


/// Fire: 64 positions are scattered around `pos`, and each that is air over netherrack
/// catches fire.
pub fn place_fire<G: TerrainSource>(generator: &G, buffer: &mut QuadChunkBuffer, block_ids: &BlockIds, pos: BlockPos, rand: &mut JavaRand)
    requires
        well_inside(pos, 16),
    ensures
        changed_only_to(old(buffer)@, final(buffer)@, set![block_ids.fire]),
        final(rand)@ == draws_after(old(rand)@, repeated(scatter_bounds(), 64)),
        final(buffer)@ == scatter_after(old(buffer)@, pos, old(rand)@, 64, block_ids.fire, fire_rule(*block_ids)),
{
    let ghost b0 = buffer@;
    let ghost s0 = rand@;
    proof {
        buffer.lemma_wf();
        lemma_changed_only_to_refl(b0, set![block_ids.fire]);
    }
    for i in 0..64u32
        invariant
            well_inside(pos, 16),
            quad_wf(b0),
            quad_wf(buffer@),
            changed_only_to(b0, buffer@, set![block_ids.fire]),
            rand@ == draws_after(s0, repeated(scatter_bounds(), i as nat)),
            buffer@ == scatter_after(b0, pos, s0, i as nat, block_ids.fire, fire_rule(*block_ids)),
    {
        proof {
            lemma_draws_after_concat(s0, repeated(scatter_bounds(), i as nat), scatter_bounds());
            assert(repeated(scatter_bounds(), (i + 1) as nat) == repeated(scatter_bounds(), i as nat) + scatter_bounds());
        }
        let ghost q = buffer@;
        let target = scatter_around(rand, pos);
        proof {
            if quad_holds(q, target.x as int, target.y as int, target.z as int) {
                assert(known_block(q, target.x as int, target.y - 1, target.z as int) is Some);
            }
        }
        if read(generator, buffer, target.x, target.y, target.z) == block_ids.air
            && read(generator, buffer, target.x, target.y - 1, target.z) == block_ids.netherrack {
            let ghost mid = buffer@;
            crate::level::generator::shared::quad_chunk_buffer::write(buffer, target.x, target.y, target.z, block_ids.fire);
            proof {
                lemma_changed_only_to_write(b0, mid, buffer@, set![block_ids.fire], target.x as int, target.y as int, target.z as int, block_ids.fire);
            }
        }
    }
}

/// Ground a nether mushroom grows on.
pub open spec fn is_mushroom_ground(ids: BlockIds, id: i32) -> bool {
    id == ids.netherrack || id == ids.soul_sand || id == ids.gravel || id == ids.bedrock || id == ids.glowstone
}

/// A mushroom can grow at `pos` when it is inside the world's height and the block
/// below is mushroom ground.
pub fn can_place_mushroom<G: TerrainSource>(generator: &G, buffer: &QuadChunkBuffer, block_ids: &BlockIds, pos: BlockPos) -> (r: bool)
    requires
        pos.y > i32::MIN,
    ensures
        !(0 <= pos.y < 128) ==> !r,
        known_at(buffer@, pos, 0, -1, 0) matches Some(below) ==> r == (0 <= pos.y < 128 && is_mushroom_ground(*block_ids, below)),
{
    if !(0 <= pos.y && pos.y < CHUNK_HEIGHT as i32) {
        return false;
    }
    let below = read(generator, buffer, pos.x, pos.y - 1, pos.z);
    below == block_ids.netherrack || below == block_ids.soul_sand || below == block_ids.gravel || below == block_ids.bedrock
        || below == block_ids.glowstone
}

/// Mushrooms of kind `mushroom_id`: 64 positions are scattered around `pos`, and each
/// that is air where a mushroom can grow gets one.
pub fn place_mushroom<G: TerrainSource>(
    generator: &G,
    buffer: &mut QuadChunkBuffer,
    block_ids: &BlockIds,
    mushroom_id: i32,
    pos: BlockPos,
    rand: &mut JavaRand,
)
    requires
        well_inside(pos, 16),
    ensures
        changed_only_to(old(buffer)@, final(buffer)@, set![mushroom_id]),
        final(rand)@ == draws_after(old(rand)@, repeated(scatter_bounds(), 64)),
        final(buffer)@ == scatter_after(old(buffer)@, pos, old(rand)@, 64, mushroom_id, mushroom_rule(*block_ids)),
{
    let ghost b0 = buffer@;
    let ghost s0 = rand@;
    proof {
        buffer.lemma_wf();
        lemma_changed_only_to_refl(b0, set![mushroom_id]);
    }
    for i in 0..64u32
        invariant
            well_inside(pos, 16),
            quad_wf(b0),
            quad_wf(buffer@),
            changed_only_to(b0, buffer@, set![mushroom_id]),
            rand@ == draws_after(s0, repeated(scatter_bounds(), i as nat)),
            buffer@ == scatter_after(b0, pos, s0, i as nat, mushroom_id, mushroom_rule(*block_ids)),
    {
        proof {
            lemma_draws_after_concat(s0, repeated(scatter_bounds(), i as nat), scatter_bounds());
            assert(repeated(scatter_bounds(), (i + 1) as nat) == repeated(scatter_bounds(), i as nat) + scatter_bounds());
        }
        let ghost q = buffer@;
        let target = scatter_around(rand, pos);
        proof {
            if quad_holds(q, target.x as int, target.y as int, target.z as int) {
                assert(known_block(q, target.x as int, target.y - 1, target.z as int) is Some);
                assert(known_at(q, target, 0, -1, 0) == known_block(q, target.x as int, target.y - 1, target.z as int));
            }
        }
        if read(generator, buffer, target.x, target.y, target.z) == block_ids.air
            && can_place_mushroom(generator, buffer, block_ids, target) {
            let ghost mid = buffer@;
            crate::level::generator::shared::quad_chunk_buffer::write(buffer, target.x, target.y, target.z, mushroom_id);
            proof {
                lemma_changed_only_to_write(b0, mid, buffer@, set![mushroom_id], target.x as int, target.y as int, target.z as int, mushroom_id);
            }
        }
    }
}

/// The bounds of the five draws that place a glowstone candidate below a cluster's top:
/// `x` and `z` move by the difference of two draws in `[0, 8)`, `y` down by a draw in
/// `[0, 12)`.
pub open spec fn glowstone_bounds() -> Seq<int> {
    seq![8, 8, 12, 8, 8]
}

/// The glowstone candidate drawn below a cluster's top `pos` from state `s`.
pub open spec fn glowstone_spot(s: int, pos: BlockPos) -> BlockPos {
    let a = i32_draw(s, Some(8));
    let b = i32_draw(a.0, Some(8));
    let c = i32_draw(b.0, Some(12));
    let d = i32_draw(c.0, Some(8));
    let e = i32_draw(d.0, Some(8));
    BlockPos { x: (pos.x + (a.1 - b.1)) as i32, y: (pos.y - c.1) as i32, z: (pos.z + (d.1 - e.1)) as i32 }
}

/// How many of the six face neighbours of `p` the quad shows as glowstone, where it
/// determines all six.
pub open spec fn glowstone_neighbours(q: QuadView, ids: BlockIds, p: BlockPos) -> Option<int> {
    let g = |v: i32| if v == ids.glowstone { 1int } else { 0int };
    match (known_at(q, p, -1, 0, 0), known_at(q, p, 1, 0, 0), known_at(q, p, 0, -1, 0), known_at(q, p, 0, 1, 0),
        known_at(q, p, 0, 0, -1), known_at(q, p, 0, 0, 1)) {
        (Some(a), Some(b), Some(c), Some(d), Some(e), Some(f)) => Some(g(a) + g(b) + g(c) + g(d) + g(e) + g(f)),
        _ => None,
    }
}

/// One glowstone candidate `t`: air next to exactly one glowstone block becomes
/// glowstone. `None` where the quad does not determine a block read.
pub open spec fn glowstone_candidate(q: QuadView, ids: BlockIds, t: BlockPos) -> Option<QuadView> {
    match known_at(q, t, 0, 0, 0) {
        None => None,
        Some(here) => if here != ids.air {
            Some(q)
        } else {
            match glowstone_neighbours(q, ids, t) {
                None => None,
                Some(n) => if n == 1 {
                    Some(written_at(q, t, ids.glowstone))
                } else {
                    Some(q)
                },
            }
        },
    }
}

/// `(dx, dy, dz)` is one of the six face directions.
pub open spec fn face(dx: int, dy: int, dz: int) -> bool {
    (dx == -1 || dx == 1) && dy == 0 && dz == 0 || dx == 0 && (dy == -1 || dy == 1) && dz == 0 || dx == 0 && dy == 0 && (dz
        == -1 || dz == 1)
}

/// The quad determines the candidate `t` and all six of its face neighbours.
pub open spec fn candidate_known(q: QuadView, t: BlockPos) -> bool {
    &&& known_at(q, t, 0, 0, 0) is Some
    &&& forall|dx: int, dy: int, dz: int| face(dx, dy, dz) ==> (#[trigger] known_at(q, t, dx, dy, dz)) is Some
}

/// A glowstone candidate that is air and touches glowstone on two different faces stays
/// air: clusters only grow into air that touches glowstone on exactly one face.
pub proof fn lemma_glowstone_needs_one_neighbour(
    q: QuadView,
    ids: BlockIds,
    t: BlockPos,
    ax: int,
    ay: int,
    az: int,
    bx: int,
    by: int,
    bz: int,
)
    requires
        candidate_known(q, t),
        known_at(q, t, 0, 0, 0) == Some(ids.air),
        face(ax, ay, az),
        face(bx, by, bz),
        ax != bx || ay != by || az != bz,
        known_at(q, t, ax, ay, az) == Some(ids.glowstone),
        known_at(q, t, bx, by, bz) == Some(ids.glowstone),
    ensures
        glowstone_candidate(q, ids, t) == Some(q),
{
    assert(known_at(q, t, -1, 0, 0) is Some);
    assert(known_at(q, t, 1, 0, 0) is Some);
    assert(known_at(q, t, 0, -1, 0) is Some);
    assert(known_at(q, t, 0, 1, 0) is Some);
    assert(known_at(q, t, 0, 0, -1) is Some);
    assert(known_at(q, t, 0, 0, 1) is Some);
}

/// A glowstone candidate that is air and touches glowstone on exactly one face becomes
/// glowstone.
pub proof fn lemma_glowstone_grows_on_one_neighbour(q: QuadView, ids: BlockIds, t: BlockPos, ax: int, ay: int, az: int)
    requires
        candidate_known(q, t),
        known_at(q, t, 0, 0, 0) == Some(ids.air),
        face(ax, ay, az),
        known_at(q, t, ax, ay, az) == Some(ids.glowstone),
        forall|dx: int, dy: int, dz: int|
            face(dx, dy, dz) && (dx != ax || dy != ay || dz != az) ==> #[trigger] known_at(q, t, dx, dy, dz) != Some(ids.glowstone),
    ensures
        glowstone_candidate(q, ids, t) == Some(written_at(q, t, ids.glowstone)),
{
    assert(known_at(q, t, -1, 0, 0) is Some);
    assert(known_at(q, t, 1, 0, 0) is Some);
    assert(known_at(q, t, 0, -1, 0) is Some);
    assert(known_at(q, t, 0, 1, 0) is Some);
    assert(known_at(q, t, 0, 0, -1) is Some);
    assert(known_at(q, t, 0, 0, 1) is Some);
}

/// The quad after the first `n` glowstone candidates below `pos`, drawn from state `s`
/// one after another.
pub open spec fn glowstone_candidates(q: QuadView, ids: BlockIds, pos: BlockPos, s: int, n: nat) -> Option<QuadView>
    decreases n,
{
    if n == 0 {
        Some(q)
    } else {
        let k = (n - 1) as nat;
        match glowstone_candidates(q, ids, pos, s, k) {
            None => None,
            Some(q1) => glowstone_candidate(q1, ids, glowstone_spot(draws_after(s, repeated(glowstone_bounds(), k)), pos)),
        }
    }
}

/// A glowstone cluster at `pos` from state `s`: nothing unless `pos` is air under
/// netherrack; then glowstone at `pos` and 1500 candidates below it.
pub open spec fn glowstone_cluster(q: QuadView, ids: BlockIds, pos: BlockPos, s: int) -> Outcome {
    match known_at(q, pos, 0, 0, 0) {
        None => None,
        Some(here) => if here != ids.air {
            Some((q, s))
        } else {
            match known_at(q, pos, 0, 1, 0) {
                None => None,
                Some(above) => if above != ids.netherrack {
                    Some((q, s))
                } else {
                    match glowstone_candidates(written_at(q, pos, ids.glowstone), ids, pos, s, 1500) {
                        None => None,
                        Some(q1) => Some((q1, draws_after(s, repeated(glowstone_bounds(), 1500)))),
                    }
                },
            }
        },
    }
}

fn glowstone_target(rand: &mut JavaRand, pos: BlockPos) -> (r: BlockPos)
    requires
        well_inside(pos, 16),
    ensures
        final(rand)@ == draws_after(old(rand)@, glowstone_bounds()),
        r == glowstone_spot(old(rand)@, pos),
        pos.x - 8 < r.x < pos.x + 8,
        pos.y - 12 < r.y <= pos.y,
        pos.z - 8 < r.z < pos.z + 8,
{
    proof {
        reveal_with_fuel(draws_after, 6);
        assert(glowstone_bounds().drop_last() =~= seq![8, 8, 12, 8]);
        assert(seq![8int, 8, 12, 8].drop_last() =~= seq![8, 8, 12]);
        assert(seq![8int, 8, 12].drop_last() =~= seq![8, 8]);
        assert(seq![8int, 8].drop_last() =~= seq![8]);
        assert(seq![8int].drop_last() =~= Seq::<int>::empty());
        lemma_draw_range(*rand, 8);
    }
    let a = rand.random_with::<i32>(Bound::new(8));
    proof {
        lemma_draw_range(*rand, 8);
    }
    let b = rand.random_with::<i32>(Bound::new(8));
    proof {
        lemma_draw_range(*rand, 12);
    }
    let c = rand.random_with::<i32>(Bound::new(12));
    proof {
        lemma_draw_range(*rand, 8);
    }
    let d = rand.random_with::<i32>(Bound::new(8));
    proof {
        lemma_draw_range(*rand, 8);
    }
    let e = rand.random_with::<i32>(Bound::new(8));
    BlockPos::new(pos.x + (a - b), pos.y + -c, pos.z + (d - e))
}

/// A glowstone cluster hanging from netherrack at `pos`: when `pos` is air under
/// netherrack it becomes glowstone, and of 1500 candidates drawn below it each that is
/// air next to exactly one glowstone block becomes glowstone too. Nothing is drawn when
/// `pos` does not qualify.
pub fn place_glowstone_cluster<G: TerrainSource>(generator: &G, buffer: &mut QuadChunkBuffer, block_ids: &BlockIds, pos: BlockPos, rand: &mut JavaRand)
    requires
        well_inside(pos, 16),
    ensures
        changed_only_to(old(buffer)@, final(buffer)@, set![block_ids.glowstone]),
        final(rand)@ == old(rand)@ || final(rand)@ == draws_after(old(rand)@, repeated(glowstone_bounds(), 1500)),
        (known_at(old(buffer)@, pos, 0, 0, 0) matches Some(here) && here != block_ids.air)
            ==> final(buffer)@ == old(buffer)@ && final(rand)@ == old(rand)@,
        (known_at(old(buffer)@, pos, 0, 1, 0) matches Some(above) && above != block_ids.netherrack)
            ==> final(buffer)@ == old(buffer)@ && final(rand)@ == old(rand)@,
        reached(glowstone_cluster(old(buffer)@, *block_ids, pos, old(rand)@), final(buffer)@, final(rand)@),
        covers_around(old(buffer)@, pos, 8) ==> glowstone_cluster(old(buffer)@, *block_ids, pos, old(rand)@) is Some,
{
    let ghost b0 = buffer@;
    let ghost s0 = rand@;
    proof {
        if covers_around(b0, pos, 8) {
            lemma_covers_around(b0, pos, 8, pos.x as int, pos.z as int);
        }
    }
    proof {
        buffer.lemma_wf();
        lemma_changed_only_to_refl(b0, set![block_ids.glowstone]);
    }
    if read(generator, buffer, pos.x, pos.y, pos.z) != block_ids.air {
        return;
    }
    if read(generator, buffer, pos.x, pos.y + 1, pos.z) != block_ids.netherrack {
        return;
    }
    crate::level::generator::shared::quad_chunk_buffer::write(buffer, pos.x, pos.y, pos.z, block_ids.glowstone);
    proof {
        lemma_changed_only_to_write(b0, b0, buffer@, set![block_ids.glowstone], pos.x as int, pos.y as int, pos.z as int, block_ids.glowstone);
    }
    let ghost top = buffer@;
    for i in 0..1500u32
        invariant
            well_inside(pos, 16),
            quad_wf(b0),
            changed_only_to(b0, buffer@, set![block_ids.glowstone]),
            rand@ == draws_after(s0, repeated(glowstone_bounds(), i as nat)),
            glowstone_candidates(top, *block_ids, pos, s0, i as nat) matches Some(q) ==> buffer@ == q,
            covers_around(b0, pos, 8) ==> glowstone_candidates(top, *block_ids, pos, s0, i as nat) is Some,
    {
        proof {
            lemma_draws_after_concat(s0, repeated(glowstone_bounds(), i as nat), glowstone_bounds());
            assert(repeated(glowstone_bounds(), (i + 1) as nat) == repeated(glowstone_bounds(), i as nat) + glowstone_bounds());
        }
        let ghost q = buffer@;
        let target = glowstone_target(rand, pos);
        proof {
            if covers_around(b0, pos, 8) {
                lemma_covers_around(b0, pos, 8, target.x as int, target.z as int);
                lemma_covers_around(b0, pos, 8, target.x - 1, target.z as int);
                lemma_covers_around(b0, pos, 8, target.x + 1, target.z as int);
                lemma_covers_around(b0, pos, 8, target.x as int, target.z - 1);
                lemma_covers_around(b0, pos, 8, target.x as int, target.z + 1);
            }
        }
        if read(generator, buffer, target.x, target.y, target.z) == block_ids.air {
            place_glowstone_if_single_neighbor(generator, buffer, block_ids, target, Ghost(b0));
        } else {
            proof {
                assert(known_at(q, target, 0, 0, 0) == known_block(q, target.x as int, target.y as int, target.z as int));
            }
        }
    }
}

/// Turns the air at `target` into glowstone when exactly one of its six face
/// neighbours is glowstone.
fn place_glowstone_if_single_neighbor<G: TerrainSource>(
    generator: &G,
    buffer: &mut QuadChunkBuffer,
    block_ids: &BlockIds,
    target: BlockPos,
    Ghost(b0): Ghost<QuadView>,
)
    requires
        well_inside(target, 1),
        quad_wf(b0),
        changed_only_to(b0, old(buffer)@, set![block_ids.glowstone]),
        known_at(old(buffer)@, target, 0, 0, 0) matches Some(here) ==> here == block_ids.air,
    ensures
        changed_only_to(b0, final(buffer)@, set![block_ids.glowstone]),
        glowstone_candidate(old(buffer)@, *block_ids, target) matches Some(q) ==> final(buffer)@ == q,
{
    let mut glowstone_neighbors: i32 = 0;
    if read(generator, buffer, target.x - 1, target.y, target.z) == block_ids.glowstone {
        glowstone_neighbors += 1;
    }
    if read(generator, buffer, target.x + 1, target.y, target.z) == block_ids.glowstone {
        glowstone_neighbors += 1;
    }
    if read(generator, buffer, target.x, target.y - 1, target.z) == block_ids.glowstone {
        glowstone_neighbors += 1;
    }
    if read(generator, buffer, target.x, target.y + 1, target.z) == block_ids.glowstone {
        glowstone_neighbors += 1;
    }
    if read(generator, buffer, target.x, target.y, target.z - 1) == block_ids.glowstone {
        glowstone_neighbors += 1;
    }
    if read(generator, buffer, target.x, target.y, target.z + 1) == block_ids.glowstone {
        glowstone_neighbors += 1;
    }
    if glowstone_neighbors == 1 {
        let ghost mid = buffer@;
        crate::level::generator::shared::quad_chunk_buffer::write(buffer, target.x, target.y, target.z, block_ids.glowstone);
        proof {
            lemma_changed_only_to_write(b0, mid, buffer@, set![block_ids.glowstone], target.x as int, target.y as int, target.z as int, block_ids.glowstone);
        }
    }
}

/// A lava spring at a position drawn between layers 4 and 123.
pub open spec fn lava_spring_step(ids: BlockIds, origin: BlockPos) -> spec_fn(QuadView, int) -> Outcome {
    |q: QuadView, s: int|
        {
            let spot = mid_height_position(s, origin);
            match lava_spring_site(q, ids, spot.1) {
                Some(true) => Some((written_at(q, spot.1, ids.lava), spot.0)),
                Some(false) => Some((q, spot.0)),
                None => None,
            }
        }
}

/// A fire patch around a position drawn between layers 4 and 123.
pub open spec fn fire_step(ids: BlockIds, origin: BlockPos) -> spec_fn(QuadView, int) -> Outcome {
    |q: QuadView, s: int|
        {
            let spot = mid_height_position(s, origin);
            Some(
                (
                    scatter_after(q, spot.1, spot.0, 64, ids.fire, fire_rule(ids)),
                    draws_after(spot.0, repeated(scatter_bounds(), 64)),
                ),
            )
        }
}

/// A glowstone cluster at a position drawn between layers 4 and 123 or, with
/// `full_height`, anywhere in the column.
pub open spec fn glowstone_step(ids: BlockIds, origin: BlockPos, full_height: bool) -> spec_fn(QuadView, int) -> Outcome {
    |q: QuadView, s: int|
        {
            let spot = if full_height {
                full_height_position(s, origin)
            } else {
                mid_height_position(s, origin)
            };
            glowstone_cluster(q, ids, spot.1, spot.0)
        }
}

/// A patch of mushrooms of kind `mushroom_id` around a position drawn anywhere in the
/// column.
pub open spec fn mushroom_step(ids: BlockIds, origin: BlockPos, mushroom_id: i32) -> spec_fn(QuadView, int) -> Outcome {
    |q: QuadView, s: int|
        {
            let spot = full_height_position(s, origin);
            Some(
                (
                    scatter_after(q, spot.1, spot.0, 64, mushroom_id, mushroom_rule(ids)),
                    draws_after(spot.0, repeated(scatter_bounds(), 64)),
                ),
            )
        }
}

/// A count drawn as a draw below a draw in `[1, 11)`, then `step` that many times plus
/// `extra`.
pub open spec fn drawn_times(o: Outcome, extra: int, step: spec_fn(QuadView, int) -> Outcome) -> Outcome {
    and_then(
        o,
        |q: QuadView, s: int|
            {
                let a = i32_draw(s, Some(10));
                let b = i32_draw(a.0, Some(a.1 + 1));
                repeat(Some((q, b.0)), step, (b.1 + extra) as nat)
            },
    )
}

/// The nether's population of the owner chunk with corner `origin`, from quad `q` and
/// state `s`: 8 lava springs, `1 + [0, 1 + [0, 10))` fire patches, `[0, 1 + [0, 10))`
/// glowstone clusters between layers 4 and 123, 10 more anywhere, then a brown and a red
/// mushroom patch, each behind a draw in `[0, 1)`.
pub open spec fn nether_population(q: QuadView, ids: BlockIds, origin: BlockPos, s: int) -> Outcome {
    let springs = repeat(Some((q, s)), lava_spring_step(ids, origin), 8);
    let fires = drawn_times(springs, 1, fire_step(ids, origin));
    let low_glowstone = drawn_times(fires, 0, glowstone_step(ids, origin, false));
    let glowstone = repeat(low_glowstone, glowstone_step(ids, origin, true), 10);
    let brown = on_chance(glowstone, 1, mushroom_step(ids, origin, ids.brown_mushroom));
    on_chance(brown, 1, mushroom_step(ids, origin, ids.red_mushroom))
}

/// The ids nether population places.
pub open spec fn nether_population_ids(ids: BlockIds) -> Set<i32> {
    set![ids.lava, ids.fire, ids.glowstone, ids.brown_mushroom, ids.red_mushroom]
}

/// `count` lava springs at positions between layers 4 and 123.
fn lava_springs<G: TerrainSource>(generator: &G, buffer: &mut QuadChunkBuffer, block_ids: &BlockIds, origin: BlockPos, count: u32, rand: &mut JavaRand)
    requires
        well_inside(origin, 256),
    ensures
        changed_only_to(old(buffer)@, final(buffer)@, nether_population_ids(*block_ids)),
        reached(repeat(Some((old(buffer)@, old(rand)@)), lava_spring_step(*block_ids, origin), count as nat), final(buffer)@, final(rand)@),
        old(buffer)@.x * 16 == origin.x && old(buffer)@.z * 16 == origin.z ==> repeat(
            Some((old(buffer)@, old(rand)@)),
            lava_spring_step(*block_ids, origin),
            count as nat,
        ) is Some,
{
    let ghost all = nether_population_ids(*block_ids);
    let ghost b0 = buffer@;
    let ghost s0 = rand@;
    let ghost f = lava_spring_step(*block_ids, origin);
    proof {
        buffer.lemma_wf();
        lemma_changed_only_to_refl(b0, all);
    }
    for i in 0..count
        invariant
            well_inside(origin, 256),
            quad_wf(b0),
            changed_only_to(b0, buffer@, all),
            all == nether_population_ids(*block_ids),
            f == lava_spring_step(*block_ids, origin),
            reached(repeat(Some((b0, s0)), f, i as nat), buffer@, rand@),
            b0.x * 16 == origin.x && b0.z * 16 == origin.z ==> repeat(Some((b0, s0)), f, i as nat) is Some,
    {
        let pos = next_mid_height_position(rand, origin);
        let ghost mid = buffer@;
        proof {
            if b0.x * 16 == origin.x && b0.z * 16 == origin.z {
                lemma_owner_covers(mid, b0.x, b0.z, pos);
                lemma_covers_around(mid, pos, 8, pos.x as int, pos.z as int);
                lemma_covers_around(mid, pos, 8, pos.x - 1, pos.z as int);
                lemma_covers_around(mid, pos, 8, pos.x + 1, pos.z as int);
                lemma_covers_around(mid, pos, 8, pos.x as int, pos.z - 1);
                lemma_covers_around(mid, pos, 8, pos.x as int, pos.z + 1);
            }
        }
        place_lava_spring(generator, buffer, block_ids, pos);
        proof {
            if buffer@ != mid {
                lemma_changed_only_to_write(b0, mid, buffer@, all, pos.x as int, pos.y as int, pos.z as int, block_ids.lava);
            }
            assert(repeat(Some((b0, s0)), f, (i + 1) as nat) == and_then(repeat(Some((b0, s0)), f, i as nat), f));
        }
    }
}

/// `count` fire patches around positions between layers 4 and 123.
fn fires<G: TerrainSource>(generator: &G, buffer: &mut QuadChunkBuffer, block_ids: &BlockIds, origin: BlockPos, count: i32, rand: &mut JavaRand)
    requires
        well_inside(origin, 256),
        count >= 0,
    ensures
        changed_only_to(old(buffer)@, final(buffer)@, nether_population_ids(*block_ids)),
        reached(repeat(Some((old(buffer)@, old(rand)@)), fire_step(*block_ids, origin), count as nat), final(buffer)@, final(rand)@),
        repeat(Some((old(buffer)@, old(rand)@)), fire_step(*block_ids, origin), count as nat) is Some,
{
    let ghost all = nether_population_ids(*block_ids);
    let ghost b0 = buffer@;
    let ghost s0 = rand@;
    let ghost f = fire_step(*block_ids, origin);
    proof {
        buffer.lemma_wf();
        lemma_changed_only_to_refl(b0, all);
    }
    for i in 0..count
        invariant
            well_inside(origin, 256),
            quad_wf(b0),
            changed_only_to(b0, buffer@, all),
            all == nether_population_ids(*block_ids),
            f == fire_step(*block_ids, origin),
            reached(repeat(Some((b0, s0)), f, i as nat), buffer@, rand@),
            repeat(Some((b0, s0)), f, i as nat) is Some,
    {
        let pos = next_mid_height_position(rand, origin);
        let ghost mid = buffer@;
        place_fire(generator, buffer, block_ids, pos, rand);
        proof {
            lemma_changed_only_to_widen(mid, buffer@, set![block_ids.fire], all);
            lemma_changed_only_to_trans(b0, mid, buffer@, all);
            assert(repeat(Some((b0, s0)), f, (i + 1) as nat) == and_then(repeat(Some((b0, s0)), f, i as nat), f));
        }
    }
}

/// `count` glowstone clusters, at positions between layers 4 and 123 or, with
/// `full_height`, anywhere in the column.
fn glowstone_clusters<G: TerrainSource>(
    generator: &G,
    buffer: &mut QuadChunkBuffer,
    block_ids: &BlockIds,
    origin: BlockPos,
    count: i32,
    full_height: bool,
    rand: &mut JavaRand,
)
    requires
        well_inside(origin, 256),
        count >= 0,
    ensures
        changed_only_to(old(buffer)@, final(buffer)@, nether_population_ids(*block_ids)),
        reached(
            repeat(Some((old(buffer)@, old(rand)@)), glowstone_step(*block_ids, origin, full_height), count as nat),
            final(buffer)@,
            final(rand)@,
        ),
        old(buffer)@.x * 16 == origin.x && old(buffer)@.z * 16 == origin.z ==> repeat(
            Some((old(buffer)@, old(rand)@)),
            glowstone_step(*block_ids, origin, full_height),
            count as nat,
        ) is Some,
{
    let ghost all = nether_population_ids(*block_ids);
    let ghost b0 = buffer@;
    let ghost s0 = rand@;
    let ghost f = glowstone_step(*block_ids, origin, full_height);
    proof {
        buffer.lemma_wf();
        lemma_changed_only_to_refl(b0, all);
    }
    for i in 0..count
        invariant
            well_inside(origin, 256),
            quad_wf(b0),
            changed_only_to(b0, buffer@, all),
            all == nether_population_ids(*block_ids),
            f == glowstone_step(*block_ids, origin, full_height),
            reached(repeat(Some((b0, s0)), f, i as nat), buffer@, rand@),
            b0.x * 16 == origin.x && b0.z * 16 == origin.z ==> repeat(Some((b0, s0)), f, i as nat) is Some,
    {
        let pos = if full_height {
            next_full_height_position(rand, origin)
        } else {
            next_mid_height_position(rand, origin)
        };
        let ghost mid = buffer@;
        proof {
            if b0.x * 16 == origin.x && b0.z * 16 == origin.z {
                lemma_owner_covers(mid, b0.x, b0.z, pos);
            }
        }
        place_glowstone_cluster(generator, buffer, block_ids, pos, rand);
        proof {
            lemma_changed_only_to_widen(mid, buffer@, set![block_ids.glowstone], all);
            lemma_changed_only_to_trans(b0, mid, buffer@, all);
            assert(repeat(Some((b0, s0)), f, (i + 1) as nat) == and_then(repeat(Some((b0, s0)), f, i as nat), f));
        }
    }
}

/// A mushroom patch of kind `mushroom_id`, one of the nether's two.
fn mushroom_patch<G: TerrainSource>(generator: &G, buffer: &mut QuadChunkBuffer, block_ids: &BlockIds, origin: BlockPos, mushroom_id: i32, rand: &mut JavaRand)
    requires
        well_inside(origin, 256),
        mushroom_id == block_ids.brown_mushroom || mushroom_id == block_ids.red_mushroom,
    ensures
        changed_only_to(old(buffer)@, final(buffer)@, nether_population_ids(*block_ids)),
        reached(mushroom_step(*block_ids, origin, mushroom_id)(old(buffer)@, old(rand)@), final(buffer)@, final(rand)@),
        mushroom_step(*block_ids, origin, mushroom_id)(old(buffer)@, old(rand)@) is Some,
{
    let ghost all = nether_population_ids(*block_ids);
    let pos = next_full_height_position(rand, origin);
    let ghost b0 = buffer@;
    place_mushroom(generator, buffer, block_ids, mushroom_id, pos, rand);
    proof {
        lemma_changed_only_to_widen(b0, buffer@, set![mushroom_id], all);
    }
}

/// Owner `(owner_x, owner_z)`'s nether population, drawn from its chunk seed in the
/// game's order (`nether_population` from the chunk seed's state, where the quad
/// determines every block read, as the owner's own quad always does): 8 lava springs, `1 + [0, 1 + [0, 10))` fires,
/// `[0, 1 + [0, 10))` glowstone clusters between layers 4 and 123, 10 more anywhere, then
/// one brown and one red mushroom patch. It places nothing but those blocks.
#[verifier::spinoff_prover]
#[verifier::rlimit(60)]
pub fn run_nether_population<G: TerrainSource>(
    generator: &G,
    seed: i64,
    block_ids: &BlockIds,
    owner_x: i32,
    owner_z: i32,
    buffer: &mut QuadChunkBuffer,
)
    requires
        owner_in_range(owner_x as int),
        owner_in_range(owner_z as int),
    ensures
        changed_only_to(old(buffer)@, final(buffer)@, nether_population_ids(*block_ids)),
        nether_population(
            old(buffer)@,
            *block_ids,
            BlockPos { x: (owner_x * 16) as i32, y: 0, z: (owner_z * 16) as i32 },
            initial_state(chunk_seed_of(seed, owner_x, owner_z)),
        ) matches Some((q, _)) ==> final(buffer)@ == q,
        old(buffer)@.x == owner_x && old(buffer)@.z == owner_z ==> nether_population(
            old(buffer)@,
            *block_ids,
            BlockPos { x: (owner_x * 16) as i32, y: 0, z: (owner_z * 16) as i32 },
            initial_state(chunk_seed_of(seed, owner_x, owner_z)),
        ) is Some,
{
    let ghost all = nether_population_ids(*block_ids);
    let ghost ids = *block_ids;
    let ghost b0 = buffer@;
    let mut rand = JavaRand::new(chunk_seed(seed, owner_x, owner_z));
    let ghost s0 = rand@;
    let origin = BlockPos::new(owner_x * 16, 0, owner_z * 16);
    let ghost owner = b0.x == owner_x && b0.z == owner_z;

    lava_springs(generator, buffer, block_ids, origin, 8, &mut rand);
    let ghost b1 = buffer@;
    let ghost springs = repeat(Some((b0, s0)), lava_spring_step(ids, origin), 8);
    let ghost q1 = buffer@;
    let ghost s1 = rand@;

    proof {
        lemma_draw_range(rand, 10);
    }
    let fire_bound = rand.random_with::<i32>(Bound::new(10)) + 1;
    proof {
        lemma_draw_range(rand, fire_bound as int);
    }
    let fire_count = rand.random_with::<i32>(Bound::new(fire_bound)) + 1;
    let ghost q1b = buffer@;
    let ghost s1b = rand@;
    fires(generator, buffer, block_ids, origin, fire_count, &mut rand);
    let ghost b2 = buffer@;
    let ghost fires_o = drawn_times(springs, 1, fire_step(ids, origin));
    assert(springs matches Some((q, s)) ==> q == q1 && s == s1);
    assert(reached(fires_o, buffer@, rand@));
    assert(owner ==> fires_o is Some);
    let ghost q2 = buffer@;
    let ghost s2 = rand@;

    proof {
        lemma_draw_range(rand, 10);
    }
    let glowstone_bound = rand.random_with::<i32>(Bound::new(10)) + 1;
    proof {
        lemma_draw_range(rand, glowstone_bound as int);
    }
    let glowstone_cluster_count = rand.random_with::<i32>(Bound::new(glowstone_bound));
    glowstone_clusters(generator, buffer, block_ids, origin, glowstone_cluster_count, false, &mut rand);
    let ghost b3 = buffer@;
    let ghost low = drawn_times(fires_o, 0, glowstone_step(ids, origin, false));
    assert(reached(low, buffer@, rand@));
    assert(owner ==> low is Some) by {
        if owner {
            assert(fires_o == Some((q2, s2)));
            assert(q2.x == b0.x && q2.z == b0.z);
        }
    }
    let ghost q3 = buffer@;
    let ghost s3 = rand@;
    glowstone_clusters(generator, buffer, block_ids, origin, 10, true, &mut rand);
    let ghost b4 = buffer@;
    let ghost glow = repeat(low, glowstone_step(ids, origin, true), 10);
    proof {
        lemma_changed_only_to_trans(b0, b1, b2, all);
        lemma_changed_only_to_trans(b0, b2, b3, all);
        lemma_changed_only_to_trans(b0, b3, b4, all);
        lemma_repeat_from(low, q3, s3, glowstone_step(ids, origin, true), 10);
    }
    assert(reached(glow, buffer@, rand@));
    assert(owner ==> glow is Some) by {
        if owner {
            assert(low == Some((q3, s3)));
            assert(q3.x == b0.x && q3.z == b0.z);
        }
    }

    // `Bound::new(1)` always draws 0: each chunk gets exactly one attempt at each mushroom,
    // but the draw is still consumed.
    if rand.random_with::<i32>(Bound::new(1)) == 0 {
        mushroom_patch(generator, buffer, block_ids, origin, block_ids.brown_mushroom, &mut rand);
    }
    let ghost b5 = buffer@;
    let ghost brown = on_chance(glow, 1, mushroom_step(ids, origin, ids.brown_mushroom));
    assert(reached(brown, buffer@, rand@));
    assert(owner ==> brown is Some);
    proof {
        lemma_changed_only_to_refl(b4, all);
        lemma_changed_only_to_trans(b0, b4, b5, all);
    }
    if rand.random_with::<i32>(Bound::new(1)) == 0 {
        mushroom_patch(generator, buffer, block_ids, origin, block_ids.red_mushroom, &mut rand);
    }
    assert(reached(on_chance(brown, 1, mushroom_step(ids, origin, ids.red_mushroom)), buffer@, rand@));
    proof {
        lemma_changed_only_to_refl(b5, all);
        lemma_changed_only_to_trans(b0, b5, buffer@, all);
    }
}

} // verus!
