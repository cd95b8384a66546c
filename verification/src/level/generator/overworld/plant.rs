//! The overworld's plants: flowers, grass, dead bushes, mushrooms, sugar cane, pumpkins
//! and cacti, in the order and numbers its biomes ask for.
use super::biome::Biome;
use crate::level::generator::shared::block_ids::BlockIds;
use crate::level::generator::shared::outcome::{Outcome, and_then, lemma_repeat_from, on_chance, reached, repeat};
use crate::level::generator::shared::plant::{
    SupportRule, cacti_after, canes_after, ground_of, place_cactus, place_plants, place_pumpkin, place_sugar_canes,
    plants_after, pumpkins_after,
};
use crate::level::generator::shared::quad_chunk_buffer::{
    QuadChunkBuffer, QuadView, changed_only_to, chunk_of, lemma_changed_only_to_refl, lemma_changed_only_to_trans,
    lemma_covers_around, lemma_owner_covers,
    lemma_changed_only_to_widen, quad_covers,
};
use crate::level::generator::shared::{BlockPos, ClimateSource, TerrainSource, next_offset, offset_draw, owner_in_range, scatter_bounds};
use crate::rand::java::JavaRand;
use crate::rand::primitives::{Bound, draws_after, i32_draw, repeated};
use vstd::prelude::*;

verus! {

/// Every block the overworld's plants place.
pub open spec fn plant_ids(ids: BlockIds) -> Set<i32> {
    set![
        ids.dandelion,
        ids.tall_grass,
        ids.fern,
        ids.deadbush,
        ids.poppy,
        ids.brown_mushroom,
        ids.red_mushroom,
        ids.reeds,
        ids.pumpkin,
        ids.cactus
    ]
}

/// The number of dandelion patches of `biome`.
pub open spec fn dandelion_count(biome: Biome) -> int {
    match biome {
        Biome::Forest | Biome::Taiga => 2,
        Biome::SeasonalForest => 4,
        Biome::Plains => 3,
        _ => 0,
    }
}

/// The number of tall grass patches of `biome`.
pub open spec fn tall_grass_count(biome: Biome) -> int {
    match biome {
        Biome::Forest => 2,
        Biome::RainForest => 10,
        Biome::SeasonalForest => 2,
        Biome::Taiga => 1,
        Biome::Plains => 10,
        _ => 0,
    }
}

fn dandelions_of(biome: Biome) -> (r: i32)
    ensures
        r == dandelion_count(biome),
{
    match biome {
        Biome::Forest | Biome::Taiga => 2,
        Biome::SeasonalForest => 4,
        Biome::Plains => 3,
        _ => 0,
    }
}

fn tall_grass_of(biome: Biome) -> (r: i32)
    ensures
        r == tall_grass_count(biome),
{
    match biome {
        Biome::Forest => 2,
        Biome::RainForest => 10,
        Biome::SeasonalForest => 2,
        Biome::Taiga => 1,
        Biome::Plains => 10,
        _ => 0,
    }
}

/// Widens one feature's change to the overworld's plants.
pub proof fn lemma_plant_step(b0: QuadView, mid: QuadView, new: QuadView, ids: BlockIds, one: Set<i32>)
    requires
        changed_only_to(b0, mid, plant_ids(ids)),
        changed_only_to(mid, new, one),
        one.subset_of(plant_ids(ids)),
    ensures
        changed_only_to(b0, new, plant_ids(ids)),
{
    lemma_changed_only_to_widen(mid, new, one, plant_ids(ids));
    lemma_changed_only_to_trans(b0, mid, new, plant_ids(ids));
}

/// Where a feature of owner chunk `(ox / 16, oz / 16)` goes, drawn from state `s` as
/// `next_offset(rand, 128, 8)` draws it from the chunk's corner `(ox, oz)`, and the state
/// after.
pub open spec fn feature_spot(s: int, ox: int, oz: int) -> (int, BlockPos) {
    let d = offset_draw(s, 128, 8);
    (d.0, BlockPos { x: (ox + d.1.x) as i32, y: d.1.y, z: (oz + d.1.z) as i32 })
}

/// One patch of `count` plants of `plant_id` at a feature spot of the chunk with corner
/// `(ox, oz)`, as `place_plants` places it.
pub open spec fn plant_patch(
    ids: BlockIds,
    ox: int,
    oz: int,
    plant_id: i32,
    count: nat,
    find_ground: bool,
    rule: SupportRule,
) -> spec_fn(QuadView, int) -> Outcome {
    |q: QuadView, s: int|
        {
            let spot = feature_spot(s, ox, oz);
            let pos = spot.1;
            if find_ground && !quad_covers(q, chunk_of(pos.x as int), chunk_of(pos.z as int)) {
                None
            } else {
                let center = if find_ground {
                    ground_of(q, ids, pos)
                } else {
                    pos
                };
                Some(
                    (
                        plants_after(q, ids, rule, plant_id, center, spot.0, count),
                        draws_after(spot.0, repeated(scatter_bounds(), count)),
                    ),
                )
            }
        }
}

/// One tall grass patch of `biome`: in rain forest a draw in `[0, 3)` first makes it
/// fern unless it drew `0`.
pub open spec fn grass_patch(ids: BlockIds, ox: int, oz: int, biome: Biome) -> spec_fn(QuadView, int) -> Outcome {
    |q: QuadView, s: int|
        {
            let d = i32_draw(s, Some(3));
            if biome == Biome::RainForest {
                plant_patch(ids, ox, oz, if d.1 != 0 { ids.fern } else { ids.tall_grass }, 128, true, SupportRule::GrassOrDirt)(
                    q,
                    d.0,
                )
            } else {
                plant_patch(ids, ox, oz, ids.tall_grass, 128, true, SupportRule::GrassOrDirt)(q, s)
            }
        }
}

/// Sugar cane at a feature spot (`canes_after`, 20 spots).
pub open spec fn cane_patch(ids: BlockIds, ox: int, oz: int) -> spec_fn(QuadView, int) -> Outcome {
    |q: QuadView, s: int| canes_after(q, ids, feature_spot(s, ox, oz).1, feature_spot(s, ox, oz).0, 20)
}

/// Pumpkins at a feature spot (`pumpkins_after`, 64 spots).
pub open spec fn pumpkin_patch(ids: BlockIds, ox: int, oz: int) -> spec_fn(QuadView, int) -> Outcome {
    |q: QuadView, s: int| pumpkins_after(q, ids, feature_spot(s, ox, oz).1, feature_spot(s, ox, oz).0, 64)
}

/// Cacti at a feature spot (`cacti_after`, 10 spots).
pub open spec fn cactus_patch(ids: BlockIds, ox: int, oz: int) -> spec_fn(QuadView, int) -> Outcome {
    |q: QuadView, s: int| cacti_after(q, ids, feature_spot(s, ox, oz).1, feature_spot(s, ox, oz).0, 10)
}

/// The dandelion and tall grass patches of `biome`, and its dead bushes in desert.
pub open spec fn ground_plants(q: QuadView, s: int, ids: BlockIds, ox: int, oz: int, biome: Biome) -> Outcome {
    let flowers = repeat(
        Some((q, s)),
        plant_patch(ids, ox, oz, ids.dandelion, 64, false, SupportRule::GrassOrDirt),
        dandelion_count(biome) as nat,
    );
    let grass = repeat(flowers, grass_patch(ids, ox, oz, biome), tall_grass_count(biome) as nat);
    if biome == Biome::Desert {
        repeat(grass, plant_patch(ids, ox, oz, ids.deadbush, 4, true, SupportRule::Sand), 2)
    } else {
        grass
    }
}

/// The poppies and mushrooms, each patch on its own chance (one in 2, 4 and 8).
pub open spec fn chance_plants(o: Outcome, ids: BlockIds, ox: int, oz: int) -> Outcome {
    let poppies = on_chance(o, 2, plant_patch(ids, ox, oz, ids.poppy, 64, false, SupportRule::GrassOrDirt));
    let brown = on_chance(poppies, 4, plant_patch(ids, ox, oz, ids.brown_mushroom, 64, false, SupportRule::NotAirOrWater));
    on_chance(brown, 8, plant_patch(ids, ox, oz, ids.red_mushroom, 64, false, SupportRule::NotAirOrWater))
}

/// Ten sugar cane patches, a pumpkin patch one time in 32, and ten cactus patches in
/// desert.
pub open spec fn field_plants(o: Outcome, ids: BlockIds, ox: int, oz: int, biome: Biome) -> Outcome {
    let canes = repeat(o, cane_patch(ids, ox, oz), 10);
    let pumpkins = on_chance(canes, 32, pumpkin_patch(ids, ox, oz));
    if biome == Biome::Desert {
        repeat(pumpkins, cactus_patch(ids, ox, oz), 10)
    } else {
        pumpkins
    }
}

/// All plants of the owner chunk with corner `(ox, oz)` and biome `biome`, from quad `q`
/// and state `s`, in the order they are placed.
pub open spec fn overworld_plants(q: QuadView, s: int, ids: BlockIds, ox: int, oz: int, biome: Biome) -> Outcome {
    field_plants(chance_plants(ground_plants(q, s, ids, ox, oz, biome), ids, ox, oz), ids, ox, oz, biome)
}

/// One patch of `plant_id` at a feature spot of the chunk with corner `(ox, oz)`, as
/// `plant_patch` states it.
#[allow(clippy::too_many_arguments)]
pub fn patch_at<G: TerrainSource>(
    generator: &G,
    buffer: &mut QuadChunkBuffer,
    ox: i32,
    oz: i32,
    block_ids: &BlockIds,
    plant_id: i32,
    count: i32,
    find_ground: bool,
    rule: SupportRule,
    rand: &mut JavaRand,
)
    requires
        i32::MIN + 16 <= ox <= i32::MAX - 48,
        i32::MIN + 16 <= oz <= i32::MAX - 48,
        count > 0,
    ensures
        changed_only_to(old(buffer)@, final(buffer)@, set![plant_id]),
        reached(
            plant_patch(*block_ids, ox as int, oz as int, plant_id, count as nat, find_ground, rule)(old(buffer)@, old(rand)@),
            final(buffer)@,
            final(rand)@,
        ),
        old(buffer)@.x * 16 == ox && old(buffer)@.z * 16 == oz ==> plant_patch(
            *block_ids,
            ox as int,
            oz as int,
            plant_id,
            count as nat,
            find_ground,
            rule,
        )(old(buffer)@, old(rand)@) is Some,
{
    let ghost q = buffer@;
    let ghost s = rand@;
    let offset = next_offset(rand, 128, 8);
    let pos = BlockPos { x: ox + offset.x, y: offset.y, z: oz + offset.z };
    proof {
        assert(feature_spot(s, ox as int, oz as int) == (rand@, pos));
        if q.x * 16 == ox && q.z * 16 == oz {
            lemma_owner_covers(q, q.x, q.z, pos);
            lemma_covers_around(q, pos, 8, pos.x as int, pos.z as int);
        }
    }
    place_plants(generator, buffer, pos, block_ids, plant_id, count, find_ground, rand, rule);
}

/// The plants of owner chunk `(owner_x, owner_z)` of `biome`, each patch around a drawn
/// spot 8 to 23 blocks from the chunk's corner: `dandelion_count` dandelion patches,
/// `tall_grass_count` grass patches (in rain forest a fern two times in 3), two dead bush
/// patches in desert, a poppy patch one time in 2, a brown mushroom patch one time in 4,
/// a red one one time in 8, ten sugar cane spots, a pumpkin patch one time in 32, and ten
/// cactus spots in desert (`overworld_plants`, where the quad determines every block
/// read, as the owner's own quad always does). Nothing but those plants is placed.
#[verifier::rlimit(50)]
pub fn populate_plants<G: TerrainSource>(
    generator: &G,
    buffer: &mut QuadChunkBuffer,
    owner_x: i32,
    owner_z: i32,
    block_ids: &BlockIds,
    biome: Biome,
    rand: &mut JavaRand,
)
    requires
        owner_in_range(owner_x as int),
        owner_in_range(owner_z as int),
    ensures
        changed_only_to(old(buffer)@, final(buffer)@, plant_ids(*block_ids)),
        reached(
            overworld_plants(old(buffer)@, old(rand)@, *block_ids, owner_x * 16, owner_z * 16, biome),
            final(buffer)@,
            final(rand)@,
        ),
        old(buffer)@.x == owner_x && old(buffer)@.z == owner_z ==> overworld_plants(
            old(buffer)@,
            old(rand)@,
            *block_ids,
            owner_x * 16,
            owner_z * 16,
            biome,
        ) is Some,
{
    let ghost b0 = buffer@;
    let ghost s0 = rand@;
    let ghost ids = *block_ids;
    proof {
        buffer.lemma_wf();
        lemma_changed_only_to_refl(b0, plant_ids(ids));
    }
    let ox = owner_x * 16;
    let oz = owner_z * 16;
    let ghost flowers_f = plant_patch(ids, ox as int, oz as int, ids.dandelion, 64, false, SupportRule::GrassOrDirt);
    let dandelions = dandelions_of(biome);
    let mut i: i32 = 0;
    while i < dandelions
        invariant
            owner_in_range(owner_x as int),
            owner_in_range(owner_z as int),
            ox == owner_x * 16,
            oz == owner_z * 16,
            ids == *block_ids,
            flowers_f == plant_patch(ids, ox as int, oz as int, ids.dandelion, 64, false, SupportRule::GrassOrDirt),
            0 <= i <= dandelions,
            dandelions == dandelion_count(biome),
            changed_only_to(b0, buffer@, plant_ids(ids)),
            reached(repeat(Some((b0, s0)), flowers_f, i as nat), buffer@, rand@),
            b0.x * 16 == ox && b0.z * 16 == oz ==> repeat(Some((b0, s0)), flowers_f, i as nat) is Some,
        decreases dandelions - i,
    {
        let ghost mid = buffer@;
        patch_at(generator, buffer, ox, oz, block_ids, block_ids.dandelion, 64, false, SupportRule::GrassOrDirt, rand);
        proof {
            lemma_plant_step(b0, mid, buffer@, ids, set![ids.dandelion]);
            assert(repeat(Some((b0, s0)), flowers_f, (i + 1) as nat) == and_then(repeat(Some((b0, s0)), flowers_f, i as nat), flowers_f));
        }
        i += 1;
    }
    let ghost after_flowers = repeat(Some((b0, s0)), flowers_f, dandelion_count(biome) as nat);
    let ghost grass_f = grass_patch(ids, ox as int, oz as int, biome);
    let grass = tall_grass_of(biome);
    let mut i: i32 = 0;
    while i < grass
        invariant
            owner_in_range(owner_x as int),
            owner_in_range(owner_z as int),
            ox == owner_x * 16,
            oz == owner_z * 16,
            ids == *block_ids,
            grass_f == grass_patch(ids, ox as int, oz as int, biome),
            0 <= i <= grass,
            grass == tall_grass_count(biome),
            changed_only_to(b0, buffer@, plant_ids(ids)),
            reached(repeat(after_flowers, grass_f, i as nat), buffer@, rand@),
            b0.x * 16 == ox && b0.z * 16 == oz ==> repeat(after_flowers, grass_f, i as nat) is Some,
        decreases grass - i,
    {
        let ghost q = buffer@;
        let ghost s = rand@;
        let plant_id = if biome == Biome::RainForest && rand.random_with::<i32>(Bound::new(3)) != 0 {
            block_ids.fern
        } else {
            block_ids.tall_grass
        };
        let ghost mid = buffer@;
        patch_at(generator, buffer, ox, oz, block_ids, plant_id, 128, true, SupportRule::GrassOrDirt, rand);
        proof {
            lemma_plant_step(b0, mid, buffer@, ids, set![plant_id]);
            assert(repeat(after_flowers, grass_f, (i + 1) as nat) == and_then(repeat(after_flowers, grass_f, i as nat), grass_f));
        }
        i += 1;
    }
    let ghost after_grass = repeat(after_flowers, grass_f, tall_grass_count(biome) as nat);
    let ghost bush_f = plant_patch(ids, ox as int, oz as int, ids.deadbush, 4, true, SupportRule::Sand);
    if biome == Biome::Desert {
        let mut i: i32 = 0;
        while i < 2
            invariant
                owner_in_range(owner_x as int),
                owner_in_range(owner_z as int),
                ox == owner_x * 16,
                oz == owner_z * 16,
                ids == *block_ids,
                bush_f == plant_patch(ids, ox as int, oz as int, ids.deadbush, 4, true, SupportRule::Sand),
                0 <= i <= 2,
                changed_only_to(b0, buffer@, plant_ids(ids)),
                reached(repeat(after_grass, bush_f, i as nat), buffer@, rand@),
                b0.x * 16 == ox && b0.z * 16 == oz ==> repeat(after_grass, bush_f, i as nat) is Some,
            decreases 2 - i,
        {
            let ghost mid = buffer@;
            patch_at(generator, buffer, ox, oz, block_ids, block_ids.deadbush, 4, true, SupportRule::Sand, rand);
            proof {
                lemma_plant_step(b0, mid, buffer@, ids, set![ids.deadbush]);
                assert(repeat(after_grass, bush_f, (i + 1) as nat) == and_then(repeat(after_grass, bush_f, i as nat), bush_f));
            }
            i += 1;
        }
    }
    let ghost ground = ground_plants(b0, s0, ids, ox as int, oz as int, biome);
    assert(reached(ground, buffer@, rand@));
    let ghost q1 = buffer@;
    let ghost s1 = rand@;
    place_chance_plants(generator, buffer, ox, oz, block_ids, rand);
    let ghost chance = chance_plants(ground, ids, ox as int, oz as int);
    proof {
        if ground is Some {
            assert(ground == Some((q1, s1)));
        }
        lemma_changed_only_to_trans(b0, q1, buffer@, plant_ids(ids));
    }
    assert(reached(chance, buffer@, rand@));
    let ghost q2 = buffer@;
    let ghost s2 = rand@;
    place_field_plants(generator, buffer, ox, oz, block_ids, biome, rand);
    proof {
        lemma_field_plants_from(chance, q2, s2, ids, ox as int, oz as int, biome);
        lemma_changed_only_to_trans(b0, q2, buffer@, plant_ids(ids));
    }
}

/// The field plants after a known outcome are those from what it holds; after an unknown
/// one they stay unknown.
pub proof fn lemma_field_plants_from(o: Outcome, q: QuadView, s: int, ids: BlockIds, ox: int, oz: int, biome: Biome)
    requires
        reached(o, q, s),
    ensures
        o is Some ==> field_plants(o, ids, ox, oz, biome) == field_plants(Some((q, s)), ids, ox, oz, biome),
        o is None ==> field_plants(o, ids, ox, oz, biome) is None,
{
    if o is None {
        lemma_repeat_from(o, q, s, cane_patch(ids, ox, oz), 10);
        let pumpkins = on_chance(repeat(o, cane_patch(ids, ox, oz), 10), 32, pumpkin_patch(ids, ox, oz));
        assert(pumpkins is None);
        lemma_repeat_from(pumpkins, q, s, cactus_patch(ids, ox, oz), 10);
    }
}

/// The poppy patch one time in 2, the brown mushroom patch one time in 4 and the red one
/// one time in 8 (`chance_plants`).
pub fn place_chance_plants<G: TerrainSource>(
    generator: &G,
    buffer: &mut QuadChunkBuffer,
    ox: i32,
    oz: i32,
    block_ids: &BlockIds,
    rand: &mut JavaRand,
)
    requires
        i32::MIN + 16 <= ox <= i32::MAX - 48,
        i32::MIN + 16 <= oz <= i32::MAX - 48,
    ensures
        changed_only_to(old(buffer)@, final(buffer)@, plant_ids(*block_ids)),
        reached(chance_plants(Some((old(buffer)@, old(rand)@)), *block_ids, ox as int, oz as int), final(buffer)@, final(rand)@),
        old(buffer)@.x * 16 == ox && old(buffer)@.z * 16 == oz ==> chance_plants(
            Some((old(buffer)@, old(rand)@)),
            *block_ids,
            ox as int,
            oz as int,
        ) is Some,
{
    let ghost b0 = buffer@;
    let ghost s0 = rand@;
    let ghost ids = *block_ids;
    proof {
        buffer.lemma_wf();
        lemma_changed_only_to_refl(b0, plant_ids(ids));
    }
    let ghost poppy_f = plant_patch(ids, ox as int, oz as int, ids.poppy, 64, false, SupportRule::GrassOrDirt);
    if rand.random_with::<i32>(Bound::new(2)) == 0 {
        patch_at(generator, buffer, ox, oz, block_ids, block_ids.poppy, 64, false, SupportRule::GrassOrDirt, rand);
        proof {
            lemma_plant_step(b0, b0, buffer@, ids, set![ids.poppy]);
        }
    }
    let ghost poppies = on_chance(Some((b0, s0)), 2, poppy_f);
    assert(reached(poppies, buffer@, rand@));
    let ghost brown_f = plant_patch(ids, ox as int, oz as int, ids.brown_mushroom, 64, false, SupportRule::NotAirOrWater);
    let ghost q = buffer@;
    if rand.random_with::<i32>(Bound::new(4)) == 0 {
        patch_at(generator, buffer, ox, oz, block_ids, block_ids.brown_mushroom, 64, false, SupportRule::NotAirOrWater, rand);
        proof {
            lemma_plant_step(b0, q, buffer@, ids, set![ids.brown_mushroom]);
        }
    }
    let ghost brown = on_chance(poppies, 4, brown_f);
    assert(reached(brown, buffer@, rand@));
    let ghost q = buffer@;
    if rand.random_with::<i32>(Bound::new(8)) == 0 {
        patch_at(generator, buffer, ox, oz, block_ids, block_ids.red_mushroom, 64, false, SupportRule::NotAirOrWater, rand);
        proof {
            lemma_plant_step(b0, q, buffer@, ids, set![ids.red_mushroom]);
        }
    }
}

/// Ten sugar cane patches, a pumpkin patch one time in 32, and ten cactus patches in
/// desert (`field_plants`).
pub fn place_field_plants<G: TerrainSource>(
    generator: &G,
    buffer: &mut QuadChunkBuffer,
    ox: i32,
    oz: i32,
    block_ids: &BlockIds,
    biome: Biome,
    rand: &mut JavaRand,
)
    requires
        i32::MIN + 16 <= ox <= i32::MAX - 48,
        i32::MIN + 16 <= oz <= i32::MAX - 48,
    ensures
        changed_only_to(old(buffer)@, final(buffer)@, plant_ids(*block_ids)),
        reached(field_plants(Some((old(buffer)@, old(rand)@)), *block_ids, ox as int, oz as int, biome), final(buffer)@, final(rand)@),
        old(buffer)@.x * 16 == ox && old(buffer)@.z * 16 == oz ==> field_plants(
            Some((old(buffer)@, old(rand)@)),
            *block_ids,
            ox as int,
            oz as int,
            biome,
        ) is Some,
{
    let ghost b0 = buffer@;
    let ghost s0 = rand@;
    let ghost ids = *block_ids;
    proof {
        buffer.lemma_wf();
        lemma_changed_only_to_refl(b0, plant_ids(ids));
    }
    let ghost cane_f = cane_patch(ids, ox as int, oz as int);
    let mut i: i32 = 0;
    while i < 10
        invariant
            i32::MIN + 16 <= ox <= i32::MAX - 48,
            i32::MIN + 16 <= oz <= i32::MAX - 48,
            ids == *block_ids,
            cane_f == cane_patch(ids, ox as int, oz as int),
            0 <= i <= 10,
            changed_only_to(b0, buffer@, plant_ids(ids)),
            reached(repeat(Some((b0, s0)), cane_f, i as nat), buffer@, rand@),
            b0.x * 16 == ox && b0.z * 16 == oz ==> repeat(Some((b0, s0)), cane_f, i as nat) is Some,
        decreases 10 - i,
    {
        let ghost q = buffer@;
        let ghost s = rand@;
        let offset = next_offset(rand, 128, 8);
        let pos = BlockPos { x: ox + offset.x, y: offset.y, z: oz + offset.z };
        proof {
            assert(feature_spot(s, ox as int, oz as int) == (rand@, pos));
            if b0.x * 16 == ox && b0.z * 16 == oz {
                lemma_owner_covers(q, b0.x, b0.z, pos);
            }
        }
        place_sugar_canes(generator, buffer, pos, block_ids, rand);
        proof {
            lemma_plant_step(b0, q, buffer@, ids, set![ids.reeds]);
            assert(repeat(Some((b0, s0)), cane_f, (i + 1) as nat) == and_then(repeat(Some((b0, s0)), cane_f, i as nat), cane_f));
        }
        i += 1;
    }
    let ghost canes = repeat(Some((b0, s0)), cane_f, 10);
    let ghost pumpkin_f = pumpkin_patch(ids, ox as int, oz as int);
    let ghost q = buffer@;
    if rand.random_with::<i32>(Bound::new(32)) == 0 {
        let ghost s = rand@;
        let offset = next_offset(rand, 128, 8);
        let pos = BlockPos { x: ox + offset.x, y: offset.y, z: oz + offset.z };
        proof {
            assert(feature_spot(s, ox as int, oz as int) == (rand@, pos));
            if b0.x * 16 == ox && b0.z * 16 == oz {
                lemma_owner_covers(q, b0.x, b0.z, pos);
            }
        }
        place_pumpkin(generator, buffer, pos, block_ids, rand);
        proof {
            lemma_plant_step(b0, q, buffer@, ids, set![ids.pumpkin]);
        }
    }
    let ghost pumpkins = on_chance(canes, 32, pumpkin_f);
    assert(reached(pumpkins, buffer@, rand@));
    let ghost cactus_f = cactus_patch(ids, ox as int, oz as int);
    if biome == Biome::Desert {
        let mut i: i32 = 0;
        while i < 10
            invariant
                i32::MIN + 16 <= ox <= i32::MAX - 48,
                i32::MIN + 16 <= oz <= i32::MAX - 48,
                ids == *block_ids,
                cactus_f == cactus_patch(ids, ox as int, oz as int),
                0 <= i <= 10,
                changed_only_to(b0, buffer@, plant_ids(ids)),
                reached(repeat(pumpkins, cactus_f, i as nat), buffer@, rand@),
                b0.x * 16 == ox && b0.z * 16 == oz ==> repeat(pumpkins, cactus_f, i as nat) is Some,
            decreases 10 - i,
        {
            let ghost q = buffer@;
            let ghost s = rand@;
            let offset = next_offset(rand, 128, 8);
            let pos = BlockPos { x: ox + offset.x, y: offset.y, z: oz + offset.z };
            proof {
                assert(feature_spot(s, ox as int, oz as int) == (rand@, pos));
                if b0.x * 16 == ox && b0.z * 16 == oz {
                    lemma_owner_covers(q, b0.x, b0.z, pos);
                }
            }
            place_cactus(generator, buffer, pos, block_ids, rand);
            proof {
                lemma_plant_step(b0, q, buffer@, ids, set![ids.cactus]);
                assert(repeat(pumpkins, cactus_f, (i + 1) as nat) == and_then(repeat(pumpkins, cactus_f, i as nat), cactus_f));
            }
            i += 1;
        }
    }
}

/// The plants of owner chunk `(owner_x, owner_z)`, of the biome the generator reports
/// at the centre of its population area (`overworld_plants` of that biome, where the
/// quad determines every block read).
pub fn populate_from<G: TerrainSource + ClimateSource>(
    generator: &G,
    buffer: &mut QuadChunkBuffer,
    owner_x: i32,
    owner_z: i32,
    block_ids: &BlockIds,
    rand: &mut JavaRand,
)
    requires
        owner_in_range(owner_x as int),
        owner_in_range(owner_z as int),
    ensures
        changed_only_to(old(buffer)@, final(buffer)@, plant_ids(*block_ids)),
        reached(
            overworld_plants(
                old(buffer)@,
                old(rand)@,
                *block_ids,
                owner_x * 16,
                owner_z * 16,
                generator.biome_of((owner_x * 16 + 16) as i32, (owner_z * 16 + 16) as i32),
            ),
            final(buffer)@,
            final(rand)@,
        ),
        old(buffer)@.x == owner_x && old(buffer)@.z == owner_z ==> overworld_plants(
            old(buffer)@,
            old(rand)@,
            *block_ids,
            owner_x * 16,
            owner_z * 16,
            generator.biome_of((owner_x * 16 + 16) as i32, (owner_z * 16 + 16) as i32),
        ) is Some,
{
    let biome = generator.biome_at(owner_x * 16 + 16, owner_z * 16 + 16);
    let ghost b0 = buffer@;
    let ghost s0 = rand@;
    populate_plants(generator, buffer, owner_x, owner_z, block_ids, biome, rand);
    assert(reached(overworld_plants(b0, s0, *block_ids, owner_x * 16, owner_z * 16, biome), buffer@, rand@));
}

} // verus!
