//! The sky dimension's plants: flowers, mushrooms, sugar cane, pumpkins and, in desert,
//! cacti.
use crate::level::generator::overworld::biome::Biome;
use crate::level::generator::overworld::plant::{
    chance_plants, field_plants, lemma_field_plants_from, lemma_plant_step, patch_at, place_chance_plants,
    place_field_plants, plant_ids, plant_patch,
};
use crate::level::generator::shared::block_ids::BlockIds;
use crate::level::generator::shared::outcome::{Outcome, and_then, reached, repeat};
use crate::level::generator::shared::plant::SupportRule;
use crate::level::generator::shared::quad_chunk_buffer::{
    QuadChunkBuffer, QuadView, changed_only_to, lemma_changed_only_to_refl, lemma_changed_only_to_trans,
};
use crate::level::generator::shared::{ClimateSource, TerrainSource, owner_in_range};
use crate::rand::java::JavaRand;
use vstd::prelude::*;

verus! {

/// All plants of the sky owner chunk with corner `(ox, oz)` and biome `biome`, from quad
/// `q` and state `s`: two dandelion patches, then the chance plants and the field plants
/// of the overworld.
pub open spec fn sky_plants(q: QuadView, s: int, ids: BlockIds, ox: int, oz: int, biome: Biome) -> Outcome {
    let flowers = repeat(Some((q, s)), plant_patch(ids, ox, oz, ids.dandelion, 64, false, SupportRule::GrassOrDirt), 2);
    field_plants(chance_plants(flowers, ids, ox, oz), ids, ox, oz, biome)
}

/// The plants of owner chunk `(owner_x, owner_z)` of `biome`, each patch around a drawn
/// spot 8 to 23 blocks from the chunk's corner: two dandelion patches, a poppy patch one
/// time in 2, a brown mushroom patch one time in 4, a red one one time in 8, ten sugar
/// cane spots, a pumpkin patch one time in 32, and ten cactus spots in desert
/// (`sky_plants`, where the quad determines every block read, as the owner's own quad
/// always does).
pub fn populate_plants<G: TerrainSource>(
    generator: &G,
    buffer: &mut QuadChunkBuffer,
    owner_x: i32,
    owner_z: i32,
    block_ids: &BlockIds,
    biome: Biome,
    rand: &mut JavaRand,
)
    requires
        owner_in_range(owner_x as int),
        owner_in_range(owner_z as int),
    ensures
        changed_only_to(old(buffer)@, final(buffer)@, plant_ids(*block_ids)),
        reached(sky_plants(old(buffer)@, old(rand)@, *block_ids, owner_x * 16, owner_z * 16, biome), final(buffer)@, final(rand)@),
        old(buffer)@.x == owner_x && old(buffer)@.z == owner_z ==> sky_plants(
            old(buffer)@,
            old(rand)@,
            *block_ids,
            owner_x * 16,
            owner_z * 16,
            biome,
        ) is Some,
{
    let ghost b0 = buffer@;
    let ghost s0 = rand@;
    let ghost ids = *block_ids;
    proof {
        buffer.lemma_wf();
        lemma_changed_only_to_refl(b0, plant_ids(ids));
    }
    let ox = owner_x * 16;
    let oz = owner_z * 16;
    let ghost flowers_f = plant_patch(ids, ox as int, oz as int, ids.dandelion, 64, false, SupportRule::GrassOrDirt);
    let mut i: i32 = 0;
    while i < 2
        invariant
            owner_in_range(owner_x as int),
            owner_in_range(owner_z as int),
            ox == owner_x * 16,
            oz == owner_z * 16,
            ids == *block_ids,
            flowers_f == plant_patch(ids, ox as int, oz as int, ids.dandelion, 64, false, SupportRule::GrassOrDirt),
            0 <= i <= 2,
            changed_only_to(b0, buffer@, plant_ids(ids)),
            reached(repeat(Some((b0, s0)), flowers_f, i as nat), buffer@, rand@),
            b0.x * 16 == ox && b0.z * 16 == oz ==> repeat(Some((b0, s0)), flowers_f, i as nat) is Some,
        decreases 2 - i,
    {
        let ghost mid = buffer@;
        patch_at(generator, buffer, ox, oz, block_ids, block_ids.dandelion, 64, false, SupportRule::GrassOrDirt, rand);
        proof {
            lemma_plant_step(b0, mid, buffer@, ids, set![ids.dandelion]);
            assert(repeat(Some((b0, s0)), flowers_f, (i + 1) as nat) == and_then(repeat(Some((b0, s0)), flowers_f, i as nat), flowers_f));
        }
        i += 1;
    }
    let ghost flowers = repeat(Some((b0, s0)), flowers_f, 2);
    let ghost q1 = buffer@;
    let ghost s1 = rand@;
    place_chance_plants(generator, buffer, ox, oz, block_ids, rand);
    let ghost chance = chance_plants(flowers, ids, ox as int, oz as int);
    proof {
        if flowers is Some {
            assert(flowers == Some((q1, s1)));
        }
        lemma_changed_only_to_trans(b0, q1, buffer@, plant_ids(ids));
    }
    assert(reached(chance, buffer@, rand@));
    let ghost q2 = buffer@;
    let ghost s2 = rand@;
    place_field_plants(generator, buffer, ox, oz, block_ids, biome, rand);
    proof {
        lemma_field_plants_from(chance, q2, s2, ids, ox as int, oz as int, biome);
        lemma_changed_only_to_trans(b0, q2, buffer@, plant_ids(ids));
    }
}

/// The plants of owner chunk `(owner_x, owner_z)`, of the biome the generator reports
/// at the centre of its population area (`sky_plants` of that biome, where the quad
/// determines every block read).
pub fn populate_from<G: TerrainSource + ClimateSource>(
    generator: &G,
    buffer: &mut QuadChunkBuffer,
    owner_x: i32,
    owner_z: i32,
    block_ids: &BlockIds,
    rand: &mut JavaRand,
)
    requires
        owner_in_range(owner_x as int),
        owner_in_range(owner_z as int),
    ensures
        changed_only_to(old(buffer)@, final(buffer)@, plant_ids(*block_ids)),
        reached(
            sky_plants(
                old(buffer)@,
                old(rand)@,
                *block_ids,
                owner_x * 16,
                owner_z * 16,
                generator.biome_of((owner_x * 16 + 16) as i32, (owner_z * 16 + 16) as i32),
            ),
            final(buffer)@,
            final(rand)@,
        ),
        old(buffer)@.x == owner_x && old(buffer)@.z == owner_z ==> sky_plants(
            old(buffer)@,
            old(rand)@,
            *block_ids,
            owner_x * 16,
            owner_z * 16,
            generator.biome_of((owner_x * 16 + 16) as i32, (owner_z * 16 + 16) as i32),
        ) is Some,
{
    let biome = generator.biome_at(owner_x * 16 + 16, owner_z * 16 + 16);
    let ghost b0 = buffer@;
    let ghost s0 = rand@;
    populate_plants(generator, buffer, owner_x, owner_z, block_ids, biome, rand);
    assert(reached(sky_plants(b0, s0, *block_ids, owner_x * 16, owner_z * 16, biome), buffer@, rand@));
}

} // verus!
