//! The overworld's population pass: its features in the game's fixed order, each drawing
//! from the same generator seeded with the owner's chunk seed, so that no feature can be
//! moved without changing every feature after it.
use crate::level::generator::overworld::lake::{lakes_after, populate_lakes};
use crate::level::generator::shared::lake::LakeShape;
use crate::level::generator::overworld::vein::{VeinPlacer, populate_veins, veins_after};
use crate::level::generator::overworld::plant::{overworld_plants, populate_from as populate_plants_from};
use crate::level::generator::shared::block_ids::BlockIds;
use crate::level::generator::shared::dungeon::{dungeon_step, populate_from as populate_dungeons_from};
use crate::level::generator::shared::outcome::{Outcome, and_then, reached, repeat};
use crate::level::generator::shared::quad_chunk_buffer::{QuadChunkBuffer, QuadView, known_block};
use crate::level::generator::shared::snow::{climate_cold, populate_from as populate_snow_from, snowed_block};
use crate::level::generator::shared::spring::{populate_from as populate_springs_from, spring_population};
use crate::level::generator::shared::tree::{
    TreeSource, big_trees, populate_from as populate_trees_from, tree_population, trees_reached,
};
use crate::level::generator::shared::{BlockPos, ClimateSource, TerrainSource, chunk_seed, chunk_seed_of, owner_in_range};
use crate::rand::java::{JavaRand, initial_state};
use crate::rand::primitives::double_bits_draw;
use vstd::prelude::*;

verus! {

/// What the overworld's population needs of a generator beyond its terrain, climate,
/// trees and veins: the cells a lake fills, drawn as ellipsoids in floating point by the
/// program. The shape and the state after are a function of the generator and the state
/// it draws from alone, named by `shape_of` (a placeholder body, as in `TerrainSource`).
pub trait OverworldFeatures: TerrainSource + ClimateSource + TreeSource + VeinPlacer {
    /// The shape and state `lake_shape` gives.
    closed spec fn shape_of(&self, state: int) -> (Seq<bool>, int) {
        vstd::pervasive::arbitrary()
    }

    /// The cells a lake fills: the union of 4 to 7 ellipsoids drawn inside its box.
    fn lake_shape(&self, rand: &mut JavaRand) -> (r: LakeShape)
        ensures
            (r@, final(rand)@) == self.shape_of(old(rand)@),
    ;
}

/// The corner of owner chunk `(ox, oz)` at layer 0.
pub open spec fn owner_origin(ox: i32, oz: i32) -> BlockPos {
    BlockPos { x: (ox * 16) as i32, y: 0, z: (oz * 16) as i32 }
}

/// The overworld's features before snow, from quad `q` and state `s`, in order: lakes,
/// dungeons (8 tries), veins, trees (of the climate's biome at the centre of the
/// population area, with the base count of the feature noise), plants, springs.
pub open spec fn overworld_features<G: OverworldFeatures>(generator: &G, ids: BlockIds, ox: i32, oz: i32, q: QuadView, s: int) -> Outcome {
    let biome = generator.biome_of((ox * 16 + 16) as i32, (oz * 16 + 16) as i32);
    let lakes = Some(lakes_after(generator, ids, ox * 16, oz * 16, q, s));
    let dungeons = and_then(lakes, |q: QuadView, s: int| repeat(Some((q, s)), dungeon_step(ids, owner_origin(ox, oz)), 8));
    let veins = and_then(dungeons, |q: QuadView, s: int| Some(veins_after(generator, ids, ox * 16, oz * 16, q, s)));
    let trees = and_then(
        veins,
        |q: QuadView, s: int|
            tree_population(
                q,
                double_bits_draw(s).0,
                ids,
                ox * 16,
                oz * 16,
                biome,
                generator.base_count_of((ox * 16) as i32, (oz * 16) as i32, double_bits_draw(s).1) as int,
                big_trees(generator),
            ),
    );
    let plants = and_then(trees, |q: QuadView, s: int| overworld_plants(q, s, ids, ox * 16, oz * 16, biome));
    and_then(
        plants,
        |q: QuadView, s: int|
            {
                let sp = spring_population(q, ids, owner_origin(ox, oz), s);
                match sp.0 {
                    Some(q2) => Some((q2, sp.1)),
                    None => None,
                }
            },
    )
}

/// Owner `(owner_x, owner_z)`'s overworld population, drawn from its chunk seed in the
/// game's order: lakes, dungeons, veins, trees, plants, springs (`overworld_features`,
/// wherever it is known), then snow over the result (`snowed_block` with the climate's
/// answers).
pub fn run_overworld_population<G: OverworldFeatures>(
    generator: &G,
    seed: i64,
    block_ids: &BlockIds,
    owner_x: i32,
    owner_z: i32,
    buffer: &mut QuadChunkBuffer,
)
    requires
        owner_in_range(owner_x as int),
        owner_in_range(owner_z as int),
    ensures
        overworld_features(generator, *block_ids, owner_x, owner_z, old(buffer)@, initial_state(chunk_seed_of(seed, owner_x, owner_z)))
            matches Some((q, _)) ==> forall|x: int, y: int, z: int|
            #[trigger] known_block(final(buffer)@, x, y, z) == snowed_block(
                *block_ids,
                q,
                owner_x * 16 + 8,
                owner_z * 16 + 8,
                climate_cold(generator, *block_ids, q, owner_x * 16 + 8, owner_z * 16 + 8),
                x,
                y,
                z,
            ),
{
    let ghost ids = *block_ids;
    let ghost ox = owner_x;
    let ghost oz = owner_z;
    let ghost q0 = buffer@;
    let mut rand = JavaRand::new(chunk_seed(seed, owner_x, owner_z));
    let ghost s0 = rand@;
    let ghost biome = generator.biome_of((owner_x * 16 + 16) as i32, (owner_z * 16 + 16) as i32);

    populate_lakes(generator, buffer, owner_x, owner_z, block_ids, &mut rand);
    let ghost lakes: Outcome = Some(lakes_after(generator, ids, ox * 16, oz * 16, q0, s0));
    assert(reached(lakes, buffer@, rand@));

    populate_dungeons_from(generator, buffer, owner_x, owner_z, block_ids, &mut rand);
    let ghost dungeons = and_then(lakes, |q: QuadView, s: int| repeat(Some((q, s)), dungeon_step(ids, owner_origin(ox, oz)), 8));
    assert(reached(dungeons, buffer@, rand@));

    populate_veins(generator, buffer, owner_x, owner_z, block_ids, &mut rand);
    let ghost veins = and_then(dungeons, |q: QuadView, s: int| Some(veins_after(generator, ids, ox * 16, oz * 16, q, s)));
    assert(reached(veins, buffer@, rand@));

    populate_trees_from(generator, buffer, owner_x, owner_z, block_ids, &mut rand);
    let ghost trees = and_then(
        veins,
        |q: QuadView, s: int|
            tree_population(
                q,
                double_bits_draw(s).0,
                ids,
                ox * 16,
                oz * 16,
                biome,
                generator.base_count_of((ox * 16) as i32, (oz * 16) as i32, double_bits_draw(s).1) as int,
                big_trees(generator),
            ),
    );
    assert(reached(trees, buffer@, rand@)) by {
        reveal(trees_reached);
    }

    populate_plants_from(generator, buffer, owner_x, owner_z, block_ids, &mut rand);
    let ghost plants = and_then(trees, |q: QuadView, s: int| overworld_plants(q, s, ids, ox * 16, oz * 16, biome));
    assert(reached(plants, buffer@, rand@));

    populate_springs_from(generator, buffer, owner_x, owner_z, block_ids, &mut rand);
    let ghost springs = and_then(
        plants,
        |q: QuadView, s: int|
            {
                let sp = spring_population(q, ids, owner_origin(ox, oz), s);
                match sp.0 {
                    Some(q2) => Some((q2, sp.1)),
                    None => None,
                }
            },
    );
    assert(reached(springs, buffer@, rand@));
    assert(springs == overworld_features(generator, ids, ox, oz, q0, s0));

    populate_snow_from(generator, buffer, owner_x, owner_z, block_ids);
}

} // verus!
