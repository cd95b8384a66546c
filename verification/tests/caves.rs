use pyrite::level::generator::nether;
use pyrite::level::generator::nether::cave::carve_nether_cell;
use pyrite::level::generator::shared::block_ids::BlockIds;
use pyrite::level::generator::shared::cave::{
    CaveCarver, CaveCarving, box_holds_fluid, carve_cave_cell, cave_count, nether_cave_start, overworld_cave_start,
};
use pyrite::level::generator::shared::chunk_buffer::ChunkBuffer;
use pyrite::level::generator::shared::chunk_seed;
use pyrite::rand::java::{JavaRand, JavaRandType};


fn ids() -> BlockIds {
    BlockIds {
        air: 0,
        stone: 1,
        grass: 2,
        dirt: 3,
        cobblestone: 4,
        mossy_cobblestone: 5,
        bedrock: 6,
        water: 7,
        water_flowing: 8,
        lava: 9,
        lava_still: 10,
        sand: 11,
        sandstone: 12,
        gravel: 13,
        clay: 14,
        ice: 15,
        snow_layer: 16,
        coal_ore: 17,
        iron_ore: 18,
        gold_ore: 19,
        redstone_ore: 20,
        diamond_ore: 21,
        lapis_ore: 22,
        oak_log: 23,
        birch_log: 24,
        spruce_log: 25,
        oak_leaves: 26,
        birch_leaves: 27,
        spruce_leaves: 28,
        dandelion: 29,
        poppy: 30,
        tall_grass: 31,
        fern: 32,
        deadbush: 33,
        brown_mushroom: 34,
        red_mushroom: 35,
        reeds: 36,
        pumpkin: 37,
        cactus: 38,
        chest: 39,
        mob_spawner: 40,
    }
}


#[test]
fn cave_count_follows_the_draws() {
    let mut rand = JavaRand::new(10);
    assert_eq!(cave_count(&mut rand, 40, 15), 18);
    let mut rand = JavaRand::new(0);
    assert_eq!(cave_count(&mut rand, 40, 15), 0);
    let mut rand = JavaRand::new(9);
    assert_eq!(cave_count(&mut rand, 10, 5), 1);
}

#[test]
fn cave_starts_lie_in_their_chunk() {
    let mut rand = JavaRand::new(5);
    assert_eq!(overworld_cave_start(&mut rand, 2, -3), (43, 14, -39));
    let mut rand = JavaRand::new(5);
    assert_eq!(nether_cave_start(&mut rand, 2, -3), (43, 22, -47));
}

#[test]
fn fluid_guard_looks_at_the_shell() {
    let water = 7;
    let mut column = ChunkBuffer::new(0);
    column.set(3, 15, 3, water);
    assert!(!box_holds_fluid(&column, water, water, 2, 10, 2, 6, 20, 6));
    let mut column = ChunkBuffer::new(0);
    column.set(3, 9, 3, water);
    assert!(box_holds_fluid(&column, water, water, 2, 10, 2, 6, 20, 6));
    let mut column = ChunkBuffer::new(0);
    column.set(3, 21, 3, water);
    assert!(box_holds_fluid(&column, water, water, 2, 10, 2, 6, 20, 6));
    let mut column = ChunkBuffer::new(0);
    column.set(2, 15, 3, water);
    assert!(box_holds_fluid(&column, water, water, 2, 10, 2, 6, 20, 6));
    let mut column = ChunkBuffer::new(0);
    column.set(3, 22, 3, water);
    assert!(!box_holds_fluid(&column, water, water, 2, 10, 2, 6, 20, 6));
    let mut column = ChunkBuffer::new(0);
    column.set(5, 12, 4, 52);
    assert!(box_holds_fluid(&column, 51, 52, 2, 10, 2, 6, 20, 6));
}

#[test]
fn carving_turns_ground_into_lava_air_and_grass() {
    let ids = ids();
    let mut column = ChunkBuffer::new(ids.air);
    column.set(1, 5, 1, ids.stone);
    column.set(1, 64, 1, ids.grass);
    column.set(1, 63, 1, ids.dirt);
    column.set(1, 62, 1, ids.dirt);
    column.set(1, 40, 1, ids.water);
    assert!(!carve_cave_cell(&mut column, &ids, 1, 5, 1, false));
    assert_eq!(column.get(1, 5, 1), ids.lava);
    assert!(carve_cave_cell(&mut column, &ids, 1, 64, 1, false));
    assert_eq!(column.get(1, 64, 1), ids.air);
    assert!(carve_cave_cell(&mut column, &ids, 1, 63, 1, true));
    assert_eq!(column.get(1, 63, 1), ids.air);
    assert_eq!(column.get(1, 62, 1), ids.grass);
    assert!(!carve_cave_cell(&mut column, &ids, 1, 40, 1, false));
    assert_eq!(column.get(1, 40, 1), ids.water);
}

#[test]
fn nether_carving_takes_only_netherrack() {
    let ids = nether::BlockIds {
        air: 0,
        netherrack: 50,
        lava: 51,
        lava_still: 52,
        bedrock: 53,
        soul_sand: 54,
        gravel: 55,
        glowstone: 56,
        fire: 57,
        brown_mushroom: 58,
        red_mushroom: 59,
    };
    let mut column = ChunkBuffer::new(ids.netherrack);
    column.set(2, 30, 2, ids.lava);
    carve_nether_cell(&mut column, &ids, 2, 31, 2);
    carve_nether_cell(&mut column, &ids, 2, 30, 2);
    assert_eq!(column.get(2, 31, 2), ids.air);
    assert_eq!(column.get(2, 30, 2), ids.lava);
}

/// Marks the column with the chunk it was asked for and the first draw of its generator.
struct Marker;

impl CaveCarving for Marker {
    fn carve_from(&self, from_x: i32, from_z: i32, _x: i32, _z: i32, column: &mut ChunkBuffer, rand: &mut JavaRand) {
        column.set(0, 100, 0, rand.random::<i32>());
        column.set(1, 100, 0, from_x);
        column.set(2, 100, 0, from_z);
        column.set(3, 100, 0, column.get(3, 100, 0) + 1);
    }
}

#[test]
fn carver_visits_every_source_reseeded() {
    let mut column = ChunkBuffer::new(0);
    CaveCarver::new(1).carve(&Marker, 42, 5, 7, &mut column);
    assert_eq!(column.get(3, 100, 0), 9);
    assert_eq!(column.get(1, 100, 0), 6);
    assert_eq!(column.get(2, 100, 0), 8);
    let mut expected = JavaRand::new(chunk_seed(42, 6, 8));
    assert_eq!(column.get(0, 100, 0), expected.random::<i32>());
}
