use pyrite::level::generator::nether;
use pyrite::level::generator::nether::population::run_nether_population;
use pyrite::level::generator::overworld::biome::Biome;
use pyrite::level::generator::overworld::plant::populate_plants;
use pyrite::level::generator::shared::block_ids::BlockIds;
use pyrite::level::generator::shared::chunk_buffer::ChunkBuffer;
use pyrite::level::generator::shared::dungeon;
use pyrite::level::generator::shared::dungeon::place_dungeon;
use pyrite::level::generator::shared::lake::{LakeShape, place_lake};
use pyrite::level::generator::shared::plant::{SupportRule, place_plants, place_pumpkin, place_sugar_canes};
use pyrite::level::generator::shared::quad_chunk_buffer::{QuadChunkBuffer, read};
use pyrite::level::generator::shared::spring;
use pyrite::level::generator::shared::{BlockPos, TerrainSource};
use pyrite::rand::java::JavaRand;
use pyrite::rand::primitives::Bound;

fn ids() -> BlockIds {
    BlockIds {
        air: 0,
        stone: 1,
        grass: 2,
        dirt: 3,
        cobblestone: 4,
        mossy_cobblestone: 5,
        bedrock: 6,
        water: 7,
        water_flowing: 8,
        lava: 9,
        lava_still: 10,
        sand: 11,
        sandstone: 12,
        gravel: 13,
        clay: 14,
        ice: 15,
        snow_layer: 16,
        coal_ore: 17,
        iron_ore: 18,
        gold_ore: 19,
        redstone_ore: 20,
        diamond_ore: 21,
        lapis_ore: 22,
        oak_log: 23,
        birch_log: 24,
        spruce_log: 25,
        oak_leaves: 26,
        birch_leaves: 27,
        spruce_leaves: 28,
        dandelion: 29,
        poppy: 30,
        tall_grass: 31,
        fern: 32,
        deadbush: 33,
        brown_mushroom: 34,
        red_mushroom: 35,
        reeds: 36,
        pumpkin: 37,
        cactus: 38,
        chest: 39,
        mob_spawner: 40,
    }
}

fn nether_ids() -> nether::BlockIds {
    nether::BlockIds {
        air: 0,
        netherrack: 50,
        lava: 51,
        lava_still: 52,
        bedrock: 53,
        soul_sand: 54,
        gravel: 55,
        glowstone: 56,
        fire: 57,
        brown_mushroom: 58,
        red_mushroom: 59,
    }
}

/// The shapes of terrain these tests build on.
#[derive(Clone, Copy, PartialEq)]
enum Ground {
    /// Stone below layer 60, dirt up to 62, grass at 63, air above.
    Flat,
    /// Stone below layer 100, but for an air corridor on layers 30 and 31 along world `z == 16`.
    Corridor,
    /// Dirt below layer 100.
    Dirt,
    /// Netherrack below layer 64, air above.
    Netherrack,
}

struct World {
    ids: BlockIds,
    ground: Ground,
}

impl World {
    fn block(&self, z: i32, y: i32) -> i32 {
        match self.ground {
            Ground::Flat => {
                if y < 60 {
                    self.ids.stone
                } else if y < 63 {
                    self.ids.dirt
                } else if y == 63 {
                    self.ids.grass
                } else {
                    self.ids.air
                }
            },
            Ground::Corridor => {
                if y >= 100 || ((y == 30 || y == 31) && z == 16) {
                    self.ids.air
                } else {
                    self.ids.stone
                }
            },
            Ground::Dirt => {
                if y < 100 {
                    self.ids.dirt
                } else {
                    self.ids.air
                }
            },
            Ground::Netherrack => {
                if y < 64 {
                    nether_ids().netherrack
                } else {
                    self.ids.air
                }
            },
        }
    }
}

impl TerrainSource for World {
    fn raw_terrain(&self, _x: i32, z: i32) -> ChunkBuffer {
        let mut column = ChunkBuffer::new(self.ids.air);
        for lx in 0..16 {
            for lz in 0..16 {
                for y in 0..128 {
                    column.set(lx, y, lz, self.block(z * 16 + lz as i32, y as i32));
                }
            }
        }
        column
    }

    fn carve_caves(&self, _x: i32, _z: i32, _column: &mut ChunkBuffer) {}

    fn min_sub_chunk_y(&self) -> i8 {
        0
    }

    fn dimension_sub_chunk_count(&self) -> usize {
        8
    }

    fn air_id(&self) -> i32 {
        self.ids.air
    }

    fn biome(&self) -> i32 {
        1
    }
}

fn world(ground: Ground) -> World {
    World { ids: ids(), ground }
}

/// Every block of the quad of owner `(0, 0)`, in a fixed order.
fn snapshot(w: &World, quad: &QuadChunkBuffer) -> Vec<i32> {
    let mut out = Vec::new();
    for x in 0..32 {
        for y in 0..128 {
            for z in 0..32 {
                out.push(read(w, quad, x, y, z));
            }
        }
    }
    out
}

/// Each changed block of the quad of owner `(0, 0)`: its position and its new id.
fn changes(w: &World, before: &[i32], quad: &QuadChunkBuffer) -> Vec<(i32, i32, i32, i32)> {
    let mut out = Vec::new();
    let mut k = 0;
    for x in 0..32 {
        for y in 0..128 {
            for z in 0..32 {
                let id = read(w, quad, x, y, z);
                if id != before[k] {
                    out.push((x, y, z, id));
                }
                k += 1;
            }
        }
    }
    out
}

#[test]
fn dungeon_in_solid_rock_is_refused() {
    let w = world(Ground::Corridor);
    let mut quad = QuadChunkBuffer::new(&w, 0, 0);
    let before = snapshot(&w, &quad);
    let mut rand = JavaRand::new(11);
    assert!(!place_dungeon(&w, &mut quad, &w.ids, BlockPos::new(16, 70, 16), &mut rand));
    assert!(changes(&w, &before, &quad).is_empty());
    let mut expected = JavaRand::new(11);
    expected.random_with::<i32>(Bound::new(2));
    expected.random_with::<i32>(Bound::new(2));
    assert_eq!(rand.get_seed(), expected.get_seed());
}

#[test]
fn dungeon_beside_corridor_is_built() {
    let w = world(Ground::Corridor);
    let mut quad = QuadChunkBuffer::new(&w, 0, 0);
    let pos = BlockPos::new(16, 30, 16);
    let reach = JavaRand::new(4).random_with::<i32>(Bound::new(2)) + 3;
    let mut rand = JavaRand::new(4);
    assert!(place_dungeon(&w, &mut quad, &w.ids, pos, &mut rand));
    assert_eq!(read(&w, &quad, 16, 30, 16), w.ids.mob_spawner);
    assert_eq!(read(&w, &quad, 17, 32, 15), w.ids.air);
    assert_eq!(read(&w, &quad, 16 - reach + 1, 33, 16 + reach - 1), w.ids.air);
    // A wall block over stone stays a wall, of plain cobblestone above the floor.
    assert_eq!(read(&w, &quad, 16 - reach, 32, 17), w.ids.cobblestone);
    // The floor layer is cobblestone, mossy or not.
    for x in 16 - reach..=16 + reach {
        for z in 16 - reach..=16 + reach {
            let id = read(&w, &quad, x, 29, z);
            assert!(id == w.ids.cobblestone || id == w.ids.mossy_cobblestone);
        }
    }
    // The ceiling layer is untouched.
    assert_eq!(read(&w, &quad, 16, 34, 16), w.ids.stone);
}

#[test]
fn dungeons_of_a_solid_chunk_place_nothing() {
    let w = world(Ground::Corridor);
    let mut quad = QuadChunkBuffer::new(&w, 0, 0);
    let before = snapshot(&w, &quad);
    let mut rand = JavaRand::new(21);
    dungeon::populate_from(&w, &mut quad, 0, 0, &w.ids, &mut rand);
    let mut expected = JavaRand::new(21);
    let mut any_room = false;
    for _ in 0..8 {
        expected.random_with::<i32>(Bound::new(16));
        let y = expected.random_with::<i32>(Bound::new(128));
        expected.random_with::<i32>(Bound::new(16));
        expected.random_with::<i32>(Bound::new(2));
        expected.random_with::<i32>(Bound::new(2));
        if (28..=33).contains(&y) {
            any_room = true;
        }
    }
    if !any_room {
        assert!(changes(&w, &before, &quad).is_empty());
        assert_eq!(rand.get_seed(), expected.get_seed());
    }
}

#[test]
fn water_lake_fills_its_shape() {
    let w = world(Ground::Corridor);
    let mut quad = QuadChunkBuffer::new(&w, 0, 0);
    let mut shape = LakeShape::new();
    for dx in 4..9 {
        for dz in 4..9 {
            for dy in 2..7 {
                shape.fill(dx, dz, dy);
            }
        }
    }
    let corner = BlockPos::new(8, 50, 8);
    let mut rand = JavaRand::new(3);
    assert!(place_lake(&w, &mut quad, &w.ids, w.ids.water, corner, &shape, &mut rand));
    assert_eq!(read(&w, &quad, 14, 53, 14), w.ids.water);
    assert_eq!(read(&w, &quad, 14, 55, 14), w.ids.air);
    assert_eq!(read(&w, &quad, 11, 53, 14), w.ids.stone);
    assert_eq!(read(&w, &quad, 14, 51, 14), w.ids.stone);
    assert_eq!(rand.get_seed(), JavaRand::new(3).get_seed());
}

#[test]
fn lake_beside_open_air_is_refused() {
    let w = world(Ground::Flat);
    let mut quad = QuadChunkBuffer::new(&w, 0, 0);
    let before = snapshot(&w, &quad);
    let mut shape = LakeShape::new();
    shape.fill(8, 8, 3);
    // The filled cell is the air at layer 64; its sides, in the lower half of the box, are
    // air too, which no lake may have for a wall.
    let corner = BlockPos::new(8, 61, 8);
    let mut rand = JavaRand::new(3);
    let placed = place_lake(&w, &mut quad, &w.ids, w.ids.water, corner, &shape, &mut rand);
    assert!(!placed);
    assert!(changes(&w, &before, &quad).is_empty());
}

#[test]
fn lava_lake_is_walled_in_stone() {
    let w = world(Ground::Dirt);
    let mut quad = QuadChunkBuffer::new(&w, 0, 0);
    let mut shape = LakeShape::new();
    for dx in 4..9 {
        for dz in 4..9 {
            for dy in 1..3 {
                shape.fill(dx, dz, dy);
            }
        }
    }
    let corner = BlockPos::new(8, 50, 8);
    let mut rand = JavaRand::new(8);
    assert!(place_lake(&w, &mut quad, &w.ids, w.ids.lava_still, corner, &shape, &mut rand));
    assert_eq!(read(&w, &quad, 14, 52, 14), w.ids.lava_still);
    // Lower edges of dirt become stone; dirt away from the lake stays.
    assert_eq!(read(&w, &quad, 11, 52, 14), w.ids.stone);
    assert_eq!(read(&w, &quad, 14, 50, 14), w.ids.stone);
    assert_eq!(read(&w, &quad, 10, 52, 14), w.ids.dirt);
    // No edge cell lies in the upper half, so nothing is drawn.
    assert_eq!(rand.get_seed(), JavaRand::new(8).get_seed());
}

#[test]
fn dandelions_land_on_grass_only() {
    let w = world(Ground::Flat);
    let mut quad = QuadChunkBuffer::new(&w, 0, 0);
    let before = snapshot(&w, &quad);
    let mut rand = JavaRand::new(5);
    place_plants(&w, &mut quad, BlockPos::new(16, 64, 16), &w.ids, w.ids.dandelion, 64, false, &mut rand, SupportRule::GrassOrDirt);
    let placed = changes(&w, &before, &quad);
    assert_eq!(placed.len(), 11);
    assert!(placed.contains(&(10, 64, 10, w.ids.dandelion)));
    for (_, y, _, id) in placed {
        assert_eq!(y, 64);
        assert_eq!(id, w.ids.dandelion);
    }
    let mut expected = JavaRand::new(5);
    for _ in 0..64 {
        for b in [8, 8, 4, 4, 8, 8] {
            expected.random_with::<i32>(Bound::new(b));
        }
    }
    assert_eq!(rand.get_seed(), expected.get_seed());
}

#[test]
fn pumpkins_draw_a_facing_each() {
    let w = world(Ground::Flat);
    let mut quad = QuadChunkBuffer::new(&w, 0, 0);
    let before = snapshot(&w, &quad);
    let mut rand = JavaRand::new(9);
    place_pumpkin(&w, &mut quad, BlockPos::new(16, 64, 16), &w.ids, &mut rand);
    let placed = changes(&w, &before, &quad);
    assert_eq!(placed.len(), 9);
    assert!(placed.iter().all(|&(_, y, _, id)| y == 64 && id == w.ids.pumpkin));
    assert_eq!(rand.get_seed(), 39682312305479);
}

#[test]
fn sugar_cane_needs_water() {
    let w = world(Ground::Flat);
    let mut quad = QuadChunkBuffer::new(&w, 0, 0);
    let before = snapshot(&w, &quad);
    let mut rand = JavaRand::new(3);
    place_sugar_canes(&w, &mut quad, BlockPos::new(16, 64, 16), &w.ids, &mut rand);
    assert!(changes(&w, &before, &quad).is_empty());
    assert_eq!(rand.get_seed(), 128970522077118);
}

#[test]
fn plains_plants_stay_on_the_surface() {
    let w = world(Ground::Flat);
    let mut quad = QuadChunkBuffer::new(&w, 0, 0);
    let before = snapshot(&w, &quad);
    let mut rand = JavaRand::new(77);
    populate_plants(&w, &mut quad, 0, 0, &w.ids, Biome::Plains, &mut rand);
    let placed = changes(&w, &before, &quad);
    assert!(!placed.is_empty());
    let plants = [w.ids.dandelion, w.ids.tall_grass, w.ids.poppy, w.ids.brown_mushroom, w.ids.red_mushroom];
    for (_, y, _, id) in placed {
        assert_eq!(y, 64);
        assert!(plants.contains(&id));
    }
}

#[test]
fn springs_need_an_opening() {
    let w = world(Ground::Dirt);
    let mut quad = QuadChunkBuffer::new(&w, 0, 0);
    let before = snapshot(&w, &quad);
    let mut rand = JavaRand::new(14);
    spring::populate_from(&w, &mut quad, 0, 0, &w.ids, &mut rand);
    assert!(changes(&w, &before, &quad).is_empty());
    let mut expected = JavaRand::new(14);
    for _ in 0..50 {
        expected.random_with::<i32>(Bound::new(16));
        let v = expected.random_with::<i32>(Bound::new(120));
        expected.random_with::<i32>(Bound::new(v + 8));
        expected.random_with::<i32>(Bound::new(16));
    }
    for _ in 0..20 {
        expected.random_with::<i32>(Bound::new(16));
        let v = expected.random_with::<i32>(Bound::new(112));
        let v = expected.random_with::<i32>(Bound::new(v + 8));
        expected.random_with::<i32>(Bound::new(v + 8));
        expected.random_with::<i32>(Bound::new(16));
    }
    assert_eq!(rand.get_seed(), expected.get_seed());
}

#[test]
fn nether_population_on_open_netherrack() {
    let w = world(Ground::Netherrack);
    let n = nether_ids();
    let mut quad = QuadChunkBuffer::new(&w, 0, 0);
    let before = snapshot(&w, &quad);
    run_nether_population(&w, 45, &n, 0, 0, &mut quad);
    let placed = changes(&w, &before, &quad);
    assert_eq!(placed.iter().filter(|&&(_, _, _, id)| id == n.fire).count(), 7);
    assert_eq!(placed.iter().filter(|&&(_, _, _, id)| id == n.brown_mushroom).count(), 6);
    assert_eq!(placed.iter().filter(|&&(_, _, _, id)| id == n.red_mushroom).count(), 0);
    for (_, y, _, id) in placed {
        assert_eq!(y, 64);
        assert!(id == n.fire || id == n.brown_mushroom || id == n.red_mushroom);
    }
}

#[test]
fn spring_draws_ignore_the_ground() {
    let mut states = Vec::new();
    for ground in [Ground::Dirt, Ground::Flat, Ground::Corridor] {
        let w = world(ground);
        let mut quad = QuadChunkBuffer::new(&w, 0, 0);
        let mut rand = JavaRand::new(31);
        spring::populate_from(&w, &mut quad, 0, 0, &w.ids, &mut rand);
        states.push(rand.get_seed());
    }
    assert_eq!(states[0], states[1]);
    assert_eq!(states[1], states[2]);
}

#[test]
fn tree_leaves_spare_stone() {
    let w = world(Ground::Flat);
    let mut quad = QuadChunkBuffer::new(&w, 0, 0);
    let height = JavaRand::new(6).random_with::<i32>(Bound::new(3)) + 4;
    let top = 64 + height;
    // Stone on the lowest leaf layers, two out from the trunk: outside the clearance of
    // those layers, inside their leaf squares.
    pyrite::level::generator::shared::quad_chunk_buffer::write(&mut quad, 18, top - 3, 16, w.ids.stone);
    pyrite::level::generator::shared::quad_chunk_buffer::write(&mut quad, 18, top - 2, 16, w.ids.stone);
    let mut rand = JavaRand::new(6);
    assert!(pyrite::level::generator::shared::tree::place_simple_tree(
        &w,
        &mut quad,
        &w.ids,
        BlockPos::new(16, 64, 16),
        4,
        w.ids.oak_log,
        w.ids.oak_leaves,
        &mut rand,
    ));
    assert_eq!(read(&w, &quad, 18, top - 3, 16), w.ids.stone);
    assert_eq!(read(&w, &quad, 18, top - 2, 16), w.ids.stone);
    assert_eq!(read(&w, &quad, 17, top - 3, 16), w.ids.oak_leaves);
    assert_eq!(read(&w, &quad, 16, top - 1, 16), w.ids.oak_log);
    assert_eq!(read(&w, &quad, 16, 63, 16), w.ids.dirt);
}
