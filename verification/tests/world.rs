use std::sync::Arc;

use pyrite::level::generator::overworld::biome::Biome;
use pyrite::level::generator::overworld::carve_column;
use pyrite::level::generator::overworld::column::Column;
use pyrite::level::generator::shared::block_ids::BlockIds;
use pyrite::level::generator::shared::cave::CaveCarver;
use pyrite::level::generator::shared::chunk_buffer::ChunkBuffer;
use pyrite::level::generator::shared::population::overlay_owner;
use pyrite::level::generator::shared::quad_chunk_buffer;
use pyrite::level::generator::shared::quad_chunk_buffer::{QuadChunkBuffer, read};
use pyrite::level::generator::shared::spring::place_spring;
use pyrite::level::generator::shared::tree::{
    TreeKind, TreeSource, check_tree, choose_tree, place_simple_tree, place_spruce1_tree, place_spruce2_tree,
    populate_trees, surface_height, tree_count, ClearanceRule,
};
use pyrite::level::generator::shared::{BlockPos, ClimateSource, TerrainSource, chunk_seed, next_offset, snow};
use pyrite::level::generator::overworld::plant;
use pyrite::level::generator::overworld::population::{OverworldFeatures, run_overworld_population};
use pyrite::level::generator::overworld::lake;
use pyrite::level::generator::overworld::vein;
use pyrite::level::generator::shared::lake::{LakeShape, lake_corner, place_lake};
use pyrite::level::generator::overworld::vein::VeinPlacer;
use pyrite::level::generator::shared::{dungeon, spring, tree};
use pyrite::rand::java::JavaRand;
use pyrite::rand::primitives::Bound;

fn ids() -> BlockIds {
    BlockIds {
        air: 0,
        stone: 1,
        grass: 2,
        dirt: 3,
        cobblestone: 4,
        mossy_cobblestone: 5,
        bedrock: 6,
        water: 7,
        water_flowing: 8,
        lava: 9,
        lava_still: 10,
        sand: 11,
        sandstone: 12,
        gravel: 13,
        clay: 14,
        ice: 15,
        snow_layer: 16,
        coal_ore: 17,
        iron_ore: 18,
        gold_ore: 19,
        redstone_ore: 20,
        diamond_ore: 21,
        lapis_ore: 22,
        oak_log: 23,
        birch_log: 24,
        spruce_log: 25,
        oak_leaves: 26,
        birch_leaves: 27,
        spruce_leaves: 28,
        dandelion: 29,
        poppy: 30,
        tall_grass: 31,
        fern: 32,
        deadbush: 33,
        brown_mushroom: 34,
        red_mushroom: 35,
        reeds: 36,
        pumpkin: 37,
        cactus: 38,
        chest: 39,
        mob_spawner: 40,
    }
}

/// Stone up to layer 59, dirt from 60 to 62, grass at 63, air above.
struct FlatWorld {
    ids: BlockIds,
}

impl TerrainSource for FlatWorld {
    fn raw_terrain(&self, _x: i32, _z: i32) -> ChunkBuffer {
        let mut column = ChunkBuffer::new(self.ids.air);
        for lx in 0..16 {
            for lz in 0..16 {
                for y in 0..64 {
                    let id = if y < 60 {
                        self.ids.stone
                    } else if y < 63 {
                        self.ids.dirt
                    } else {
                        self.ids.grass
                    };
                    column.set(lx, y, lz, id);
                }
            }
        }
        column
    }

    fn carve_caves(&self, _x: i32, _z: i32, _column: &mut ChunkBuffer) {}

    fn min_sub_chunk_y(&self) -> i8 {
        0
    }

    fn dimension_sub_chunk_count(&self) -> usize {
        8
    }

    fn air_id(&self) -> i32 {
        self.ids.air
    }

    fn biome(&self) -> i32 {
        1
    }
}

impl ClimateSource for FlatWorld {
    fn biome_at(&self, _x: i32, _z: i32) -> Biome {
        Biome::Taiga
    }

    fn snows_at(&self, _x: i32, _z: i32, height: i32) -> bool {
        height < 70
    }
}

impl TreeSource for FlatWorld {
    fn base_tree_count(&self, _x: i32, _z: i32, _unit_bits: i64) -> i32 {
        1
    }

    fn place_big_tree(&self, _buffer: &mut QuadChunkBuffer, _pos: BlockPos, _seed: i64) -> bool {
        false
    }
}

fn world() -> FlatWorld {
    FlatWorld { ids: ids() }
}

#[test]
fn quad_reads_terrain_and_bounds() {
    let w = world();
    let quad = QuadChunkBuffer::new(&w, 0, 0);
    assert_eq!(read(&w, &quad, 5, 63, 5), w.ids.grass);
    assert_eq!(read(&w, &quad, 20, 10, 31), w.ids.stone);
    assert_eq!(read(&w, &quad, 5, 70, 5), w.ids.air);
    assert_eq!(read(&w, &quad, 5, -1, 5), -1);
    assert_eq!(read(&w, &quad, 5, 128, 5), -1);
    assert_eq!(read(&w, &quad, -40, 61, 100), w.ids.dirt);
}

#[test]
fn quad_write_reads_back() {
    let w = world();
    let mut quad = QuadChunkBuffer::new(&w, 2, -3);
    quad_chunk_buffer::write(&mut quad, 40, 70, -40, 99);
    assert_eq!(read(&w, &quad, 40, 70, -40), 99);
    assert_eq!(read(&w, &quad, 41, 70, -40), w.ids.air);
    assert_eq!(read(&w, &quad, 40, 71, -40), w.ids.air);
}

#[test]
fn quad_write_outside_is_dropped() {
    let w = world();
    let mut quad = QuadChunkBuffer::new(&w, 0, 0);
    quad_chunk_buffer::write(&mut quad, 32, 70, 0, 99);
    quad_chunk_buffer::write(&mut quad, -1, 70, 0, 99);
    quad_chunk_buffer::write(&mut quad, 0, 128, 0, 99);
    assert_eq!(read(&w, &quad, 32, 70, 0), w.ids.air);
    assert_eq!(read(&w, &quad, -1, 70, 0), w.ids.air);
    assert!(quad.column(1, 1).is_some());
    assert!(quad.column(2, 0).is_none());
}

#[test]
fn quad_set_column_replaces_it() {
    let w = world();
    let mut quad = QuadChunkBuffer::new(&w, 0, 0);
    quad.set_column(1, 0, ChunkBuffer::new(77));
    assert_eq!(read(&w, &quad, 20, 3, 4), 77);
    assert_eq!(read(&w, &quad, 3, 3, 4), w.ids.stone);
}

#[test]
fn chunk_buffer_and_column_store_blocks() {
    let mut buffer = ChunkBuffer::new(5);
    assert_eq!(buffer.get(15, 127, 15), 5);
    buffer.set(3, 100, 7, 12);
    assert_eq!(buffer.get(3, 100, 7), 12);
    assert_eq!(buffer.get(3, 100, 8), 5);
    let copy = buffer.clone();
    assert_eq!(copy.get(3, 100, 7), 12);
    let mut column = Column::new(1);
    column.set(0, 0, 0, 9);
    assert_eq!(column.get(0, 0, 0), 9);
    assert_eq!(column.get(0, 1, 0), 1);
    assert_eq!(column.clone().get(0, 0, 0), 9);
}

#[test]
fn overlay_takes_owner_changes_only() {
    let w = world();
    let baseline = w.terrain_and_caves(1, 0);
    let mut owner = QuadChunkBuffer::new(&w, 0, 0);
    quad_chunk_buffer::write(&mut owner, 20, 70, 5, 42);
    let mut column = ChunkBuffer::new(w.ids.air);
    column.set(4, 71, 5, 8);
    overlay_owner(&baseline, &owner, 1, 0, &mut column);
    assert_eq!(column.get(4, 70, 5), 42);
    assert_eq!(column.get(4, 71, 5), 8);
    assert_eq!(column.get(4, 10, 5), w.ids.air);
    let mut untouched = ChunkBuffer::new(3);
    overlay_owner(&baseline, &owner, 5, 5, &mut untouched);
    assert_eq!(untouched.get(4, 70, 5), 3);
}

#[test]
fn surface_height_of_flat_world() {
    let w = world();
    let quad = QuadChunkBuffer::new(&w, 0, 0);
    assert_eq!(surface_height(&w, &quad, &w.ids, 9, 9), 64);
}

#[test]
fn simple_tree_grows_on_grass() {
    let w = world();
    let mut quad = QuadChunkBuffer::new(&w, 0, 0);
    let mut rand = JavaRand::new(11);
    let mut preview = rand.clone();
    let height = preview.random_with::<i32>(Bound::new(3)) + 4;
    let pos = BlockPos::new(12, 64, 12);
    assert!(place_simple_tree(&w, &mut quad, &w.ids, pos, 4, w.ids.oak_log, w.ids.oak_leaves, &mut rand));
    assert_eq!(read(&w, &quad, 12, 63, 12), w.ids.dirt);
    for y in 64..64 + height {
        assert_eq!(read(&w, &quad, 12, y, 12), w.ids.oak_log);
    }
    assert_eq!(read(&w, &quad, 12, 64 + height, 12), w.ids.oak_leaves);
    assert_eq!(read(&w, &quad, 13, 64 + height - 1, 12), w.ids.oak_leaves);
    assert_eq!(read(&w, &quad, 14, 64 + height - 3, 12), w.ids.oak_leaves);
    assert_eq!(read(&w, &quad, 12, 64 + height + 1, 12), w.ids.air);
}

#[test]
fn tree_refused_inside_stone() {
    let w = world();
    let mut quad = QuadChunkBuffer::new(&w, 0, 0);
    let mut rand = JavaRand::new(11);
    let mut preview = rand.clone();
    preview.random_with::<i32>(Bound::new(3));
    let pos = BlockPos::new(12, 40, 12);
    assert!(!place_simple_tree(&w, &mut quad, &w.ids, pos, 4, w.ids.oak_log, w.ids.oak_leaves, &mut rand));
    assert_eq!(rand.get_seed(), preview.get_seed());
    assert_eq!(read(&w, &quad, 12, 39, 12), w.ids.stone);
}

#[test]
fn tree_check_sees_obstacles() {
    let w = world();
    let mut quad = QuadChunkBuffer::new(&w, 0, 0);
    let pos = BlockPos::new(12, 64, 12);
    let rule = ClearanceRule::Plain { base_y: 64, height: 5 };
    assert!(check_tree(&w, &quad, &w.ids, pos, 5, rule));
    quad_chunk_buffer::write(&mut quad, 13, 69, 13, w.ids.stone);
    assert!(!check_tree(&w, &quad, &w.ids, pos, 5, rule));
    assert!(!check_tree(&w, &quad, &w.ids, BlockPos::new(12, 124, 12), 5, rule));
}

#[test]
fn spruces_grow_on_grass() {
    let w = world();
    let mut quad = QuadChunkBuffer::new(&w, 0, 0);
    let mut rand = JavaRand::new(5);
    let mut preview = rand.clone();
    let height = preview.random_with::<i32>(Bound::new(5)) + 7;
    assert!(place_spruce1_tree(&w, &mut quad, &w.ids, BlockPos::new(10, 64, 10), &mut rand));
    assert_eq!(read(&w, &quad, 10, 63, 10), w.ids.dirt);
    for y in 64..64 + height - 1 {
        assert_eq!(read(&w, &quad, 10, y, 10), w.ids.spruce_log);
    }
    assert_eq!(read(&w, &quad, 10, 64 + height, 10), w.ids.spruce_leaves);
    assert!(place_spruce2_tree(&w, &mut quad, &w.ids, BlockPos::new(22, 64, 22), &mut rand));
    assert_eq!(read(&w, &quad, 22, 63, 22), w.ids.dirt);
    assert_eq!(read(&w, &quad, 22, 64, 22), w.ids.spruce_log);
}

#[test]
fn tree_kinds_and_counts() {
    assert_eq!(choose_tree(Biome::Taiga, &mut JavaRand::new(0)), TreeKind::Spruce1);
    assert_eq!(choose_tree(Biome::Taiga, &mut JavaRand::new(42)), TreeKind::Spruce2);
    assert_eq!(choose_tree(Biome::Forest, &mut JavaRand::new(42)), TreeKind::Birch);
    assert_eq!(tree_count(Biome::Forest, 3, true), 9);
    assert_eq!(tree_count(Biome::SeasonalForest, 3, false), 5);
    assert_eq!(tree_count(Biome::Desert, 3, true), -19);
    assert_eq!(tree_count(Biome::Swampland, 100, false), 0);
}

#[test]
fn taiga_population_places_only_tree_blocks() {
    let w = world();
    let before = QuadChunkBuffer::new(&w, 0, 0);
    let mut quad = QuadChunkBuffer::new(&w, 0, 0);
    let mut rand = JavaRand::new(chunk_seed(99, 0, 0));
    populate_trees(&w, &mut quad, 0, 0, &w.ids, Biome::Taiga, 1, &mut rand);
    let allowed = [w.ids.dirt, w.ids.spruce_log, w.ids.spruce_leaves];
    let mut changed = 0;
    for x in 0..32 {
        for z in 0..32 {
            for y in 0..128 {
                let now = read(&w, &quad, x, y, z);
                if now != read(&w, &before, x, y, z) {
                    assert!(allowed.contains(&now));
                    changed += 1;
                }
            }
        }
    }
    assert!(changed > 0);
}

#[test]
fn snow_covers_cold_columns() {
    let w = world();
    let mut quad = QuadChunkBuffer::new(&w, 0, 0);
    snow::populate_from(&w, &mut quad, 0, 0, &w.ids);
    for x in 8..24 {
        for z in 8..24 {
            assert_eq!(read(&w, &quad, x, 64, z), w.ids.snow_layer);
        }
    }
    assert_eq!(read(&w, &quad, 7, 64, 8), w.ids.air);
    assert_eq!(read(&w, &quad, 24, 64, 8), w.ids.air);
    assert_eq!(snow::top_solid_or_liquid_height(&w, &quad, &w.ids, 9, 9), Some(65));
    assert!(snow::is_small_plant(&w.ids, w.ids.poppy));
    assert!(!snow::is_solid_ground(&w.ids, w.ids.ice));
    assert!(snow::is_solid_ground(&w.ids, w.ids.grass));
}

#[test]
fn snow_heights_and_laying() {
    let w = world();
    let mut quad = QuadChunkBuffer::new(&w, 0, 0);
    quad_chunk_buffer::write(&mut quad, 10, 64, 12, w.ids.poppy);
    quad_chunk_buffer::write(&mut quad, 11, 64, 8, w.ids.stone);
    let heights = snow::snow_heights(&w, &quad, &w.ids, 0, 0);
    assert_eq!(heights.len(), 256);
    assert_eq!(heights[0], Some(64));
    // a poppy lets snow through but sits where snow would go
    assert_eq!(heights[2 * 16 + 4], None);
    // stone on top of the grass raises the column
    assert_eq!(heights[3 * 16], Some(65));
    let mut cold = vec![false; 256];
    cold[0] = true;
    cold[3 * 16] = true;
    cold[5] = true;
    snow::lay_snow(&mut quad, &w.ids, 0, 0, &heights, &cold);
    assert_eq!(read(&w, &quad, 8, 64, 8), w.ids.snow_layer);
    assert_eq!(read(&w, &quad, 11, 65, 8), w.ids.snow_layer);
    assert_eq!(read(&w, &quad, 8, 64, 13), w.ids.snow_layer);
    assert_eq!(read(&w, &quad, 8, 64, 9), w.ids.air);
    assert_eq!(read(&w, &quad, 10, 64, 12), w.ids.poppy);
}

impl VeinPlacer for FlatWorld {
    fn place_vein(&self, buffer: &mut QuadChunkBuffer, replace_id: i32, place_id: i32, _count: i32, pos: BlockPos, rand: &mut JavaRand) {
        rand.random_with::<i32>(Bound::new(3));
        if read(self, buffer, pos.x, pos.y, pos.z) == replace_id {
            quad_chunk_buffer::write(buffer, pos.x, pos.y, pos.z, place_id);
        }
    }
}

impl OverworldFeatures for FlatWorld {
    fn lake_shape(&self, rand: &mut JavaRand) -> LakeShape {
        let mut shape = LakeShape::new();
        let dy = rand.random_with::<i32>(Bound::new(3)) as usize + 1;
        shape.fill(7, 7, dy);
        shape.fill(8, 7, dy);
        shape
    }
}

#[test]
fn lakes_follow_their_draws() {
    let w = world();
    let mut placed = 0;
    for seed in 0..40 {
        let mut quad = QuadChunkBuffer::new(&w, 0, 0);
        let mut rand = JavaRand::new(seed);
        lake::populate_lakes(&w, &mut quad, 0, 0, &w.ids, &mut rand);

        let mut expected = QuadChunkBuffer::new(&w, 0, 0);
        let mut check = JavaRand::new(seed);
        if check.random_with::<i32>(Bound::new(4)) == 0 {
            let offset = next_offset(&mut check, 128, 8);
            let pos = BlockPos::new(offset.x, offset.y, offset.z);
            let corner = lake_corner(&w, &expected, &w.ids, pos);
            let shape = w.lake_shape(&mut check);
            if place_lake(&w, &mut expected, &w.ids, w.ids.water, corner, &shape, &mut check) {
                placed += 1;
            }
        }
        if check.random_with::<i32>(Bound::new(8)) == 0 {
            let x = check.random_with::<i32>(Bound::new(16)) + 8;
            let v = check.random_with::<i32>(Bound::new(120));
            let y = check.random_with::<i32>(Bound::new(v + 8));
            let z = check.random_with::<i32>(Bound::new(16)) + 8;
            if y < 64 || check.random_with::<i32>(Bound::new(10)) == 0 {
                let pos = BlockPos::new(x, y, z);
                let corner = lake_corner(&w, &expected, &w.ids, pos);
                let shape = w.lake_shape(&mut check);
                if place_lake(&w, &mut expected, &w.ids, w.ids.lava_still, corner, &shape, &mut check) {
                    placed += 1;
                }
            }
        }
        assert_eq!(rand.get_seed(), check.get_seed());
        for x in 0..32 {
            for z in 0..32 {
                for y in 0..128 {
                    assert_eq!(read(&w, &quad, x, y, z), read(&w, &expected, x, y, z));
                }
            }
        }
    }
    assert!(placed > 0);
}

#[test]
fn ores_follow_their_plan() {
    let w = world();
    let mut quad = QuadChunkBuffer::new(&w, 0, 0);
    let mut rand = JavaRand::new(3);
    vein::populate_ores(&w, &mut quad, 0, 0, &w.ids, &mut rand);
    let mut by_id = [0usize; 64];
    for x in 0..32 {
        for z in 0..32 {
            for y in 0..128 {
                let id = read(&w, &quad, x, y, z) as usize;
                by_id[id] += 1;
            }
        }
    }
    // every vein replaced at most its one stone block; deep ores stay deep
    assert!(by_id[w.ids.coal_ore as usize] <= 20);
    assert!(by_id[w.ids.diamond_ore as usize] <= 1);
    for x in 0..32 {
        for z in 0..32 {
            for y in 16..128 {
                assert_ne!(read(&w, &quad, x, y, z), w.ids.diamond_ore);
                assert_ne!(read(&w, &quad, x, y, z), w.ids.redstone_ore);
            }
        }
    }
    assert!(by_id[w.ids.dirt as usize] > 0);
}

#[test]
fn overworld_population_runs_its_features_in_order() {
    let w = world();
    let mut quad = QuadChunkBuffer::new(&w, 1, 2);
    run_overworld_population(&w, 77, &w.ids, 1, 2, &mut quad);

    let mut expected = QuadChunkBuffer::new(&w, 1, 2);
    let mut rand = JavaRand::new(chunk_seed(77, 1, 2));
    lake::populate_lakes(&w, &mut expected, 1, 2, &w.ids, &mut rand);
    dungeon::populate_from(&w, &mut expected, 1, 2, &w.ids, &mut rand);
    vein::populate_veins(&w, &mut expected, 1, 2, &w.ids, &mut rand);
    tree::populate_from(&w, &mut expected, 1, 2, &w.ids, &mut rand);
    plant::populate_from(&w, &mut expected, 1, 2, &w.ids, &mut rand);
    spring::populate_from(&w, &mut expected, 1, 2, &w.ids, &mut rand);
    snow::populate_from(&w, &mut expected, 1, 2, &w.ids);

    let mut snowed = 0;
    for x in 16..48 {
        for z in 32..64 {
            for y in 0..128 {
                let got = read(&w, &quad, x, y, z);
                assert_eq!(got, read(&w, &expected, x, y, z));
                if got == w.ids.snow_layer {
                    snowed += 1;
                }
            }
        }
    }
    assert!(snowed > 0);
}

#[test]
fn spring_needs_one_open_side() {
    let w = world();
    let mut quad = QuadChunkBuffer::new(&w, 0, 0);
    let pos = BlockPos::new(10, 30, 10);
    place_spring(&w, &mut quad, &w.ids, w.ids.water_flowing, pos);
    assert_eq!(read(&w, &quad, 10, 30, 10), w.ids.stone);
    quad_chunk_buffer::write(&mut quad, 11, 30, 10, w.ids.air);
    place_spring(&w, &mut quad, &w.ids, w.ids.water_flowing, pos);
    assert_eq!(read(&w, &quad, 10, 30, 10), w.ids.water_flowing);
}

#[test]
fn surface_pass_over_plains_column() {
    let w = world();
    let mut column = ChunkBuffer::new(w.ids.air);
    for y in 0..70 {
        column.set(3, y, 4, w.ids.stone);
    }
    let mut rand = JavaRand::new(5);
    carve_column(&mut column, 3, 4, Biome::Plains, false, false, 3, &mut rand, &w.ids);
    let layers: Vec<i32> = (60..72).map(|y| column.get(3, y, 4)).collect();
    assert_eq!(layers, vec![1, 1, 1, 1, 1, 1, 3, 3, 3, 2, 0, 0]);
    let bottom: Vec<i32> = (0..6).map(|y| column.get(3, y, 4)).collect();
    assert_eq!(bottom, vec![6, 6, 6, 6, 1, 1]);
    assert_eq!(rand.get_seed(), 126640244855528);
}

#[test]
fn surface_pass_over_desert_column() {
    let w = world();
    let mut column = ChunkBuffer::new(w.ids.air);
    for y in 0..70 {
        column.set(0, y, 0, w.ids.stone);
    }
    let mut rand = JavaRand::new(5);
    carve_column(&mut column, 0, 0, Biome::Desert, false, false, 3, &mut rand, &w.ids);
    let layers: Vec<i32> = (55..72).map(|y| column.get(0, y, 0)).collect();
    assert_eq!(layers, vec![1, 1, 1, 1, 1, 1, 1, 1, 1, 1, 1, 11, 11, 11, 11, 0, 0]);
}

#[test]
fn surface_pass_with_gravel_below_sea_level() {
    let w = world();
    let mut column = ChunkBuffer::new(w.ids.air);
    for y in 0..62 {
        column.set(15, y, 15, w.ids.stone);
    }
    let mut rand = JavaRand::new(8);
    carve_column(&mut column, 15, 15, Biome::Forest, false, true, 2, &mut rand, &w.ids);
    let layers: Vec<i32> = (55..64).map(|y| column.get(15, y, 15)).collect();
    assert_eq!(layers, vec![1, 1, 1, 1, 13, 13, 13, 0, 0]);
}

#[test]
fn cave_sources_cover_the_square_in_order() {
    let carver = CaveCarver::new(1);
    let sources = carver.cave_sources(5, 10, 20);
    assert_eq!(sources.len(), 9);
    for (k, source) in sources.iter().enumerate() {
        let fx = 9 + (k / 3) as i32;
        let fz = 19 + (k % 3) as i32;
        assert_eq!((source.x, source.z), (fx, fz));
        assert_eq!(source.seed, chunk_seed(5, fx, fz));
    }
    assert_eq!(CaveCarver::new(8).cave_sources(1, 0, 0).len(), 289);
}

#[test]
fn terrain_and_caves_is_shared() {
    let w = world();
    let a: Arc<ChunkBuffer> = w.terrain_and_caves(0, 0);
    assert_eq!(a.get(0, 63, 0), w.ids.grass);
}
