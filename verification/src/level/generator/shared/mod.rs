//! Infrastructure and population features shared by more than one dimension's
//! generator: chunk columns, the owner quads that population writes into, and the
//! per-chunk seeds that population draws from.

pub mod block_ids;
pub mod box_walk;
pub mod cave;
pub mod chunk_buffer;
pub mod dungeon;
pub mod lake;
pub mod outcome;
pub mod phases;
pub mod plant;
pub mod population;
pub mod quad_chunk_buffer;
pub mod snow;
pub mod spring;
pub mod tree;

use std::sync::Arc;

use crate::rand::java::{JavaRand, JavaRandType, initial_state};
use crate::rand::primitives::{Bound, draws_after, i32_draw, lemma_draw_range};
use crate::level::generator::overworld::biome::Biome;
use chunk_buffer::ChunkBuffer;
use vstd::prelude::*;

verus! {

pub const CHUNK_WIDTH: usize = 16;
pub const CHUNK_HEIGHT: usize = 128;
pub const SUB_CHUNK_SIZE: usize = 16;
pub const SUB_CHUNK_COUNT: usize = CHUNK_HEIGHT / SUB_CHUNK_SIZE;
pub const CAVE_RADIUS: i32 = 8;
pub const SNOW_TEMPERATURE_REFERENCE_HEIGHT: i32 = 64;

/// Number of blocks in a chunk column.
pub open spec fn column_len() -> nat {
    16 * 128 * 16
}

/// `(x, y, z)` lies inside a chunk column.
pub open spec fn in_column(x: int, y: int, z: int) -> bool {
    0 <= x < 16 && 0 <= y < 128 && 0 <= z < 16
}

/// Position of block `(x, y, z)` in a column's view: x-major, then y, then z.
pub open spec fn column_index(x: int, y: int, z: int) -> int {
    (x * 128 + y) * 16 + z
}

/// A block position in the world.
#[derive(Clone, Copy, Debug, PartialEq, Eq, Structural)]
pub struct BlockPos {
    pub x: i32,
    pub y: i32,
    pub z: i32,
}

impl BlockPos {
    pub fn new(x: i32, y: i32, z: i32) -> (r: Self)
        ensures
            r == (BlockPos { x, y, z }),
    {
        BlockPos { x, y, z }
    }

    /// This position moved by `(dx, dy, dz)`.
    pub fn offset(self, dx: i32, dy: i32, dz: i32) -> (r: Self)
        requires
            i32::MIN <= self.x + dx <= i32::MAX,
            i32::MIN <= self.y + dy <= i32::MAX,
            i32::MIN <= self.z + dz <= i32::MAX,
        ensures
            r == offset_position(self, dx as int, dy as int, dz as int),
    {
        BlockPos { x: self.x + dx, y: self.y + dy, z: self.z + dz }
    }
}

/// `p` moved by `(dx, dy, dz)`.
pub open spec fn offset_position(p: BlockPos, dx: int, dy: int, dz: int) -> BlockPos {
    BlockPos { x: (p.x + dx) as i32, y: (p.y + dy) as i32, z: (p.z + dz) as i32 }
}

/// The bound of a draw that `Bound::new(n)` makes.
pub open spec fn bound_of(n: int) -> Option<int> {
    if n > 0 { Some(n) } else { None }
}

/// The offset `next_offset` draws from state `s`: `x` and `z` in `[0, 16)` plus
/// `offset_xz`, `y` drawn with bound `max_y`, and the state after the three draws.
pub open spec fn offset_draw(s: int, max_y: int, offset_xz: int) -> (int, BlockPos) {
    let a = i32_draw(s, Some(16));
    let b = i32_draw(a.0, bound_of(max_y));
    let c = i32_draw(b.0, Some(16));
    (c.0, BlockPos { x: (a.1 + offset_xz) as i32, y: b.1, z: (c.1 + offset_xz) as i32 })
}

/// A random offset inside an owner's chunk (shifted by `offset_xz` horizontally), with a
/// height drawn below `max_y`.
pub fn next_offset(rand: &mut JavaRand, max_y: i32, offset_xz: i32) -> (r: BlockPos)
    requires
        i32::MIN <= offset_xz <= i32::MAX - 16,
    ensures
        (final(rand)@, r) == offset_draw(old(rand)@, max_y as int, offset_xz as int),
        offset_xz <= r.x < offset_xz + 16,
        offset_xz <= r.z < offset_xz + 16,
        max_y > 0 ==> 0 <= r.y < max_y,
{
    let bound = CHUNK_WIDTH as i32;
    let bound1 = CHUNK_WIDTH as i32;
    proof {
        lemma_draw_range(*rand, 16);
    }
    let x = rand.random_with::<i32>(Bound::new(bound1)) + offset_xz;
    proof {
        if max_y > 0 {
            lemma_draw_range(*rand, max_y as int);
        }
    }
    let y = rand.random_with::<i32>(Bound::new(max_y));
    proof {
        lemma_draw_range(*rand, 16);
    }
    let z = rand.random_with::<i32>(Bound::new(bound)) + offset_xz;
    BlockPos::new(x, y, z)
}

/// The four horizontal neighbours' offsets, in the order `-z, +z, -x, +x`.
pub open spec fn horizontal_face(i: int) -> (int, int) {
    if i == 0 {
        (0, -1)
    } else if i == 1 {
        (0, 1)
    } else if i == 2 {
        (-1, 0)
    } else {
        (1, 0)
    }
}

/// The bounds of the six draws that scatter a position around a centre: `x` and `z`
/// move by the difference of two draws in `[0, 8)`, `y` by the difference of two draws
/// in `[0, 4)`.
pub open spec fn scatter_bounds() -> Seq<int> {
    seq![8, 8, 4, 4, 8, 8]
}

/// The position `scatter_around` draws around `pos` from state `s`.
pub open spec fn scattered(s: int, pos: BlockPos) -> BlockPos {
    let a = i32_draw(s, Some(8));
    let b = i32_draw(a.0, Some(8));
    let c = i32_draw(b.0, Some(4));
    let d = i32_draw(c.0, Some(4));
    let e = i32_draw(d.0, Some(8));
    let f = i32_draw(e.0, Some(8));
    BlockPos { x: (pos.x + (a.1 - b.1)) as i32, y: (pos.y + (c.1 - d.1)) as i32, z: (pos.z + (e.1 - f.1)) as i32 }
}

/// Chunk coordinates whose population features stay inside `i32` world coordinates.
pub open spec fn owner_in_range(owner: int) -> bool {
    -0x07ff_ffef <= owner <= 0x07ff_ffef
}

/// Coordinates with room for offsets of up to `margin` in every direction.
pub open spec fn well_inside(p: BlockPos, margin: int) -> bool {
    &&& i32::MIN + margin <= p.x <= i32::MAX - margin
    &&& i32::MIN + margin <= p.y <= i32::MAX - margin
    &&& i32::MIN + margin <= p.z <= i32::MAX - margin
}

/// A position scattered around `pos`, as the plant and fire features draw them.
pub fn scatter_around(rand: &mut JavaRand, pos: BlockPos) -> (r: BlockPos)
    requires
        well_inside(pos, 8),
    ensures
        final(rand)@ == draws_after(old(rand)@, scatter_bounds()),
        r == scattered(old(rand)@, pos),
        pos.x - 8 < r.x < pos.x + 8,
        pos.y - 4 < r.y < pos.y + 4,
        pos.z - 8 < r.z < pos.z + 8,
{
    let ghost s0 = rand@;
    proof {
        reveal_with_fuel(draws_after, 7);
        assert(scatter_bounds().drop_last() =~= seq![8, 8, 4, 4, 8]);
        assert(seq![8int, 8, 4, 4, 8].drop_last() =~= seq![8, 8, 4, 4]);
        assert(seq![8int, 8, 4, 4].drop_last() =~= seq![8, 8, 4]);
        assert(seq![8int, 8, 4].drop_last() =~= seq![8, 8]);
        assert(seq![8int, 8].drop_last() =~= seq![8]);
        assert(seq![8int].drop_last() =~= Seq::<int>::empty());
        lemma_draw_range(*rand, 8);
    }
    let a = rand.random_with::<i32>(Bound::new(8));
    proof {
        lemma_draw_range(*rand, 8);
    }
    let b = rand.random_with::<i32>(Bound::new(8));
    proof {
        lemma_draw_range(*rand, 4);
    }
    let c = rand.random_with::<i32>(Bound::new(4));
    proof {
        lemma_draw_range(*rand, 4);
    }
    let d = rand.random_with::<i32>(Bound::new(4));
    proof {
        lemma_draw_range(*rand, 8);
    }
    let e = rand.random_with::<i32>(Bound::new(8));
    proof {
        lemma_draw_range(*rand, 8);
    }
    let f = rand.random_with::<i32>(Bound::new(8));
    BlockPos::new(pos.x + (a - b), pos.y + (c - d), pos.z + (e - f))
}

/// Half of `v`, rounded toward zero.
pub open spec fn half_toward_zero(v: int) -> int {
    if v >= 0 {
        v / 2
    } else {
        -((-v) / 2)
    }
}

/// The odd multiplier a chunk seed derives from a drawn `i64`: the draw rounded toward
/// zero to an even number, plus one.
pub open spec fn odd_multiplier(v: i64) -> i64 {
    (half_toward_zero(v as int) * 2 + 1) as i64
}

/// The population seed of chunk `(x, z)`: two `i64` draws from a generator seeded with
/// the world seed give odd multipliers for `x` and `z`; their wrapped weighted sum is
/// xor-ed with the world seed.
#[verifier::opaque]
pub open spec fn chunk_seed_of(world_seed: i64, x: i32, z: i32) -> i64 {
    let first = <i64 as JavaRandType>::draw(initial_state(world_seed), ());
    let second = <i64 as JavaRandType>::draw(first.0, ());
    vstd::wrapping::i64_specs::wrapping_add(
        vstd::wrapping::i64_specs::wrapping_mul(x as i64, odd_multiplier(first.1)),
        vstd::wrapping::i64_specs::wrapping_mul(z as i64, odd_multiplier(second.1)),
    ) ^ world_seed
}

fn odd_multiplier_of(v: i64) -> (r: i64)
    ensures
        r == odd_multiplier(v),
{
    let half = v.checked_div(2).unwrap();
    half * 2 + 1
}

pub fn chunk_seed(world_seed: i64, x: i32, z: i32) -> (r: i64)
    ensures
        r == chunk_seed_of(world_seed, x, z),
{
    proof {
        reveal(chunk_seed_of);
    }
    let mut rand = JavaRand::new(world_seed);
    let x_mul = odd_multiplier_of(rand.random::<i64>());
    let z_mul = odd_multiplier_of(rand.random::<i64>());
    i64::wrapping_add((x as i64).wrapping_mul(x_mul), (z as i64).wrapping_mul(z_mul)) ^ world_seed
}

/// The column `terrain_and_caves` gives for chunk `(x, z)`: its terrain with caves
/// carved into it.
pub open spec fn generated_column<G: TerrainSource>(generator: &G, x: i32, z: i32) -> Seq<i32> {
    generator.caves_in(x, z, generator.terrain_of(x, z))
}

/// A dimension's terrain: the shape of each chunk column, and the caves carved into it.
///
/// A generator computes each column from itself and the arguments alone: `terrain_of`
/// and `caves_in` name what `raw_terrain` and `carve_caves` give. Their bodies here are
/// placeholders for the generators of the program, which is not verified and cannot
/// define spec functions; no proof about a generic generator unfolds them.
pub trait TerrainSource {
    /// The column `raw_terrain` builds for chunk `(x, z)`.
    closed spec fn terrain_of(&self, x: i32, z: i32) -> Seq<i32> {
        vstd::pervasive::arbitrary()
    }

    /// What `carve_caves` makes of `column` as chunk `(x, z)`.
    closed spec fn caves_in(&self, x: i32, z: i32, column: Seq<i32>) -> Seq<i32> {
        vstd::pervasive::arbitrary()
    }

    /// Terrain shape only - density fields, surface - with no caves carved into it yet.
    fn raw_terrain(&self, x: i32, z: i32) -> (r: ChunkBuffer)
        ensures
            r@ == self.terrain_of(x, z),
    ;

    /// Carves caves into an already-built terrain column, in place.
    fn carve_caves(&self, x: i32, z: i32, column: &mut ChunkBuffer)
        ensures
            final(column)@ == self.caves_in(x, z, old(column)@),
    ;

    /// The column decoration actually reads: terrain with caves carved into it.
    fn terrain_and_caves(&self, x: i32, z: i32) -> (r: Arc<ChunkBuffer>)
        ensures
            (*r)@ == self.caves_in(x, z, self.terrain_of(x, z)),
    {
        let mut column = self.raw_terrain(x, z);
        self.carve_caves(x, z, &mut column);
        Arc::new(column)
    }

    fn min_sub_chunk_y(&self) -> i8;

    fn dimension_sub_chunk_count(&self) -> usize;

    fn air_id(&self) -> i32;

    fn biome(&self) -> i32;
}

/// What a dimension's climate decides for population. The climate itself is noise in
/// floating point, sampled by the program around this library.
///
/// Both answers are functions of the generator and the arguments alone, named by
/// `biome_of` and `snows` (placeholder bodies, as in `TerrainSource`).
pub trait ClimateSource {
    /// The biome `biome_at` gives for column `(x, z)`.
    closed spec fn biome_of(&self, x: i32, z: i32) -> Biome {
        vstd::pervasive::arbitrary()
    }

    /// The answer `snows_at` gives for column `(x, z)` at `height`.
    closed spec fn snows(&self, x: i32, z: i32, height: i32) -> bool {
        vstd::pervasive::arbitrary()
    }

    /// The biome at block column `(x, z)`.
    fn biome_at(&self, x: i32, z: i32) -> (r: Biome)
        ensures
            r == self.biome_of(x, z),
    ;

    /// Whether the temperature at block column `(x, z)`, lowered for `height` above the
    /// reference height of snow, is cold enough for snow.
    fn snows_at(&self, x: i32, z: i32, height: i32) -> (r: bool)
        ensures
            r == self.snows(x, z, height),
    ;
}

/// The blocks of one sub-chunk, `[x][y][z]`.
pub struct SubChunkBlocks {
    pub blocks: [[[i32; 16]; 16]; 16],
}

} // verus!
