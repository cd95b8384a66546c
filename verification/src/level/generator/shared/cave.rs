//! Caves: which chunks a column's caves can start in, and the seed each of those chunks
//! carves from; how many tunnels a chunk starts and where; the fluid guard around a
//! stretch of tunnel; and what carving does to a block. The tunnels themselves are
//! traced in floating point by the program around this library, through `CaveCarving`.
use super::block_ids::BlockIds;
use super::chunk_buffer::ChunkBuffer;
use super::{chunk_seed, chunk_seed_of, column_index};
use crate::rand::java::{JavaRand, initial_state};
use crate::rand::primitives::{Bound, i32_draw, lemma_draw_range};
use vstd::prelude::*;

verus! {

/// A chunk that caves of a column may start in, with the seed it carves from.
#[derive(Clone, Copy, Debug, PartialEq, Eq, Structural)]
pub struct CaveSource {
    pub x: i32,
    pub z: i32,
    pub seed: i64,
}

/// The number of chunks on a side of the square of `radius` around a chunk.
pub open spec fn side(radius: int) -> int {
    2 * radius + 1
}

/// Source `(a, b)` of the square around `(x, z)`: chunk `(x - radius + a, z - radius + b)`.
pub open spec fn cave_source(world_seed: i64, x: int, z: int, radius: int, a: int, b: int) -> CaveSource {
    let fx = (x - radius + a) as i32;
    let fz = (z - radius + b) as i32;
    CaveSource { x: fx, z: fz, seed: chunk_seed_of(world_seed, fx, fz) }
}

/// The chunks a column `(x, z)` gathers caves from, `x` outer and `z` inner, each from
/// `radius` before to `radius` after the column.
pub open spec fn cave_sources_of(world_seed: i64, x: int, z: int, radius: int) -> Seq<CaveSource> {
    Seq::new(
        (side(radius) * side(radius)) as nat,
        |k: int| cave_source(world_seed, x, z, radius, k / side(radius), k % side(radius)),
    )
}

/// The tunnel tracing of one dimension: carves the caves that start in chunk
/// `(from_x, from_z)` into column `(x, z)`, drawing from `rand`. The tunnels are traced
/// in floating point by the program; what they make of a column is a function of the
/// tracer, the arguments and the state of `rand` alone, named by `carved_from`
/// (a placeholder body, as in `TerrainSource`).
pub trait CaveCarving {
    /// What `carve_from` makes of `column` when `rand` starts in state `state`.
    closed spec fn carved_from(&self, from_x: i32, from_z: i32, x: i32, z: i32, column: Seq<i32>, state: int) -> Seq<i32> {
        vstd::pervasive::arbitrary()
    }

    fn carve_from(&self, from_x: i32, from_z: i32, x: i32, z: i32, column: &mut ChunkBuffer, rand: &mut JavaRand)
        ensures
            final(column)@ == self.carved_from(from_x, from_z, x, z, old(column)@, old(rand)@),
    ;
}

/// `column` after the caves of each of `sources` in turn are carved into column
/// `(x, z)`, each from a generator seeded with its source's seed.
pub open spec fn carved_by<C: CaveCarving>(carving: &C, sources: Seq<CaveSource>, x: i32, z: i32, column: Seq<i32>) -> Seq<i32>
    decreases sources.len(),
{
    if sources.len() == 0 {
        column
    } else {
        let source = sources.last();
        carving.carved_from(
            source.x,
            source.z,
            x,
            z,
            carved_by(carving, sources.drop_last(), x, z, column),
            initial_state(source.seed),
        )
    }
}

/// Gathers the caves that reach a column from every chunk within `radius` of it.
pub struct CaveCarver {
    radius: i32,
}

impl View for CaveCarver {
    type V = int;

    closed spec fn view(&self) -> int {
        self.radius as int
    }
}

proof fn lemma_source_index(w: int, a: int, b: int)
    requires
        w > 0,
        0 <= a,
        0 <= b < w,
    ensures
        (a * w + b) / w == a,
        (a * w + b) % w == b,
        (a + 1) * w == a * w + w,
        0 <= a * w,
{
    vstd::arithmetic::div_mod::lemma_fundamental_div_mod_converse(a * w + b, w, a, b);
    vstd::arithmetic::mul::lemma_mul_is_distributive_add_other_way(w, a, 1);
    vstd::arithmetic::mul::lemma_mul_nonnegative(a, w);
}

impl CaveCarver {
    pub fn new(radius: i32) -> (r: Self)
        ensures
            r@ == radius,
    {
        CaveCarver { radius }
    }

    /// The chunks column `(x, z)` gathers caves from and their seeds: every chunk within
    /// the radius, `x` outer and `z` inner, each seeded by `chunk_seed`.
    pub fn cave_sources(&self, seed: i64, x: i32, z: i32) -> (r: Vec<CaveSource>)
        requires
            0 <= self@ <= 0x3fff_ffff,
            i32::MIN + self@ <= x <= i32::MAX - self@,
            i32::MIN + self@ <= z <= i32::MAX - self@,
        ensures
            r@ == cave_sources_of(seed, x as int, z as int, self@),
    {
        let radius = self.radius;
        let ghost w = side(radius as int);
        let mut out: Vec<CaveSource> = Vec::new();
        let mut a: i32 = 0;
        while a <= 2 * radius
            invariant
                0 <= radius <= 0x3fff_ffff,
                radius == self@,
                w == side(radius as int),
                i32::MIN + radius <= x <= i32::MAX - radius,
                i32::MIN + radius <= z <= i32::MAX - radius,
                0 <= a <= 2 * radius + 1,
                out@.len() == a * w,
                forall|k: int| 0 <= k < out@.len() ==> #[trigger] out@[k] == cave_source(seed, x as int, z as int, radius as int, k / w, k % w),
            decreases 2 * radius + 1 - a,
        {
            let from_x = x - radius + a;
            let mut b: i32 = 0;
            while b <= 2 * radius
                invariant
                    0 <= radius <= 0x3fff_ffff,
                    w == side(radius as int),
                    i32::MIN + radius <= x <= i32::MAX - radius,
                    i32::MIN + radius <= z <= i32::MAX - radius,
                    0 <= a <= 2 * radius,
                    from_x == x - radius + a,
                    0 <= b <= 2 * radius + 1,
                    out@.len() == a * w + b,
                    forall|k: int| 0 <= k < out@.len() ==> #[trigger] out@[k] == cave_source(seed, x as int, z as int, radius as int, k / w, k % w),
                decreases 2 * radius + 1 - b,
            {
                proof {
                    lemma_source_index(w, a as int, b as int);
                }
                let from_z = z - radius + b;
                out.push(CaveSource { x: from_x, z: from_z, seed: chunk_seed(seed, from_x, from_z) });
                b += 1;
            }
            proof {
                lemma_source_index(w, a as int, 0);
            }
            a += 1;
        }
        proof {
            assert(out@.len() == w * w);
        }
        assert(out@ =~= cave_sources_of(seed, x as int, z as int, radius as int));
        out
    }

    /// Carves into column `(x, z)` the caves of every chunk within the radius, in the
    /// order of `cave_sources`, reseeding `rand` with each chunk's seed before it carves.
    pub fn carve<C: CaveCarving>(&self, carving: &C, seed: i64, x: i32, z: i32, column: &mut ChunkBuffer)
        requires
            0 <= self@ <= 0x3fff_ffff,
            i32::MIN + self@ <= x <= i32::MAX - self@,
            i32::MIN + self@ <= z <= i32::MAX - self@,
        ensures
            final(column)@ == carved_by(carving, cave_sources_of(seed, x as int, z as int, self@), x, z, old(column)@),
    {
        let sources = self.cave_sources(seed, x, z);
        let mut rand = JavaRand::new(seed);
        let mut i: usize = 0;
        while i < sources.len()
            invariant
                0 <= i <= sources@.len(),
                column@ == carved_by(carving, sources@.take(i as int), x, z, old(column)@),
            decreases sources@.len() - i,
        {
            let source = sources[i];
            rand.set_seed(source.seed);
            carving.carve_from(source.x, source.z, x, z, column, &mut rand);
            proof {
                assert(sources@.take(i + 1).drop_last() =~= sources@.take(i as int));
            }
            i += 1;
        }
        proof {
            assert(sources@.take(sources@.len() as int) =~= sources@);
        }
    }
}

/// How many tunnels a chunk starts, from state `s`: three draws, each bounded by one
/// more than the last (the first by `first`), then a draw of bound `chance`; none unless
/// that last draw is 0. The count and the state after.
pub open spec fn cave_count_draw(s: int, first: int, chance: int) -> (int, int) {
    let a = i32_draw(s, Some(first));
    let b = i32_draw(a.0, Some(a.1 + 1));
    let c = i32_draw(b.0, Some(b.1 + 1));
    let d = i32_draw(c.0, Some(chance));
    (d.0, if d.1 == 0 { c.1 as int } else { 0 })
}

/// Draws how many tunnels a chunk starts (`cave_count_draw`).
pub fn cave_count(rand: &mut JavaRand, first: i32, chance: i32) -> (r: i32)
    requires
        0 < first <= 0x1000,
        0 < chance <= 0x1000,
    ensures
        (final(rand)@, r as int) == cave_count_draw(old(rand)@, first as int, chance as int),
        0 <= r < first,
{
    proof {
        lemma_draw_range(*rand, first as int);
    }
    let a = rand.random_with::<i32>(Bound::new(first));
    proof {
        lemma_draw_range(*rand, a + 1);
    }
    let b = rand.random_with::<i32>(Bound::new(a + 1));
    proof {
        lemma_draw_range(*rand, b + 1);
    }
    let c = rand.random_with::<i32>(Bound::new(b + 1));
    let d = rand.random_with::<i32>(Bound::new(chance));
    if d == 0 {
        c
    } else {
        0
    }
}

/// Where an overworld tunnel of chunk `(from_x, from_z)` starts, from state `s`: a block
/// `x` within the chunk, then a height below a drawn bound (itself drawn below 120, plus
/// 8), then a block `z` within the chunk. The state after and the block.
pub open spec fn overworld_start_draw(s: int, from_x: int, from_z: int) -> (int, (int, int, int)) {
    let a = i32_draw(s, Some(16));
    let v = i32_draw(a.0, Some(120));
    let y = i32_draw(v.0, Some(v.1 + 8));
    let c = i32_draw(y.0, Some(16));
    (c.0, (from_x * 16 + a.1, y.1 as int, from_z * 16 + c.1))
}

/// Draws where an overworld tunnel of chunk `(from_x, from_z)` starts
/// (`overworld_start_draw`).
pub fn overworld_cave_start(rand: &mut JavaRand, from_x: i32, from_z: i32) -> (r: (i32, i32, i32))
    requires
        -0x0800_0000 <= from_x < 0x0800_0000,
        -0x0800_0000 <= from_z < 0x0800_0000,
    ensures
        (final(rand)@, (r.0 as int, r.1 as int, r.2 as int)) == overworld_start_draw(old(rand)@, from_x as int, from_z as int),
{
    proof {
        lemma_draw_range(*rand, 16);
    }
    let a = rand.random_with::<i32>(Bound::new(16));
    proof {
        lemma_draw_range(*rand, 120);
    }
    let v = rand.random_with::<i32>(Bound::new(120));
    let y = rand.random_with::<i32>(Bound::new(v + 8));
    proof {
        lemma_draw_range(*rand, 16);
    }
    let c = rand.random_with::<i32>(Bound::new(16));
    (from_x * 16 + a, y, from_z * 16 + c)
}

/// Where a nether tunnel of chunk `(from_x, from_z)` starts, from state `s`: a block `x`
/// within the chunk, a height below 128, a block `z` within the chunk.
pub open spec fn nether_start_draw(s: int, from_x: int, from_z: int) -> (int, (int, int, int)) {
    let a = i32_draw(s, Some(16));
    let y = i32_draw(a.0, Some(128));
    let c = i32_draw(y.0, Some(16));
    (c.0, (from_x * 16 + a.1, y.1 as int, from_z * 16 + c.1))
}

/// Draws where a nether tunnel of chunk `(from_x, from_z)` starts (`nether_start_draw`).
pub fn nether_cave_start(rand: &mut JavaRand, from_x: i32, from_z: i32) -> (r: (i32, i32, i32))
    requires
        -0x0800_0000 <= from_x < 0x0800_0000,
        -0x0800_0000 <= from_z < 0x0800_0000,
    ensures
        (final(rand)@, (r.0 as int, r.1 as int, r.2 as int)) == nether_start_draw(old(rand)@, from_x as int, from_z as int),
{
    proof {
        lemma_draw_range(*rand, 16);
    }
    let a = rand.random_with::<i32>(Bound::new(16));
    let y = rand.random_with::<i32>(Bound::new(128));
    proof {
        lemma_draw_range(*rand, 16);
    }
    let c = rand.random_with::<i32>(Bound::new(16));
    (from_x * 16 + a, y, from_z * 16 + c)
}

/// The blocks the fluid guard of a stretch of tunnel looks at, for the box
/// `x0 <= x < x1`, `y0 <= y < y1`, `z0 <= z < z1`: one layer below and one above the
/// box, and every height from the layer below to the layer above on the box's sides.
pub open spec fn guard_checks(x0: int, y0: int, z0: int, x1: int, y1: int, z1: int, x: int, y: int, z: int) -> bool {
    &&& x0 <= x < x1
    &&& z0 <= z < z1
    &&& y0 - 1 <= y <= y1 + 1
    &&& (y == y0 - 1 || y == y1 + 1 || x == x0 || x == x1 - 1 || z == z0 || z == z1 - 1)
}

/// Whether the guard of the box finds a fluid (`fluid_a` or `fluid_b`) in `column`.
pub open spec fn guard_finds_fluid(column: Seq<i32>, fluid_a: i32, fluid_b: i32, x0: int, y0: int, z0: int, x1: int, y1: int, z1: int) -> bool {
    exists|x: int, y: int, z: int|
        guard_checks(x0, y0, z0, x1, y1, z1, x, y, z) && (#[trigger] column[column_index(x, y, z)] == fluid_a || column[column_index(
            x,
            y,
            z,
        )] == fluid_b)
}

/// The fluid guard of a stretch of tunnel: whether a fluid lies where
/// `guard_checks` looks; a tunnel is not carved there if so.
pub fn box_holds_fluid(column: &ChunkBuffer, fluid_a: i32, fluid_b: i32, x0: i32, y0: i32, z0: i32, x1: i32, y1: i32, z1: i32) -> (r: bool)
    requires
        0 <= x0,
        x1 <= 16,
        0 <= z0,
        z1 <= 16,
        1 <= y0,
        y1 <= 120,
    ensures
        r == guard_finds_fluid(column@, fluid_a, fluid_b, x0 as int, y0 as int, z0 as int, x1 as int, y1 as int, z1 as int),
{
    let ghost c = column@;
    let mut bx = x0;
    while bx < x1
        invariant
            0 <= x0 <= bx,
            x1 <= 16,
            0 <= z0,
            z1 <= 16,
            1 <= y0,
            y1 <= 120,
            c == column@,
            forall|x: int, y: int, z: int|
                guard_checks(x0 as int, y0 as int, z0 as int, x1 as int, y1 as int, z1 as int, x, y, z) && x < bx ==> #[trigger] c[column_index(x, y, z)]
                    != fluid_a && c[column_index(x, y, z)] != fluid_b,
        decreases x1 - bx,
    {
        let mut bz = z0;
        while bz < z1
            invariant
                0 <= x0 <= bx < x1,
                x1 <= 16,
                0 <= z0 <= bz,
                z1 <= 16,
                1 <= y0,
                y1 <= 120,
                c == column@,
                forall|x: int, y: int, z: int|
                    guard_checks(x0 as int, y0 as int, z0 as int, x1 as int, y1 as int, z1 as int, x, y, z) && (x < bx || (x == bx && z < bz))
                        ==> #[trigger] c[column_index(x, y, z)] != fluid_a && c[column_index(x, y, z)] != fluid_b,
            decreases z1 - bz,
        {
            let edge = bx == x0 || bx == x1 - 1 || bz == z0 || bz == z1 - 1;
            let mut by = y0 - 1;
            while by <= y1 + 1
                invariant
                    0 <= x0 <= bx < x1,
                    x1 <= 16,
                    0 <= z0 <= bz < z1,
                    z1 <= 16,
                    1 <= y0,
                    y1 <= 120,
                    y0 - 1 <= by,
                    c == column@,
                    edge == (bx == x0 || bx == x1 - 1 || bz == z0 || bz == z1 - 1),
                    forall|x: int, y: int, z: int|
                        guard_checks(x0 as int, y0 as int, z0 as int, x1 as int, y1 as int, z1 as int, x, y, z) && (x < bx || (x == bx && z < bz)
                            || (x == bx && z == bz && y < by)) ==> #[trigger] c[column_index(x, y, z)] != fluid_a && c[column_index(x, y, z)]
                            != fluid_b,
                decreases y1 + 2 - by,
            {
                if edge || by == y0 - 1 || by == y1 + 1 {
                    let id = column.get(bx as usize, by as usize, bz as usize);
                    if id == fluid_a || id == fluid_b {
                        assert(guard_checks(x0 as int, y0 as int, z0 as int, x1 as int, y1 as int, z1 as int, bx as int, by as int, bz as int));
                        return true;
                    }
                }
                by += 1;
            }
            bz += 1;
        }
        bx += 1;
    }
    false
}

/// `column` after a tunnel reaches block `(x, y, z)` of it, with `surface` telling whether
/// the tunnel has already cut through grass above in this block column: stone, dirt and
/// grass become lava below height 11 and air from there up, and where the tunnel has cut
/// through grass (counting this block), dirt just below becomes grass; any other block
/// stays.
pub open spec fn cave_cell(ids: BlockIds, column: Seq<i32>, x: int, y: int, z: int, surface: bool) -> Seq<i32> {
    let here = column[column_index(x, y, z)];
    let exposed = surface || here == ids.grass;
    if here == ids.stone || here == ids.dirt || here == ids.grass {
        if y < 11 {
            column.update(column_index(x, y, z), ids.lava)
        } else {
            let opened = column.update(column_index(x, y, z), ids.air);
            if exposed && column[column_index(x, y - 1, z)] == ids.dirt {
                opened.update(column_index(x, y - 1, z), ids.grass)
            } else {
                opened
            }
        }
    } else {
        column
    }
}

/// Carving a block changes only stone, dirt and grass: into lava, air, or (dirt under
/// an opened grass surface) grass.
pub proof fn lemma_cave_cell_changes(ids: BlockIds, column: Seq<i32>, x: int, y: int, z: int, surface: bool)
    requires
        column.len() == 16 * 128 * 16,
        0 <= x < 16,
        1 <= y < 128,
        0 <= z < 16,
    ensures
        cave_cell(ids, column, x, y, z, surface).len() == column.len(),
        forall|i: int|
            0 <= i < column.len() && #[trigger] cave_cell(ids, column, x, y, z, surface)[i] != column[i] ==> (column[i] == ids.stone
                || column[i] == ids.dirt || column[i] == ids.grass) && (cave_cell(ids, column, x, y, z, surface)[i] == ids.lava
                || cave_cell(ids, column, x, y, z, surface)[i] == ids.air || cave_cell(ids, column, x, y, z, surface)[i] == ids.grass),
{
}

/// Carves block `(x, y, z)` of an overworld column (`cave_cell`), and returns whether the
/// tunnel has now cut through grass in this block column.
pub fn carve_cave_cell(column: &mut ChunkBuffer, ids: &BlockIds, x: usize, y: usize, z: usize, surface: bool) -> (r: bool)
    requires
        x < 16,
        1 <= y < 128,
        z < 16,
    ensures
        r == (surface || old(column)@[column_index(x as int, y as int, z as int)] == ids.grass),
        final(column)@ == cave_cell(*ids, old(column)@, x as int, y as int, z as int, surface),
{
    proof {
        column.lemma_len();
    }
    let here = column.get(x, y, z);
    let exposed = surface || here == ids.grass;
    if here == ids.stone || here == ids.dirt || here == ids.grass {
        if y < 11 {
            column.set(x, y, z, ids.lava);
        } else {
            column.set(x, y, z, ids.air);
            if exposed && column.get(x, y - 1, z) == ids.dirt {
                column.set(x, y - 1, z, ids.grass);
            }
        }
    }
    exposed
}

} // verus!
