//! The overworld's integer parts: its biome table and the surface pass that turns a
//! stone-and-water terrain column into grass, dirt, sand, gravel and bedrock.
pub mod biome;
pub mod cave;
pub mod column;
pub mod lake;
pub mod plant;
pub mod population;
pub mod vein;

use crate::level::generator::shared::block_ids::BlockIds;
use crate::level::generator::shared::chunk_buffer::ChunkBuffer;
use crate::level::generator::shared::{CHUNK_HEIGHT, column_index};
use crate::rand::java::JavaRand;
use crate::rand::primitives::{Bound, i32_draw};
use biome::Biome;
use vstd::prelude::*;

verus! {

pub const SEA_LEVEL: i32 = 64;

/// The state of the surface pass over one block column, between two layers.
pub struct SurfaceState {
    pub column: Seq<i32>,
    pub rand: int,
    pub top_id: i32,
    pub filler_id: i32,
    pub remaining: i32,
}

/// What the surface pass works with for one block column.
pub struct SurfaceParams {
    pub lx: int,
    pub lz: int,
    pub biome_top_id: i32,
    pub biome_filler_id: i32,
    pub has_sand: bool,
    pub has_gravel: bool,
    pub thickness: i32,
    pub ids: BlockIds,
}

/// The top and filler blocks of a biome: sand for deserts, grass over dirt elsewhere.
pub open spec fn biome_surface(biome: Biome, ids: BlockIds) -> (i32, i32) {
    match biome {
        Biome::Desert | Biome::IceDesert => (ids.sand, ids.sand),
        _ => (ids.grass, ids.dirt),
    }
}

/// One layer `y` of the overworld surface pass. A draw in `[0, 5)` decides whether the
/// layer is bedrock (`y` at most the draw). Otherwise air ends the current run of
/// surface blocks; the first stone of a run becomes the top block at or above sea
/// level minus one and the filler block below it, choosing sand or gravel near sea
/// level and water for an empty top below sea level; following stone becomes filler
/// while the run lasts, and a finished run of sand continues as up to three more
/// layers of sandstone.
pub open spec fn surface_step(p: SurfaceParams, st: SurfaceState, y: int) -> SurfaceState {
    let ids = p.ids;
    let d = i32_draw(st.rand, Some(5));
    let i = column_index(p.lx, y, p.lz);
    if y <= d.1 {
        SurfaceState { column: st.column.update(i, ids.bedrock), rand: d.0, ..st }
    } else {
        let prev = st.column[i];
        if prev == ids.air {
            SurfaceState { rand: d.0, remaining: -1i32, ..st }
        } else if prev == ids.stone {
            if st.remaining == -1 {
                let (top0, filler0) = if p.thickness <= 0 {
                    (ids.air, ids.stone)
                } else if 60 <= y <= 65 {
                    if p.has_sand {
                        (ids.sand, ids.sand)
                    } else if p.has_gravel {
                        (ids.air, ids.gravel)
                    } else {
                        (p.biome_top_id, p.biome_filler_id)
                    }
                } else {
                    (st.top_id, st.filler_id)
                };
                let top = if y < 64 && top0 == ids.air { ids.water } else { top0 };
                let placed = if y >= 63 { top } else { filler0 };
                SurfaceState {
                    column: st.column.update(i, placed),
                    rand: d.0,
                    top_id: top,
                    filler_id: filler0,
                    remaining: p.thickness,
                }
            } else if st.remaining > 0 {
                let column = st.column.update(i, st.filler_id);
                let remaining = st.remaining - 1;
                if remaining == 0 && st.filler_id == ids.sand {
                    let e = i32_draw(d.0, Some(4));
                    SurfaceState { column, rand: e.0, top_id: st.top_id, filler_id: ids.sandstone, remaining: e.1 }
                } else {
                    SurfaceState { column, rand: d.0, remaining: remaining as i32, ..st }
                }
            } else {
                SurfaceState { rand: d.0, ..st }
            }
        } else {
            SurfaceState { rand: d.0, ..st }
        }
    }
}

/// Where a run of sand filler ends on a stone layer above the bedrock, the layer becomes
/// the last sand and a draw in `[0, 4)` is made: that many more stone layers become
/// sandstone.
pub proof fn lemma_sand_ends_in_sandstone(p: SurfaceParams, st: SurfaceState, y: int)
    requires
        p.ids.stone != p.ids.air,
        0 <= column_index(p.lx, y, p.lz) < st.column.len(),
        st.column[column_index(p.lx, y, p.lz)] == p.ids.stone,
        y > i32_draw(st.rand, Some(5)).1,
        st.remaining == 1,
        st.filler_id == p.ids.sand,
    ensures
        ({
            let d = i32_draw(st.rand, Some(5));
            let e = i32_draw(d.0, Some(4));
            let r = surface_step(p, st, y);
            &&& r.column[column_index(p.lx, y, p.lz)] == p.ids.sand
            &&& r.filler_id == p.ids.sandstone
            &&& r.remaining == e.1
            &&& r.rand == e.0
        }),
{
}

/// While a sandstone run lasts, each stone layer above the bedrock becomes sandstone and
/// the run shortens by one.
pub proof fn lemma_sandstone_run(p: SurfaceParams, st: SurfaceState, y: int)
    requires
        p.ids.stone != p.ids.air,
        p.ids.sand != p.ids.sandstone,
        0 <= column_index(p.lx, y, p.lz) < st.column.len(),
        st.column[column_index(p.lx, y, p.lz)] == p.ids.stone,
        y > i32_draw(st.rand, Some(5)).1,
        st.remaining > 0,
        st.filler_id == p.ids.sandstone,
    ensures
        surface_step(p, st, y).column[column_index(p.lx, y, p.lz)] == p.ids.sandstone,
        surface_step(p, st, y).remaining == st.remaining - 1,
        surface_step(p, st, y).filler_id == p.ids.sandstone,
{
}

/// The state after the top `n` layers (from `y = 127` down) have been processed.
pub open spec fn surface_after(p: SurfaceParams, init: SurfaceState, n: nat) -> SurfaceState
    decreases n,
{
    if n == 0 {
        init
    } else {
        surface_step(p, surface_after(p, init, (n - 1) as nat), 128 - n)
    }
}

/// The overworld surface pass over block column `(lx, lz)` of `column`, top to bottom,
/// as `surface_step` describes each layer.
#[allow(clippy::too_many_arguments)]
pub fn carve_column(
    column: &mut ChunkBuffer,
    lx: usize,
    lz: usize,
    biome: Biome,
    has_sand: bool,
    has_gravel: bool,
    surface_thickness: i32,
    rand: &mut JavaRand,
    block_ids: &BlockIds,
)
    requires
        lx < 16,
        lz < 16,
    ensures
        ({
            let (top, filler) = biome_surface(biome, *block_ids);
            let p = SurfaceParams {
                lx: lx as int,
                lz: lz as int,
                biome_top_id: top,
                biome_filler_id: filler,
                has_sand,
                has_gravel,
                thickness: surface_thickness,
                ids: *block_ids,
            };
            let init = SurfaceState {
                column: old(column)@,
                rand: old(rand)@,
                top_id: top,
                filler_id: filler,
                remaining: -1i32,
            };
            let last = surface_after(p, init, 128);
            final(column)@ == last.column && final(rand)@ == last.rand
        }),
{
    let (biome_top_id, biome_filler_id) = match biome {
        Biome::Desert | Biome::IceDesert => (block_ids.sand, block_ids.sand),
        _ => (block_ids.grass, block_ids.dirt),
    };
    let ghost p = SurfaceParams {
        lx: lx as int,
        lz: lz as int,
        biome_top_id,
        biome_filler_id,
        has_sand,
        has_gravel,
        thickness: surface_thickness,
        ids: *block_ids,
    };
    let ghost init = SurfaceState {
        column: column@,
        rand: rand@,
        top_id: biome_top_id,
        filler_id: biome_filler_id,
        remaining: -1i32,
    };

    let mut top_id = biome_top_id;
    let mut filler_id = biome_filler_id;
    let mut remaining_thickness: i32 = -1;

    let mut y: i32 = CHUNK_HEIGHT as i32;
    while y > 0
        invariant
            0 <= y <= 128,
            lx < 16,
            lz < 16,
            p.lx == lx,
            p.lz == lz,
            p.ids == *block_ids,
            p.biome_top_id == biome_top_id,
            p.biome_filler_id == biome_filler_id,
            p.has_sand == has_sand,
            p.has_gravel == has_gravel,
            p.thickness == surface_thickness,
            ({
                let st = surface_after(p, init, (128 - y) as nat);
                &&& st.column == column@
                &&& st.rand == rand@
                &&& st.top_id == top_id
                &&& st.filler_id == filler_id
                &&& st.remaining == remaining_thickness
            }),
        decreases y,
    {
        y = y - 1;
        let ghost st = surface_after(p, init, (127 - y) as nat);
        let ghost stepped = surface_step(p, st, y as int);
        assert(surface_after(p, init, (128 - y) as nat) == stepped);
        let bound = rand.random_with::<i32>(Bound::new(5));
        if y <= bound {
            column.set(lx, y as usize, lz, block_ids.bedrock);
            continue;
        }
        let prev_id = column.get(lx, y as usize, lz);
        if prev_id == block_ids.air {
            remaining_thickness = -1;
        } else if prev_id == block_ids.stone {
            if remaining_thickness == -1 {
                if surface_thickness <= 0 {
                    top_id = block_ids.air;
                    filler_id = block_ids.stone;
                } else if SEA_LEVEL - 4 <= y && y <= SEA_LEVEL + 1 {
                    top_id = biome_top_id;
                    filler_id = biome_filler_id;
                    if has_sand {
                        top_id = block_ids.sand;
                        filler_id = block_ids.sand;
                    } else if has_gravel {
                        top_id = block_ids.air;
                        filler_id = block_ids.gravel;
                    }
                }
                if y < SEA_LEVEL && top_id == block_ids.air {
                    top_id = block_ids.water;
                }
                remaining_thickness = surface_thickness;
                if y >= SEA_LEVEL - 1 {
                    column.set(lx, y as usize, lz, top_id);
                } else {
                    column.set(lx, y as usize, lz, filler_id);
                }
            } else if remaining_thickness > 0 {
                column.set(lx, y as usize, lz, filler_id);
                remaining_thickness -= 1;
                if remaining_thickness == 0 && filler_id == block_ids.sand {
                    remaining_thickness = rand.random_with::<i32>(Bound::new(4));
                    filler_id = block_ids.sandstone;
                }
            }
        }
    }
}

} // verus!
