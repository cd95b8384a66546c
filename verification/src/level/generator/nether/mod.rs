//! The nether's integer parts: its block ids, the surface pass over its netherrack
//! terrain, and its population features.
pub mod cave;
pub mod population;

use crate::level::generator::shared::chunk_buffer::ChunkBuffer;
use crate::level::generator::shared::{CHUNK_HEIGHT, column_index};
use crate::rand::java::JavaRand;
use crate::rand::primitives::{Bound, i32_draw, lemma_draw_range};
use vstd::prelude::*;

verus! {

pub const LAVA_LEVEL: i32 = 32;
pub const SURFACE_BAND_CENTER: i32 = 64;

/// The block ids the nether generator places and tests for.
#[derive(Clone, Copy, Debug)]
pub struct BlockIds {
    pub air: i32,
    pub netherrack: i32,
    pub lava: i32,
    pub lava_still: i32,
    pub bedrock: i32,
    pub soul_sand: i32,
    pub gravel: i32,
    pub glowstone: i32,
    pub fire: i32,
    pub brown_mushroom: i32,
    pub red_mushroom: i32,
}

/// The state of the nether surface pass over one block column, between two layers.
pub struct NetherSurfaceState {
    pub column: Seq<i32>,
    pub rand: int,
    pub top_id: i32,
    pub filler_id: i32,
    pub remaining: i32,
}

/// What the nether surface pass works with for one block column.
pub struct NetherSurfaceParams {
    pub lx: int,
    pub lz: int,
    pub has_soul_sand: bool,
    pub has_gravel: bool,
    pub thickness: i32,
    pub ids: BlockIds,
}

/// A layer `y` of the nether surface pass that is not bedrock: air ends the current
/// run; the first netherrack of a run becomes the top block at or above layer 63 and
/// the filler below, with gravel and soul sand replacing them in the band `60..=65` and
/// still lava filling an empty top below layer 64; following netherrack becomes filler
/// while the run lasts.
pub open spec fn nether_layer(p: NetherSurfaceParams, st: NetherSurfaceState, y: int) -> NetherSurfaceState {
    let ids = p.ids;
    let i = column_index(p.lx, y, p.lz);
    let prev = st.column[i];
    if prev == ids.air {
        NetherSurfaceState { remaining: -1i32, ..st }
    } else if prev == ids.netherrack {
        if st.remaining == -1 {
            let (top0, filler0) = if p.thickness <= 0 {
                (ids.air, ids.netherrack)
            } else if 60 <= y <= 65 {
                let top1 = if p.has_gravel { ids.gravel } else { ids.netherrack };
                if p.has_soul_sand {
                    (ids.soul_sand, ids.soul_sand)
                } else {
                    (top1, ids.netherrack)
                }
            } else {
                (st.top_id, st.filler_id)
            };
            let top = if y < 64 && top0 == ids.air { ids.lava_still } else { top0 };
            let placed = if y >= 63 { top } else { filler0 };
            NetherSurfaceState {
                column: st.column.update(i, placed),
                top_id: top,
                filler_id: filler0,
                remaining: p.thickness,
                ..st
            }
        } else if st.remaining > 0 {
            NetherSurfaceState {
                column: st.column.update(i, st.filler_id),
                remaining: (st.remaining - 1) as i32,
                ..st
            }
        } else {
            st
        }
    } else {
        st
    }
}

/// One layer `y` of the nether surface pass. A draw in `[0, 5)` puts bedrock at the
/// layers at or above `127` minus the draw; failing that, a second draw puts bedrock at
/// the layers at or below it; any other layer is `nether_layer`.
pub open spec fn nether_surface_step(p: NetherSurfaceParams, st: NetherSurfaceState, y: int) -> NetherSurfaceState {
    let i = column_index(p.lx, y, p.lz);
    let d = i32_draw(st.rand, Some(5));
    if y >= 127 - d.1 {
        NetherSurfaceState { column: st.column.update(i, p.ids.bedrock), rand: d.0, ..st }
    } else {
        let e = i32_draw(d.0, Some(5));
        if y <= e.1 {
            NetherSurfaceState { column: st.column.update(i, p.ids.bedrock), rand: e.0, ..st }
        } else {
            nether_layer(p, NetherSurfaceState { rand: e.0, ..st }, y)
        }
    }
}

/// The state after the top `n` layers (from `y = 127` down) have been processed.
pub open spec fn nether_surface_after(p: NetherSurfaceParams, init: NetherSurfaceState, n: nat) -> NetherSurfaceState
    decreases n,
{
    if n == 0 {
        init
    } else {
        nether_surface_step(p, nether_surface_after(p, init, (n - 1) as nat), 128 - n)
    }
}

/// The nether surface pass over block column `(lx, lz)` of `column`, top to bottom, as
/// `nether_surface_step` describes each layer.
#[allow(clippy::too_many_arguments)]
#[verifier::rlimit(50)]
pub fn carve_column(
    column: &mut ChunkBuffer,
    lx: usize,
    lz: usize,
    has_soul_sand: bool,
    has_gravel: bool,
    surface_thickness: i32,
    rand: &mut JavaRand,
    block_ids: &BlockIds,
)
    requires
        lx < 16,
        lz < 16,
    ensures
        ({
            let p = NetherSurfaceParams {
                lx: lx as int,
                lz: lz as int,
                has_soul_sand,
                has_gravel,
                thickness: surface_thickness,
                ids: *block_ids,
            };
            let init = NetherSurfaceState {
                column: old(column)@,
                rand: old(rand)@,
                top_id: block_ids.netherrack,
                filler_id: block_ids.netherrack,
                remaining: -1i32,
            };
            let last = nether_surface_after(p, init, 128);
            final(column)@ == last.column && final(rand)@ == last.rand
        }),
{
    let ghost p = NetherSurfaceParams {
        lx: lx as int,
        lz: lz as int,
        has_soul_sand,
        has_gravel,
        thickness: surface_thickness,
        ids: *block_ids,
    };
    let ghost init = NetherSurfaceState {
        column: column@,
        rand: rand@,
        top_id: block_ids.netherrack,
        filler_id: block_ids.netherrack,
        remaining: -1i32,
    };

    let mut top_id = block_ids.netherrack;
    let mut filler_id = block_ids.netherrack;
    let mut remaining_thickness: i32 = -1;

    let mut y: i32 = CHUNK_HEIGHT as i32;
    while y > 0
        invariant
            0 <= y <= 128,
            lx < 16,
            lz < 16,
            p.lx == lx,
            p.lz == lz,
            p.ids == *block_ids,
            p.has_soul_sand == has_soul_sand,
            p.has_gravel == has_gravel,
            p.thickness == surface_thickness,
            ({
                let st = nether_surface_after(p, init, (128 - y) as nat);
                &&& st.column == column@
                &&& st.rand == rand@
                &&& st.top_id == top_id
                &&& st.filler_id == filler_id
                &&& st.remaining == remaining_thickness
            }),
        decreases y,
    {
        y = y - 1;
        let ghost st = nether_surface_after(p, init, (127 - y) as nat);
        assert(nether_surface_after(p, init, (128 - y) as nat) == nether_surface_step(p, st, y as int));
        let ghost stepped = nether_surface_step(p, st, y as int);
        proof {
            lemma_draw_range(*rand, 5);
        }
        let ceiling = rand.random_with::<i32>(Bound::new(5));
        let ghost d = i32_draw(st.rand, Some(5));
        assert(d == (rand@, ceiling));
        if y >= CHUNK_HEIGHT as i32 - 1 - ceiling {
            column.set(lx, y as usize, lz, block_ids.bedrock);
            assert(column@ == stepped.column);
            continue;
        }
        let floor = rand.random_with::<i32>(Bound::new(5));
        let ghost e = i32_draw(d.0, Some(5));
        assert(e == (rand@, floor));
        if y <= floor {
            column.set(lx, y as usize, lz, block_ids.bedrock);
            assert(column@ == stepped.column);
            continue;
        }
        let (t, f, r) = nether_layer_exec(column, lx, lz, y, has_soul_sand, has_gravel, surface_thickness, block_ids, top_id, filler_id, remaining_thickness, Ghost(p), Ghost(NetherSurfaceState { rand: rand@, ..st }));
        top_id = t;
        filler_id = f;
        remaining_thickness = r;
    }
}

/// `nether_layer` on the blocks themselves.
#[allow(clippy::too_many_arguments)]
fn nether_layer_exec(
    column: &mut ChunkBuffer,
    lx: usize,
    lz: usize,
    y: i32,
    has_soul_sand: bool,
    has_gravel: bool,
    surface_thickness: i32,
    block_ids: &BlockIds,
    top_id: i32,
    filler_id: i32,
    remaining_thickness: i32,
    Ghost(p): Ghost<NetherSurfaceParams>,
    Ghost(st): Ghost<NetherSurfaceState>,
) -> (r: (i32, i32, i32))
    requires
        lx < 16,
        lz < 16,
        0 <= y < 128,
        p == (NetherSurfaceParams { lx: lx as int, lz: lz as int, has_soul_sand, has_gravel, thickness: surface_thickness, ids: *block_ids }),
        st.column == old(column)@,
        st.top_id == top_id,
        st.filler_id == filler_id,
        st.remaining == remaining_thickness,
    ensures
        ({
            let n = nether_layer(p, st, y as int);
            &&& n.column == final(column)@
            &&& n.rand == st.rand
            &&& n.top_id == r.0
            &&& n.filler_id == r.1
            &&& n.remaining == r.2
        }),
{
    let mut top_id = top_id;
    let mut filler_id = filler_id;
    let mut remaining_thickness = remaining_thickness;
    let prev_id = column.get(lx, y as usize, lz);
    if prev_id == block_ids.air {
        remaining_thickness = -1;
    } else if prev_id == block_ids.netherrack {
        if remaining_thickness == -1 {
            if surface_thickness <= 0 {
                top_id = block_ids.air;
                filler_id = block_ids.netherrack;
            } else if SURFACE_BAND_CENTER - 4 <= y && y <= SURFACE_BAND_CENTER + 1 {
                top_id = block_ids.netherrack;
                filler_id = block_ids.netherrack;
                if has_gravel {
                    top_id = block_ids.gravel;
                }
                if has_gravel {
                    filler_id = block_ids.netherrack;
                }
                if has_soul_sand {
                    top_id = block_ids.soul_sand;
                }
                if has_soul_sand {
                    filler_id = block_ids.soul_sand;
                }
            }
            if y < SURFACE_BAND_CENTER && top_id == block_ids.air {
                top_id = block_ids.lava_still;
            }
            remaining_thickness = surface_thickness;
            if y >= SURFACE_BAND_CENTER - 1 {
                column.set(lx, y as usize, lz, top_id);
            } else {
                column.set(lx, y as usize, lz, filler_id);
            }
        } else if remaining_thickness > 0 {
            remaining_thickness -= 1;
            column.set(lx, y as usize, lz, filler_id);
        }
    }
    (top_id, filler_id, remaining_thickness)
}

} // verus!
