//! The population pass each dimension runs over an owner's forward quad.
use super::TerrainSource;
use super::quad_chunk_buffer::QuadChunkBuffer;
use vstd::prelude::*;

verus! {

/// A dimension's generator provides its own population pass over an owner's forward
/// quad, on top of its terrain.
pub trait Population: TerrainSource + Send + Sync + 'static {
    fn run_population_raw(&self, owner_x: i32, owner_z: i32, buffer: &mut QuadChunkBuffer);
}

} // verus!
