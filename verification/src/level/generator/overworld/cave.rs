//! The overworld carves its caves with the shared cave carver; only its tunnel tracing
//! (`CaveCarving`) is its own.
pub use crate::level::generator::shared::cave::CaveCarver;
