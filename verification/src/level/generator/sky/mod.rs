//! The sky dimension: the overworld's population features on floating islands, with a
//! plant mix of its own.
pub mod plant;
