pub mod java;
pub mod lcg;
pub mod primitives;
