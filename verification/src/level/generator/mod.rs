pub mod java_rand;
pub mod nether;
pub mod noise;
pub mod overworld;
pub mod seed;
pub mod shared;
pub mod sky;
