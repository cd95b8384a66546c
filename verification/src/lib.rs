pub mod level;
pub mod rand;
