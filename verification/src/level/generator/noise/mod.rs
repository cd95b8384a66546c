//! The integer halves of the terrain noise: the permutation tables of Perlin noise and
//! the octave stacks built from them. Sampling itself works in floating point and is done
//! by the program around this library.
pub mod octave;
pub mod perlin;
