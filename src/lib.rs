//! Conway's Game of Life on a toroidal grid, with the packed generation held
//! in a `fixedbitset::FixedBitSet`.
mod bitset;
pub mod rules;
pub mod universe;
pub mod laws;
