//! A toy artificial-life simulator: a toroidal grid of tiles, a generational
//! store of creatures, and the interpreter of their gene programs.

pub mod census;
pub mod creature;
pub mod creaturemap;
pub mod game;
pub mod occupancy;
mod random;
pub mod renderer;
pub mod world;
