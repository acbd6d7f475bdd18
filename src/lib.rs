//! A fixed-point software raycasting engine over a tile grid, with the
//! farbfeld image codec that its textures come in.

pub mod farbfeld;
pub mod fixed;
pub mod tables;
pub mod world;
pub mod raycast;
pub mod movement;
pub mod color;
pub mod texture;
pub mod canvas;
pub mod render;
pub mod sprites;
pub mod loader;
pub mod game;
