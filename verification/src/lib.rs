//! The game logic of Spooky Maze: maze generation, the tile map with its
//! collectibles and NPCs, the game systems and the frame-based engine,
//! what each frame draws and where, the input of keyboards, tilt sensors
//! and touch panels, and the byte-level work of the boards' display and
//! backlight buses.
use vstd::prelude::*;

mod graph;
mod rng;
pub mod recursive_backtracking;
pub mod maze;
pub mod systems;
pub mod engine;
pub mod controllers;
pub mod gt911;
pub mod gt911_p4;
pub mod touch;
pub mod render;
pub mod input;
pub mod web_maze;
pub mod spi_dma;
pub mod backlight;

verus! {

} // verus!
