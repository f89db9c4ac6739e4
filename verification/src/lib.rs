//! Turn-based simulation kernel of a dungeon crawler: the dungeon map, the
//! store of live entities and their components, and the systems that advance
//! the world by one turn.  Every item is verified with Verus; the few calls
//! into `rltk` stand behind trusted wrappers that are marked as such.

use vstd::prelude::*;

pub mod arith;
pub mod components;
pub mod connectivity;
pub mod coord;
pub mod fov;
pub mod game_log;
pub mod gui;
pub mod laws;
pub mod map;
pub mod player;
pub mod population;
pub mod random;
pub mod rect;
pub mod state;
pub mod store;
pub mod systems;
pub mod text;

verus! {

/// Width of the dungeon in tiles.
pub const MAP_WIDTH: i32 = 80;

/// Height of the dungeon in tiles.
pub const MAP_HEIGHT: i32 = 50;

/// Height of the panel below the map.
pub const UI_HEIGHT: i32 = 10;

} // verus!
