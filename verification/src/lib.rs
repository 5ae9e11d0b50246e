//! Rules of a real-time strategy game: the pathfinding grid and its
//! searches, the spatial hash, terrain, fog of war, building placement,
//! the economy, production queues, target acquisition and pursuit, the
//! computer opponent's decisions and the console's parsing.

pub mod geometry;
pub mod grid;
pub mod pathfinding;
pub mod fog;
pub mod data;
pub mod map;
pub mod placement;
pub mod defs;
pub mod ai;
pub mod army;
pub mod player;
pub mod siting;
pub mod buildings;
pub mod commands;
pub mod formation;
pub mod group_move;
pub mod economy;
pub mod console;
pub mod orders;
pub mod game_state;
pub mod spatial_hash;
pub mod terrain;
pub mod combat;
