//! Game logic of a small tile-based roguelike: map generation, combat,
//! items, monster behaviour and the decisions behind the player's input.

pub mod ai;
pub mod bound;
pub mod dungeon;
pub mod fov;
pub mod interface;
pub mod items;
pub mod map;
pub mod messages;
pub mod object;
pub mod paths;
mod random;
pub mod world;
