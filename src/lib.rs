//! The simulation core of a turn-based dungeon game: room-and-corridor level
//! generation with spaced spawns, per-actor field of view with the player's explored
//! overlay, an initiative-ordered turn scheduler, and enemy behaviour that pursues a
//! visible target and otherwise follows the decaying heat of a lost one.
pub mod actions;
pub mod ai;
pub mod blockmove;
pub mod camera;
pub mod combat;
pub mod drink;
pub mod equip;
pub mod fov;
pub mod generator;
pub mod geometry;
pub mod heat;
pub mod input;
pub mod inventory;
pub mod logs;
pub mod map;
pub mod menus;
pub mod object;
pub mod outside;
pub mod paths;
pub mod player;
pub mod playermem;
pub mod rng;
pub mod spawn;
pub mod state;
