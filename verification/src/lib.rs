//! Core simulation of a tile-based factory game: a grid of placed machines
//! (belts, miners, inserters, furnaces) transports and transforms dropped
//! items every fixed tick, driven by a placement protocol and a per-player
//! inventory.  Rendering, input polling and UI layout live outside this
//! crate; the simulation works on plain integer world units (32 per grid
//! cell) and integer milliseconds.

pub mod kinds;
pub mod geom;
pub mod timer;
pub mod inventory;
pub mod grid;
pub mod items;
pub mod world;
pub mod furnace;
pub mod miner;
pub mod inserter;
pub mod belt;
pub mod tick;
pub mod actions;
pub mod worldgen;
