//! Simulation core of a networked, chunk-based voxel world.
//!
//! Positions of players are fixed-point: `player::Position` counts in
//! thousandths of a block, times are counted in microseconds, and nothing
//! here computes in floating point.
//!
//! - `coords`, `block`, `chunk`, `store`: the voxel store and its addressing.
//! - `streaming`: which chunks are loaded around the observers.
//! - `persistence`: the saved form of a chunk.
//! - `keyboard`: key bindings and active actions.
//! - `player`, `controller`: the player and one tick of its physics.
//! - `targeting`, `ray_geometry`: the targeted block, breaking and placing.
//! - `network`: the messages, and how a client applies them.
//! - `server`: the lobby of sessions and what the server sends.

pub mod block;
pub mod chunk;
pub mod controller;
pub mod coords;
pub mod keyboard;
pub mod math;
pub mod network;
pub mod persistence;
pub mod player;
pub mod ray_geometry;
pub mod server;
pub mod store;
pub mod streaming;
pub mod targeting;
