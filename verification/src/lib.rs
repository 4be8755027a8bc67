//! Authoritative core of a room-based capture-the-flag arena game.
//!
//! The crate owns the deterministic per-tick simulation (movement, wall
//! collision resolution, territory enforcement, flag capture) and the room
//! registry that drives it. Positions are kept in quarter units: one arena
//! cell is four quarters, and every move advances a player by exactly one
//! quarter, so all coordinates stay exact integers.

pub mod arena;
pub mod error;
pub mod game;
pub mod geometry;
pub mod player_move;
pub mod registry;
