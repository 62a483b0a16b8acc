//! Simulation core of a grid-based tower-defense game: path planning over an
//! occupancy grid, attack cooldowns, combat resolution and mob movement.
//!
//! Positions are integers throughout. A tile is addressed by a [`geometry::Point`];
//! world positions are [`geometry::WorldPoint`]s measured in world units, of which
//! a tile side holds [`geometry::TILE_SIZE`]. Time is simulated time in
//! milliseconds, handed in by the caller on every call that needs it.

pub mod geometry;
pub mod unit;
pub mod mob;
pub mod board;
pub mod path;
pub mod combat;
pub mod combination;
pub mod level;
pub mod resources;
