//! Simulation core of a top-down survival shooter: a swarm of agents pursues
//! one controlled agent, pushes itself apart, and is worn down by projectiles.
//!
//! All quantities are integers in fixed-point sub-units: one world unit is
//! `geometry::UNIT` sub-units, velocities are sub-units per second and tick
//! durations are whole milliseconds.
pub mod geometry;
pub mod components;
pub mod steering;
pub mod crowding;
pub mod enemy;
pub mod projectile;
pub mod pickup_system;
pub mod menu;
pub mod server;
pub mod simulation;
