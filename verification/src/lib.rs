//! Collision and level-streaming core of a tile-based 2D platformer.
//!
//! The library turns a grid of solid tile markers into a small set of
//! axis-aligned collision rectangles, keeps that mesh correct while terrain
//! is dug away, tracks per-entity contact state (ground, climbable range,
//! submersion, invulnerability windows) from pairwise collision start/stop
//! notifications, and sequences the coarse level-streaming state machine
//! that gates the running simulation.

pub mod animate;
pub mod character;
pub mod collider;
pub mod contact;
pub mod grid;
pub mod invuln;
pub mod items;
pub mod iter_ext;
pub mod menu;
pub mod mesh;
pub mod streaming;
pub mod timer;
