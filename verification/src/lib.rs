//! Core logic of a 2D light-ray puzzle: level-grid parsing, ray
//! normalization, per-tick ray resolution driving the player, and a
//! triangle-based cursor-picking system.
//!
//! All geometry is kept in integer grid/world units; the rendering layer
//! owns floating-point positions and converts at the boundary.
use vstd::prelude::*;

pub mod anim;
pub mod geom;
pub mod level;
pub mod motion;
pub mod picking;
pub mod ray;

verus! {

/// Side length of one tile in world units.
pub const TILE_SIZE: i32 = 32;

/// Level width in tiles.
pub const LEVEL_SIZE_X: i32 = 16;

/// Level height in tiles.
pub const LEVEL_SIZE_Y: i32 = 16;

} // verus!

