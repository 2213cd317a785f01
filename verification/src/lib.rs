//! Simulation core of a small 2D arcade game: a ship crosses a bounded
//! arena from a start marker to a goal marker while moving obstacles
//! bounce off the arena walls, lasers fired by the ship destroy
//! obstacles, and a clock runs from the first movement input until the
//! game ends in a win (goal reached) or a loss (lives exhausted).
//!
//! Positions are whole numbers of world units; directions are
//! fixed-point vectors whose components are scaled by `DIR_SCALE`
//! (so a component of `DIR_SCALE` stands for 1.0). Tick lengths are
//! whole milliseconds.

use vstd::prelude::*;

pub mod component;
pub mod geometry;
pub mod input;
pub mod state;
pub mod system;

verus! {

/// Scale of fixed-point direction components: `DIR_SCALE` stands for 1.0.
pub const DIR_SCALE: i64 = 1000;

/// Fixed-point size of each component of a unit diagonal: the whole
/// part of `DIR_SCALE` divided by the square root of two, so moving
/// diagonally is no faster than moving straight.
pub const DIAG_COMPONENT: i64 = 707;

/// Two entities closer than this many world units are touching.
pub const COLLISION_DISTANCE: i64 = 30;

/// Half-extent of the arena along the x axis; obstacles bounce here.
pub const ARENA_HALF_WIDTH: i64 = 400;

/// Half-extent of the arena along the y axis; obstacles bounce here.
pub const ARENA_HALF_HEIGHT: i64 = 300;

/// A laser whose |x| exceeds this travel bound is removed.
pub const LASER_BOUND_X: i64 = 1200;

/// A laser whose |y| exceeds this travel bound is removed.
pub const LASER_BOUND_Y: i64 = 800;

/// Obstacle speed in world units per second.
pub const BOX_SPEED: i64 = 100;

/// Laser speed in world units per second.
pub const LASER_SPEED: i64 = 500;

/// Ship speed in world units per second.
pub const SHIP_SPEED: i64 = 200;

/// Lives the ship starts with.
pub const INITIAL_LIVES: u32 = 5;

/// Number of obstacles placed at setup.
pub const BOX_COUNT: usize = 10;

/// Minimum pairwise distance kept between obstacles placed at setup.
pub const MIN_BOX_SEPARATION: i64 = 40;

/// Two obstacles closer than this many world units bounce off each
/// other by exchanging their directions.
pub const OBSTACLE_BOUNCE_DISTANCE: i64 = 40;

/// How many random draws setup tries per obstacle before it falls
/// back to the fixed layout; a bound so that placement always
/// terminates.
pub const PLACEMENT_ATTEMPTS: usize = 100;

/// A direction draw whose squared length falls below this (half a
/// unit, squared) is redrawn: normalizing so short a vector would
/// leave too large a truncation error.
pub const DIR_DRAW_MIN_SQ: i64 = 250000;

/// Lower bound on the squared length of a normalized direction:
/// truncation during fixed-point normalization loses at most about
/// a fifth of a percent of unit length.
pub const UNIT_LENGTH_SQ_MIN: i64 = 995998;

/// Upper bound on the squared length of a normalized direction; see
/// `UNIT_LENGTH_SQ_MIN`.
pub const UNIT_LENGTH_SQ_MAX: i64 = 1004000;

/// The laser leaves the ship this many world units ahead of its nose.
pub const LASER_TIP_OFFSET: i64 = 50;

/// The ship is clamped to a play area that sits far enough inside the
/// laser travel bounds that a laser fired from the ship's tip starts
/// inside them.
pub const SHIP_BOUND_X: i64 = LASER_BOUND_X - LASER_TIP_OFFSET;

/// See `SHIP_BOUND_X`.
pub const SHIP_BOUND_Y: i64 = LASER_BOUND_Y - LASER_TIP_OFFSET;

/// x coordinate of the start marker, where the ship spawns.
pub const START_X: i64 = -400;

/// y coordinate of the start marker, where the ship spawns.
pub const START_Y: i64 = 300;

/// x coordinate of the goal marker.
pub const GOAL_X: i64 = 400;

/// y coordinate of the goal marker.
pub const GOAL_Y: i64 = -300;

/// Milliseconds between two frames of a transient effect's animation.
pub const FIREBALL_FRAME_MS: u32 = 100;

/// A transient effect is removed once its frame index reaches this count.
pub const FIREBALL_FRAME_COUNT: u32 = 16;

/// Every coordinate the simulation stores stays within this bound,
/// which keeps all the arithmetic of one tick inside `i64`.
pub const COORD_LIMIT: i64 = 1000000;

} // verus!
