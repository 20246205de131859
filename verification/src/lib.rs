//! Simulation core of a 2D tile-based platformer: fixed-timestep physics,
//! axis-aligned collision resolution against a tile grid and against gameplay
//! triggers (doors, mud, attack hitboxes), a frame-sequence animation model,
//! and a deadzone camera-follow policy.
//!
//! World coordinates are fixed-point integers: thousandths of a pixel
//! ("sub-pixels"). Time is measured in integer milliseconds; velocities are
//! sub-pixels per second and accelerations sub-pixels per second squared.

use vstd::prelude::*;

pub mod anim;
pub mod camera;
pub mod collision;
pub mod config;
pub mod entity;
pub mod game;
pub mod geom;
pub mod level;
pub mod physics;
pub mod rng;
