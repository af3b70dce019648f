//! Simulation core of an endless tube-diving arcade game, over exact integer
//! and rational arithmetic: marching-squares extraction of thick sprite
//! meshes, obstacle hit testing, player physics against the tube wall, the
//! rolling content scheduler, particle emission, the rolling score, and the
//! per-tick game rules that tie them together.
use vstd::prelude::*;

pub mod arith;
pub mod config;
pub mod game;
pub mod geom;
pub mod hittest;
pub mod march;
pub mod mesh;
pub mod particles;
pub mod physics;
pub mod rng;
pub mod scheduler;
pub mod score;
pub mod state;
pub mod touch;

verus! {

} // verus!
