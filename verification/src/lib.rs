//! Deterministic per-frame simulation rules of a data-driven 2D fighting game:
//! character state, health, input buffering, hit detection and resolution,
//! hitstop and round flow, plus the decision logic of the demo's controls.

pub mod collision;
pub mod events;
pub mod health;
pub mod hit_resolution;
pub mod input;
pub mod round;
pub mod state;
pub mod tags;
pub mod time_freeze;
pub mod demo;
