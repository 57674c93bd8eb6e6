//! Decision logic of the demo: sprite animation, fighter controls, the
//! tuning tools and scene data checks.

pub mod animation;
pub mod controls;
pub mod tuning;
pub mod scene;
pub mod assets;
