//! Collision detection and resolution core for a 2D entity world.
//!
//! The crate discovers which entities' axis-aligned bounding boxes overlap,
//! filters candidate pairs by collision-layer compatibility, and converts the
//! surviving overlaps into game-state mutations: bullet deactivation, damage
//! events, and physical push-apart impulses. Events produced by one frame's
//! resolution are published to a `shrev` event channel as a single batch.

pub mod collision;
pub mod event;
pub mod layers;
pub mod resolve;
pub mod math;
pub mod render;
pub mod world;
