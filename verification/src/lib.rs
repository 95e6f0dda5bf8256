//! A tick-driven auto-battle simulation: two teams of slimes acquire targets,
//! close distance, attack on animation-synchronized hit frames, suffer damage,
//! knockback and stun, die, and may probabilistically fuse same-team pairs into
//! one stronger merged slime.
//!
//! All state lives in a generational arena of units; each per-tick system is a
//! verified function with an explicit contract, and structural changes happen
//! at well-defined points inside each system rather than behind a scheduler.

pub mod battle;
pub mod combat;
pub mod components;
pub mod config;
pub mod end_round;
pub mod geom;
pub mod health;
pub mod movement;
pub mod pick_target;
pub mod rng;
pub mod setup_round;
pub mod spawn_slimes;
pub mod special_abilities;
pub mod world;
