//! Deterministic two-player arena combat core with rollback netcode.
//!
//! The crate covers the parts of the game that must be bit-exactly
//! reproducible across peers and across rollback resimulation: the compact
//! per-frame input record and its byte codec, the deterministic per-frame
//! simulation step (movement, weapon cooldown and fire, projectile advance,
//! hit and damage resolution), and the rollback session protocol (frame
//! numbering, input delay, repeat-last-input prediction, misprediction
//! detection and resimulation).
//!
//! Rendering, asset loading, window and camera management, menu overlays and
//! peer discovery are external collaborators: they exchange plain values with
//! this crate and are not part of it. All geometry uses fixed-point integer
//! coordinates so that every peer computes identical results; the mapping of
//! world units to fixed-point units is chosen by the host.

pub mod input;
pub mod math;
pub mod session;
pub mod step;
pub mod world;
