//! Core logic of a piece-based racing mini-game: oriented-segment
//! geometry, procedural track construction from authored pieces,
//! k-d-tree-backed nearest-segment lookups, and per-entity collision
//! resolution with lap timing.
//!
//! All geometry lives in a 2D ground plane with fixed-point integer
//! coordinates; directions are integer vectors scaled by `DIR_ONE`.
//! The host shell converts to and from whatever floating-point frame
//! its renderer and physics use.

pub mod geom;
pub mod index;
pub mod builder;
pub mod collision;
pub mod data;
pub mod lap;
pub mod num;
pub mod piece;
