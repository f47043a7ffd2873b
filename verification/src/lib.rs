//! A verified pipeline that turns a grid-based level document into the
//! runtime state its host consumes: render batches of per-cell texture and
//! flip data, static collision bodies anchored to individual tiles, logic
//! grids overlaid on named visual layers, and typed spawn requests for
//! placed objects (signs, non-player characters).
//!
//! World coordinates are fixed-point integers: 256 subpixel units per
//! source pixel, with the y axis pointing up, while the source document
//! numbers rows top-down.

pub mod batch;
pub mod collider;
pub mod document;
pub mod geometry;
pub mod loader;
pub mod logic;
pub mod objects;
pub mod props;
pub mod scene;
pub mod tileprops;

use vstd::prelude::*;

verus! {

/// Labels for the host-side passes that consume this pipeline's outputs,
/// used by an embedding application to order its update systems.
#[derive(Clone, Copy, PartialEq, Eq, Structural, Debug)]
pub enum PrototypSystemLabel {
    Movement,
    UpdateAnimation,
    SignUpdate,
    SpawnNpcs,
}

} // verus!
