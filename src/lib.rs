//! Incremental mirroring of a tree of notes into a tree of rendered pages.
//!
//! The source tree is modelled as owned nodes (`object`), hashed bottom-up
//! (`hash`, `tree`), built breadth-first from directory listings
//! (`builder`), and compared against one state record per directory
//! (`store`) by a walk that hands out only the work that changed (`tree`).
//! What holds across runs is stated and proved in `laws`.

pub mod builder;
pub mod error;
pub mod hash;
pub mod header;
pub mod index;
pub mod laws;
pub mod object;
pub mod path;
pub mod render;
pub mod store;
pub mod tree;
