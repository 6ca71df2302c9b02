//! A deterministic fictional-world generator.
//!
//! From a seed phrase and a configuration the library synthesizes a set of
//! towns — each populated with buildings, rooms, inhabitants and containers —
//! and connects the towns with a weighted travel graph that is guaranteed to
//! be connected.  The same pipeline can instead re-populate a set of towns
//! imported from a textual edge-list description, and the graph round-trips
//! through that textual format.
use vstd::prelude::*;

pub mod codec;
pub mod config;
pub mod connectivity;
pub mod entities;
pub mod graph;
pub mod ids;
pub mod index;
pub mod namegen;
pub mod rng;
pub mod seed;
pub mod world;
pub mod worldgen;

verus! {

} // verus!
