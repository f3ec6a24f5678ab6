//! A canonicalizing store for the nodes of a recursively subdivided space.
//!
//! Identical sub-structures are stored once in a fixed-capacity open-addressing
//! table and are referred to by small integer identifiers afterwards.

pub mod common;
pub mod hashlife;
pub mod hashtable;
pub mod hashtable_base;
pub mod maybe_sync;
