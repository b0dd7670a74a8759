//! An in-memory topological mesh for polygonal surfaces: vertices, edges and
//! faces stored in arenas and connected through a half-edge adjacency scheme.
//! Connectivity is built incrementally and read through lightweight cursor
//! references and traversal iterators.

pub mod index;
pub mod mesh;
