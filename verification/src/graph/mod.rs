//! Graph engine: an in-memory adjacency-list graph and the traversal
//! algorithms run over it (multi-hop neighbourhoods, shortest paths and
//! weakly connected components).
pub mod component;
pub mod engine;
pub mod laws;

pub mod types;
pub mod traversal;
