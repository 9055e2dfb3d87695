//! Adjacency storage for an undirected graph over externally issued node
//! identifiers, with every edge recorded at both of its endpoints.

pub mod graph;
pub mod lemmas;
pub mod model;
