//! Boundary-representation topology with shared attribute cells, and the
//! structure-preserving copy of its entities under attribute transforms.
//!
//! Every point, curve and surface lives in a cell of a [`store::Topology`];
//! vertices, edges and faces are handles whose identity is the index of their
//! cell, so handles that share a cell always see one value.

pub mod store;
pub mod vertex;
pub mod edge;
pub mod wire;
pub mod face;
pub mod mapped;
pub mod laws;
