//! Traversal and classification of a module reference graph across a
//! server/client execution boundary.
pub mod module_graph;
pub mod node;
pub mod traversal;
pub mod groups;
pub mod result;
pub mod laws;
