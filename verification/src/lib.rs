//! Notes in a directory become a graph: each file is one node, bracketed
//! references inside its text are the directed edges, and long bodies written
//! in a markup notation can be pre-rendered to a vector image.

pub mod config;
pub mod model;
pub mod node;
pub mod refs;
pub mod render;
pub mod text;
