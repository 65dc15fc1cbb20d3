//! Document bodies.

pub mod digraph;
pub mod digraph_json;
pub mod erd;
pub mod labels;
