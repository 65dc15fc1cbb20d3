//! Storage: what a backend must offer, and the one path by which stored
//! documents are changed.

pub mod engine;
pub mod sqlite;
