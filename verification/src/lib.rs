//! A versioned document store with patch-based change tracking, specialised
//! to documents whose body is a directed graph.

pub mod doc;
pub mod json;
pub mod model;
pub mod storage;
pub mod util;
