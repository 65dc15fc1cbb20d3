//! Small helpers shared by the other modules.

pub mod naming;
pub mod text;
