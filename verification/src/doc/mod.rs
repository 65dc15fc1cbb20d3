//! Documents, the projects that own them, and the record of their changes.

pub mod change;
pub mod common;
pub mod document;
pub mod project;
