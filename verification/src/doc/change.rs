//! The record of one accepted change to a document.

use uuid::Uuid;
use vstd::prelude::*;

verus! {

/// One accepted change: the version that it led to, and the patches that
/// lead from the body before it to the body after it, and back.
#[derive(Clone, Debug, PartialEq)]
pub struct Change {
    pub id: i32,
    pub document_id: Uuid,
    pub version: i32,
    pub forward: serde_json::Value,
    pub reverse: serde_json::Value,
}

} // verus!
