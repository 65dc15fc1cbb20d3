//! Entity-relationship diagrams, drawn as graphs.

use crate::model::digraph::{Digraph, DigraphView};
use crate::util::text::{decimal, decimal_text};
use vstd::prelude::*;
use vstd::string::StringExecFns;

verus! {

/// An entity-relationship diagram: a graph read as entities and references.
#[derive(Clone, Debug)]
pub struct ERD(Digraph);

impl ERD {
    /// The graph that draws the diagram.
    pub closed spec fn graph(self) -> DigraphView {
        self.0@
    }
}

impl Default for ERD {
    /// The empty diagram.
    fn default() -> (erd: ERD)
        ensures
            erd.graph() == DigraphView::empty(),
    {
        ERD(Digraph::default())
    }
}

/// Why a change to a diagram was rejected.
#[derive(Debug, PartialEq)]
pub enum DomainError {
    EntityDoesNotExist(i32),
    AttributeDoesNotExist(i32, i32),
    ReferenceDoesNotExist(i32, i32),
    EntityAlreadyExists(String),
    AttributeAlreadyExists(i32, String),
    ReferenceAlreadyExists(i32, String),
}

impl DomainError {
    /// The text of the error: what it is about, each identifier as `id:`
    /// and its number, the parts joined by `/`.
    pub open spec fn text(self) -> Seq<char> {
        match self {
            DomainError::EntityDoesNotExist(e) => "id:"@ + decimal(e as int),
            DomainError::AttributeDoesNotExist(e, a) => "id:"@ + decimal(e as int) + "/id:"@
                + decimal(a as int),
            DomainError::ReferenceDoesNotExist(e, r) => "id:"@ + decimal(e as int) + "/id:"@
                + decimal(r as int),
            DomainError::EntityAlreadyExists(e) => e@,
            DomainError::AttributeAlreadyExists(e, a) => "id:"@ + decimal(e as int) + "/"@ + a@,
            DomainError::ReferenceAlreadyExists(e, r) => "id:"@ + decimal(e as int) + "/"@ + r@,
        }
    }

    /// Writes the error as text.
    pub fn to_string(&self) -> (s: String)
        ensures
            s@ == self.text(),
    {
        match self {
            DomainError::EntityDoesNotExist(e) => {
                let mut s = String::from_str("id:");
                s.append(decimal_text(*e).as_str());
                s
            },
            DomainError::AttributeDoesNotExist(e, a) => {
                let mut s = String::from_str("id:");
                s.append(decimal_text(*e).as_str());
                s.append("/id:");
                s.append(decimal_text(*a).as_str());
                s
            },
            DomainError::ReferenceDoesNotExist(e, r) => {
                let mut s = String::from_str("id:");
                s.append(decimal_text(*e).as_str());
                s.append("/id:");
                s.append(decimal_text(*r).as_str());
                s
            },
            DomainError::EntityAlreadyExists(e) => e.clone(),
            DomainError::AttributeAlreadyExists(e, a) => {
                let mut s = String::from_str("id:");
                s.append(decimal_text(*e).as_str());
                s.append("/");
                s.append(a.as_str());
                s
            },
            DomainError::ReferenceAlreadyExists(e, r) => {
                let mut s = String::from_str("id:");
                s.append(decimal_text(*e).as_str());
                s.append("/");
                s.append(r.as_str());
                s
            },
        }
    }
}

} // verus!
