//! Documents: a body under an identity, an owner and a version.

use crate::doc::common::DateTime;
use crate::doc::project::Project;
use crate::json::json_model;
use crate::model::digraph::{Digraph, DigraphView};
use crate::model::digraph_json::{digraph_json, json_to_digraph};
use crate::util::naming::{empty_uuid, random_uuid, uuid_value};
use uuid::Uuid;
use vstd::prelude::*;
use vstd::string::StringExecFns;

verus! {

/// A body of type `T` together with its identity, the project and owner it
/// belongs to, and the version that counts its accepted changes.
#[derive(Clone, Debug, PartialEq)]
pub struct Document<T> {
    pub id: Uuid,
    pub project_id: Uuid,
    pub owner_id: Uuid,
    pub name: String,
    pub doctype: String,
    pub version: i32,
    pub body: T,
    pub created_at: DateTime,
    pub updated_at: DateTime,
}

/// The kinds of document, by the schema of the body.
#[derive(Debug, PartialEq, Eq, Structural)]
pub enum DocType {
    Digraph,
}

/// A document whose body is held as a JSON value, as it is stored and sent.
pub type RawDocument = Document<serde_json::Value>;

impl<T> Document<T> {
    /// The document one version on, with nothing else changed.
    pub open spec fn changed(self) -> Document<T> {
        Document { version: (self.version + 1) as i32, ..self }
    }

    /// Counts one accepted change: the version goes up by one. Returns the
    /// new version.
    pub fn change(&mut self) -> (version: i32)
        requires
            old(self).version < i32::MAX,
        ensures
            *final(self) == old(self).changed(),
            version == old(self).version + 1,
    {
        self.version += 1;
        self.version
    }
}

impl DocType {
    /// The name of the kind, as documents carry it in `doctype`.
    pub open spec fn text(self) -> Seq<char> {
        match self {
            DocType::Digraph => "digraph"@,
        }
    }

    /// Writes the name of the kind.
    pub fn to_string(&self) -> (s: String)
        ensures
            s@ == self.text(),
    {
        match self {
            DocType::Digraph => String::from_str("digraph"),
        }
    }
}

/// A document whose body is a graph.
pub type DigraphDocument = Document<Digraph>;

/// Whether two documents agree in everything but the body.
pub open spec fn same_envelope<A, B>(a: Document<A>, b: Document<B>) -> bool {
    &&& a.id == b.id
    &&& a.project_id == b.project_id
    &&& a.owner_id == b.owner_id
    &&& a.name == b.name
    &&& a.doctype == b.doctype
    &&& a.version == b.version
    &&& a.created_at == b.created_at
    &&& a.updated_at == b.updated_at
}

impl Document<Digraph> {
    /// Whether the document is as a new graph document is: version 0, the
    /// name "New", the kind "digraph", the empty graph.
    pub open spec fn is_new(self) -> bool {
        &&& self.name@ == "New"@
        &&& self.doctype@ == DocType::Digraph.text()
        &&& self.version == 0
        &&& self.body@ == DigraphView::empty()
        &&& self.created_at.wf()
        &&& self.updated_at.wf()
    }

    /// A new graph document in the given project, owned by the owner of the
    /// project.
    pub fn create(project: &Project) -> (doc: DigraphDocument)
        ensures
            doc.is_new(),
            doc.project_id == project.id,
            doc.owner_id == project.owner_id,
    {
        let mut doc = Self::default();
        doc.project_id = project.id;
        doc.owner_id = project.owner_id;
        doc
    }

    /// The document in its stored form: the same envelope around the graph
    /// written as JSON.
    pub fn into_raw(self) -> (raw: RawDocument)
        ensures
            same_envelope(self, raw),
            json_model(raw.body) == digraph_json(self.body@),
    {
        let body = self.body.to_json();
        Document {
            id: self.id,
            project_id: self.project_id,
            owner_id: self.owner_id,
            name: self.name,
            doctype: self.doctype,
            version: self.version,
            body,
            created_at: self.created_at,
            updated_at: self.updated_at,
        }
    }

    /// The document read from its stored form, where the stored body holds a
    /// graph; nothing where it does not.
    pub fn from_raw(raw: RawDocument) -> (read: Option<DigraphDocument>)
        ensures
            match read {
                Some(doc) => same_envelope(raw, doc) && json_to_digraph(json_model(raw.body))
                    == Some(doc.body@),
                None => json_to_digraph(json_model(raw.body)) is None,
            },
    {
        match Digraph::from_json(&raw.body) {
            Some(body) => Some(
                Document {
                    id: raw.id,
                    project_id: raw.project_id,
                    owner_id: raw.owner_id,
                    name: raw.name,
                    doctype: raw.doctype,
                    version: raw.version,
                    body,
                    created_at: raw.created_at,
                    updated_at: raw.updated_at,
                },
            ),
            None => None,
        }
    }
}

impl Default for Document<Digraph> {
    /// A new graph document that belongs to no project and no owner.
    fn default() -> (doc: DigraphDocument)
        ensures
            doc.is_new(),
            uuid_value(doc.project_id) == 0,
            uuid_value(doc.owner_id) == 0,
    {
        Document {
            id: random_uuid(),
            project_id: empty_uuid(),
            owner_id: empty_uuid(),
            name: String::from_str("New"),
            doctype: DocType::Digraph.to_string(),
            version: 0,
            created_at: DateTime::now(),
            updated_at: DateTime::now(),
            body: Digraph::default(),
        }
    }
}

/// A graph document that is put into its stored form and read back is the
/// same document: the stored form loses nothing.
pub proof fn lemma_raw_round_trip(doc: DigraphDocument, raw: RawDocument)
    requires
        same_envelope(doc, raw),
        json_model(raw.body) == digraph_json(doc.body@),
    ensures
        json_to_digraph(json_model(raw.body)) == Some(doc.body@),
{
    crate::model::digraph_json::lemma_json_round_trip(doc.body);
}

} // verus!
