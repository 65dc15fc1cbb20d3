//! The storage interface and the container that guards updates by version.

use crate::doc::change::Change;
use crate::doc::common::DateTime;
use crate::doc::document::{DocType, Document, RawDocument};
use crate::doc::project::{Project, ProjectFields};
use crate::json::{diff_values, json_diff};
use crate::util::text::{decimal, decimal_text};
use uuid::Uuid;
use vstd::prelude::*;
use vstd::string::StringExecFns;

verus! {

/// What to list: a page of the results, and the order to list them in.
#[derive(Debug, PartialEq)]
pub struct QueryRequest<T> {
    pub page: Option<Pagination>,
    pub sort: Option<Vec<(T, Direction)>>,
}

/// A page: at most `limit` results, after skipping `offset` of them.
#[derive(Debug, PartialEq, Eq, Structural)]
pub struct Pagination {
    pub limit: Option<i32>,
    pub offset: Option<i32>,
}

/// The direction of a sort.
#[derive(Debug, PartialEq, Eq, Structural)]
pub enum Direction {
    Asc,
    Desc,
}

/// Where a page lies among all results.
#[derive(Debug, PartialEq, Eq, Structural)]
pub struct QueryResponseMeta {
    pub offset: Option<i32>,
    pub total: Option<i32>,
}

/// One page of results.
#[derive(Debug, PartialEq)]
pub struct QueryResponse<T> {
    pub data: Vec<T>,
    pub meta: QueryResponseMeta,
}

/// Why a storage operation failed.
#[derive(Debug, PartialEq)]
pub enum EngineError {
    /// Nothing is stored under the identifier.
    NotFound,
    /// The backend failed; the text says how.
    Storage(String),
    /// The document was submitted at the first version while the second is
    /// the one in storage.
    VersionMismatch(i32, i32),
}

impl EngineError {
    /// The text of the error.
    pub open spec fn text(self) -> Seq<char> {
        match self {
            EngineError::NotFound => "Not Found"@,
            EngineError::Storage(detail) => "Error : "@ + detail@,
            EngineError::VersionMismatch(submitted, current) => "Document version mismatch : "@
                + decimal(submitted as int) + ", "@ + decimal(current as int),
        }
    }

    /// Writes the error as text.
    pub fn to_string(&self) -> (s: String)
        ensures
            s@ == self.text(),
    {
        match self {
            EngineError::NotFound => String::from_str("Not Found"),
            EngineError::Storage(detail) => {
                let mut s = String::from_str("Error : ");
                s.append(detail.as_str());
                s
            },
            EngineError::VersionMismatch(submitted, current) => {
                let mut s = String::from_str("Document version mismatch : ");
                s.append(decimal_text(*submitted).as_str());
                s.append(", ");
                s.append(decimal_text(*current).as_str());
                s
            },
        }
    }
}

/// What a storage backend offers. A backend reports its own failures as
/// `EngineError`; nothing is assumed of what it returns.
pub trait Engine: Send + Sync {
    fn get_document(&self, id: &Uuid) -> Result<RawDocument, EngineError>;

    fn store_document(&self, doc: RawDocument) -> Result<(), EngineError>;

    /// Stores the new state of a document and, with it, the record of the
    /// change: both or neither.
    fn update_document(&self, doc: RawDocument, change: Option<Change>) -> Result<(), EngineError>;

    fn delete_document(&self, id: &Uuid) -> Result<(), EngineError>;

    fn get_projects(&self, params: Option<QueryRequest<ProjectFields>>) -> Result<
        QueryResponse<Project>,
        EngineError,
    >;

    fn get_project(&self, id: &Uuid) -> Result<Project, EngineError>;

    fn store_project(&self, doc: Project) -> Result<(), EngineError>;

    fn update_project(&self, doc: Project) -> Result<(), EngineError>;

    /// Deletes a project and every document that belongs to it.
    fn delete_project(&self, id: &Uuid) -> Result<(), EngineError>;

    fn get_project_documents(&self, project_id: &Uuid, variant: DocType) -> Result<
        Vec<RawDocument>,
        EngineError,
    >;
}

/// The record of the change that leads from `stored` to `doc`, once `doc`
/// has been counted one version on.
pub open spec fn change_record(stored: RawDocument, doc: RawDocument) -> Change {
    Change {
        id: 0,
        document_id: doc.id,
        version: (doc.version + 1) as i32,
        forward: json_diff(stored.body, doc.body),
        reverse: json_diff(doc.body, stored.body),
    }
}

/// The document after an accepted update: one version on, and last updated
/// at `now`.
pub open spec fn accepted(doc: RawDocument, now: DateTime) -> RawDocument {
    Document { updated_at: now, ..doc.changed() }
}

/// Decides on an update, given the document as it is stored. The update is
/// accepted exactly if `doc` carries the stored version. An accepted `doc`
/// moves one version on and is marked as updated at the time of the call,
/// and the change record to store with it is returned. A rejected `doc`
/// stays as it is, and nothing is to be stored.
pub fn plan_update(stored: &RawDocument, doc: &mut RawDocument) -> (plan: Result<
    Change,
    EngineError,
>)
    requires
        stored.version == old(doc).version ==> old(doc).version < i32::MAX,
    ensures
        stored.version != old(doc).version ==> plan == Err::<Change, EngineError>(
            EngineError::VersionMismatch(old(doc).version, stored.version),
        ) && *final(doc) == *old(doc),
        stored.version == old(doc).version ==> plan == Ok::<Change, EngineError>(
            change_record(*stored, *old(doc)),
        ) && *final(doc) == accepted(*old(doc), final(doc).updated_at),
        stored.version == old(doc).version ==> final(doc).updated_at.wf(),
{
    if stored.version != doc.version {
        Err(EngineError::VersionMismatch(doc.version, stored.version))
    } else {
        doc.change();
        doc.updated_at = DateTime::now();
        let forward = diff_values(&stored.body, &doc.body);
        let reverse = diff_values(&doc.body, &stored.body);
        Ok(Change { id: 0, document_id: doc.id, version: doc.version, forward, reverse })
    }
}

/// A copy of a stored-form document, equal to it in every field.
fn copy_of(doc: &RawDocument) -> (copy: RawDocument)
    ensures
        copy == *doc,
{
    Document {
        id: doc.id,
        project_id: doc.project_id,
        owner_id: doc.owner_id,
        name: doc.name.clone(),
        doctype: doc.doctype.clone(),
        version: doc.version,
        body: doc.body.clone(),
        created_at: doc.created_at,
        updated_at: doc.updated_at,
    }
}

/// The one surface through which documents and projects are reached. Every
/// operation but `update_document` hands its arguments to the backend and
/// the backend's answer back.
pub struct EngineContainer<E: Engine> {
    engine: E,
}

impl<E: Engine> EngineContainer<E> {
    /// The backend that the container hands its calls to.
    pub closed spec fn backend(&self) -> E {
        self.engine
    }

    /// Whether `found` is an answer of the backend when asked for the
    /// document `id`.
    pub open spec fn finds_document(&self, id: Uuid, found: Result<RawDocument, EngineError>) -> bool {
        call_ensures(E::get_document, (&self.backend(), &id), found)
    }

    /// What `update_document` does once the backend has answered `found` for
    /// the document to update: it passes a failure of the backend on, rejects
    /// a document that does not carry the stored version, and otherwise
    /// moves the document one version on and returns the backend's answer to
    /// storing it together with its change record.
    pub open spec fn updates(
        &self,
        found: Result<RawDocument, EngineError>,
        before: RawDocument,
        after: RawDocument,
        done: Result<(), EngineError>,
    ) -> bool {
        match found {
            Err(e) => done == Err::<(), EngineError>(e) && after == before,
            Ok(stored) => if stored.version != before.version {
                done == Err::<(), EngineError>(
                    EngineError::VersionMismatch(before.version, stored.version),
                ) && after == before
            } else {
                &&& after == accepted(before, after.updated_at)
                &&& after.updated_at.wf()
                &&& call_ensures(
                    E::update_document,
                    (&self.backend(), after, Some(change_record(stored, before))),
                    done,
                )
            },
        }
    }

    /// A container around the given backend.
    pub fn new(engine: E) -> (container: Self)
        ensures
            container.backend() == engine,
    {
        Self { engine }
    }

    pub fn get_document(&self, id: &Uuid) -> (found: Result<RawDocument, EngineError>)
        ensures
            self.finds_document(*id, found),
    {
        self.engine.get_document(id)
    }

    pub fn store_document(&self, doc: RawDocument) -> (done: Result<(), EngineError>)
        ensures
            call_ensures(E::store_document, (&self.backend(), doc), done),
    {
        self.engine.store_document(doc)
    }

    /// Updates a stored document under optimistic concurrency: reads what is
    /// stored under the identifier of `doc`, lets `plan_update` decide, and
    /// hands an accepted document and its change record to the backend.
    ///
    /// The backend is asked for the stored document once, and what follows
    /// from its answer is what `updates` says; nothing is handed to the
    /// backend for storing unless the update was accepted.
    pub fn update_document(&self, doc: &mut RawDocument) -> (done: Result<(), EngineError>)
        requires
            old(doc).version < i32::MAX,
        ensures
            exists|found: Result<RawDocument, EngineError>|
                #[trigger] self.finds_document(old(doc).id, found) && self.updates(
                    found,
                    *old(doc),
                    *final(doc),
                    done,
                ),
    {
        let found = self.get_document(&doc.id);
        let done = match found {
            Err(e) => Err(e),
            Ok(current_doc) => match plan_update(&current_doc, doc) {
                Err(e) => Err(e),
                Ok(change) => self.engine.update_document(copy_of(doc), Some(change)),
            },
        };
        proof {
            assert(self.finds_document(old(doc).id, found) && self.updates(
                found,
                *old(doc),
                *doc,
                done,
            ));
        }
        done
    }

    pub fn delete_document(&self, id: &Uuid) -> (done: Result<(), EngineError>)
        ensures
            call_ensures(E::delete_document, (&self.backend(), id), done),
    {
        self.engine.delete_document(id)
    }

    pub fn get_projects(&self, params: Option<QueryRequest<ProjectFields>>) -> (page: Result<
        QueryResponse<Project>,
        EngineError,
    >)
        ensures
            call_ensures(E::get_projects, (&self.backend(), params), page),
    {
        self.engine.get_projects(params)
    }

    pub fn get_project(&self, id: &Uuid) -> (found: Result<Project, EngineError>)
        ensures
            call_ensures(E::get_project, (&self.backend(), id), found),
    {
        self.engine.get_project(id)
    }

    pub fn store_project(&self, doc: Project) -> (done: Result<(), EngineError>)
        ensures
            call_ensures(E::store_project, (&self.backend(), doc), done),
    {
        self.engine.store_project(doc)
    }

    pub fn update_project(&self, doc: Project) -> (done: Result<(), EngineError>)
        ensures
            call_ensures(E::update_project, (&self.backend(), doc), done),
    {
        self.engine.update_project(doc)
    }

    pub fn delete_project(&self, id: &Uuid) -> (done: Result<(), EngineError>)
        ensures
            call_ensures(E::delete_project, (&self.backend(), id), done),
    {
        self.engine.delete_project(id)
    }

    pub fn get_project_documents(&self, project_id: &Uuid, variant: DocType) -> (found: Result<
        Vec<RawDocument>,
        EngineError,
    >)
        ensures
            call_ensures(E::get_project_documents, (&self.backend(), project_id, variant), found),
    {
        self.engine.get_project_documents(project_id, variant)
    }
}

} // verus!
