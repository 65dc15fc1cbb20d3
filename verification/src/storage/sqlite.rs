//! The relational form of documents, projects and changes, and the text of
//! the queries that list projects. Bodies and patches are stored as JSON
//! text.

use crate::doc::change::Change;
use crate::doc::common::DateTime;
use crate::doc::document::{Document, RawDocument};
use crate::doc::project::{Project, ProjectFields};
use crate::json::{json_read, json_written, read_json, write_json};
use crate::storage::engine::{EngineError, QueryRequest, QueryResponse, QueryResponseMeta};
use crate::util::text::{decimal, decimal_text};
use uuid::Uuid;
use vstd::prelude::*;
use vstd::string::StringExecFns;

verus! {

/// A row of the table of documents.
#[derive(Clone, Debug, PartialEq)]
pub struct DbDocument {
    pub id: Uuid,
    pub project_id: Uuid,
    pub owner_id: Uuid,
    pub name: String,
    pub doctype: String,
    pub version: i32,
    pub body: String,
    pub created_at: DateTime,
    pub updated_at: DateTime,
}

/// A row of the table of projects.
#[derive(Clone, Debug, PartialEq)]
pub struct DbProject {
    pub id: Uuid,
    pub owner_id: Uuid,
    pub name: String,
    pub version: i32,
    pub body: String,
    pub created_at: DateTime,
    pub updated_at: DateTime,
}

/// A row of the table of changes.
#[derive(Clone, Debug, PartialEq)]
pub struct DbChange {
    pub id: i32,
    pub version: i32,
    pub forward: String,
    pub reverse: String,
    pub document_id: Uuid,
}

impl DbDocument {
    /// Whether the row and the document agree in everything but the body.
    pub open spec fn same_envelope(self, doc: RawDocument) -> bool {
        &&& self.id == doc.id
        &&& self.project_id == doc.project_id
        &&& self.owner_id == doc.owner_id
        &&& self.name == doc.name
        &&& self.doctype == doc.doctype
        &&& self.version == doc.version
        &&& self.created_at == doc.created_at
        &&& self.updated_at == doc.updated_at
    }

    /// The row of a document: the same envelope, the body written as text.
    pub fn from_raw(doc: RawDocument) -> (row: DbDocument)
        ensures
            row.same_envelope(doc),
            row.body@ == json_written(doc.body),
    {
        let body = write_json(&doc.body);
        DbDocument {
            id: doc.id,
            project_id: doc.project_id,
            owner_id: doc.owner_id,
            name: doc.name,
            doctype: doc.doctype,
            version: doc.version,
            body,
            created_at: doc.created_at,
            updated_at: doc.updated_at,
        }
    }

    /// The document of a row, where the text of the body is JSON. Where it is
    /// not, the row is reported as a failure of the storage.
    pub fn into_raw(self) -> (read: Result<RawDocument, EngineError>)
        ensures
            match read {
                Ok(doc) => self.same_envelope(doc) && json_read(self.body@) == Some(doc.body),
                Err(e) => json_read(self.body@) is None && e is Storage && e->Storage_0@
                    == "Body to be deserializable"@,
            },
    {
        match read_json(self.body.as_str()) {
            Ok(body) => Ok(
                Document {
                    id: self.id,
                    project_id: self.project_id,
                    owner_id: self.owner_id,
                    name: self.name,
                    doctype: self.doctype,
                    version: self.version,
                    body,
                    created_at: self.created_at,
                    updated_at: self.updated_at,
                },
            ),
            Err(_) => Err(EngineError::Storage(String::from_str("Body to be deserializable"))),
        }
    }
}

impl DbProject {
    /// The project of a row: field by field the same.
    pub fn into_project(self) -> (project: Project)
        ensures
            project == (Project {
                id: self.id,
                owner_id: self.owner_id,
                name: self.name,
                version: self.version,
                body: self.body,
                created_at: self.created_at,
                updated_at: self.updated_at,
            }),
    {
        Project {
            id: self.id,
            owner_id: self.owner_id,
            name: self.name,
            version: self.version,
            body: self.body,
            created_at: self.created_at,
            updated_at: self.updated_at,
        }
    }
}

impl DbChange {
    /// The row of a change record: the patches written as text.
    pub fn from_change(change: Change) -> (row: DbChange)
        ensures
            row.id == change.id,
            row.version == change.version,
            row.document_id == change.document_id,
            row.forward@ == json_written(change.forward),
            row.reverse@ == json_written(change.reverse),
    {
        DbChange {
            id: change.id,
            version: change.version,
            forward: write_json(&change.forward),
            reverse: write_json(&change.reverse),
            document_id: change.document_id,
        }
    }
}

/// The size of a page where the request names none.
pub const DEFAULT_LIMIT: i32 = 100;

/// How many projects a request asks for at most; 0 stands for all of them.
pub open spec fn page_limit(params: Option<QueryRequest<ProjectFields>>) -> i32 {
    match params {
        Some(QueryRequest { page: Some(page), .. }) => match page.limit {
            Some(limit) => limit,
            None => DEFAULT_LIMIT,
        },
        _ => DEFAULT_LIMIT,
    }
}

/// How many projects a request skips.
pub open spec fn page_offset(params: Option<QueryRequest<ProjectFields>>) -> i32 {
    match params {
        Some(QueryRequest { page: Some(page), .. }) => match page.offset {
            Some(offset) => offset,
            None => 0,
        },
        _ => 0,
    }
}

/// The query that lists one page of projects.
pub open spec fn projects_query_text(limit: i32, offset: i32) -> Seq<char> {
    "SELECT * FROM projects"@ + (if limit != 0 {
        " LIMIT "@ + decimal(limit as int) + " "@
    } else {
        Seq::empty()
    }) + " OFFSET "@ + decimal(offset as int) + " "@
}

/// The limit and the offset of the page that a request asks for: 100 and 0
/// where the request does not say.
pub fn page_bounds(params: &Option<QueryRequest<ProjectFields>>) -> (bounds: (i32, i32))
    ensures
        bounds.0 == page_limit(*params),
        bounds.1 == page_offset(*params),
{
    let mut limit: i32 = DEFAULT_LIMIT;
    let mut offset: i32 = 0;
    match params {
        Some(params) => match &params.page {
            Some(page) => {
                match page.limit {
                    Some(l) => {
                        limit = l;
                    },
                    None => {},
                }
                match page.offset {
                    Some(o) => {
                        offset = o;
                    },
                    None => {},
                }
            },
            None => {},
        },
        None => {},
    }
    (limit, offset)
}

/// Writes the query that lists the page of projects that a request asks
/// for. A limit of 0 leaves the page open-ended.
pub fn projects_query(params: &Option<QueryRequest<ProjectFields>>) -> (query: String)
    ensures
        query@ == projects_query_text(page_limit(*params), page_offset(*params)),
{
    let (limit, offset) = page_bounds(params);
    let mut query = String::from_str("SELECT * FROM projects");
    if limit != 0 {
        query.append(" LIMIT ");
        query.append(decimal_text(limit).as_str());
        query.append(" ");
    }
    query.append(" OFFSET ");
    query.append(decimal_text(offset).as_str());
    query.append(" ");
    proof {
        assert(query@ =~= projects_query_text(limit, offset));
    }
    query
}

/// The answer to a request for a page of projects: the projects found, the
/// offset of the page and the number of all projects.
pub fn projects_page(
    params: &Option<QueryRequest<ProjectFields>>,
    data: Vec<Project>,
    total: i32,
) -> (page: QueryResponse<Project>)
    ensures
        page.data == data,
        page.meta == (QueryResponseMeta {
            offset: Some(page_offset(*params)),
            total: Some(total),
        }),
{
    let (_, offset) = page_bounds(params);
    QueryResponse { data, meta: QueryResponseMeta { offset: Some(offset), total: Some(total) } }
}

/// `sqlx::Error`, carried as it is.
#[verifier::external_type_specification]
#[verifier::external_body]
pub struct ExSqlxError(sqlx::Error);

/// Whether an error of the database says that a query found no row.
pub uninterp spec fn row_not_found(err: sqlx::Error) -> bool;

/// The text that an error of the database displays.
pub uninterp spec fn sqlx_error_text(err: sqlx::Error) -> Seq<char>;

/// Tells `sqlx::Error::RowNotFound` from the other errors of the database.
#[verifier::external_body]
fn is_row_not_found(err: &sqlx::Error) -> (missing: bool)
    ensures
        missing == row_not_found(*err),
{
    match err {
        sqlx::Error::RowNotFound => true,
        _ => false,
    }
}

/// `to_string` on an error of the database: the text that it displays.
#[verifier::external_body]
fn describe_error(err: &sqlx::Error) -> (text: String)
    ensures
        text@ == sqlx_error_text(*err),
{
    err.to_string()
}

/// The error of the storage interface for an error of the database: a query
/// that found no row is reported as not found, everything else as a failure
/// of the storage under the text of the error.
pub fn engine_error(err: sqlx::Error) -> (e: EngineError)
    ensures
        row_not_found(err) ==> e == EngineError::NotFound,
        !row_not_found(err) ==> e is Storage && e->Storage_0@ == sqlx_error_text(err),
{
    if is_row_not_found(&err) {
        EngineError::NotFound
    } else {
        EngineError::Storage(describe_error(&err))
    }
}

} // verus!
