//! Projects: the owners of documents.

use crate::doc::common::DateTime;
use crate::util::naming::random_uuid;
use uuid::Uuid;
use vstd::prelude::*;
use vstd::string::StringExecFns;

verus! {

/// A project. Its documents refer to it by `id`.
#[derive(Clone, Debug, PartialEq)]
pub struct Project {
    pub id: Uuid,
    pub owner_id: Uuid,
    pub version: i32,
    pub name: String,
    pub body: String,
    pub created_at: DateTime,
    pub updated_at: DateTime,
}

/// The columns by which a listing of projects can be sorted.
#[derive(Debug, PartialEq, Eq, Structural)]
pub enum ProjectFields {
    Id,
    Name,
    CreatedAt,
    UpdatedAt,
    Version,
}

impl Default for ProjectFields {
    fn default() -> (field: ProjectFields)
        ensures
            field == ProjectFields::Id,
    {
        ProjectFields::Id
    }
}

impl Project {
    /// A new project of the given owner: version 0, the name "New Project",
    /// an empty body, a fresh identifier and the time of the call.
    pub fn new(owner_id: Uuid) -> (project: Project)
        ensures
            project.owner_id == owner_id,
            project.version == 0,
            project.name@ == "New Project"@,
            project.body@ == Seq::<char>::empty(),
            project.created_at.wf(),
            project.updated_at.wf(),
    {
        Project {
            id: random_uuid(),
            owner_id,
            name: String::from_str("New Project"),
            version: 0,
            body: String::new(),
            created_at: DateTime::now(),
            updated_at: DateTime::now(),
        }
    }
}

} // verus!
