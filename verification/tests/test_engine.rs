use std::sync::{Arc, Mutex};

use conduit::doc::change::Change;
use conduit::doc::document::{DigraphDocument, DocType, RawDocument};
use conduit::doc::project::{Project, ProjectFields};
use conduit::model::digraph::{DigraphMessage, NodeAttributes};
use conduit::storage::engine::{
    plan_update, Direction, Engine, EngineContainer, EngineError, Pagination, QueryRequest,
    QueryResponse, QueryResponseMeta,
};
use conduit::storage::sqlite::{
    engine_error, page_bounds, projects_page, projects_query, DbChange, DbDocument, DbProject,
};
use conduit::util::naming::empty_uuid;
use uuid::Uuid;

struct Shelf {
    documents: Mutex<Vec<RawDocument>>,
    projects: Mutex<Vec<Project>>,
    changes: Mutex<Vec<Change>>,
}

#[derive(Clone)]
struct Memory(Arc<Shelf>);

fn memory() -> Memory {
    Memory(Arc::new(Shelf {
        documents: Mutex::new(Vec::new()),
        projects: Mutex::new(Vec::new()),
        changes: Mutex::new(Vec::new()),
    }))
}

impl Engine for Memory {
    fn get_document(&self, id: &Uuid) -> Result<RawDocument, EngineError> {
        let found = self.0.documents.lock().unwrap().iter().find(|d| d.id == *id).cloned();
        found.ok_or(EngineError::NotFound)
    }

    fn store_document(&self, doc: RawDocument) -> Result<(), EngineError> {
        self.0.documents.lock().unwrap().push(doc);
        Ok(())
    }

    fn update_document(&self, doc: RawDocument, change: Option<Change>) -> Result<(), EngineError> {
        let mut documents = self.0.documents.lock().unwrap();
        match documents.iter_mut().find(|d| d.id == doc.id) {
            Some(stored) => {
                stored.name = doc.name;
                stored.version = doc.version;
                stored.body = doc.body;
            }
            None => return Err(EngineError::NotFound),
        }
        if let Some(change) = change {
            self.0.changes.lock().unwrap().push(change);
        }
        Ok(())
    }

    fn delete_document(&self, id: &Uuid) -> Result<(), EngineError> {
        self.0.documents.lock().unwrap().retain(|d| d.id != *id);
        Ok(())
    }

    fn get_projects(
        &self,
        params: Option<QueryRequest<ProjectFields>>,
    ) -> Result<QueryResponse<Project>, EngineError> {
        let (limit, offset) = page_bounds(&params);
        let all = self.0.projects.lock().unwrap();
        let mut data: Vec<Project> = all.iter().skip(offset as usize).cloned().collect();
        if limit != 0 {
            data.truncate(limit as usize);
        }
        Ok(projects_page(&params, data, all.len() as i32))
    }

    fn get_project(&self, id: &Uuid) -> Result<Project, EngineError> {
        let found = self.0.projects.lock().unwrap().iter().find(|p| p.id == *id).cloned();
        found.ok_or(EngineError::NotFound)
    }

    fn store_project(&self, doc: Project) -> Result<(), EngineError> {
        self.0.projects.lock().unwrap().push(doc);
        Ok(())
    }

    fn update_project(&self, doc: Project) -> Result<(), EngineError> {
        let mut projects = self.0.projects.lock().unwrap();
        match projects.iter_mut().find(|p| p.id == doc.id) {
            Some(stored) => {
                *stored = doc;
                Ok(())
            }
            None => Err(EngineError::NotFound),
        }
    }

    fn delete_project(&self, id: &Uuid) -> Result<(), EngineError> {
        self.0.projects.lock().unwrap().retain(|p| p.id != *id);
        self.0.documents.lock().unwrap().retain(|d| d.project_id != *id);
        Ok(())
    }

    fn get_project_documents(
        &self,
        project_id: &Uuid,
        variant: DocType,
    ) -> Result<Vec<RawDocument>, EngineError> {
        let doctype = variant.to_string();
        Ok(self
            .0
            .documents
            .lock().unwrap()
            .iter()
            .filter(|d| d.project_id == *project_id && d.doctype == doctype)
            .cloned()
            .collect())
    }
}

fn parse(text: &str) -> serde_json::Value {
    serde_json::from_str(text).unwrap()
}

fn apply(doc: &serde_json::Value, patch: &serde_json::Value) -> serde_json::Value {
    let patch: json_patch::Patch = serde_json::from_value(patch.clone()).unwrap();
    let mut doc = doc.clone();
    json_patch::patch(&mut doc, &patch).unwrap();
    doc
}

#[test]
fn test_update_scenario() {
    let store = memory();
    let engine = EngineContainer::new(store.clone());
    let project = Project::new(empty_uuid());
    engine.store_project(project.clone()).unwrap();
    let mut doc = DigraphDocument::create(&project);
    assert_eq!(doc.version, 0);
    assert!(doc.body.nodes.is_empty() && doc.body.links.is_empty());
    engine.store_document(doc.clone().into_raw()).unwrap();

    doc.body.message(DigraphMessage::AddNode(NodeAttributes::default())).unwrap();
    assert_eq!(doc.version, 0);
    assert_eq!(doc.body.nodes[0].id, 1);

    let mut first = doc.clone().into_raw();
    assert_eq!(engine.update_document(&mut first), Ok(()));
    assert_eq!(first.version, 1);
    let stored = DigraphDocument::from_raw(engine.get_document(&doc.id).unwrap()).unwrap();
    assert_eq!(stored.version, 1);
    assert_eq!(stored.body.nodes.len(), 1);
    assert_eq!(stored.body.nodes[0].id, 1);

    let mut second = doc.clone().into_raw();
    assert_eq!(second.version, 0);
    let before = engine.get_document(&doc.id).unwrap();
    assert_eq!(engine.update_document(&mut second), Err(EngineError::VersionMismatch(0, 1)));
    assert_eq!(second.version, 0);
    assert_eq!(engine.get_document(&doc.id).unwrap(), before);
    assert_eq!(store.0.changes.lock().unwrap().len(), 1);
}

#[test]
fn test_accepted_update_records_one_change() {
    let store = memory();
    let engine = EngineContainer::new(store.clone());
    let project = Project::new(empty_uuid());
    let mut doc = DigraphDocument::create(&project);
    engine.store_document(doc.clone().into_raw()).unwrap();
    let pre = doc.body.to_json();
    doc.body.add_node(None).unwrap();
    doc.body.add_node(None).unwrap();
    doc.body.add_link(1, 2, None).unwrap();
    let post = doc.body.to_json();

    let mut raw = doc.clone().into_raw();
    assert_eq!(engine.update_document(&mut raw), Ok(()));
    assert_eq!(raw.version, 1);
    let changes = store.0.changes.lock().unwrap();
    assert_eq!(changes.len(), 1);
    let change = &changes[0];
    assert_eq!(change.id, 0);
    assert_eq!(change.document_id, doc.id);
    assert_eq!(change.version, 1);
    assert_eq!(apply(&pre, &change.forward), post);
    assert_eq!(apply(&post, &change.reverse), pre);
}

#[test]
fn test_update_of_a_missing_document() {
    let engine = EngineContainer::new(memory());
    let mut raw = DigraphDocument::default().into_raw();
    assert_eq!(engine.update_document(&mut raw), Err(EngineError::NotFound));
    assert_eq!(raw.version, 0);
}

#[test]
fn test_plan_update() {
    let stored = DigraphDocument::default().into_raw();
    let mut doc = stored.clone();
    doc.body = parse("{\"a\":1,\"b\":[1,2]}");
    let mut stored_at = stored.clone();
    stored_at.body = parse("{\"a\":2,\"b\":[1]}");
    let change = plan_update(&stored_at, &mut doc).unwrap();
    assert_eq!(doc.version, 1);
    assert_eq!(change.version, 1);
    assert_eq!(change.id, 0);
    assert_eq!(change.document_id, doc.id);
    assert_eq!(
        change.forward,
        parse("[{\"op\":\"replace\",\"path\":\"/a\",\"value\":1},{\"op\":\"add\",\"path\":\"/b/1\",\"value\":2}]")
    );
    assert_eq!(
        change.reverse,
        parse("[{\"op\":\"replace\",\"path\":\"/a\",\"value\":2},{\"op\":\"remove\",\"path\":\"/b/1\"}]")
    );

    let mut late = stored.clone();
    late.version = 4;
    let mut current = stored.clone();
    current.version = 6;
    let kept = late.clone();
    assert_eq!(plan_update(&current, &mut late), Err(EngineError::VersionMismatch(4, 6)));
    assert_eq!(late, kept);
}

#[test]
fn test_container_hands_through() {
    let engine = EngineContainer::new(memory());
    let project = Project::new(empty_uuid());
    engine.store_project(project.clone()).unwrap();
    assert_eq!(engine.get_project(&project.id), Ok(project.clone()));
    let mut renamed = project.clone();
    renamed.name = "Renamed".to_string();
    engine.update_project(renamed.clone()).unwrap();
    assert_eq!(engine.get_project(&project.id).unwrap().name, "Renamed");

    let one = DigraphDocument::create(&project);
    let two = DigraphDocument::create(&project);
    engine.store_document(one.clone().into_raw()).unwrap();
    engine.store_document(two.clone().into_raw()).unwrap();
    let listed = engine.get_project_documents(&project.id, DocType::Digraph).unwrap();
    assert_eq!(listed.len(), 2);
    engine.delete_document(&one.id).unwrap();
    assert_eq!(engine.get_document(&one.id), Err(EngineError::NotFound));

    engine.delete_project(&project.id).unwrap();
    assert_eq!(engine.get_project(&project.id), Err(EngineError::NotFound));
    assert_eq!(engine.get_document(&two.id), Err(EngineError::NotFound));
}

#[test]
fn test_pages_of_projects() {
    let engine = EngineContainer::new(memory());
    for _ in 0..3 {
        engine.store_project(Project::new(empty_uuid())).unwrap();
    }
    let all = engine.get_projects(None).unwrap();
    assert_eq!(all.data.len(), 3);
    assert_eq!(all.meta, QueryResponseMeta { offset: Some(0), total: Some(3) });
    let page = engine
        .get_projects(Some(QueryRequest {
            page: Some(Pagination { limit: Some(1), offset: Some(1) }),
            sort: Some(vec![(ProjectFields::Name, Direction::Asc)]),
        }))
        .unwrap();
    assert_eq!(page.data.len(), 1);
    assert_eq!(page.meta, QueryResponseMeta { offset: Some(1), total: Some(3) });
}

#[test]
fn test_page_bounds_and_query_text() {
    assert_eq!(page_bounds(&None), (100, 0));
    let no_page = Some(QueryRequest { page: None, sort: None });
    assert_eq!(page_bounds(&no_page), (100, 0));
    let only_limit =
        Some(QueryRequest { page: Some(Pagination { limit: Some(5), offset: None }), sort: None });
    assert_eq!(page_bounds(&only_limit), (5, 0));
    let only_offset =
        Some(QueryRequest { page: Some(Pagination { limit: None, offset: Some(7) }), sort: None });
    assert_eq!(page_bounds(&only_offset), (100, 7));
    let open =
        Some(QueryRequest { page: Some(Pagination { limit: Some(0), offset: Some(2) }), sort: None });
    assert_eq!(projects_query(&None), "SELECT * FROM projects LIMIT 100  OFFSET 0 ");
    assert_eq!(projects_query(&only_limit), "SELECT * FROM projects LIMIT 5  OFFSET 0 ");
    assert_eq!(projects_query(&open), "SELECT * FROM projects OFFSET 2 ");
}

#[test]
fn test_rows() {
    let mut doc = DigraphDocument::default();
    doc.body.add_node(None).unwrap();
    let raw = doc.clone().into_raw();
    let row = DbDocument::from_raw(raw.clone());
    assert_eq!(row.id, raw.id);
    assert_eq!(row.version, 0);
    assert_eq!(
        row.body,
        "{\"labels\":{},\"links\":[],\"name\":\"\",\"nodes\":[{\"id\":1,\"labels\":{},\"name\":\"\"}]}"
    );
    assert_eq!(row.clone().into_raw(), Ok(raw.clone()));
    let mut broken = row.clone();
    broken.body = "{".to_string();
    assert_eq!(
        broken.into_raw(),
        Err(EngineError::Storage("Body to be deserializable".to_string()))
    );

    let project = Project::new(empty_uuid());
    let project_row = DbProject {
        id: project.id,
        owner_id: project.owner_id,
        name: project.name.clone(),
        version: project.version,
        body: project.body.clone(),
        created_at: project.created_at,
        updated_at: project.updated_at,
    };
    assert_eq!(project_row.into_project(), project);

    let change = Change {
        id: 3,
        document_id: raw.id,
        version: 2,
        forward: parse("[{\"op\":\"remove\",\"path\":\"/a\"}]"),
        reverse: parse("[]"),
    };
    let change_row = DbChange::from_change(change);
    assert_eq!((change_row.id, change_row.version, change_row.document_id), (3, 2, raw.id));
    assert_eq!(change_row.forward, "[{\"op\":\"remove\",\"path\":\"/a\"}]");
    assert_eq!(change_row.reverse, "[]");
}

#[test]
fn test_engine_error_texts() {
    assert_eq!(EngineError::NotFound.to_string(), "Not Found");
    assert_eq!(EngineError::Storage("disk".to_string()).to_string(), "Error : disk");
    assert_eq!(
        EngineError::VersionMismatch(0, 1).to_string(),
        "Document version mismatch : 0, 1"
    );
    assert_eq!(engine_error(sqlx::Error::RowNotFound), EngineError::NotFound);
    assert_eq!(
        engine_error(sqlx::Error::PoolClosed),
        EngineError::Storage(sqlx::Error::PoolClosed.to_string())
    );
}
