use conduit::doc::common::DateTime;
use conduit::doc::document::{DigraphDocument, DocType, RawDocument};
use conduit::doc::project::{Project, ProjectFields};
use conduit::model::digraph::{Digraph, Link, Node};
use conduit::model::labels::Labels;
use conduit::util::naming::empty_uuid;

#[test]
fn test_new_digraph_document() {
    let mut dg = DigraphDocument::default();
    let _ = dg.body.add_node(None);
    assert_eq!(dg.body.nodes.len(), 1);
}

#[test]
fn test_serialization() {
    let mut dg = Digraph::new();
    let _ = dg.add_node(None);
    let _ = dg.add_node(None);
    let _ = dg.add_link(1, 2, None);
    assert_eq!(dg.links.len(), 1);

    let text = serde_json::to_string(&dg.to_json()).unwrap();
    let value: serde_json::Value = serde_json::from_str(&text).unwrap();
    assert_eq!(dg, Digraph::from_json(&value).unwrap());
}

#[test]
fn test_json_shape_of_a_graph() {
    let mut dg = Digraph::new();
    let _ = dg.add_node(None);
    let _ = dg.add_node(None);
    let _ = dg.add_link(1, 2, None);
    let text = serde_json::to_string(&dg.to_json()).unwrap();
    assert_eq!(
        text,
        "{\"labels\":{},\"links\":[{\"id\":3,\"labels\":{},\"name\":\"\",\"source\":1,\"target\":2}],\"name\":\"\",\"nodes\":[{\"id\":1,\"labels\":{},\"name\":\"\"},{\"id\":2,\"labels\":{},\"name\":\"\"}]}"
    );
}

#[test]
fn test_json_round_trip_with_labels() {
    let mut labels = Labels::new();
    labels.insert("colour".to_string(), "red".to_string());
    labels.insert("shape".to_string(), "round".to_string());
    let mut other = Labels::new();
    other.insert("weight".to_string(), "3".to_string());
    let dg = Digraph {
        name: "g".to_string(),
        nodes: vec![
            Node { id: 7, name: "a".to_string(), labels: labels.clone() },
            Node { id: -2, name: "b".to_string(), labels: Labels::new() },
        ],
        links: vec![Link {
            id: 9,
            name: "l".to_string(),
            source: 7,
            target: -2,
            labels: other,
        }],
        labels,
    };
    let value = dg.to_json();
    assert_eq!(Digraph::from_json(&value), Some(dg));
}

#[test]
fn test_json_that_holds_no_graph() {
    let missing: serde_json::Value =
        serde_json::from_str("{\"name\":\"\",\"nodes\":[],\"labels\":{}}").unwrap();
    assert_eq!(Digraph::from_json(&missing), None);
    let wrong_kind: serde_json::Value =
        serde_json::from_str("{\"name\":1,\"nodes\":[],\"links\":[],\"labels\":{}}").unwrap();
    assert_eq!(Digraph::from_json(&wrong_kind), None);
    let too_large: serde_json::Value = serde_json::from_str(
        "{\"name\":\"\",\"nodes\":[{\"id\":2147483648,\"name\":\"\",\"labels\":{}}],\"links\":[],\"labels\":{}}",
    )
    .unwrap();
    assert_eq!(Digraph::from_json(&too_large), None);
    let fraction: serde_json::Value = serde_json::from_str(
        "{\"name\":\"\",\"nodes\":[{\"id\":1.5,\"name\":\"\",\"labels\":{}}],\"links\":[],\"labels\":{}}",
    )
    .unwrap();
    assert_eq!(Digraph::from_json(&fraction), None);
    let label_not_text: serde_json::Value =
        serde_json::from_str("{\"name\":\"\",\"nodes\":[],\"links\":[],\"labels\":{\"a\":1}}")
            .unwrap();
    assert_eq!(Digraph::from_json(&label_not_text), None);
    assert_eq!(Digraph::from_json(&serde_json::Value::Null), None);
}

#[test]
fn test_json_passes_over_other_members() {
    let value: serde_json::Value = serde_json::from_str(
        "{\"name\":\"n\",\"nodes\":[],\"links\":[],\"labels\":{\"k\":\"v\"},\"extra\":true}",
    )
    .unwrap();
    let dg = Digraph::from_json(&value).unwrap();
    assert_eq!(dg.name, "n");
    assert_eq!(dg.labels.get(&"k".to_string()), Some(&"v".to_string()));
    assert_eq!(dg.labels.len(), 1);
}

#[test]
fn test_default_document() {
    let doc = DigraphDocument::default();
    assert_eq!(doc.name, "New");
    assert_eq!(doc.doctype, "digraph");
    assert_eq!(doc.version, 0);
    assert_eq!(doc.project_id, empty_uuid());
    assert_eq!(doc.owner_id, empty_uuid());
    assert_eq!(doc.body, Digraph::new());
    assert_eq!(empty_uuid().as_u128(), 0);
}

#[test]
fn test_create_document_in_project() {
    let owner = uuid::Uuid::from_u128(77);
    let project = Project::new(owner);
    assert_eq!(project.name, "New Project");
    assert_eq!(project.version, 0);
    assert_eq!(project.body, "");
    assert_eq!(project.owner_id, owner);
    let doc = DigraphDocument::create(&project);
    assert_eq!(doc.project_id, project.id);
    assert_eq!(doc.owner_id, owner);
    assert_eq!(doc.version, 0);
    assert!(doc.body.nodes.is_empty());
    assert!(doc.body.links.is_empty());
    let other = DigraphDocument::create(&project);
    assert_ne!(doc.id, other.id);
}

#[test]
fn test_document_to_raw_and_back() {
    let project = Project::new(empty_uuid());
    let mut doc = DigraphDocument::create(&project);
    let _ = doc.body.add_node(None);
    let _ = doc.body.add_node(None);
    let _ = doc.body.add_link(2, 1, None);
    let raw: RawDocument = doc.clone().into_raw();
    assert_eq!(raw.id, doc.id);
    assert_eq!(raw.project_id, doc.project_id);
    assert_eq!(raw.owner_id, doc.owner_id);
    assert_eq!(raw.name, doc.name);
    assert_eq!(raw.doctype, doc.doctype);
    assert_eq!(raw.version, doc.version);
    let back = DigraphDocument::from_raw(raw).unwrap();
    assert_eq!(back, doc);
}

#[test]
fn test_raw_document_without_a_graph() {
    let project = Project::new(empty_uuid());
    let mut raw = DigraphDocument::create(&project).into_raw();
    raw.body = serde_json::Value::from(3);
    assert_eq!(DigraphDocument::from_raw(raw), None);
}

#[test]
fn test_change_counts_one_version() {
    let mut doc = DigraphDocument::default();
    assert_eq!(doc.change(), 1);
    assert_eq!(doc.version, 1);
    assert_eq!(doc.change(), 2);
    assert_eq!(doc.version, 2);
}

#[test]
fn test_doctype_and_default_field() {
    assert_eq!(DocType::Digraph.to_string(), "digraph");
    assert_eq!(ProjectFields::default(), ProjectFields::Id);
}

#[test]
fn test_now_is_a_time_of_day() {
    let first = DateTime::now();
    let second = DateTime::now();
    assert!(first.nanos < 2_000_000_000);
    assert!(first.secs > 1_600_000_000);
    assert!((second.secs, second.nanos) >= (first.secs, first.nanos));
}
