use conduit::model::digraph::{
    Digraph, DigraphError, DigraphMessage, Link, LinkAttributes, Node, NodeAttributes,
};
use conduit::model::erd::{DomainError, ERD};
use conduit::model::labels::Labels;
use conduit::util::text::decimal_text;

fn labels_of(pairs: &[(&str, &str)]) -> Labels {
    let mut labels = Labels::new();
    for (k, v) in pairs {
        labels.insert(k.to_string(), v.to_string());
    }
    labels
}

#[test]
fn test_labels_insert_and_get() {
    let mut labels = Labels::new();
    assert_eq!(labels.len(), 0);
    labels.insert("a".to_string(), "1".to_string());
    labels.insert("b".to_string(), "2".to_string());
    labels.insert("a".to_string(), "3".to_string());
    assert_eq!(labels.len(), 2);
    assert_eq!(labels.get(&"a".to_string()), Some(&"3".to_string()));
    assert_eq!(labels.get(&"b".to_string()), Some(&"2".to_string()));
    assert_eq!(labels.get(&"c".to_string()), None);
    let (k, v) = labels.entry(0);
    assert_eq!((k.as_str(), v.as_str()), ("a", "3"));
}

#[test]
fn test_labels_equal_whatever_the_order() {
    let one = labels_of(&[("a", "1"), ("b", "2")]);
    let two = labels_of(&[("b", "2"), ("a", "1")]);
    assert_eq!(one, two);
    assert_ne!(one, labels_of(&[("a", "1")]));
    assert_ne!(one, labels_of(&[("a", "1"), ("b", "3")]));
    assert_ne!(labels_of(&[("a", "1")]), one);
    assert_eq!(one.clone(), one);
    assert_eq!(Labels::default(), Labels::new());
}

#[test]
fn test_labels_merge_prefers_the_other() {
    let mut mine = labels_of(&[("a", "1"), ("b", "2")]);
    mine.merge(&labels_of(&[("b", "20"), ("c", "30")]));
    assert_eq!(mine, labels_of(&[("a", "1"), ("b", "20"), ("c", "30")]));
}

#[test]
fn test_node_update_is_partial() {
    let mut node = Node { id: 4, name: "old".to_string(), labels: labels_of(&[("a", "1")]) };
    node.update(NodeAttributes { name: None, labels: Some(labels_of(&[("b", "2")])) });
    assert_eq!(node.name, "old");
    assert_eq!(node.labels, labels_of(&[("a", "1"), ("b", "2")]));
    node.update(NodeAttributes { name: Some("new".to_string()), labels: None });
    assert_eq!(node.name, "new");
    assert_eq!(node.id, 4);
    assert_eq!(node.labels, labels_of(&[("a", "1"), ("b", "2")]));
}

#[test]
fn test_link_update_is_partial() {
    let mut link = Link {
        id: 5,
        name: "l".to_string(),
        source: 1,
        target: 2,
        labels: labels_of(&[("a", "1")]),
    };
    link.update(LinkAttributes {
        name: None,
        source: Some(3),
        target: None,
        labels: Some(labels_of(&[("a", "9")])),
    });
    assert_eq!((link.id, link.source, link.target), (5, 3, 2));
    assert_eq!(link.name, "l");
    assert_eq!(link.labels, labels_of(&[("a", "9")]));
    link.update(LinkAttributes {
        name: Some("m".to_string()),
        source: None,
        target: Some(8),
        labels: None,
    });
    assert_eq!((link.source, link.target), (3, 8));
    assert_eq!(link.name, "m");
}

#[test]
fn test_add_node_takes_name_and_labels() {
    let mut dg = Digraph::new();
    dg.add_node(Some(NodeAttributes {
        name: Some("n".to_string()),
        labels: Some(labels_of(&[("k", "v")])),
    }))
    .unwrap();
    dg.add_node(Some(NodeAttributes { name: None, labels: None })).unwrap();
    assert_eq!(dg.nodes[0].name, "n");
    assert_eq!(dg.nodes[0].labels, labels_of(&[("k", "v")]));
    assert_eq!(dg.nodes[1].name, "");
    assert_eq!(dg.nodes[1].labels, Labels::new());
    let fresh = NodeAttributes::default();
    assert_eq!(fresh.name, Some("".to_string()));
    assert_eq!(fresh.labels, Some(Labels::new()));
}

#[test]
fn test_ids_are_shared_by_nodes_and_links() {
    let mut dg = Digraph::new();
    dg.add_node(None).unwrap();
    dg.add_node(None).unwrap();
    dg.add_link(1, 2, Some(labels_of(&[("w", "1")]))).unwrap();
    dg.add_node(None).unwrap();
    dg.add_link(2, 4, None).unwrap();
    assert_eq!(dg.links[0].id, 3);
    assert_eq!(dg.links[0].name, "");
    assert_eq!(dg.links[0].labels, labels_of(&[("w", "1")]));
    assert_eq!(dg.nodes[2].id, 4);
    assert_eq!(dg.links[1].id, 5);
    assert_eq!((dg.links[1].source, dg.links[1].target), (2, 4));
    assert!(dg.has_spare_id());
}

#[test]
fn test_add_link_looks_at_the_source_first() {
    let mut dg = Digraph::new();
    dg.add_node(None).unwrap();
    let before = dg.clone();
    assert_eq!(dg.add_link(8, 9, None), Err(DigraphError::IdDoesNotExist(8)));
    assert_eq!(dg.add_link(1, 9, None), Err(DigraphError::IdDoesNotExist(9)));
    assert_eq!(dg.add_link(9, 1, None), Err(DigraphError::IdDoesNotExist(9)));
    assert_eq!(dg, before);
    assert_eq!(dg.add_link(1, 1, None), Ok(()));
    assert_eq!(dg.message(DigraphMessage::AddLink(5, 6)), Err(DigraphError::IdDoesNotExist(5)));
}

#[test]
fn test_remove_node_retracts_its_links() {
    let mut dg = Digraph::new();
    for _ in 0..3 {
        dg.add_node(None).unwrap();
    }
    dg.add_link(1, 2, None).unwrap();
    dg.add_link(2, 3, None).unwrap();
    dg.add_link(3, 1, None).unwrap();
    dg.add_link(3, 3, None).unwrap();
    assert_eq!(dg.remove_node(1), Ok(()));
    let left: Vec<i32> = dg.links.iter().map(|l| l.id).collect();
    assert_eq!(left, vec![5, 7]);
    assert!(dg.links.iter().all(|l| l.source != 1 && l.target != 1));
    let nodes: Vec<i32> = dg.nodes.iter().map(|n| n.id).collect();
    assert_eq!(nodes, vec![2, 3]);
}

#[test]
fn test_rejected_commands_change_nothing() {
    let mut dg = Digraph::new();
    dg.add_node(None).unwrap();
    let before = dg.clone();
    let attrs = NodeAttributes { name: Some("x".to_string()), labels: None };
    assert_eq!(dg.update_node(2, attrs), Err(DigraphError::IdDoesNotExist(2)));
    assert_eq!(dg.remove_node(2), Err(DigraphError::IdDoesNotExist(2)));
    assert_eq!(dg.remove_link(1), Err(DigraphError::IdDoesNotExist(1)));
    assert_eq!(dg, before);
}

#[test]
fn test_highest_id_of_a_full_graph() {
    let dg = Digraph {
        name: String::new(),
        nodes: vec![Node { id: i32::MAX, name: String::new(), labels: Labels::new() }],
        links: vec![],
        labels: Labels::new(),
    };
    assert!(!dg.has_spare_id());
}

#[test]
fn test_decimal_text() {
    assert_eq!(decimal_text(0), "0");
    assert_eq!(decimal_text(7), "7");
    assert_eq!(decimal_text(10), "10");
    assert_eq!(decimal_text(-1), "-1");
    assert_eq!(decimal_text(1234567890), "1234567890");
    assert_eq!(decimal_text(i32::MAX), "2147483647");
    assert_eq!(decimal_text(i32::MIN), "-2147483648");
}

#[test]
fn test_error_texts() {
    assert_eq!(DigraphError::IdDoesNotExist(12).to_string(), "id does not exist : 12");
    assert_eq!(DomainError::EntityDoesNotExist(3).to_string(), "id:3");
    assert_eq!(DomainError::AttributeDoesNotExist(3, 4).to_string(), "id:3/id:4");
    assert_eq!(DomainError::ReferenceDoesNotExist(5, -6).to_string(), "id:5/id:-6");
    assert_eq!(DomainError::EntityAlreadyExists("e".to_string()).to_string(), "e");
    assert_eq!(DomainError::AttributeAlreadyExists(1, "a".to_string()).to_string(), "id:1/a");
    assert_eq!(DomainError::ReferenceAlreadyExists(2, "r".to_string()).to_string(), "id:2/r");
    let _ = ERD::default();
}
