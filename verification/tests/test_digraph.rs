use conduit::model::digraph::{Digraph, DigraphError, DigraphMessage, NodeAttributes};

#[test]
fn test_add_node() {
    let mut dg = Digraph::new();
    let _ = dg.add_node(None);
    assert_eq!(dg.nodes.len(), 1);
}

#[test]
fn test_add_multiple_nodes() {
    let mut dg = Digraph::new();
    let _ = dg.add_node(None);
    let _ = dg.add_node(None);
    let _ = dg.add_node(None);
    assert_eq!(dg.nodes.len(), 3);
    assert_eq!(dg.nodes.get(0).unwrap().id, 1);
    assert_eq!(dg.nodes.get(2).unwrap().id, 3);
}

#[test]
fn test_add_link() {
    let mut dg = Digraph::new();
    let _ = dg.add_node(None);
    let _ = dg.add_node(None);
    let _ = dg.add_link(1, 2, None);
    assert_eq!(dg.links.len(), 1);
}

#[test]
fn test_remove_node() {
    let mut dg = Digraph::new();
    let _ = dg.add_node(None);
    assert_eq!(dg.nodes.len(), 1);

    let _ = dg.remove_node(1);
    assert_eq!(dg.nodes.len(), 0);
}

#[test]
fn test_id_generation() {
    let mut dg = Digraph::new();
    let _ = dg.add_node(None);
    let _ = dg.add_node(None);
    let _ = dg.add_node(None);

    assert_eq!(dg.nodes[0].id, 1);
    assert_eq!(dg.nodes[1].id, 2);
    assert_eq!(dg.nodes[2].id, 3);

    let _ = dg.remove_node(2);
    assert_eq!(dg.nodes.len(), 2);

    let _ = dg.add_node(None);

    assert_eq!(dg.nodes[0].id, 1);
    assert_eq!(dg.nodes[1].id, 3);
    assert_eq!(dg.nodes[2].id, 4);
}

#[test]
fn test_remove_node_that_does_not_exist() {
    let mut dg = Digraph::new();
    let res = dg.remove_node(1);
    assert_eq!(res, Err(DigraphError::IdDoesNotExist(1)));
}

#[test]
fn test_remove_link() {
    let mut dg = Digraph::new();
    let _ = dg.add_node(None);
    let _ = dg.add_node(None);
    let _ = dg.add_link(1, 2, None);
    assert_eq!(dg.links.len(), 1);
    let res = dg.remove_link(3);
    assert_eq!(res, Ok(()));
}

#[test]
fn test_remove_link_that_does_not_exist() {
    let mut dg = Digraph::new();
    let res = dg.remove_link(1);
    assert_eq!(res, Err(DigraphError::IdDoesNotExist(1)));
}

#[test]
fn test_remove_node_with_links() {
    let mut dg = Digraph::new();
    let _ = dg.add_node(None);
    let _ = dg.add_node(None);
    let _ = dg.add_link(1, 2, None);
    assert_eq!(dg.links.len(), 1);

    let _ = dg.remove_node(1);
    assert_eq!(dg.links.len(), 0);
    assert_eq!(dg.nodes.len(), 1);
}

#[test]
fn test_message_add_node() {
    let mut dg = Digraph::new();
    dg.message(DigraphMessage::AddNode(NodeAttributes::default()))
        .expect("Can send a message");
    assert_eq!(dg.nodes.len(), 1);
}

#[test]
fn test_message_update_node() {
    let mut dg = Digraph::new();
    dg.message(DigraphMessage::AddNode(NodeAttributes::default()))
        .expect("Can send a message");
    dg.message(DigraphMessage::UpdateNode(
        1,
        NodeAttributes {
            name: Some("Test 1".into()),
            labels: None,
        },
    ))
    .expect("Can send a message");
    assert_eq!(dg.nodes.len(), 1);
    assert_eq!(dg.nodes.get(0).unwrap().name, "Test 1".to_string());
}

#[test]
fn test_message_remove_node() {
    let mut dg = Digraph::new();
    dg.message(DigraphMessage::AddNode(NodeAttributes::default()))
        .expect("Can add a node via message");
    assert_eq!(dg.nodes.len(), 1);
    dg.message(DigraphMessage::RemoveNode(1))
        .expect("Can remove a node via message");
    assert_eq!(dg.nodes.len(), 0);
}

#[test]
fn test_message_add_link() {
    let mut dg = Digraph::new();
    dg.message(DigraphMessage::AddNode(NodeAttributes::default()))
        .expect("Can add a node via message");
    dg.message(DigraphMessage::AddNode(NodeAttributes::default()))
        .expect("Can add a node via message");
    assert_eq!(dg.nodes.len(), 2);
    dg.message(DigraphMessage::AddLink(1, 2))
        .expect("Can add a link via message");
    assert_eq!(dg.links.len(), 1);
}

#[test]
fn test_message_remove_link() {
    let mut dg = Digraph::new();
    dg.message(DigraphMessage::AddNode(NodeAttributes::default()))
        .expect("Can add a node via message");
    dg.message(DigraphMessage::AddNode(NodeAttributes::default()))
        .expect("Can add a node via message");
    assert_eq!(dg.nodes.len(), 2);
    dg.message(DigraphMessage::AddLink(1, 2))
        .expect("Can add a link via message");
    assert_eq!(dg.links.len(), 1);
    dg.message(DigraphMessage::RemoveLink(3))
        .expect("Can remove a link via message");
    assert_eq!(dg.links.len(), 0);
    assert_eq!(dg.nodes.len(), 2);
}
