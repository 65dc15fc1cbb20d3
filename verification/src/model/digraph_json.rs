//! The JSON form of a graph: how a graph is written as a JSON value and read
//! back from one.

use crate::json::{
    distinct_names, json_entries, json_integer, json_list, json_member, json_model, json_models,
    json_object, json_text, members, Json,
};
use crate::model::digraph::{Digraph, DigraphView, Link, LinkView, Node, NodeView};
use crate::model::labels::{pairs_map, Labels};
use vstd::prelude::*;
use vstd::string::StringExecFns;

verus! {

/// Labels as a JSON object: one string member for each label.
pub open spec fn labels_json(labels: Map<Seq<char>, Seq<char>>) -> Json {
    Json::Object(Map::new(|k: Seq<char>| labels.contains_key(k), |k: Seq<char>| Json::Text(labels[k])))
}

/// A node as a JSON object with the members `id`, `name` and `labels`.
pub open spec fn node_json(node: NodeView) -> Json {
    Json::Object(
        Map::empty().insert("id"@, Json::Integer(node.id)).insert(
            "name"@,
            Json::Text(node.name),
        ).insert("labels"@, labels_json(node.labels)),
    )
}

/// A link as a JSON object with the members `id`, `name`, `source`, `target`
/// and `labels`.
pub open spec fn link_json(link: LinkView) -> Json {
    Json::Object(
        Map::empty().insert("id"@, Json::Integer(link.id)).insert(
            "name"@,
            Json::Text(link.name),
        ).insert("source"@, Json::Integer(link.source)).insert(
            "target"@,
            Json::Integer(link.target),
        ).insert("labels"@, labels_json(link.labels)),
    )
}

/// A graph as a JSON object with the members `name`, `nodes`, `links` and
/// `labels`.
pub open spec fn digraph_json(graph: DigraphView) -> Json {
    Json::Object(
        Map::empty().insert("name"@, Json::Text(graph.name)).insert(
            "nodes"@,
            Json::List(graph.nodes.map_values(|n: NodeView| node_json(n))),
        ).insert("links"@, Json::List(graph.links.map_values(|l: LinkView| link_json(l)))).insert(
            "labels"@,
            labels_json(graph.labels),
        ),
    )
}

/// The names of the members are pairwise different.
pub proof fn lemma_member_names()
    ensures
        "id"@ != "name"@,
        "id"@ != "labels"@,
        "id"@ != "source"@,
        "id"@ != "target"@,
        "name"@ != "labels"@,
        "name"@ != "source"@,
        "name"@ != "target"@,
        "name"@ != "nodes"@,
        "name"@ != "links"@,
        "source"@ != "target"@,
        "source"@ != "labels"@,
        "target"@ != "labels"@,
        "nodes"@ != "links"@,
        "nodes"@ != "labels"@,
        "links"@ != "labels"@,
{
    reveal_strlit("id");
    reveal_strlit("name");
    reveal_strlit("labels");
    reveal_strlit("source");
    reveal_strlit("target");
    reveal_strlit("nodes");
    reveal_strlit("links");
    assert("name"@[0] != "labels"@[0]);
    assert("name"@[0] != "source"@[0]);
    assert("name"@[0] != "target"@[0]);
    assert("name"@[1] != "nodes"@[1]);
    assert("name"@[0] != "links"@[0]);
    assert("source"@[0] != "target"@[0]);
    assert("source"@[0] != "labels"@[0]);
    assert("target"@[0] != "labels"@[0]);
    assert("nodes"@[0] != "links"@[0]);
    assert("nodes"@[0] != "labels"@[0]);
    assert("links"@[1] != "labels"@[1]);
}

/// The members of a list of named values, where the list stands for labels:
/// each name is a key and each value is the string of that key.
proof fn lemma_label_members(
    entries: Seq<(String, serde_json::Value)>,
    pairs: Seq<(Seq<char>, Seq<char>)>,
)
    requires
        entries.len() == pairs.len(),
        forall|i: int|
            0 <= i < entries.len() ==> (#[trigger] entries[i]).0@ == pairs[i].0 && json_model(
                entries[i].1,
            ) == Json::Text(pairs[i].1),
    ensures
        Json::Object(members(entries)) == labels_json(pairs_map(pairs)),
    decreases entries.len(),
{
    if entries.len() > 0 {
        let front = entries.drop_last();
        let done = pairs.drop_last();
        assert forall|i: int| 0 <= i < front.len() implies (#[trigger] front[i]).0@ == done[i].0
            && json_model(front[i].1) == Json::Text(done[i].1) by {
            assert(front[i] == entries[i]);
        }
        lemma_label_members(front, done);
        assert(entries[entries.len() - 1].0@ == pairs.last().0);
        assert(members(entries) =~= labels_json(pairs_map(pairs))->Object_0);
    } else {
        assert(members(entries) =~= labels_json(pairs_map(pairs))->Object_0);
    }
}

impl Labels {
    /// The labels as a JSON object of strings.
    pub fn to_json(&self) -> (v: serde_json::Value)
        ensures
            json_model(v) == labels_json(self@),
    {
        let n = self.len();
        let mut entries: Vec<(String, serde_json::Value)> = Vec::new();
        let mut i: usize = 0;
        while i < n
            invariant
                i <= n,
                n == self.pairs().len(),
                distinct_keys_of(self),
                entries@.len() == i,
                forall|j: int|
                    0 <= j < i ==> (#[trigger] entries@[j]).0@ == self.pairs()[j].0 && json_model(
                        entries@[j].1,
                    ) == Json::Text(self.pairs()[j].1),
            decreases n - i,
        {
            let (key, value) = self.entry(i);
            entries.push((key.clone(), json_text(value.clone())));
            i += 1;
        }
        proof {
            lemma_label_members(entries@, self.pairs());
            assert(distinct_names(entries@)) by {
                assert forall|a: int, b: int| 0 <= a < b < entries@.len() implies entries@[a].0@
                    != entries@[b].0@ by {
                    assert(self.pairs()[a].0 != self.pairs()[b].0);
                }
            }
        }
        json_object(entries)
    }
}

/// No key occurs twice among the stored entries of the labels.
pub open spec fn distinct_keys_of(labels: &Labels) -> bool {
    crate::model::labels::distinct_keys(labels.pairs())
}

/// Appends one named value to the members of an object under construction.
fn put(entries: &mut Vec<(String, serde_json::Value)>, name: &str, value: serde_json::Value)
    ensures
        final(entries)@ == old(entries)@.push((final(entries)@.last().0, value)),
        final(entries)@.last().0@ == name@,
        members(final(entries)@) == members(old(entries)@).insert(name@, json_model(value)),
{
    entries.push((String::from_str(name), value));
    assert(entries@.drop_last() =~= old(entries)@);
}

impl Node {
    /// The node as a JSON object.
    pub fn to_json(&self) -> (v: serde_json::Value)
        ensures
            json_model(v) == node_json(self@),
    {
        let mut entries: Vec<(String, serde_json::Value)> = Vec::new();
        put(&mut entries, "id", json_integer(self.id));
        put(&mut entries, "name", json_text(self.name.clone()));
        put(&mut entries, "labels", self.labels.to_json());
        proof {
            lemma_member_names();
        }
        json_object(entries)
    }
}

impl Link {
    /// The link as a JSON object.
    pub fn to_json(&self) -> (v: serde_json::Value)
        ensures
            json_model(v) == link_json(self@),
    {
        let mut entries: Vec<(String, serde_json::Value)> = Vec::new();
        put(&mut entries, "id", json_integer(self.id));
        put(&mut entries, "name", json_text(self.name.clone()));
        put(&mut entries, "source", json_integer(self.source));
        put(&mut entries, "target", json_integer(self.target));
        put(&mut entries, "labels", self.labels.to_json());
        proof {
            lemma_member_names();
        }
        json_object(entries)
    }
}

impl Digraph {
    /// The graph as a JSON object.
    pub fn to_json(&self) -> (v: serde_json::Value)
        ensures
            json_model(v) == digraph_json(self@),
    {
        let mut nodes: Vec<serde_json::Value> = Vec::new();
        let mut i: usize = 0;
        while i < self.nodes.len()
            invariant
                i <= self.nodes.len(),
                nodes@.len() == i,
                forall|j: int| 0 <= j < i ==> json_model(#[trigger] nodes@[j]) == node_json(self.nodes@[j]@),
            decreases self.nodes.len() - i,
        {
            nodes.push(self.nodes[i].to_json());
            i += 1;
        }
        let mut links: Vec<serde_json::Value> = Vec::new();
        let mut k: usize = 0;
        while k < self.links.len()
            invariant
                k <= self.links.len(),
                links@.len() == k,
                forall|j: int| 0 <= j < k ==> json_model(#[trigger] links@[j]) == link_json(self.links@[j]@),
            decreases self.links.len() - k,
        {
            links.push(self.links[k].to_json());
            k += 1;
        }
        proof {
            assert(json_models(nodes@) =~= self@.nodes.map_values(|n: NodeView| node_json(n)));
            assert(json_models(links@) =~= self@.links.map_values(|l: LinkView| link_json(l)));
        }
        let mut entries: Vec<(String, serde_json::Value)> = Vec::new();
        put(&mut entries, "name", json_text(self.name.clone()));
        put(&mut entries, "nodes", json_list(nodes));
        put(&mut entries, "links", json_list(links));
        put(&mut entries, "labels", self.labels.to_json());
        proof {
            lemma_member_names();
        }
        json_object(entries)
    }
}

/// The member of an object under a name.
pub open spec fn member(value: Json, name: Seq<char>) -> Option<Json> {
    match value {
        Json::Object(m) => if m.contains_key(name) {
            Some(m[name])
        } else {
            None
        },
        _ => None,
    }
}

/// The number that a JSON value holds, if it is an integer that fits an
/// identifier.
pub open spec fn json_to_id(value: Json) -> Option<int> {
    match value {
        Json::Integer(n) => if i32::MIN <= n <= i32::MAX {
            Some(n)
        } else {
            None
        },
        _ => None,
    }
}

/// The characters that a JSON value holds, if it is a string.
pub open spec fn json_to_text(value: Json) -> Option<Seq<char>> {
    match value {
        Json::Text(s) => Some(s),
        _ => None,
    }
}

/// The labels that a JSON value holds, if it is an object of strings.
pub open spec fn json_to_labels(value: Json) -> Option<Map<Seq<char>, Seq<char>>> {
    match value {
        Json::Object(m) => if forall|k: Seq<char>| m.contains_key(k) ==> #[trigger] m[k] is Text {
            Some(Map::new(|k: Seq<char>| m.contains_key(k), |k: Seq<char>| m[k]->Text_0))
        } else {
            None
        },
        _ => None,
    }
}

/// What a member holds, read by `read`; nothing where the member is missing.
pub open spec fn read_member<T>(value: Json, name: Seq<char>, read: spec_fn(Json) -> Option<T>) -> Option<T> {
    match member(value, name) {
        Some(found) => read(found),
        None => None,
    }
}

/// The node that a JSON value holds, if it is an object with an `id`, a
/// `name` and `labels` of the right kinds. Other members are passed over.
pub open spec fn json_to_node(value: Json) -> Option<NodeView> {
    match (
        read_member(value, "id"@, |j: Json| json_to_id(j)),
        read_member(value, "name"@, |j: Json| json_to_text(j)),
        read_member(value, "labels"@, |j: Json| json_to_labels(j)),
    ) {
        (Some(id), Some(name), Some(labels)) => Some(NodeView { id, name, labels }),
        _ => None,
    }
}

/// The link that a JSON value holds, if it is an object with an `id`, a
/// `name`, a `source`, a `target` and `labels` of the right kinds.
pub open spec fn json_to_link(value: Json) -> Option<LinkView> {
    match (
        read_member(value, "id"@, |j: Json| json_to_id(j)),
        read_member(value, "name"@, |j: Json| json_to_text(j)),
        read_member(value, "source"@, |j: Json| json_to_id(j)),
        read_member(value, "target"@, |j: Json| json_to_id(j)),
        read_member(value, "labels"@, |j: Json| json_to_labels(j)),
    ) {
        (Some(id), Some(name), Some(source), Some(target), Some(labels)) => Some(
            LinkView { id, name, source, target, labels },
        ),
        _ => None,
    }
}

/// The nodes that a JSON value holds, if it is an array of nodes.
pub open spec fn json_to_nodes(value: Json) -> Option<Seq<NodeView>> {
    match value {
        Json::List(items) => if forall|i: int|
            0 <= i < items.len() ==> json_to_node(#[trigger] items[i]) is Some {
            Some(items.map_values(|j: Json| json_to_node(j)->Some_0))
        } else {
            None
        },
        _ => None,
    }
}

/// The links that a JSON value holds, if it is an array of links.
pub open spec fn json_to_links(value: Json) -> Option<Seq<LinkView>> {
    match value {
        Json::List(items) => if forall|i: int|
            0 <= i < items.len() ==> json_to_link(#[trigger] items[i]) is Some {
            Some(items.map_values(|j: Json| json_to_link(j)->Some_0))
        } else {
            None
        },
        _ => None,
    }
}

/// The graph that a JSON value holds, if it is an object with a `name`,
/// `nodes`, `links` and `labels` of the right kinds.
pub open spec fn json_to_digraph(value: Json) -> Option<DigraphView> {
    match (
        read_member(value, "name"@, |j: Json| json_to_text(j)),
        read_member(value, "nodes"@, |j: Json| json_to_nodes(j)),
        read_member(value, "links"@, |j: Json| json_to_links(j)),
        read_member(value, "labels"@, |j: Json| json_to_labels(j)),
    ) {
        (Some(name), Some(nodes), Some(links), Some(labels)) => Some(
            DigraphView { name, nodes, links, labels },
        ),
        _ => None,
    }
}

/// Labels written as JSON and read back are the same labels.
pub proof fn lemma_labels_round_trip(labels: Map<Seq<char>, Seq<char>>)
    ensures
        json_to_labels(labels_json(labels)) == Some(labels),
{
    let m = labels_json(labels)->Object_0;
    assert forall|k: Seq<char>| m.contains_key(k) implies #[trigger] m[k] is Text by {}
    assert(Map::new(|k: Seq<char>| m.contains_key(k), |k: Seq<char>| m[k]->Text_0) =~= labels);
}

/// A node written as JSON and read back is the same node.
pub proof fn lemma_node_round_trip(node: NodeView)
    requires
        i32::MIN <= node.id <= i32::MAX,
    ensures
        json_to_node(node_json(node)) == Some(node),
{
    lemma_member_names();
    lemma_labels_round_trip(node.labels);
    let m = node_json(node)->Object_0;
    assert(m.contains_key("id"@) && m["id"@] == Json::Integer(node.id));
    assert(m.contains_key("name"@) && m["name"@] == Json::Text(node.name));
    assert(m.contains_key("labels"@) && m["labels"@] == labels_json(node.labels));
}

/// A link written as JSON and read back is the same link.
pub proof fn lemma_link_round_trip(link: LinkView)
    requires
        i32::MIN <= link.id <= i32::MAX,
        i32::MIN <= link.source <= i32::MAX,
        i32::MIN <= link.target <= i32::MAX,
    ensures
        json_to_link(link_json(link)) == Some(link),
{
    lemma_member_names();
    lemma_labels_round_trip(link.labels);
    let m = link_json(link)->Object_0;
    assert(m.contains_key("id"@) && m["id"@] == Json::Integer(link.id));
    assert(m.contains_key("name"@) && m["name"@] == Json::Text(link.name));
    assert(m.contains_key("source"@) && m["source"@] == Json::Integer(link.source));
    assert(m.contains_key("target"@) && m["target"@] == Json::Integer(link.target));
    assert(m.contains_key("labels"@) && m["labels"@] == labels_json(link.labels));
}

/// Writing a graph as JSON and reading the JSON back gives the graph again,
/// whatever state the graph is in.
pub proof fn lemma_json_round_trip(graph: Digraph)
    ensures
        json_to_digraph(digraph_json(graph@)) == Some(graph@),
{
    lemma_member_names();
    lemma_labels_round_trip(graph@.labels);
    let g = graph@;
    let m = digraph_json(g)->Object_0;
    let nodes = g.nodes.map_values(|n: NodeView| node_json(n));
    let links = g.links.map_values(|l: LinkView| link_json(l));
    assert(m.contains_key("name"@) && m["name"@] == Json::Text(g.name));
    assert(m.contains_key("nodes"@) && m["nodes"@] == Json::List(nodes));
    assert(m.contains_key("links"@) && m["links"@] == Json::List(links));
    assert(m.contains_key("labels"@) && m["labels"@] == labels_json(g.labels));
    assert forall|i: int| 0 <= i < nodes.len() implies json_to_node(#[trigger] nodes[i]) == Some(
        g.nodes[i],
    ) by {
        assert(g.nodes[i] == graph.nodes@[i]@);
        lemma_node_round_trip(g.nodes[i]);
    }
    assert(nodes.map_values(|j: Json| json_to_node(j)->Some_0) =~= g.nodes);
    assert forall|i: int| 0 <= i < links.len() implies json_to_link(#[trigger] links[i]) == Some(
        g.links[i],
    ) by {
        assert(g.links[i] == graph.links@[i]@);
        lemma_link_round_trip(g.links[i]);
    }
    assert(links.map_values(|j: Json| json_to_link(j)->Some_0) =~= g.links);
}

/// A name is among the members of a list exactly if some entry carries it,
/// and where no name is repeated each entry is found under its name.
proof fn lemma_members(entries: Seq<(String, serde_json::Value)>)
    ensures
        forall|k: Seq<char>|
            members(entries).contains_key(k) ==> exists|i: int|
                0 <= i < entries.len() && (#[trigger] entries[i]).0@ == k,
        distinct_names(entries) ==> forall|i: int|
            0 <= i < entries.len() ==> members(entries).contains_key((#[trigger] entries[i]).0@)
                && members(entries)[entries[i].0@] == json_model(entries[i].1),
    decreases entries.len(),
{
    if entries.len() > 0 {
        let front = entries.drop_last();
        lemma_members(front);
        assert forall|k: Seq<char>| members(entries).contains_key(k) implies exists|i: int|
            0 <= i < entries.len() && (#[trigger] entries[i]).0@ == k by {
            if k == entries.last().0@ {
                assert(entries[entries.len() - 1].0@ == k);
            } else {
                let i = choose|i: int| 0 <= i < front.len() && (#[trigger] front[i]).0@ == k;
                assert(entries[i].0@ == k);
            }
        }
        if distinct_names(entries) {
            assert(distinct_names(front)) by {
                assert forall|a: int, b: int| 0 <= a < b < front.len() implies front[a].0@
                    != front[b].0@ by {
                    assert(entries[a].0@ != entries[b].0@);
                }
            }
            assert forall|i: int| 0 <= i < entries.len() implies members(entries).contains_key(
                (#[trigger] entries[i]).0@,
            ) && members(entries)[entries[i].0@] == json_model(entries[i].1) by {
                if i < front.len() {
                    assert(front[i] == entries[i]);
                    assert(entries[i].0@ != entries[entries.len() - 1].0@);
                }
            }
        }
    }
}

impl Labels {
    /// Reads labels from a JSON object of strings. Any other value holds no
    /// labels.
    pub fn from_json(v: &serde_json::Value) -> (read: Option<Labels>)
        ensures
            match read {
                Some(labels) => json_to_labels(json_model(*v)) == Some(labels@),
                None => json_to_labels(json_model(*v)) is None,
            },
    {
        let entries = match json_entries(v) {
            Some(entries) => entries,
            None => {
                return None;
            },
        };
        let ghost m = members(entries@);
        proof {
            lemma_members(entries@);
        }
        let mut labels = Labels::new();
        let mut i: usize = 0;
        while i < entries.len()
            invariant
                i <= entries.len(),
                m == members(entries@),
                json_model(*v) == Json::Object(m),
                distinct_names(entries@),
                forall|j: int|
                    0 <= j < entries@.len() ==> m.contains_key((#[trigger] entries@[j]).0@) && m[entries@[j].0@]
                        == json_model(entries@[j].1),
                forall|j: int| 0 <= j < i ==> json_model((#[trigger] entries@[j]).1) is Text,
                forall|k: Seq<char>|
                    labels@.contains_key(k) <==> exists|j: int|
                        0 <= j < i && (#[trigger] entries@[j]).0@ == k,
                forall|j: int|
                    0 <= j < i ==> labels@[(#[trigger] entries@[j]).0@] == json_model(
                        entries@[j].1,
                    )->Text_0,
            decreases entries.len() - i,
        {
            let entry = &entries[i];
            match entry.1.as_str() {
                Some(text) => {
                    let ghost before = labels@;
                    labels.insert(entry.0.clone(), text.to_owned());
                    proof {
                        assert forall|k: Seq<char>| labels@.contains_key(k) <==> exists|j: int|
                            0 <= j < i + 1 && (#[trigger] entries@[j]).0@ == k by {
                            if labels@.contains_key(k) {
                                if k == entries@[i as int].0@ {
                                } else {
                                    assert(before.contains_key(k));
                                    let j = choose|j: int|
                                        0 <= j < i && (#[trigger] entries@[j]).0@ == k;
                                    assert(0 <= j < i + 1 && entries@[j].0@ == k);
                                }
                            }
                            if exists|j: int| 0 <= j < i + 1 && (#[trigger] entries@[j]).0@ == k {
                                let j = choose|j: int|
                                    0 <= j < i + 1 && (#[trigger] entries@[j]).0@ == k;
                                if j < i {
                                    assert(before.contains_key(k));
                                }
                            }
                        }
                        assert forall|j: int| 0 <= j < i + 1 implies labels@[(#[trigger] entries@[j]).0@]
                            == json_model(entries@[j].1)->Text_0 by {
                            if j < i {
                                assert(entries@[j].0@ != entries@[i as int].0@);
                            }
                        }
                    }
                },
                None => {
                    proof {
                        assert(m.contains_key(entries@[i as int].0@));
                        assert(!(m[entries@[i as int].0@] is Text));
                    }
                    return None;
                },
            }
            i += 1;
        }
        proof {
            assert forall|k: Seq<char>| m.contains_key(k) implies #[trigger] m[k] is Text by {
                let j = choose|j: int| 0 <= j < entries@.len() && (#[trigger] entries@[j]).0@ == k;
                assert(json_model(entries@[j].1) is Text);
            }
            assert forall|k: Seq<char>| labels@.contains_key(k) <==> m.contains_key(k) by {
                if m.contains_key(k) {
                    let j = choose|j: int|
                        0 <= j < entries@.len() && (#[trigger] entries@[j]).0@ == k;
                    assert(0 <= j < i && entries@[j].0@ == k);
                }
            }
            assert forall|k: Seq<char>| labels@.contains_key(k) implies labels@[k] == m[k]->Text_0 by {
                let j = choose|j: int| 0 <= j < i && (#[trigger] entries@[j]).0@ == k;
                assert(labels@[entries@[j].0@] == json_model(entries@[j].1)->Text_0);
            }
            assert(labels@ =~= Map::new(
                |k: Seq<char>| m.contains_key(k),
                |k: Seq<char>| m[k]->Text_0,
            ));
        }
        Some(labels)
    }
}

/// Reads the identifier under `name`.
fn read_id(v: &serde_json::Value, name: &str) -> (read: Option<i32>)
    ensures
        match read {
            Some(n) => read_member(json_model(*v), name@, |j: Json| json_to_id(j)) == Some(n as int),
            None => read_member(json_model(*v), name@, |j: Json| json_to_id(j)) is None,
        },
{
    match json_member(v, name) {
        Some(found) => match found.as_i64() {
            Some(n) => if n >= -2147483648 && n <= 2147483647 {
                Some(n as i32)
            } else {
                None
            },
            None => None,
        },
        None => None,
    }
}

/// Reads the string under `name`.
fn read_text(v: &serde_json::Value, name: &str) -> (read: Option<String>)
    ensures
        match read {
            Some(s) => read_member(json_model(*v), name@, |j: Json| json_to_text(j)) == Some(s@),
            None => read_member(json_model(*v), name@, |j: Json| json_to_text(j)) is None,
        },
{
    match json_member(v, name) {
        Some(found) => match found.as_str() {
            Some(s) => Some(s.to_owned()),
            None => None,
        },
        None => None,
    }
}

/// Reads the labels under `name`.
fn read_labels(v: &serde_json::Value, name: &str) -> (read: Option<Labels>)
    ensures
        match read {
            Some(l) => read_member(json_model(*v), name@, |j: Json| json_to_labels(j)) == Some(l@),
            None => read_member(json_model(*v), name@, |j: Json| json_to_labels(j)) is None,
        },
{
    match json_member(v, name) {
        Some(found) => Labels::from_json(found),
        None => None,
    }
}

impl Node {
    /// Reads a node from its JSON object.
    pub fn from_json(v: &serde_json::Value) -> (read: Option<Node>)
        ensures
            match read {
                Some(node) => json_to_node(json_model(*v)) == Some(node@),
                None => json_to_node(json_model(*v)) is None,
            },
    {
        let id = match read_id(v, "id") {
            Some(id) => id,
            None => {
                return None;
            },
        };
        let name = match read_text(v, "name") {
            Some(name) => name,
            None => {
                return None;
            },
        };
        let labels = match read_labels(v, "labels") {
            Some(labels) => labels,
            None => {
                return None;
            },
        };
        Some(Node { id, name, labels })
    }
}

impl Link {
    /// Reads a link from its JSON object.
    pub fn from_json(v: &serde_json::Value) -> (read: Option<Link>)
        ensures
            match read {
                Some(link) => json_to_link(json_model(*v)) == Some(link@),
                None => json_to_link(json_model(*v)) is None,
            },
    {
        let id = match read_id(v, "id") {
            Some(id) => id,
            None => {
                return None;
            },
        };
        let name = match read_text(v, "name") {
            Some(name) => name,
            None => {
                return None;
            },
        };
        let source = match read_id(v, "source") {
            Some(source) => source,
            None => {
                return None;
            },
        };
        let target = match read_id(v, "target") {
            Some(target) => target,
            None => {
                return None;
            },
        };
        let labels = match read_labels(v, "labels") {
            Some(labels) => labels,
            None => {
                return None;
            },
        };
        Some(Link { id, name, source, target, labels })
    }
}

/// Reads the nodes under `name`.
fn read_nodes(v: &serde_json::Value, name: &str) -> (read: Option<Vec<Node>>)
    ensures
        match read {
            Some(nodes) => read_member(json_model(*v), name@, |j: Json| json_to_nodes(j)) == Some(
                crate::model::digraph::node_views(nodes@),
            ),
            None => read_member(json_model(*v), name@, |j: Json| json_to_nodes(j)) is None,
        },
{
    let found = match json_member(v, name) {
        Some(found) => found,
        None => {
            return None;
        },
    };
    let items = match found.as_array() {
        Some(items) => items,
        None => {
            return None;
        },
    };
    let ghost models = json_models(items@);
    let mut nodes: Vec<Node> = Vec::new();
    let mut i: usize = 0;
    while i < items.len()
        invariant
            i <= items.len(),
            models == json_models(items@),
            json_model(*found) == Json::List(models),
            member(json_model(*v), name@) == Some(json_model(*found)),
            nodes@.len() == i,
            forall|j: int| 0 <= j < i ==> json_to_node(#[trigger] models[j]) == Some(nodes@[j]@),
        decreases items.len() - i,
    {
        match Node::from_json(&items[i]) {
            Some(node) => {
                assert(models[i as int] == json_model(items@[i as int]));
                nodes.push(node);
            },
            None => {
                assert(models[i as int] == json_model(items@[i as int]));
                return None;
            },
        }
        i += 1;
    }
    proof {
        assert(models.map_values(|j: Json| json_to_node(j)->Some_0)
            =~= crate::model::digraph::node_views(nodes@));
    }
    Some(nodes)
}

/// Reads the links under `name`.
fn read_links(v: &serde_json::Value, name: &str) -> (read: Option<Vec<Link>>)
    ensures
        match read {
            Some(links) => read_member(json_model(*v), name@, |j: Json| json_to_links(j)) == Some(
                crate::model::digraph::link_views(links@),
            ),
            None => read_member(json_model(*v), name@, |j: Json| json_to_links(j)) is None,
        },
{
    let found = match json_member(v, name) {
        Some(found) => found,
        None => {
            return None;
        },
    };
    let items = match found.as_array() {
        Some(items) => items,
        None => {
            return None;
        },
    };
    let ghost models = json_models(items@);
    let mut links: Vec<Link> = Vec::new();
    let mut i: usize = 0;
    while i < items.len()
        invariant
            i <= items.len(),
            models == json_models(items@),
            json_model(*found) == Json::List(models),
            member(json_model(*v), name@) == Some(json_model(*found)),
            links@.len() == i,
            forall|j: int| 0 <= j < i ==> json_to_link(#[trigger] models[j]) == Some(links@[j]@),
        decreases items.len() - i,
    {
        match Link::from_json(&items[i]) {
            Some(link) => {
                assert(models[i as int] == json_model(items@[i as int]));
                links.push(link);
            },
            None => {
                assert(models[i as int] == json_model(items@[i as int]));
                return None;
            },
        }
        i += 1;
    }
    proof {
        assert(models.map_values(|j: Json| json_to_link(j)->Some_0)
            =~= crate::model::digraph::link_views(links@));
    }
    Some(links)
}

impl Digraph {
    /// Reads a graph from its JSON object. A value of any other shape holds
    /// no graph.
    pub fn from_json(v: &serde_json::Value) -> (read: Option<Digraph>)
        ensures
            match read {
                Some(graph) => json_to_digraph(json_model(*v)) == Some(graph@),
                None => json_to_digraph(json_model(*v)) is None,
            },
    {
        let name = match read_text(v, "name") {
            Some(name) => name,
            None => {
                return None;
            },
        };
        let nodes = match read_nodes(v, "nodes") {
            Some(nodes) => nodes,
            None => {
                return None;
            },
        };
        let links = match read_links(v, "links") {
            Some(links) => links,
            None => {
                return None;
            },
        };
        let labels = match read_labels(v, "labels") {
            Some(labels) => labels,
            None => {
                return None;
            },
        };
        Some(Digraph { name, nodes, links, labels })
    }
}

} // verus!
