//! A directed graph whose nodes and links draw their identifiers from one
//! counter, changed only through commands that keep its links attached.

use crate::model::labels::Labels;
use crate::util::text::{decimal, decimal_text};
use vstd::prelude::*;
use vstd::string::StringExecFns;

verus! {

/// Why a graph command was rejected.
#[derive(Debug, PartialEq, Eq, Structural)]
pub enum DigraphError {
    /// Nothing of the kind that the command addresses carries this identifier.
    IdDoesNotExist(i32),
}

/// A node, seen as a mathematical value.
pub struct NodeView {
    pub id: int,
    pub name: Seq<char>,
    pub labels: Map<Seq<char>, Seq<char>>,
}

/// A partial description of a node, seen as a mathematical value.
pub struct NodeAttributesView {
    pub name: Option<Seq<char>>,
    pub labels: Option<Map<Seq<char>, Seq<char>>>,
}

/// A link, seen as a mathematical value.
pub struct LinkView {
    pub id: int,
    pub name: Seq<char>,
    pub source: int,
    pub target: int,
    pub labels: Map<Seq<char>, Seq<char>>,
}

/// A partial description of a link, seen as a mathematical value.
pub struct LinkAttributesView {
    pub name: Option<Seq<char>>,
    pub source: Option<int>,
    pub target: Option<int>,
    pub labels: Option<Map<Seq<char>, Seq<char>>>,
}

/// A graph, seen as a mathematical value.
pub struct DigraphView {
    pub name: Seq<char>,
    pub nodes: Seq<NodeView>,
    pub links: Seq<LinkView>,
    pub labels: Map<Seq<char>, Seq<char>>,
}

/// A node of the graph.
#[derive(Clone, Debug, PartialEq)]
pub struct Node {
    pub id: i32,
    pub name: String,
    pub labels: Labels,
}

/// What to change of a node: the name, if one is given, and the labels to
/// merge into those that the node has.
#[derive(Debug, PartialEq)]
pub struct NodeAttributes {
    pub name: Option<String>,
    pub labels: Option<Labels>,
}

/// A directed link between two nodes.
#[derive(Clone, Debug, PartialEq)]
pub struct Link {
    pub id: i32,
    pub name: String,
    pub source: i32,
    pub target: i32,
    pub labels: Labels,
}

/// What to change of a link.
#[derive(Debug, PartialEq)]
pub struct LinkAttributes {
    pub name: Option<String>,
    pub source: Option<i32>,
    pub target: Option<i32>,
    pub labels: Option<Labels>,
}

/// The graph: a name, nodes, links and labels.
#[derive(Clone, Debug, PartialEq)]
pub struct Digraph {
    pub name: String,
    pub nodes: Vec<Node>,
    pub links: Vec<Link>,
    pub labels: Labels,
}

/// The commands by which a graph is changed.
#[derive(Debug, PartialEq)]
pub enum DigraphMessage {
    AddNode(NodeAttributes),
    UpdateNode(i32, NodeAttributes),
    RemoveNode(i32),
    AddLink(i32, i32),
    RemoveLink(i32),
}

impl View for Node {
    type V = NodeView;

    open spec fn view(&self) -> NodeView {
        NodeView { id: self.id as int, name: self.name@, labels: self.labels@ }
    }
}

impl View for NodeAttributes {
    type V = NodeAttributesView;

    open spec fn view(&self) -> NodeAttributesView {
        NodeAttributesView {
            name: match self.name {
                Some(name) => Some(name@),
                None => None,
            },
            labels: match self.labels {
                Some(labels) => Some(labels@),
                None => None,
            },
        }
    }
}

impl View for Link {
    type V = LinkView;

    open spec fn view(&self) -> LinkView {
        LinkView {
            id: self.id as int,
            name: self.name@,
            source: self.source as int,
            target: self.target as int,
            labels: self.labels@,
        }
    }
}

impl View for LinkAttributes {
    type V = LinkAttributesView;

    open spec fn view(&self) -> LinkAttributesView {
        LinkAttributesView {
            name: match self.name {
                Some(name) => Some(name@),
                None => None,
            },
            source: match self.source {
                Some(source) => Some(source as int),
                None => None,
            },
            target: match self.target {
                Some(target) => Some(target as int),
                None => None,
            },
            labels: match self.labels {
                Some(labels) => Some(labels@),
                None => None,
            },
        }
    }
}

/// The views of the nodes, in their order.
pub open spec fn node_views(nodes: Seq<Node>) -> Seq<NodeView> {
    nodes.map_values(|n: Node| n@)
}

/// The views of the links, in their order.
pub open spec fn link_views(links: Seq<Link>) -> Seq<LinkView> {
    links.map_values(|l: Link| l@)
}

impl View for Digraph {
    type V = DigraphView;

    open spec fn view(&self) -> DigraphView {
        DigraphView {
            name: self.name@,
            nodes: node_views(self.nodes@),
            links: link_views(self.links@),
            labels: self.labels@,
        }
    }
}

/// The identifiers as mathematical integers.
pub open spec fn as_ints(ids: Seq<i32>) -> Seq<int> {
    ids.map_values(|id: i32| id as int)
}

/// The test that keeps the links which neither start nor end at `id`.
pub open spec fn apart_from(id: int) -> spec_fn(LinkView) -> bool {
    |l: LinkView| !l.touches(id)
}

/// The test that picks the links which start or end at `id`.
pub open spec fn attached_to(id: int) -> spec_fn(LinkView) -> bool {
    |l: LinkView| l.touches(id)
}

/// The view of attributes that may be absent.
pub open spec fn optional_attributes(attrs: Option<NodeAttributes>) -> Option<NodeAttributesView> {
    match attrs {
        Some(a) => Some(a@),
        None => None,
    }
}

/// The view of labels that may be absent.
pub open spec fn optional_labels(labels: Option<Labels>) -> Option<Map<Seq<char>, Seq<char>>> {
    match labels {
        Some(l) => Some(l@),
        None => None,
    }
}

/// The greatest of the identifiers, and 0 where there is none.
pub open spec fn highest(ids: Seq<int>) -> int
    decreases ids.len(),
{
    if ids.len() == 0 {
        0
    } else if ids.len() == 1 {
        ids[0]
    } else {
        let before = highest(ids.drop_last());
        if ids.last() > before {
            ids.last()
        } else {
            before
        }
    }
}

/// `highest` is an upper bound of the identifiers and, where there is one,
/// is one of them.
pub proof fn lemma_highest(ids: Seq<int>)
    ensures
        forall|i: int| 0 <= i < ids.len() ==> ids[i] <= highest(ids),
        ids.len() > 0 ==> exists|i: int| 0 <= i < ids.len() && ids[i] == highest(ids),
        ids.len() == 0 ==> highest(ids) == 0,
    decreases ids.len(),
{
    if ids.len() > 1 {
        let front = ids.drop_last();
        lemma_highest(front);
        assert forall|i: int| 0 <= i < ids.len() implies ids[i] <= highest(ids) by {
            if i < front.len() {
                assert(front[i] == ids[i]);
            }
        }
        if ids.last() > highest(front) {
            assert(ids[ids.len() - 1] == highest(ids));
        } else {
            let i = choose|i: int| 0 <= i < front.len() && front[i] == highest(front);
            assert(ids[i] == highest(ids));
        }
    } else if ids.len() == 1 {
        assert(ids[0] == highest(ids));
    }
}

impl NodeView {
    /// The node after a partial update: the name is replaced where one is
    /// given, the given labels are merged into the node's own.
    pub open spec fn update(self, attrs: NodeAttributesView) -> NodeView {
        NodeView {
            id: self.id,
            name: match attrs.name {
                Some(name) => name,
                None => self.name,
            },
            labels: match attrs.labels {
                Some(labels) => self.labels.union_prefer_right(labels),
                None => self.labels,
            },
        }
    }
}

impl LinkView {
    /// The link after a partial update: name, source and target are replaced
    /// where given, the given labels are merged into the link's own.
    pub open spec fn update(self, attrs: LinkAttributesView) -> LinkView {
        LinkView {
            id: self.id,
            name: match attrs.name {
                Some(name) => name,
                None => self.name,
            },
            source: match attrs.source {
                Some(source) => source,
                None => self.source,
            },
            target: match attrs.target {
                Some(target) => target,
                None => self.target,
            },
            labels: match attrs.labels {
                Some(labels) => self.labels.union_prefer_right(labels),
                None => self.labels,
            },
        }
    }

    /// Whether the link starts or ends at the node `id`.
    pub open spec fn touches(self, id: int) -> bool {
        self.source == id || self.target == id
    }
}

impl DigraphView {
    /// The graph without nodes, links and labels, under the empty name.
    pub open spec fn empty() -> DigraphView {
        DigraphView {
            name: Seq::empty(),
            nodes: Seq::empty(),
            links: Seq::empty(),
            labels: Map::empty(),
        }
    }

    /// The identifiers of the nodes, in the order of the nodes.
    pub open spec fn node_ids(self) -> Seq<int> {
        self.nodes.map_values(|n: NodeView| n.id)
    }

    /// The identifiers of the links, in the order of the links.
    pub open spec fn link_ids(self) -> Seq<int> {
        self.links.map_values(|l: LinkView| l.id)
    }

    /// Every identifier in use: those of the nodes, then those of the links.
    pub open spec fn all_ids(self) -> Seq<int> {
        self.node_ids() + self.link_ids()
    }

    /// The greatest identifier in use, and 0 in a graph without nodes and links.
    pub open spec fn highest_id(self) -> int {
        highest(self.all_ids())
    }

    /// The identifier that the next node or link receives.
    pub open spec fn next_id(self) -> int {
        self.highest_id() + 1
    }

    /// Whether some node carries the identifier.
    pub open spec fn has_node(self, id: int) -> bool {
        exists|i: int| 0 <= i < self.nodes.len() && (#[trigger] self.nodes[i]).id == id
    }

    /// Whether some link carries the identifier.
    pub open spec fn has_link(self, id: int) -> bool {
        exists|i: int| 0 <= i < self.links.len() && (#[trigger] self.links[i]).id == id
    }

    /// Whether `at` is the first place among the nodes that holds `id`.
    pub open spec fn is_node_position(self, id: int, at: int) -> bool {
        &&& 0 <= at < self.nodes.len()
        &&& self.nodes[at].id == id
        &&& forall|i: int| 0 <= i < at ==> (#[trigger] self.nodes[i]).id != id
    }

    /// Whether `at` is the first place among the links that holds `id`.
    pub open spec fn is_link_position(self, id: int, at: int) -> bool {
        &&& 0 <= at < self.links.len()
        &&& self.links[at].id == id
        &&& forall|i: int| 0 <= i < at ==> (#[trigger] self.links[i]).id != id
    }

    /// The first place among the nodes that holds `id`.
    pub open spec fn node_position(self, id: int) -> int {
        choose|at: int| self.is_node_position(id, at)
    }

    /// The first place among the links that holds `id`.
    pub open spec fn link_position(self, id: int) -> int {
        choose|at: int| self.is_link_position(id, at)
    }

    /// The graph with one more node at the end, which carries the next
    /// identifier, the given name (else the empty one) and the given labels
    /// (else none).
    pub open spec fn add_node(self, attrs: Option<NodeAttributesView>) -> DigraphView {
        let node = NodeView {
            id: self.next_id(),
            name: match attrs {
                Some(NodeAttributesView { name: Some(name), .. }) => name,
                _ => Seq::empty(),
            },
            labels: match attrs {
                Some(NodeAttributesView { labels: Some(labels), .. }) => labels,
                _ => Map::empty(),
            },
        };
        DigraphView { nodes: self.nodes.push(node), ..self }
    }

    /// The graph with the first node that carries `id` updated.
    pub open spec fn update_node(self, id: int, attrs: NodeAttributesView) -> DigraphView {
        let at = self.node_position(id);
        DigraphView { nodes: self.nodes.update(at, self.nodes[at].update(attrs)), ..self }
    }

    /// The graph without the first node that carries `id` and without the
    /// links that touch `id`.
    pub open spec fn remove_node(self, id: int) -> DigraphView {
        DigraphView {
            nodes: self.nodes.remove(self.node_position(id)),
            links: self.links.filter(apart_from(id)),
            ..self
        }
    }

    /// The graph with one more link at the end, which carries the next
    /// identifier, the empty name and the given labels (else none).
    pub open spec fn add_link(
        self,
        source: int,
        target: int,
        labels: Option<Map<Seq<char>, Seq<char>>>,
    ) -> DigraphView {
        let link = LinkView {
            id: self.next_id(),
            name: Seq::empty(),
            source,
            target,
            labels: match labels {
                Some(labels) => labels,
                None => Map::empty(),
            },
        };
        DigraphView { links: self.links.push(link), ..self }
    }

    /// The graph without the first link that carries `id`.
    pub open spec fn remove_link(self, id: int) -> DigraphView {
        DigraphView { links: self.links.remove(self.link_position(id)), ..self }
    }

    /// The links that start or end at the node `id`.
    pub open spec fn links_touching(self, id: int) -> Seq<LinkView> {
        self.links.filter(attached_to(id))
    }

    /// The structural invariant of a graph: identifiers are positive, no two
    /// of its nodes and links share one, and every link starts and ends at a
    /// node of the graph.
    pub open spec fn wf(self) -> bool {
        &&& forall|i: int| 0 <= i < self.nodes.len() ==> (#[trigger] self.nodes[i]).id >= 1
        &&& forall|i: int| 0 <= i < self.links.len() ==> (#[trigger] self.links[i]).id >= 1
        &&& forall|i: int, j: int|
            0 <= i < j < self.nodes.len() ==> (#[trigger] self.nodes[i]).id
                != (#[trigger] self.nodes[j]).id
        &&& forall|i: int, j: int|
            0 <= i < j < self.links.len() ==> (#[trigger] self.links[i]).id
                != (#[trigger] self.links[j]).id
        &&& forall|i: int, j: int|
            0 <= i < self.nodes.len() && 0 <= j < self.links.len() ==> (#[trigger] self.nodes[i]).id
                != (#[trigger] self.links[j]).id
        &&& forall|i: int|
            0 <= i < self.links.len() ==> self.has_node((#[trigger] self.links[i]).source)
                && self.has_node(self.links[i].target)
    }
}

/// The first place that holds `id` is the only place that is the first.
pub proof fn lemma_node_position(g: DigraphView, id: int, at: int)
    requires
        g.is_node_position(id, at),
    ensures
        g.node_position(id) == at,
        g.has_node(id),
{
    let found = g.node_position(id);
    assert(g.is_node_position(id, found));
    if found < at {
        assert(g.nodes[found].id == id);
    } else if at < found {
        assert(g.nodes[at].id == id);
    }
}

/// The first place that holds `id` is the only place that is the first.
pub proof fn lemma_link_position(g: DigraphView, id: int, at: int)
    requires
        g.is_link_position(id, at),
    ensures
        g.link_position(id) == at,
        g.has_link(id),
{
    let found = g.link_position(id);
    assert(g.is_link_position(id, found));
    if found < at {
        assert(g.links[found].id == id);
    } else if at < found {
        assert(g.links[at].id == id);
    }
}

/// The next identifier lies above every identifier in use.
pub proof fn lemma_next_id_is_fresh(g: DigraphView)
    ensures
        forall|i: int| 0 <= i < g.nodes.len() ==> (#[trigger] g.nodes[i]).id < g.next_id(),
        forall|i: int| 0 <= i < g.links.len() ==> (#[trigger] g.links[i]).id < g.next_id(),
        g.wf() ==> g.next_id() >= 1,
{
    let ids = g.all_ids();
    lemma_highest(ids);
    assert forall|i: int| 0 <= i < g.nodes.len() implies (#[trigger] g.nodes[i]).id
        < g.next_id() by {
        assert(ids[i] == g.nodes[i].id);
    }
    assert forall|i: int| 0 <= i < g.links.len() implies (#[trigger] g.links[i]).id
        < g.next_id() by {
        assert(ids[g.nodes.len() + i] == g.links[i].id);
    }
    if g.wf() && ids.len() > 0 {
        let i = choose|i: int| 0 <= i < ids.len() && ids[i] == highest(ids);
        if i < g.nodes.len() {
            assert(ids[i] == g.nodes[i].id);
        } else {
            assert(ids[i] == g.links[i - g.nodes.len()].id);
        }
    }
}

impl Default for NodeAttributes {
    /// The attributes of a fresh node: the empty name and no labels.
    fn default() -> (attrs: NodeAttributes)
        ensures
            attrs@ == (NodeAttributesView {
                name: Some(Seq::<char>::empty()),
                labels: Some(Map::<Seq<char>, Seq<char>>::empty()),
            }),
    {
        NodeAttributes { name: Some(String::new()), labels: Some(Labels::new()) }
    }
}

impl Node {
    /// Replaces the name where one is given, and merges the given labels into
    /// the node's own, key by key.
    pub fn update(&mut self, attrs: NodeAttributes)
        ensures
            final(self)@ == old(self)@.update(attrs@),
    {
        let NodeAttributes { name, labels } = attrs;
        if let Some(name) = name {
            self.name = name;
        }
        if let Some(labels) = labels {
            self.labels.merge(&labels);
        }
    }
}

impl Link {
    /// Replaces name, source and target where given, and merges the given
    /// labels into the link's own, key by key.
    pub fn update(&mut self, attrs: LinkAttributes)
        ensures
            final(self)@ == old(self)@.update(attrs@),
    {
        let LinkAttributes { name, source, target, labels } = attrs;
        if let Some(name) = name {
            self.name = name;
        }
        if let Some(source) = source {
            self.source = source;
        }
        if let Some(target) = target {
            self.target = target;
        }
        if let Some(labels) = labels {
            self.labels.merge(&labels);
        }
    }
}

impl Default for Digraph {
    fn default() -> (graph: Digraph)
        ensures
            graph@ == DigraphView::empty(),
    {
        Digraph::new()
    }
}

impl Digraph {
    /// The graph without nodes, links and labels, under the empty name.
    pub fn new() -> (graph: Digraph)
        ensures
            graph@ == DigraphView::empty(),
            graph@.wf(),
    {
        let graph = Digraph {
            name: String::new(),
            nodes: Vec::new(),
            links: Vec::new(),
            labels: Labels::new(),
        };
        assert(graph@.nodes =~= Seq::<NodeView>::empty());
        assert(graph@.links =~= Seq::<LinkView>::empty());
        graph
    }

    fn node_ids(&self) -> (ids: Vec<i32>)
        ensures
            as_ints(ids@) == self@.node_ids(),
    {
        let mut ids: Vec<i32> = Vec::new();
        let mut i: usize = 0;
        while i < self.nodes.len()
            invariant
                i <= self.nodes.len(),
                ids@.len() == i,
                forall|j: int| 0 <= j < i ==> ids@[j] == self.nodes@[j].id,
            decreases self.nodes.len() - i,
        {
            ids.push(self.nodes[i].id);
            i += 1;
        }
        assert(as_ints(ids@) =~= self@.node_ids());
        ids
    }

    fn link_ids(&self) -> (ids: Vec<i32>)
        ensures
            as_ints(ids@) == self@.link_ids(),
    {
        let mut ids: Vec<i32> = Vec::new();
        let mut i: usize = 0;
        while i < self.links.len()
            invariant
                i <= self.links.len(),
                ids@.len() == i,
                forall|j: int| 0 <= j < i ==> ids@[j] == self.links@[j].id,
            decreases self.links.len() - i,
        {
            ids.push(self.links[i].id);
            i += 1;
        }
        assert(as_ints(ids@) =~= self@.link_ids());
        ids
    }

    fn all_ids(&self) -> (ids: Vec<i32>)
        ensures
            as_ints(ids@) == self@.all_ids(),
    {
        let mut ids = self.node_ids();
        let mut more = self.link_ids();
        ids.append(&mut more);
        assert(as_ints(ids@) =~= self@.all_ids());
        ids
    }

    fn highest_id(&self) -> (id: i32)
        ensures
            id == self@.highest_id(),
    {
        let ids = self.all_ids();
        let mut best: i32 = 0;
        let mut i: usize = 0;
        assert(as_ints(ids@).take(0) =~= Seq::<int>::empty());
        while i < ids.len()
            invariant
                i <= ids.len(),
                best == highest(as_ints(ids@).take(i as int)),
            decreases ids.len() - i,
        {
            let ghost seen = as_ints(ids@).take(i as int);
            let ghost next = as_ints(ids@).take(i + 1);
            assert(next.drop_last() =~= seen);
            assert(next.last() == ids@[i as int]);
            if i == 0 || ids[i] > best {
                best = ids[i];
            }
            i += 1;
        }
        assert(as_ints(ids@).take(ids.len() as int) =~= as_ints(ids@));
        best
    }

    fn next_id(&self) -> (id: i32)
        requires
            self@.highest_id() < i32::MAX,
        ensures
            id == self@.next_id(),
    {
        self.highest_id() + 1
    }
}

impl Digraph {
    /// The first place among the nodes that holds `id`.
    fn find_node(&self, id: i32) -> (at: Option<usize>)
        ensures
            match at {
                Some(i) => self@.is_node_position(id as int, i as int),
                None => !self@.has_node(id as int),
            },
    {
        let mut i: usize = 0;
        while i < self.nodes.len()
            invariant
                i <= self.nodes.len(),
                forall|j: int| 0 <= j < i ==> (#[trigger] self@.nodes[j]).id != id,
            decreases self.nodes.len() - i,
        {
            if self.nodes[i].id == id {
                return Some(i);
            }
            i += 1;
        }
        None
    }

    /// The first place among the links that holds `id`.
    fn find_link(&self, id: i32) -> (at: Option<usize>)
        ensures
            match at {
                Some(i) => self@.is_link_position(id as int, i as int),
                None => !self@.has_link(id as int),
            },
    {
        let mut i: usize = 0;
        while i < self.links.len()
            invariant
                i <= self.links.len(),
                forall|j: int| 0 <= j < i ==> (#[trigger] self@.links[j]).id != id,
            decreases self.links.len() - i,
        {
            if self.links[i].id == id {
                return Some(i);
            }
            i += 1;
        }
        None
    }
}

/// Adding a node keeps the structural invariant.
pub proof fn lemma_add_node_wf(g: DigraphView, attrs: Option<NodeAttributesView>)
    requires
        g.wf(),
    ensures
        g.add_node(attrs).wf(),
{
    let after = g.add_node(attrs);
    lemma_next_id_is_fresh(g);
    assert forall|i: int| 0 <= i < after.links.len() implies after.has_node(
        (#[trigger] after.links[i]).source,
    ) && after.has_node(after.links[i].target) by {
        let link = g.links[i];
        let s = choose|k: int| 0 <= k < g.nodes.len() && (#[trigger] g.nodes[k]).id == link.source;
        assert(after.nodes[s].id == link.source);
        let t = choose|k: int| 0 <= k < g.nodes.len() && (#[trigger] g.nodes[k]).id == link.target;
        assert(after.nodes[t].id == link.target);
    }
}

/// Adding a link between two nodes of the graph keeps the structural
/// invariant.
pub proof fn lemma_add_link_wf(
    g: DigraphView,
    source: int,
    target: int,
    labels: Option<Map<Seq<char>, Seq<char>>>,
)
    requires
        g.wf(),
        g.has_node(source),
        g.has_node(target),
    ensures
        g.add_link(source, target, labels).wf(),
{
    let after = g.add_link(source, target, labels);
    lemma_next_id_is_fresh(g);
    assert forall|i: int| 0 <= i < after.links.len() implies after.has_node(
        (#[trigger] after.links[i]).source,
    ) && after.has_node(after.links[i].target) by {
        assert(after.nodes == g.nodes);
        if i < g.links.len() {
            assert(after.links[i] == g.links[i]);
            assert(g.has_node(g.links[i].source) && g.has_node(g.links[i].target));
        } else {
            assert(after.links[i].source == source && after.links[i].target == target);
        }
        let link = after.links[i];
        let a = choose|k: int| 0 <= k < g.nodes.len() && (#[trigger] g.nodes[k]).id == link.source;
        assert(after.nodes[a].id == link.source);
        let b = choose|k: int| 0 <= k < g.nodes.len() && (#[trigger] g.nodes[k]).id == link.target;
        assert(after.nodes[b].id == link.target);
    }
}

impl Digraph {
    /// Appends a node under the next identifier, with the given name and
    /// labels, or with the empty name and no labels where they are not given.
    pub fn add_node(&mut self, attrs: Option<NodeAttributes>) -> (done: Result<(), DigraphError>)
        requires
            old(self)@.highest_id() < i32::MAX,
        ensures
            done == Ok::<(), DigraphError>(()),
            final(self)@ == old(self)@.add_node(optional_attributes(attrs)),
            old(self)@.wf() ==> final(self)@.wf(),
    {
        let id = self.next_id();
        let (name, labels) = match attrs {
            Some(NodeAttributes { name, labels }) => (name, labels),
            None => (None, None),
        };
        let name = match name {
            Some(name) => name,
            None => String::new(),
        };
        let labels = match labels {
            Some(labels) => labels,
            None => Labels::new(),
        };
        let node = Node { id, name, labels };
        let ghost added = node@;
        self.nodes.push(node);
        proof {
            assert(self@.nodes =~= old(self)@.nodes.push(added));
            assert(self@.links =~= old(self)@.links);
            if old(self)@.wf() {
                lemma_add_node_wf(old(self)@, optional_attributes(attrs));
            }
        }
        Ok(())
    }

    /// Appends a link from `source` to `target` under the next identifier.
    /// Both must be nodes of the graph; `source` is looked at first.
    pub fn add_link(&mut self, source: i32, target: i32, labels: Option<Labels>) -> (done: Result<
        (),
        DigraphError,
    >)
        requires
            old(self)@.has_node(source as int) && old(self)@.has_node(target as int) ==> old(
                self,
            )@.highest_id() < i32::MAX,
        ensures
            !old(self)@.has_node(source as int) ==> done == Err::<(), DigraphError>(
                DigraphError::IdDoesNotExist(source),
            ),
            old(self)@.has_node(source as int) && !old(self)@.has_node(target as int) ==> done
                == Err::<(), DigraphError>(DigraphError::IdDoesNotExist(target)),
            old(self)@.has_node(source as int) && old(self)@.has_node(target as int) ==> done
                == Ok::<(), DigraphError>(()),
            done is Ok ==> final(self)@ == old(self)@.add_link(
                source as int,
                target as int,
                optional_labels(labels),
            ),
            done is Err ==> *final(self) == *old(self),
            old(self)@.wf() ==> final(self)@.wf(),
    {
        if self.find_node(source).is_none() {
            Err(DigraphError::IdDoesNotExist(source))
        } else if self.find_node(target).is_none() {
            Err(DigraphError::IdDoesNotExist(target))
        } else {
            let id = self.next_id();
            let ghost given = optional_labels(labels);
            let labels = match labels {
                Some(labels) => labels,
                None => Labels::new(),
            };
            let link = Link { id, name: String::new(), source, target, labels };
            let ghost added = link@;
            self.links.push(link);
            proof {
                assert(self@.links =~= old(self)@.links.push(added));
                assert(self@.nodes =~= old(self)@.nodes);
                if old(self)@.wf() {
                    lemma_add_link_wf(old(self)@, source as int, target as int, given);
                }
            }
            Ok(())
        }
    }
}

/// Updating a node keeps the structural invariant.
pub proof fn lemma_update_node_wf(g: DigraphView, id: int, attrs: NodeAttributesView)
    requires
        g.wf(),
        g.has_node(id),
    ensures
        g.update_node(id, attrs).wf(),
{
    let after = g.update_node(id, attrs);
    let at = g.node_position(id);
    let first = choose|k: int| 0 <= k < g.nodes.len() && (#[trigger] g.nodes[k]).id == id;
    lemma_first_node(g, id, first);
    assert(g.is_node_position(id, at));
    assert forall|i: int| 0 <= i < after.nodes.len() implies (#[trigger] after.nodes[i]).id
        == g.nodes[i].id by {}
    assert forall|i: int| 0 <= i < after.links.len() implies after.has_node(
        (#[trigger] after.links[i]).source,
    ) && after.has_node(after.links[i].target) by {
        let link = g.links[i];
        let a = choose|k: int| 0 <= k < g.nodes.len() && (#[trigger] g.nodes[k]).id == link.source;
        assert(after.nodes[a].id == link.source);
        let b = choose|k: int| 0 <= k < g.nodes.len() && (#[trigger] g.nodes[k]).id == link.target;
        assert(after.nodes[b].id == link.target);
    }
}

/// Where some node carries `id`, there is a first place among the nodes that
/// holds it.
pub proof fn lemma_first_node(g: DigraphView, id: int, at: int)
    requires
        0 <= at < g.nodes.len(),
        g.nodes[at].id == id,
    ensures
        g.is_node_position(id, g.node_position(id)),
        g.node_position(id) <= at,
    decreases at,
{
    if exists|k: int| 0 <= k < at && (#[trigger] g.nodes[k]).id == id {
        let k = choose|k: int| 0 <= k < at && (#[trigger] g.nodes[k]).id == id;
        lemma_first_node(g, id, k);
    } else {
        assert(g.is_node_position(id, at));
        lemma_node_position(g, id, at);
    }
}

/// Where some link carries `id`, there is a first place among the links that
/// holds it.
pub proof fn lemma_first_link(g: DigraphView, id: int, at: int)
    requires
        0 <= at < g.links.len(),
        g.links[at].id == id,
    ensures
        g.is_link_position(id, g.link_position(id)),
        g.link_position(id) <= at,
    decreases at,
{
    if exists|k: int| 0 <= k < at && (#[trigger] g.links[k]).id == id {
        let k = choose|k: int| 0 <= k < at && (#[trigger] g.links[k]).id == id;
        lemma_first_link(g, id, k);
    } else {
        assert(g.is_link_position(id, at));
        lemma_link_position(g, id, at);
    }
}

/// Removing a link keeps the structural invariant.
pub proof fn lemma_remove_link_wf(g: DigraphView, id: int)
    requires
        g.wf(),
        g.has_link(id),
    ensures
        g.remove_link(id).wf(),
{
    let after = g.remove_link(id);
    let some = choose|k: int| 0 <= k < g.links.len() && (#[trigger] g.links[k]).id == id;
    lemma_first_link(g, id, some);
    let at = g.link_position(id);
    assert forall|i: int| 0 <= i < after.links.len() implies #[trigger] after.links[i] == g.links[if i
        < at {
        i
    } else {
        i + 1
    }] by {}
    assert forall|i: int| 0 <= i < after.links.len() implies (#[trigger] after.links[i]).id
        >= 1 by {
        let j = if i < at { i } else { i + 1 };
        assert(after.links[i] == g.links[j]);
    }
    assert forall|i: int, j: int| 0 <= i < j < after.links.len() implies (#[trigger] after.links[i]).id
        != (#[trigger] after.links[j]).id by {
        let a = if i < at { i } else { i + 1 };
        let b = if j < at { j } else { j + 1 };
        assert(after.links[i] == g.links[a]);
        assert(after.links[j] == g.links[b]);
    }
    assert forall|i: int, j: int|
        0 <= i < after.nodes.len() && 0 <= j < after.links.len() implies (#[trigger] after.nodes[i]).id
        != (#[trigger] after.links[j]).id by {
        let b = if j < at { j } else { j + 1 };
        assert(after.links[j] == g.links[b]);
    }
    assert forall|i: int| 0 <= i < after.links.len() implies after.has_node(
        (#[trigger] after.links[i]).source,
    ) && after.has_node(after.links[i].target) by {
        let j = if i < at { i } else { i + 1 };
        assert(after.links[i] == g.links[j]);
        assert(g.has_node(g.links[j].source) && g.has_node(g.links[j].target));
        assert(after.nodes == g.nodes);
        let link = g.links[j];
        let a = choose|k: int| 0 <= k < g.nodes.len() && (#[trigger] g.nodes[k]).id == link.source;
        assert(after.nodes[a].id == link.source);
        let b = choose|k: int| 0 <= k < g.nodes.len() && (#[trigger] g.nodes[k]).id == link.target;
        assert(after.nodes[b].id == link.target);
    }
}

impl Digraph {
    /// Updates the first node that carries `id`.
    pub fn update_node(&mut self, id: i32, attrs: NodeAttributes) -> (done: Result<
        (),
        DigraphError,
    >)
        ensures
            old(self)@.has_node(id as int) ==> done == Ok::<(), DigraphError>(()) && final(self)@
                == old(self)@.update_node(id as int, attrs@),
            !old(self)@.has_node(id as int) ==> done == Err::<(), DigraphError>(
                DigraphError::IdDoesNotExist(id),
            ) && *final(self) == *old(self),
            old(self)@.wf() ==> final(self)@.wf(),
    {
        match self.find_node(id) {
            Some(at) => {
                proof {
                    lemma_node_position(self@, id as int, at as int);
                }
                let mut node = self.nodes.remove(at);
                node.update(attrs);
                let ghost changed = node@;
                self.nodes.insert(at, node);
                proof {
                    assert(self@.nodes =~= old(self)@.nodes.update(at as int, changed));
                    assert(self@.links =~= old(self)@.links);
                    if old(self)@.wf() {
                        lemma_update_node_wf(old(self)@, id as int, attrs@);
                    }
                }
                Ok(())
            },
            None => Err(DigraphError::IdDoesNotExist(id)),
        }
    }

    /// Removes the first link that carries `id`.
    pub fn remove_link(&mut self, id: i32) -> (done: Result<(), DigraphError>)
        ensures
            old(self)@.has_link(id as int) ==> done == Ok::<(), DigraphError>(()) && final(self)@
                == old(self)@.remove_link(id as int),
            !old(self)@.has_link(id as int) ==> done == Err::<(), DigraphError>(
                DigraphError::IdDoesNotExist(id),
            ) && *final(self) == *old(self),
            old(self)@.wf() ==> final(self)@.wf(),
    {
        match self.find_link(id) {
            Some(at) => {
                proof {
                    lemma_link_position(self@, id as int, at as int);
                }
                self.links.remove(at);
                proof {
                    assert(self@.links =~= old(self)@.links.remove(at as int));
                    assert(self@.nodes =~= old(self)@.nodes);
                    if old(self)@.wf() {
                        lemma_remove_link_wf(old(self)@, id as int);
                    }
                }
                Ok(())
            },
            None => Err(DigraphError::IdDoesNotExist(id)),
        }
    }
}

/// Removes the links that start or end at the node `id`, keeping the others
/// in their order.
fn retract_links(links: &mut Vec<Link>, id: i32)
    ensures
        link_views(final(links)@) == link_views(old(links)@).filter(apart_from(id as int)),
{
    let ghost before = link_views(links@);
    let ghost keep = apart_from(id as int);
    let ghost mut seen: int = 0;
    let mut i: usize = 0;
    proof {
        reveal(Seq::filter);
        assert(before.take(0) =~= Seq::<LinkView>::empty());
        assert(link_views(links@).take(0) =~= before.take(0).filter(keep));
        assert(link_views(links@).skip(0) =~= before.skip(0));
    }
    while i < links.len()
        invariant
            0 <= seen <= before.len(),
            i <= links@.len(),
            links@.len() - i == before.len() - seen,
            keep == apart_from(id as int),
            link_views(links@).take(i as int) == before.take(seen).filter(keep),
            link_views(links@).skip(i as int) == before.skip(seen),
        decreases links@.len() - i,
    {
        let ghost now = link_views(links@);
        proof {
            assert(now[i as int] == now.skip(i as int)[0]);
            assert(before[seen] == before.skip(seen)[0]);
            assert(before.take(seen + 1) =~= before.take(seen).push(before[seen]));
            Seq::lemma_filter_push(before.take(seen), before[seen], keep);
        }
        if links[i].source == id || links[i].target == id {
            links.remove(i);
            proof {
                assert(link_views(links@) =~= now.remove(i as int));
                assert(link_views(links@).take(i as int) =~= now.take(i as int));
                assert(link_views(links@).skip(i as int) =~= now.skip(i as int).skip(1));
                assert(before.skip(seen + 1) =~= before.skip(seen).skip(1));
                seen = seen + 1;
            }
        } else {
            proof {
                assert(now.take(i + 1) =~= now.take(i as int).push(now[i as int]));
                assert(now.skip(i + 1) =~= now.skip(i as int).skip(1));
                assert(before.skip(seen + 1) =~= before.skip(seen).skip(1));
                seen = seen + 1;
            }
            i += 1;
        }
    }
    proof {
        assert(link_views(links@).take(i as int) =~= link_views(links@));
        assert(before.take(seen) =~= before);
    }
}

/// What is left of a list of links after the links at `id` are taken out:
/// each link that is left was in the list and keeps clear of `id`, and links
/// with different identifiers still have different identifiers.
pub proof fn lemma_links_apart(links: Seq<LinkView>, id: int)
    ensures
        forall|i: int|
            0 <= i < links.filter(apart_from(id)).len() ==> !(#[trigger] links.filter(
                apart_from(id),
            )[i]).touches(id) && links.contains(links.filter(apart_from(id))[i]),
        (forall|a: int, b: int|
            0 <= a < b < links.len() ==> (#[trigger] links[a]).id != (#[trigger] links[b]).id)
            ==> (forall|a: int, b: int|
            0 <= a < b < links.filter(apart_from(id)).len() ==> (#[trigger] links.filter(
                apart_from(id),
            )[a]).id != (#[trigger] links.filter(apart_from(id))[b]).id),
    decreases links.len(),
{
    reveal(Seq::filter);
    let keep = apart_from(id);
    let kept = links.filter(keep);
    if links.len() > 0 {
        let front = links.drop_last();
        let last = links.last();
        lemma_links_apart(front, id);
        let before = front.filter(keep);
        assert forall|i: int| 0 <= i < kept.len() implies !(#[trigger] kept[i]).touches(id)
            && links.contains(kept[i]) by {
            if i < before.len() {
                assert(kept[i] == before[i]);
                assert(front.contains(before[i]));
                let j = choose|j: int| 0 <= j < front.len() && front[j] == before[i];
                assert(links[j] == kept[i]);
            } else {
                assert(kept[i] == last);
                assert(links[links.len() - 1] == kept[i]);
            }
        }
        if forall|a: int, b: int|
            0 <= a < b < links.len() ==> (#[trigger] links[a]).id != (#[trigger] links[b]).id {
            assert forall|a: int, b: int| 0 <= a < b < front.len() implies (#[trigger] front[a]).id
                != (#[trigger] front[b]).id by {
                assert(links[a].id != links[b].id);
            }
            assert forall|a: int, b: int| 0 <= a < b < kept.len() implies (#[trigger] kept[a]).id
                != (#[trigger] kept[b]).id by {
                if b < before.len() {
                    assert(kept[a] == before[a] && kept[b] == before[b]);
                } else {
                    assert(kept[b] == last);
                    assert(kept[a] == before[a]);
                    assert(front.contains(before[a]));
                    let j = choose|j: int| 0 <= j < front.len() && front[j] == before[a];
                    assert(links[j].id != links[links.len() - 1].id);
                }
            }
        }
    }
}

/// A list of links falls into the links at `id` and the links clear of it.
pub proof fn lemma_links_split(links: Seq<LinkView>, id: int)
    ensures
        links.filter(apart_from(id)).len() + links.filter(attached_to(id)).len() == links.len(),
    decreases links.len(),
{
    reveal(Seq::filter);
    if links.len() > 0 {
        lemma_links_split(links.drop_last(), id);
    }
}

/// Removing a node, and with it the links at that node, keeps the structural
/// invariant.
pub proof fn lemma_remove_node_wf(g: DigraphView, id: int)
    requires
        g.wf(),
        g.has_node(id),
    ensures
        g.remove_node(id).wf(),
{
    let after = g.remove_node(id);
    let some = choose|k: int| 0 <= k < g.nodes.len() && (#[trigger] g.nodes[k]).id == id;
    lemma_first_node(g, id, some);
    let at = g.node_position(id);
    lemma_links_apart(g.links, id);
    assert forall|i: int| 0 <= i < after.nodes.len() implies #[trigger] after.nodes[i] == g.nodes[if i
        < at {
        i
    } else {
        i + 1
    }] by {}
    assert forall|i: int| 0 <= i < after.nodes.len() implies (#[trigger] after.nodes[i]).id
        >= 1 by {
        let j = if i < at { i } else { i + 1 };
        assert(after.nodes[i] == g.nodes[j]);
    }
    assert forall|i: int, j: int| 0 <= i < j < after.nodes.len() implies (#[trigger] after.nodes[i]).id
        != (#[trigger] after.nodes[j]).id by {
        let a = if i < at { i } else { i + 1 };
        let b = if j < at { j } else { j + 1 };
        assert(after.nodes[i] == g.nodes[a]);
        assert(after.nodes[j] == g.nodes[b]);
    }
    assert forall|j: int| 0 <= j < after.links.len() implies (#[trigger] after.links[j]).id
        >= 1 by {
        assert(g.links.contains(after.links[j]));
        let k = choose|k: int| 0 <= k < g.links.len() && g.links[k] == after.links[j];
        assert(g.links[k].id >= 1);
    }
    assert forall|i: int, j: int|
        0 <= i < after.nodes.len() && 0 <= j < after.links.len() implies (#[trigger] after.nodes[i]).id
        != (#[trigger] after.links[j]).id by {
        let a = if i < at { i } else { i + 1 };
        assert(after.nodes[i] == g.nodes[a]);
        assert(g.links.contains(after.links[j]));
        let k = choose|k: int| 0 <= k < g.links.len() && g.links[k] == after.links[j];
        assert(g.nodes[a].id != g.links[k].id);
    }
    assert forall|j: int| 0 <= j < after.links.len() implies after.has_node(
        (#[trigger] after.links[j]).source,
    ) && after.has_node(after.links[j].target) by {
        let link = after.links[j];
        assert(g.links.contains(link));
        let k = choose|k: int| 0 <= k < g.links.len() && g.links[k] == link;
        assert(g.has_node(g.links[k].source) && g.has_node(g.links[k].target));
        assert(!link.touches(id));
        let a = choose|a: int| 0 <= a < g.nodes.len() && (#[trigger] g.nodes[a]).id == link.source;
        assert(a != at);
        let a2 = if a < at { a } else { a - 1 };
        assert(after.nodes[a2] == g.nodes[a]);
        assert(after.nodes[a2].id == link.source);
        let b = choose|b: int| 0 <= b < g.nodes.len() && (#[trigger] g.nodes[b]).id == link.target;
        assert(b != at);
        let b2 = if b < at { b } else { b - 1 };
        assert(after.nodes[b2] == g.nodes[b]);
        assert(after.nodes[b2].id == link.target);
    }
}

impl Digraph {
    /// Removes the first node that carries `id`, and every link that starts
    /// or ends at `id`.
    pub fn remove_node(&mut self, id: i32) -> (done: Result<(), DigraphError>)
        ensures
            old(self)@.has_node(id as int) ==> done == Ok::<(), DigraphError>(()) && final(self)@
                == old(self)@.remove_node(id as int),
            !old(self)@.has_node(id as int) ==> done == Err::<(), DigraphError>(
                DigraphError::IdDoesNotExist(id),
            ) && *final(self) == *old(self),
            done is Ok ==> forall|i: int|
                0 <= i < final(self)@.links.len() ==> !(#[trigger] final(self)@.links[i]).touches(
                    id as int,
                ),
            done is Ok ==> final(self)@.links.len() == old(self)@.links.len() - old(
                self,
            )@.links_touching(id as int).len(),
            old(self)@.wf() ==> final(self)@.wf(),
    {
        match self.find_node(id) {
            Some(at) => {
                proof {
                    lemma_node_position(self@, id as int, at as int);
                }
                self.nodes.remove(at);
                retract_links(&mut self.links, id);
                proof {
                    assert(self@.nodes =~= old(self)@.nodes.remove(at as int));
                    lemma_links_apart(old(self)@.links, id as int);
                    lemma_links_split(old(self)@.links, id as int);
                    if old(self)@.wf() {
                        lemma_remove_node_wf(old(self)@, id as int);
                    }
                }
                Ok(())
            },
            None => Err(DigraphError::IdDoesNotExist(id)),
        }
    }
}

impl DigraphView {
    /// Whether a command finds what it addresses in the graph. Only then does
    /// it change the graph.
    pub open spec fn accepts(self, msg: DigraphMessage) -> bool {
        match msg {
            DigraphMessage::AddNode(_) => true,
            DigraphMessage::UpdateNode(id, _) => self.has_node(id as int),
            DigraphMessage::RemoveNode(id) => self.has_node(id as int),
            DigraphMessage::AddLink(source, target) => self.has_node(source as int)
                && self.has_node(target as int),
            DigraphMessage::RemoveLink(id) => self.has_link(id as int),
        }
    }

    /// The identifier that a rejected command reports as missing.
    pub open spec fn missing(self, msg: DigraphMessage) -> i32 {
        match msg {
            DigraphMessage::AddNode(_) => 0,
            DigraphMessage::UpdateNode(id, _) => id,
            DigraphMessage::RemoveNode(id) => id,
            DigraphMessage::AddLink(source, target) => if self.has_node(source as int) {
                target
            } else {
                source
            },
            DigraphMessage::RemoveLink(id) => id,
        }
    }

    /// The graph after an accepted command.
    pub open spec fn apply(self, msg: DigraphMessage) -> DigraphView {
        match msg {
            DigraphMessage::AddNode(attrs) => self.add_node(Some(attrs@)),
            DigraphMessage::UpdateNode(id, attrs) => self.update_node(id as int, attrs@),
            DigraphMessage::RemoveNode(id) => self.remove_node(id as int),
            DigraphMessage::AddLink(source, target) => self.add_link(
                source as int,
                target as int,
                None,
            ),
            DigraphMessage::RemoveLink(id) => self.remove_link(id as int),
        }
    }

    /// Whether a command needs a fresh identifier.
    pub open spec fn draws_id(self, msg: DigraphMessage) -> bool {
        match msg {
            DigraphMessage::AddNode(_) => true,
            DigraphMessage::AddLink(_, _) => self.accepts(msg),
            _ => false,
        }
    }
}

impl Digraph {
    /// Carries out one command. This is the one way by which a document's
    /// graph is changed.
    pub fn message(&mut self, msg: DigraphMessage) -> (done: Result<(), DigraphError>)
        requires
            old(self)@.draws_id(msg) ==> old(self)@.highest_id() < i32::MAX,
        ensures
            old(self)@.accepts(msg) ==> done == Ok::<(), DigraphError>(()) && final(self)@ == old(
                self,
            )@.apply(msg),
            !old(self)@.accepts(msg) ==> done == Err::<(), DigraphError>(
                DigraphError::IdDoesNotExist(old(self)@.missing(msg)),
            ) && *final(self) == *old(self),
            old(self)@.wf() ==> final(self)@.wf(),
    {
        match msg {
            DigraphMessage::AddNode(attrs) => self.add_node(Some(attrs)),
            DigraphMessage::UpdateNode(id, attrs) => self.update_node(id, attrs),
            DigraphMessage::RemoveNode(id) => self.remove_node(id),
            DigraphMessage::AddLink(source, target) => self.add_link(source, target, None),
            DigraphMessage::RemoveLink(id) => self.remove_link(id),
        }
    }
}

impl DigraphView {
    /// The graph after one node was added for each of the attributes, in
    /// their order.
    pub open spec fn add_nodes(self, attrs: Seq<Option<NodeAttributesView>>) -> DigraphView
        decreases attrs.len(),
    {
        if attrs.len() == 0 {
            self
        } else {
            self.add_nodes(attrs.drop_last()).add_node(attrs.last())
        }
    }
}

/// Nodes that are added one after the other receive strictly increasing
/// identifiers: each lies above the identifier of every node that stands
/// before it, old or new, and above that of every link. So no identifier of
/// an added node occurs a second time among the nodes and links.
pub proof fn lemma_added_ids_increase(g: DigraphView, attrs: Seq<Option<NodeAttributesView>>)
    ensures
        g.add_nodes(attrs).links == g.links,
        g.add_nodes(attrs).nodes.len() == g.nodes.len() + attrs.len(),
        forall|i: int| 0 <= i < g.nodes.len() ==> g.add_nodes(attrs).nodes[i] == g.nodes[i],
        forall|i: int, k: int|
            0 <= i < k < g.add_nodes(attrs).nodes.len() && g.nodes.len() <= k ==> (#[trigger] g.add_nodes(
                attrs,
            ).nodes[i]).id < (#[trigger] g.add_nodes(attrs).nodes[k]).id,
        forall|j: int, k: int|
            0 <= j < g.links.len() && g.nodes.len() <= k < g.add_nodes(attrs).nodes.len() ==> (#[trigger] g.links[j]).id
                < (#[trigger] g.add_nodes(attrs).nodes[k]).id,
    decreases attrs.len(),
{
    if attrs.len() > 0 {
        let before = g.add_nodes(attrs.drop_last());
        let after = g.add_nodes(attrs);
        lemma_added_ids_increase(g, attrs.drop_last());
        lemma_next_id_is_fresh(before);
        assert(after == before.add_node(attrs.last()));
        assert forall|i: int| 0 <= i < g.nodes.len() implies after.nodes[i] == g.nodes[i] by {
            assert(after.nodes[i] == before.nodes[i]);
        }
        assert forall|i: int, k: int|
            0 <= i < k < after.nodes.len() && g.nodes.len() <= k implies (#[trigger] after.nodes[i]).id
            < (#[trigger] after.nodes[k]).id by {
            assert(after.nodes[i] == before.nodes[i]);
            if k < before.nodes.len() {
                assert(after.nodes[k] == before.nodes[k]);
            } else {
                assert(after.nodes[k].id == before.next_id());
            }
        }
        assert forall|j: int, k: int|
            0 <= j < g.links.len() && g.nodes.len() <= k < after.nodes.len() implies (#[trigger] g.links[j]).id
            < (#[trigger] after.nodes[k]).id by {
            if k < before.nodes.len() {
                assert(after.nodes[k] == before.nodes[k]);
            } else {
                assert(after.nodes[k].id == before.next_id());
                assert(before.links[j] == g.links[j]);
            }
        }
    }
}

impl DigraphError {
    /// The text of the error: that the identifier does not exist.
    pub open spec fn text(self) -> Seq<char> {
        match self {
            DigraphError::IdDoesNotExist(id) => "id does not exist : "@ + decimal(id as int),
        }
    }

    /// Writes the error as text.
    pub fn to_string(&self) -> (s: String)
        ensures
            s@ == self.text(),
    {
        match self {
            DigraphError::IdDoesNotExist(id) => {
                let mut s = String::from_str("id does not exist : ");
                s.append(decimal_text(*id).as_str());
                s
            },
        }
    }
}

impl Digraph {
    /// Whether an identifier is left for one more node or link.
    pub fn has_spare_id(&self) -> (spare: bool)
        ensures
            spare == (self@.highest_id() < i32::MAX),
    {
        self.highest_id() < i32::MAX
    }
}

} // verus!
