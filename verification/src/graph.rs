//! The processing graph of a track: nodes wired by connectors, with one entry
//! and one exit, and never a cycle.

use vstd::prelude::*;
use crate::node::{Node, NodeId, NodeType, NodeView};
use crate::seqs::{
    keep, lemma_keep_all, lemma_keep_len, lemma_keep_member, lemma_keep_order, lemma_keep_push,
};
use crate::topology::{
    acyclic, can_reach, connector_views, edges_within, has_edge, lemma_acyclic_push,
    lemma_acyclic_within, reaches, Connector, ConnectorView,
};
use crate::value::{Value, ValueView};

verus! {

/// Why a graph refused a change.
#[derive(Clone, Copy, Debug, PartialEq, Eq, Structural)]
pub enum GraphError {
    /// No node of the graph has the id.
    UnknownNode,
    /// The connector would close a cycle.
    Cycle,
    /// A node does not declare the port.
    UnknownPort,
    /// The two ports carry values of different tags.
    TagMismatch,
    /// Another connector already ends at the input port.
    InputTaken,
    /// A node of the graph already has the id.
    DuplicateId,
    /// Entry and exit nodes are neither added nor removed.
    FixedNode,
    /// The node holds no shader.
    NotAShader,
    /// The graph has no such connector.
    UnknownConnector,
}

/// A directed graph of nodes with one entry node and one exit node.
pub struct Graph {
    nodes: Vec<Node>,
    connectors: Vec<Connector>,
    input: NodeId,
    output: NodeId,
}

/// What a `Graph` stands for in contracts.
pub struct GraphView {
    pub nodes: Seq<NodeView>,
    pub connectors: Seq<ConnectorView>,
    pub input: NodeId,
    pub output: NodeId,
}

/// Some connector of `cs` ends at the input `port` of node `to`.
pub open spec fn feeds(cs: Seq<ConnectorView>, to: NodeId, port: Seq<char>) -> bool {
    exists|i: int| 0 <= i < cs.len() && #[trigger] cs[i].to == to && cs[i].to_port == port
}

/// True of the connectors that touch node `id` at neither end.
pub open spec fn clear_of(id: NodeId) -> spec_fn(ConnectorView) -> bool {
    |c: ConnectorView| c.from != id && c.to != id
}

/// True of the connectors other than `c`.
pub open spec fn other_than(c: ConnectorView) -> spec_fn(ConnectorView) -> bool {
    |x: ConnectorView| x != c
}

/// The connectors of `cs` that touch node `id` at neither end, in order.
pub open spec fn without_node(cs: Seq<ConnectorView>, id: NodeId) -> Seq<ConnectorView> {
    keep(cs, clear_of(id))
}

/// The connectors of `cs` other than `c`, in order.
pub open spec fn without_connector(cs: Seq<ConnectorView>, c: ConnectorView) -> Seq<ConnectorView> {
    keep(cs, other_than(c))
}

/// What is kept lies within what was there.
pub proof fn lemma_keep_within(cs: Seq<ConnectorView>, pred: spec_fn(ConnectorView) -> bool)
    ensures
        edges_within(keep(cs, pred), cs),
{
    let r = keep(cs, pred);
    assert forall|k: int| 0 <= k < r.len() implies has_edge(cs, (#[trigger] r[k]).from, r[k].to) by {
        lemma_keep_member(cs, pred, k);
        let i = choose|i: int| 0 <= i < cs.len() && #[trigger] cs[i] == r[k];
        assert(cs[i].from == r[k].from && cs[i].to == r[k].to);
    }
}

impl GraphView {
    /// A node of the graph has the id `id`.
    pub open spec fn has_node(self, id: NodeId) -> bool {
        exists|i: int| 0 <= i < self.nodes.len() && #[trigger] self.nodes[i].id == id
    }

    /// The position of the node with id `id`.
    pub open spec fn index_of(self, id: NodeId) -> int {
        choose|i: int| 0 <= i < self.nodes.len() && #[trigger] self.nodes[i].id == id
    }

    /// The node with id `id`.
    pub open spec fn node(self, id: NodeId) -> NodeView {
        self.nodes[self.index_of(id)]
    }

    /// Both ends of `c` are declared ports, and their tags are equal.
    pub open spec fn tags_match(self, c: ConnectorView) -> bool {
        &&& self.has_node(c.from)
        &&& self.has_node(c.to)
        &&& self.node(c.from).kind.output_tag(c.from_port).is_some()
        &&& self.node(c.from).kind.output_tag(c.from_port) == self.node(c.to).kind.input_tag(
            c.to_port,
        )
    }

    /// No two nodes share an id.
    pub open spec fn ids_distinct(self) -> bool {
        forall|i: int, j: int|
            0 <= i < j < self.nodes.len() ==> (#[trigger] self.nodes[i]).id != (
            #[trigger] self.nodes[j]).id
    }

    /// No two connectors end at the same input port.
    pub open spec fn inputs_distinct(self) -> bool {
        forall|i: int, j: int|
            0 <= i < j < self.connectors.len() ==> !((#[trigger] self.connectors[i]).to == (
            #[trigger] self.connectors[j]).to && self.connectors[i].to_port
                == self.connectors[j].to_port)
    }

    /// The entry node is the one node of its kind, and so is the exit node.
    pub open spec fn ends_fixed(self) -> bool {
        &&& self.has_node(self.input)
        &&& self.has_node(self.output)
        &&& forall|i: int|
            0 <= i < self.nodes.len() ==> ((#[trigger] self.nodes[i]).kind.is_input()
                <==> self.nodes[i].id == self.input)
        &&& forall|i: int|
            0 <= i < self.nodes.len() ==> ((#[trigger] self.nodes[i]).kind.is_output()
                <==> self.nodes[i].id == self.output)
    }

    /// The invariant of a graph: distinct node ids, well-formed nodes, one
    /// entry and one exit, connectors between declared ports of equal tag, at
    /// most one connector into each input, and no cycle.
    pub open spec fn wf(self) -> bool {
        &&& self.ids_distinct()
        &&& forall|i: int| 0 <= i < self.nodes.len() ==> (#[trigger] self.nodes[i]).wf()
        &&& self.ends_fixed()
        &&& forall|i: int|
            0 <= i < self.connectors.len() ==> self.tags_match(#[trigger] self.connectors[i])
        &&& self.inputs_distinct()
        &&& acyclic(self.connectors)
    }

    /// Why the graph refuses the connector `c`, or `None` where it accepts it.
    pub open spec fn connect_error(self, c: ConnectorView) -> Option<GraphError> {
        if !self.has_node(c.from) || !self.has_node(c.to) {
            Some(GraphError::UnknownNode)
        } else if reaches(self.connectors, c.to, c.from) {
            Some(GraphError::Cycle)
        } else if self.node(c.from).kind.output_tag(c.from_port).is_none() || self.node(
            c.to,
        ).kind.input_tag(c.to_port).is_none() {
            Some(GraphError::UnknownPort)
        } else if self.node(c.from).kind.output_tag(c.from_port) != self.node(
            c.to,
        ).kind.input_tag(c.to_port) {
            Some(GraphError::TagMismatch)
        } else if feeds(self.connectors, c.to, c.to_port) {
            Some(GraphError::InputTaken)
        } else {
            None
        }
    }

    /// Why the graph refuses a new node of id `id` and kind `kind`, or `None`
    /// where it accepts it.
    pub open spec fn add_error(self, id: NodeId, kind: NodeType) -> Option<GraphError> {
        if !kind.is_addable() {
            Some(GraphError::FixedNode)
        } else if self.has_node(id) {
            Some(GraphError::DuplicateId)
        } else {
            None
        }
    }

    /// Why the graph refuses to remove the node `id`, or `None` where it
    /// removes it.
    pub open spec fn remove_error(self, id: NodeId) -> Option<GraphError> {
        if !self.has_node(id) {
            Some(GraphError::UnknownNode)
        } else if id == self.input || id == self.output {
            Some(GraphError::FixedNode)
        } else {
            None
        }
    }

    /// A graph as a track is created with it: an entry node, an exit node,
    /// and one connector from the `audio` output of the entry to the `audio`
    /// input of the exit.
    pub open spec fn initial(input: NodeId, output: NodeId) -> GraphView {
        GraphView {
            nodes: seq![
                NodeView {
                    id: input,
                    kind: NodeType::BufferInputNode,
                    shader: Seq::empty(),
                    constants: Seq::empty(),
                },
                NodeView {
                    id: output,
                    kind: NodeType::BufferOutputNode,
                    shader: Seq::empty(),
                    constants: Seq::empty(),
                },
            ],
            connectors: seq![
                ConnectorView { from: input, from_port: "audio"@, to: output, to_port: "audio"@ },
            ],
            input,
            output,
        }
    }

    /// The graph with the connector `c` added.
    pub open spec fn connected(self, c: ConnectorView) -> GraphView {
        GraphView { connectors: self.connectors.push(c), ..self }
    }

    /// The graph with the connector `c` taken away.
    pub open spec fn disconnected(self, c: ConnectorView) -> GraphView {
        GraphView { connectors: without_connector(self.connectors, c), ..self }
    }

    /// The graph with a fresh node of id `id` and kind `kind` added.
    pub open spec fn with_node(self, id: NodeId, kind: NodeType) -> GraphView {
        GraphView {
            nodes: self.nodes.push(
                NodeView { id, kind, shader: Seq::empty(), constants: Seq::empty() },
            ),
            ..self
        }
    }

    /// The graph with the node `id` and every connector that touches it taken
    /// away.
    pub open spec fn without(self, id: NodeId) -> GraphView {
        GraphView {
            nodes: self.nodes.remove(self.index_of(id)),
            connectors: without_node(self.connectors, id),
            ..self
        }
    }

    /// The graph with the node `id` replaced by `node`.
    pub open spec fn with_node_updated(self, id: NodeId, node: NodeView) -> GraphView {
        GraphView { nodes: self.nodes.update(self.index_of(id), node), ..self }
    }
}

impl View for Graph {
    type V = GraphView;

    closed spec fn view(&self) -> GraphView {
        GraphView {
            nodes: Seq::new(self.nodes@.len(), |i: int| self.nodes@[i]@),
            connectors: connector_views(self.connectors@),
            input: self.input,
            output: self.output,
        }
    }
}

/// Which connectors a removal takes away.
enum Removal {
    /// Those that touch the node at either end.
    Touching(NodeId),
    /// Those equal to the connector.
    Exactly(Connector),
}

impl Removal {
    /// True of the connectors that stay.
    spec fn keeps(&self) -> spec_fn(ConnectorView) -> bool {
        match self {
            Removal::Touching(id) => clear_of(*id),
            Removal::Exactly(c) => other_than(c@),
        }
    }

    /// True when `c` is taken away.
    fn hits(&self, c: &Connector) -> (r: bool)
        ensures
            r == !(self.keeps())(c@),
    {
        match self {
            Removal::Touching(id) => c.from == *id || c.to == *id,
            Removal::Exactly(x) => {
                let same = c.from == x.from && c.to == x.to && c.from_port == x.from_port
                    && c.to_port == x.to_port;
                assert(same == (c@ == x@)) by {
                    if c@ == x@ {
                        assert(c.from_port@ == x.from_port@);
                    }
                }
                same
            },
        }
    }
}

/// Takes the connectors named by `what` out of `v`, keeping the order of the
/// others, and returns how many were taken.
fn remove_connectors(v: &mut Vec<Connector>, what: &Removal) -> (removed: usize)
    ensures
        connector_views(final(v)@) == keep(connector_views(old(v)@), what.keeps()),
        removed == old(v)@.len() - final(v)@.len(),
{
    let ghost before = connector_views(v@);
    let ghost pred = what.keeps();
    let ghost mut done: int = 0;
    let mut i: usize = 0;
    let mut removed: usize = 0;
    let total = v.len();
    assert(before.len() == total);
    assert(before.subrange(0, 0) =~= Seq::empty());
    assert(connector_views(v@) =~= keep(before.subrange(0, 0), pred) + before.subrange(
        0,
        before.len() as int,
    ));
    while i < v.len()
        invariant
            pred == what.keeps(),
            before.len() == old(v)@.len(),
            before.len() <= usize::MAX,
            0 <= done <= before.len(),
            i == keep(before.subrange(0, done), pred).len(),
            removed + i == done,
            connector_views(v@) == keep(before.subrange(0, done), pred) + before.subrange(
                done,
                before.len() as int,
            ),
        decreases before.len() - done,
    {
        let ghost kept = keep(before.subrange(0, done), pred);
        let ghost now = connector_views(v@);
        assert(now.len() == v@.len());
        assert(done < before.len());
        assert(now[i as int] == before[done]);
        assert(v@[i as int]@ == before[done]);
        proof {
            assert(before.subrange(0, done + 1) =~= before.subrange(0, done).push(before[done]));
            lemma_keep_push(before.subrange(0, done), pred, before[done]);
        }
        if what.hits(&v[i]) {
            let ghost pre = v@;
            let _ = v.remove(i);
            removed += 1;
            proof {
                let after = connector_views(v@);
                let want = kept + before.subrange(done + 1, before.len() as int);
                assert(after.len() == want.len());
                assert forall|j: int| 0 <= j < after.len() implies after[j] == want[j] by {
                    if j < i {
                        assert(v@[j] == pre[j]);
                        assert(now[j] == kept[j]);
                    } else {
                        assert(v@[j] == pre[j + 1]);
                        assert(now[j + 1] == before[done + (j + 1 - i)]);
                    }
                }
                assert(after =~= want);
            }
        } else {
            i += 1;
            assert(connector_views(v@) =~= kept.push(before[done]) + before.subrange(
                done + 1,
                before.len() as int,
            ));
        }
        proof {
            done = done + 1;
        }
    }
    proof {
        assert(done == before.len());
        assert(before.subrange(0, done) =~= before);
        assert(connector_views(v@) =~= keep(before, pred));
    }
    removed
}

impl Graph {
    /// The invariant of a graph.
    pub open spec fn wf(&self) -> bool {
        self@.wf()
    }

    /// A graph of two nodes, an entry with id `input` and an exit with id
    /// `output`, and no connector. Equal ids are refused.
    pub fn new(input: NodeId, output: NodeId) -> (res: Result<Graph, GraphError>)
        ensures
            input == output ==> res == Err::<Graph, GraphError>(GraphError::DuplicateId),
            input != output ==> res.is_ok() && res.unwrap().wf() && res.unwrap()@ == (GraphView {
                nodes: seq![
                    NodeView {
                        id: input,
                        kind: NodeType::BufferInputNode,
                        shader: Seq::empty(),
                        constants: Seq::empty(),
                    },
                    NodeView {
                        id: output,
                        kind: NodeType::BufferOutputNode,
                        shader: Seq::empty(),
                        constants: Seq::empty(),
                    },
                ],
                connectors: Seq::empty(),
                input,
                output,
            }),
    {
        if input == output {
            return Err(GraphError::DuplicateId);
        }
        let mut nodes: Vec<Node> = Vec::new();
        nodes.push(Node::new(input, NodeType::BufferInputNode));
        nodes.push(Node::new(output, NodeType::BufferOutputNode));
        let g = Graph { nodes, connectors: Vec::new(), input, output };
        proof {
            let v = g@;
            assert(v.nodes.len() == 2);
            assert(v.nodes[0].id == input);
            assert(v.nodes[1].id == output);
            assert(v.nodes =~= seq![
                NodeView {
                    id: input,
                    kind: NodeType::BufferInputNode,
                    shader: Seq::empty(),
                    constants: Seq::empty(),
                },
                NodeView {
                    id: output,
                    kind: NodeType::BufferOutputNode,
                    shader: Seq::empty(),
                    constants: Seq::empty(),
                },
            ]);
            assert(v.connectors =~= Seq::empty());
            assert(v.has_node(input));
            assert(v.has_node(output));
        }
        Ok(g)
    }

    /// A graph of an entry node `input`, an exit node `output`, and the default
    /// connector between their `audio` ports. Equal ids are refused.
    pub fn wired(input: NodeId, output: NodeId) -> (res: Result<Graph, GraphError>)
        ensures
            input == output ==> res == Err::<Graph, GraphError>(GraphError::DuplicateId),
            input != output ==> res.is_ok() && res.unwrap().wf() && res.unwrap()@
                == GraphView::initial(input, output),
    {
        let mut g = match Graph::new(input, output) {
            Ok(g) => g,
            Err(e) => {
                return Err(e);
            },
        };
        let from_port = "audio".to_owned();
        let to_port = "audio".to_owned();
        proof {
            let v = g@;
            let c = ConnectorView { from: input, from_port: "audio"@, to: output, to_port: "audio"@ };
            assert(v.nodes[0].id == input && v.nodes[1].id == output);
            lemma_index_of(v, input, 0);
            lemma_index_of(v, output, 1);
            crate::topology::lemma_no_edges(v.connectors, output, input);
            assert(v.connect_error(c).is_none());
            assert(v.connected(c).connectors =~= GraphView::initial(input, output).connectors);
        }
        let r = g.connect(input, from_port, output, to_port);
        Ok(g)
    }

    /// The id of the entry node.
    pub fn get_input_node_id(&self) -> (id: NodeId)
        ensures
            id == self@.input,
    {
        self.input
    }

    /// The id of the exit node.
    pub fn get_output_node_id(&self) -> (id: NodeId)
        ensures
            id == self@.output,
    {
        self.output
    }

    /// The nodes, in the order in which they were added.
    pub fn get_nodes(&self) -> (nodes: &Vec<Node>)
        ensures
            nodes@.len() == self@.nodes.len(),
            forall|i: int| 0 <= i < nodes@.len() ==> (#[trigger] nodes@[i])@ == self@.nodes[i],
    {
        &self.nodes
    }

    /// The connectors, in the order in which they were made.
    pub fn get_connections(&self) -> (connectors: &Vec<Connector>)
        ensures
            connector_views(connectors@) == self@.connectors,
    {
        &self.connectors
    }

    /// The position of the node with id `id`, if the graph has one.
    fn find_node(&self, id: NodeId) -> (found: Option<usize>)
        ensures
            match found {
                Some(i) => i < self@.nodes.len() && self@.nodes[i as int].id == id,
                None => !self@.has_node(id),
            },
    {
        let mut i: usize = 0;
        while i < self.nodes.len()
            invariant
                i <= self.nodes@.len(),
                self@.nodes.len() == self.nodes@.len(),
                forall|j: int| 0 <= j < i ==> (#[trigger] self@.nodes[j]).id != id,
            decreases self.nodes@.len() - i,
        {
            if self.nodes[i].id() == id {
                return Some(i);
            }
            i += 1;
        }
        None
    }

    /// True when a node of the graph has the id `id`.
    pub fn contains(&self, id: NodeId) -> (r: bool)
        ensures
            r == self@.has_node(id),
    {
        self.find_node(id).is_some()
    }

    /// The node with id `id`, if the graph has one.
    pub fn get_node(&self, id: NodeId) -> (node: Option<&Node>)
        requires
            self.wf(),
        ensures
            node.is_some() == self@.has_node(id),
            node matches Some(n) ==> n@ == self@.node(id),
    {
        match self.find_node(id) {
            Some(i) => {
                proof {
                    lemma_index_of(self@, id, i as int);
                }
                Some(&self.nodes[i])
            },
            None => None,
        }
    }
}

impl Graph {
    /// True when a connector already ends at the input `port` of node `to`.
    fn is_fed(&self, to: NodeId, port: &String) -> (r: bool)
        ensures
            r == feeds(self@.connectors, to, port@),
    {
        let ghost cs = self@.connectors;
        let mut i: usize = 0;
        while i < self.connectors.len()
            invariant
                i <= self.connectors@.len(),
                cs == connector_views(self.connectors@),
                forall|j: int| 0 <= j < i ==> !(#[trigger] cs[j].to == to && cs[j].to_port == port@),
            decreases self.connectors@.len() - i,
        {
            if self.connectors[i].to == to && self.connectors[i].to_port == *port {
                assert(cs[i as int].to == to && cs[i as int].to_port == port@);
                return true;
            }
            i += 1;
        }
        false
    }

    /// Adds a node of id `id` and kind `kind`. Entry and exit kinds, and an id
    /// already in use, are refused and change nothing.
    pub fn add_node(&mut self, id: NodeId, kind: NodeType) -> (res: Result<(), GraphError>)
        requires
            old(self).wf(),
        ensures
            final(self).wf(),
            match old(self)@.add_error(id, kind) {
                Some(e) => res == Err::<(), GraphError>(e) && final(self)@ == old(self)@,
                None => res.is_ok() && final(self)@ == old(self)@.with_node(id, kind),
            },
    {
        match kind {
            NodeType::BufferInputNode | NodeType::BufferOutputNode => {
                return Err(GraphError::FixedNode);
            },
            _ => {},
        }
        if self.find_node(id).is_some() {
            return Err(GraphError::DuplicateId);
        }
        proof {
            lemma_with_node_wf(self@, id, kind);
        }
        let ghost before = self@;
        self.nodes.push(Node::new(id, kind));
        assert(self@.nodes =~= before.with_node(id, kind).nodes);
        Ok(())
    }

    /// Removes the node `id` and every connector that touches it. The entry
    /// node, the exit node and an unknown id are refused and change nothing.
    pub fn remove_node(&mut self, id: NodeId) -> (res: Result<(), GraphError>)
        requires
            old(self).wf(),
        ensures
            final(self).wf(),
            match old(self)@.remove_error(id) {
                Some(e) => res == Err::<(), GraphError>(e) && final(self)@ == old(self)@,
                None => res.is_ok() && final(self)@ == old(self)@.without(id),
            },
    {
        let i = match self.find_node(id) {
            Some(i) => i,
            None => {
                return Err(GraphError::UnknownNode);
            },
        };
        if id == self.input || id == self.output {
            return Err(GraphError::FixedNode);
        }
        let ghost before = self@;
        proof {
            lemma_index_of(before, id, i as int);
            lemma_without_wf(before, id);
        }
        let _ = self.nodes.remove(i);
        let _ = remove_connectors(&mut self.connectors, &Removal::Touching(id));
        assert(self@.nodes =~= before.without(id).nodes);
        Ok(())
    }

    /// Wires the output `from_port` of node `from` to the input `to_port` of
    /// node `to`. A connector that names an unknown node, would close a cycle,
    /// names an undeclared port, joins ports of different tags, or ends at an
    /// input that is already fed is refused and changes nothing.
    pub fn connect(&mut self, from: NodeId, from_port: String, to: NodeId, to_port: String) -> (res:
        Result<(), GraphError>)
        requires
            old(self).wf(),
        ensures
            final(self).wf(),
            match old(self)@.connect_error(
                ConnectorView { from, from_port: from_port@, to, to_port: to_port@ },
            ) {
                Some(e) => res == Err::<(), GraphError>(e) && final(self)@ == old(self)@,
                None => res.is_ok() && final(self)@ == old(self)@.connected(
                    ConnectorView { from, from_port: from_port@, to, to_port: to_port@ },
                ),
            },
    {
        let ghost c = ConnectorView { from, from_port: from_port@, to, to_port: to_port@ };
        let ghost before = self@;
        let i = match self.find_node(from) {
            Some(i) => i,
            None => {
                return Err(GraphError::UnknownNode);
            },
        };
        let j = match self.find_node(to) {
            Some(j) => j,
            None => {
                return Err(GraphError::UnknownNode);
            },
        };
        proof {
            lemma_index_of(before, from, i as int);
            lemma_index_of(before, to, j as int);
        }
        if can_reach(&self.connectors, to, from) {
            return Err(GraphError::Cycle);
        }
        let out_tag = self.nodes[i].kind().find_output(&from_port);
        let in_tag = self.nodes[j].kind().find_input(&to_port);
        let (out_tag, in_tag) = match (out_tag, in_tag) {
            (Some(a), Some(b)) => (a, b),
            _ => {
                return Err(GraphError::UnknownPort);
            },
        };
        if out_tag != in_tag {
            return Err(GraphError::TagMismatch);
        }
        if self.is_fed(to, &to_port) {
            return Err(GraphError::InputTaken);
        }
        proof {
            lemma_connected_wf(before, c);
        }
        self.connectors.push(Connector { from, from_port, to, to_port });
        assert(self@.connectors =~= before.connectors.push(c));
        Ok(())
    }

    /// Takes away the connector from the output `from_port` of node `from` to
    /// the input `to_port` of node `to`, and says whether there was one.
    pub fn disconnect(&mut self, from: NodeId, from_port: String, to: NodeId, to_port: String) -> (removed:
        bool)
        requires
            old(self).wf(),
        ensures
            final(self).wf(),
            final(self)@ == old(self)@.disconnected(
                ConnectorView { from, from_port: from_port@, to, to_port: to_port@ },
            ),
            removed == old(self)@.connectors.contains(
                ConnectorView { from, from_port: from_port@, to, to_port: to_port@ },
            ),
    {
        let ghost c = ConnectorView { from, from_port: from_port@, to, to_port: to_port@ };
        let ghost before = self@;
        let what = Removal::Exactly(Connector { from, from_port, to, to_port });
        let count = remove_connectors(&mut self.connectors, &what);
        proof {
            lemma_disconnected_wf(before, c);
            lemma_keep_len(before.connectors, other_than(c));
            if before.connectors.contains(c) {
                let i = choose|i: int| 0 <= i < before.connectors.len() && before.connectors[i] == c;
                assert(!(other_than(c))(before.connectors[i]));
            }
        }
        count > 0
    }

    /// Sets the constant for the input `key` of node `id`. An unknown node and
    /// an undeclared input are refused and change nothing.
    pub fn set_input(&mut self, id: NodeId, key: String, value: Value) -> (res: Result<
        (),
        GraphError,
    >)
        requires
            old(self).wf(),
        ensures
            final(self).wf(),
            !old(self)@.has_node(id) ==> res == Err::<(), GraphError>(GraphError::UnknownNode)
                && final(self)@ == old(self)@,
            old(self)@.has_node(id) && old(self)@.node(id).kind.input_tag(key@).is_none() ==> res
                == Err::<(), GraphError>(GraphError::UnknownPort) && final(self)@ == old(self)@,
            old(self)@.has_node(id) && old(self)@.node(id).kind.input_tag(key@).is_some()
                ==> res.is_ok() && final(self)@ == old(self)@.with_node_updated(
                id,
                old(self)@.node(id).with_constant(key@, value@),
            ),
    {
        let i = match self.find_node(id) {
            Some(i) => i,
            None => {
                return Err(GraphError::UnknownNode);
            },
        };
        let ghost before = self@;
        proof {
            lemma_index_of(before, id, i as int);
        }
        let mut node = self.nodes.remove(i);
        let r = node.set_input(key, value);
        proof {
            lemma_with_node_updated_wf(before, id, node@);
        }
        self.nodes.insert(i, node);
        assert(self@.nodes =~= before.nodes.update(i as int, node@));
        match r {
            Ok(()) => Ok(()),
            Err(_) => {
                assert(self@.nodes =~= before.nodes);
                Err(GraphError::UnknownPort)
            },
        }
    }

    /// Stores `source` as the shader of node `id`. An unknown node and a node
    /// that is no audio shader are refused and change nothing.
    pub fn set_shader(&mut self, id: NodeId, source: String) -> (res: Result<(), GraphError>)
        requires
            old(self).wf(),
        ensures
            final(self).wf(),
            !old(self)@.has_node(id) ==> res == Err::<(), GraphError>(GraphError::UnknownNode)
                && final(self)@ == old(self)@,
            old(self)@.has_node(id) && old(self)@.node(id).kind != NodeType::AudioShaderNode
                ==> res == Err::<(), GraphError>(GraphError::NotAShader) && final(self)@ == old(
                self,
            )@,
            old(self)@.has_node(id) && old(self)@.node(id).kind == NodeType::AudioShaderNode
                ==> res.is_ok() && final(self)@ == old(self)@.with_node_updated(
                id,
                NodeView { shader: source@, ..old(self)@.node(id) },
            ),
    {
        let i = match self.find_node(id) {
            Some(i) => i,
            None => {
                return Err(GraphError::UnknownNode);
            },
        };
        let ghost before = self@;
        proof {
            lemma_index_of(before, id, i as int);
        }
        let mut node = self.nodes.remove(i);
        let r = node.set_shader(source);
        proof {
            lemma_with_node_updated_wf(before, id, node@);
        }
        self.nodes.insert(i, node);
        assert(self@.nodes =~= before.nodes.update(i as int, node@));
        match r {
            Ok(()) => Ok(()),
            Err(_) => {
                assert(self@.nodes =~= before.nodes);
                Err(GraphError::NotAShader)
            },
        }
    }
}

/// In a graph of distinct ids the node with a given id has one position.
pub proof fn lemma_index_of(g: GraphView, id: NodeId, i: int)
    requires
        g.ids_distinct(),
        0 <= i < g.nodes.len(),
        g.nodes[i].id == id,
    ensures
        g.has_node(id),
        g.index_of(id) == i,
{
    let k = g.index_of(id);
    if k < i {
        assert(g.nodes[k].id != g.nodes[i].id);
    } else if i < k {
        assert(g.nodes[i].id != g.nodes[k].id);
    }
}

/// Two graphs that hold the same node under an id agree on that id.
proof fn lemma_same_node(g: GraphView, h: GraphView, id: NodeId, i: int, j: int)
    requires
        g.ids_distinct(),
        h.ids_distinct(),
        0 <= i < g.nodes.len(),
        0 <= j < h.nodes.len(),
        g.nodes[i].id == id,
        h.nodes[j] == g.nodes[i],
    ensures
        g.has_node(id),
        h.has_node(id),
        h.node(id) == g.node(id),
{
    lemma_index_of(g, id, i);
    lemma_index_of(h, id, j);
}

/// A graph stays well-formed when a fresh node of a kind that may be added
/// joins it.
pub proof fn lemma_with_node_wf(g: GraphView, id: NodeId, kind: NodeType)
    requires
        g.wf(),
        g.add_error(id, kind).is_none(),
    ensures
        g.with_node(id, kind).wf(),
{
    let h = g.with_node(id, kind);
    let n = g.nodes.len() as int;
    assert forall|i: int, j: int| 0 <= i < j < h.nodes.len() implies (#[trigger] h.nodes[i]).id != (
    #[trigger] h.nodes[j]).id by {
        if j == n {
            assert(h.nodes[i] == g.nodes[i]);
        } else {
            assert(h.nodes[i] == g.nodes[i] && h.nodes[j] == g.nodes[j]);
        }
    }
    assert forall|i: int| 0 <= i < h.nodes.len() implies (#[trigger] h.nodes[i]).wf() by {
        if i < n {
            assert(h.nodes[i] == g.nodes[i]);
        }
    }
    lemma_same_node(g, h, g.input, g.index_of(g.input), g.index_of(g.input));
    lemma_same_node(g, h, g.output, g.index_of(g.output), g.index_of(g.output));
    assert forall|i: int| 0 <= i < h.nodes.len() implies (((#[trigger] h.nodes[i]).kind.is_input()
        <==> h.nodes[i].id == h.input) && (h.nodes[i].kind.is_output() <==> h.nodes[i].id
        == h.output)) by {
        if i < n {
            assert(h.nodes[i] == g.nodes[i]);
        }
    }
    assert forall|i: int| 0 <= i < h.connectors.len() implies h.tags_match(
        #[trigger] h.connectors[i],
    ) by {
        let c = g.connectors[i];
        assert(g.tags_match(c));
        lemma_same_node(g, h, c.from, g.index_of(c.from), g.index_of(c.from));
        lemma_same_node(g, h, c.to, g.index_of(c.to), g.index_of(c.to));
    }
}

/// A graph stays well-formed when a connector that it accepts is added.
pub proof fn lemma_connected_wf(g: GraphView, c: ConnectorView)
    requires
        g.wf(),
        g.connect_error(c).is_none(),
    ensures
        g.connected(c).wf(),
{
    let h = g.connected(c);
    let n = g.connectors.len() as int;
    assert forall|i: int| 0 <= i < h.connectors.len() implies h.tags_match(
        #[trigger] h.connectors[i],
    ) by {
        if i < n {
            assert(h.connectors[i] == g.connectors[i]);
            assert(g.tags_match(g.connectors[i]));
        }
    }
    assert forall|i: int, j: int| 0 <= i < j < h.connectors.len() implies !((
    #[trigger] h.connectors[i]).to == (#[trigger] h.connectors[j]).to && h.connectors[i].to_port
        == h.connectors[j].to_port) by {
        assert(h.connectors[i] == g.connectors[i]);
        if j < n {
            assert(h.connectors[j] == g.connectors[j]);
        }
    }
    lemma_acyclic_push(g.connectors, c);
}

/// A graph stays well-formed when some of its connectors are taken away.
proof fn lemma_kept_wf(g: GraphView, pred: spec_fn(ConnectorView) -> bool)
    requires
        g.wf(),
    ensures
        (GraphView { connectors: keep(g.connectors, pred), ..g }).wf(),
{
    let h = GraphView { connectors: keep(g.connectors, pred), ..g };
    assert forall|k: int| 0 <= k < h.connectors.len() implies h.tags_match(
        #[trigger] h.connectors[k],
    ) by {
        lemma_keep_member(g.connectors, pred, k);
        let i = choose|i: int| 0 <= i < g.connectors.len() && #[trigger] g.connectors[i] == h.connectors[k];
        assert(g.tags_match(g.connectors[i]));
    }
    assert forall|k1: int, k2: int| 0 <= k1 < k2 < h.connectors.len() implies !((
    #[trigger] h.connectors[k1]).to == (#[trigger] h.connectors[k2]).to
        && h.connectors[k1].to_port == h.connectors[k2].to_port) by {
        lemma_keep_order(g.connectors, pred, k1, k2);
    }
    lemma_keep_within(g.connectors, pred);
    lemma_acyclic_within(h.connectors, g.connectors);
}

/// A graph stays well-formed when a connector is taken away.
pub proof fn lemma_disconnected_wf(g: GraphView, c: ConnectorView)
    requires
        g.wf(),
    ensures
        g.disconnected(c).wf(),
{
    lemma_kept_wf(g, other_than(c));
}

/// A graph stays well-formed when a node other than its entry and exit is
/// taken away with the connectors that touch it.
pub proof fn lemma_without_wf(g: GraphView, id: NodeId)
    requires
        g.wf(),
        g.remove_error(id).is_none(),
    ensures
        g.without(id).wf(),
{
    let k = g.index_of(id);
    let mid = GraphView { connectors: without_node(g.connectors, id), ..g };
    lemma_kept_wf(g, clear_of(id));
    let h = g.without(id);
    assert(h.nodes == g.nodes.remove(k));
    assert forall|i: int| 0 <= i < h.nodes.len() implies #[trigger] h.nodes[i] == g.nodes[if i < k {
        i
    } else {
        i + 1
    }] by {}
    assert forall|i: int, j: int| 0 <= i < j < h.nodes.len() implies (#[trigger] h.nodes[i]).id != (
    #[trigger] h.nodes[j]).id by {
        let i0 = if i < k { i } else { i + 1 };
        let j0 = if j < k { j } else { j + 1 };
        assert(h.nodes[i] == g.nodes[i0] && h.nodes[j] == g.nodes[j0]);
        assert(g.nodes[i0].id != g.nodes[j0].id);
    }
    assert forall|x: NodeId| x != id && g.has_node(x) implies h.has_node(x) && h.node(x) == g.node(
        x,
    ) by {
        let i0 = g.index_of(x);
        lemma_index_of(g, x, i0);
        assert(i0 != k) by {
            lemma_index_of(g, id, k);
        }
        let i = if i0 < k { i0 } else { i0 - 1 };
        assert(h.nodes[i] == g.nodes[i0]);
        lemma_same_node(g, h, x, i0, i);
    }
    assert forall|i: int| 0 <= i < h.nodes.len() implies (#[trigger] h.nodes[i]).wf() by {
        let i0 = if i < k { i } else { i + 1 };
        assert(h.nodes[i] == g.nodes[i0]);
    }
    assert forall|i: int| 0 <= i < h.nodes.len() implies (((#[trigger] h.nodes[i]).kind.is_input()
        <==> h.nodes[i].id == h.input) && (h.nodes[i].kind.is_output() <==> h.nodes[i].id
        == h.output)) by {
        let i0 = if i < k { i } else { i + 1 };
        assert(h.nodes[i] == g.nodes[i0]);
    }
    assert forall|m: int| 0 <= m < h.connectors.len() implies h.tags_match(
        #[trigger] h.connectors[m],
    ) by {
        lemma_keep_member(g.connectors, clear_of(id), m);
        assert(mid.tags_match(mid.connectors[m]));
        let c = h.connectors[m];
        assert(c.from != id && c.to != id);
        assert(g.has_node(c.from) && g.has_node(c.to));
        assert(mid.node(c.from) == g.node(c.from));
        assert(mid.node(c.to) == g.node(c.to));
    }
}

/// A graph stays well-formed when a node is replaced by a well-formed node of
/// the same id and kind.
pub proof fn lemma_with_node_updated_wf(g: GraphView, id: NodeId, node: NodeView)
    requires
        g.wf(),
        g.has_node(id),
        node.id == id,
        node.kind == g.node(id).kind,
        node.wf(),
    ensures
        g.with_node_updated(id, node).wf(),
        g.with_node_updated(id, node).has_node(id),
        g.with_node_updated(id, node).node(id) == node,
{
    let k = g.index_of(id);
    let h = g.with_node_updated(id, node);
    assert forall|i: int| 0 <= i < h.nodes.len() implies (#[trigger] h.nodes[i]).id == g.nodes[i].id
        && h.nodes[i].kind == g.nodes[i].kind by {}
    assert forall|i: int, j: int| 0 <= i < j < h.nodes.len() implies (#[trigger] h.nodes[i]).id != (
    #[trigger] h.nodes[j]).id by {
        assert(g.nodes[i].id != g.nodes[j].id);
    }
    assert forall|x: NodeId| g.has_node(x) implies h.has_node(x) && h.node(x).kind == g.node(
        x,
    ).kind && h.index_of(x) == g.index_of(x) by {
        let i0 = g.index_of(x);
        assert(h.nodes[i0].id == x);
        lemma_index_of(h, x, i0);
    }
    assert forall|i: int| 0 <= i < h.nodes.len() implies (#[trigger] h.nodes[i]).wf() by {
        if i != k {
            assert(h.nodes[i] == g.nodes[i]);
        }
    }
    assert forall|i: int| 0 <= i < h.nodes.len() implies (((#[trigger] h.nodes[i]).kind.is_input()
        <==> h.nodes[i].id == h.input) && (h.nodes[i].kind.is_output() <==> h.nodes[i].id
        == h.output)) by {
        assert(g.nodes[i].kind.is_input() <==> g.nodes[i].id == g.input);
    }
    assert forall|m: int| 0 <= m < h.connectors.len() implies h.tags_match(
        #[trigger] h.connectors[m],
    ) by {
        assert(g.tags_match(g.connectors[m]));
    }
}

/// A change that a command asks of a graph.
pub enum GraphCommand {
    /// Add a node of the given id and kind.
    AddNode(NodeId, NodeType),
    /// Remove the node and the connectors that touch it.
    RemoveNode(NodeId),
    /// Make the connector.
    Connect(Connector),
    /// Take the connector away.
    Disconnect(Connector),
    /// Set the constant for an input of the node.
    SetInput(NodeId, String, Value),
    /// Store the source as the node's shader.
    SetShader(NodeId, String),
}

/// What a `GraphCommand` stands for in contracts.
pub enum GraphOp {
    AddNode(NodeId, NodeType),
    RemoveNode(NodeId),
    Connect(ConnectorView),
    Disconnect(ConnectorView),
    SetInput(NodeId, Seq<char>, ValueView),
    SetShader(NodeId, Seq<char>),
}

impl View for GraphCommand {
    type V = GraphOp;

    open spec fn view(&self) -> GraphOp {
        match self {
            GraphCommand::AddNode(id, kind) => GraphOp::AddNode(*id, *kind),
            GraphCommand::RemoveNode(id) => GraphOp::RemoveNode(*id),
            GraphCommand::Connect(c) => GraphOp::Connect(c@),
            GraphCommand::Disconnect(c) => GraphOp::Disconnect(c@),
            GraphCommand::SetInput(id, key, value) => GraphOp::SetInput(*id, key@, value@),
            GraphCommand::SetShader(id, source) => GraphOp::SetShader(*id, source@),
        }
    }
}

impl GraphView {
    /// Why the graph refuses `op`, or `None` where it accepts it.
    pub open spec fn op_error(self, op: GraphOp) -> Option<GraphError> {
        match op {
            GraphOp::AddNode(id, kind) => self.add_error(id, kind),
            GraphOp::RemoveNode(id) => self.remove_error(id),
            GraphOp::Connect(c) => self.connect_error(c),
            GraphOp::Disconnect(c) => if self.connectors.contains(c) {
                None
            } else {
                Some(GraphError::UnknownConnector)
            },
            GraphOp::SetInput(id, key, value) => if !self.has_node(id) {
                Some(GraphError::UnknownNode)
            } else if self.node(id).kind.input_tag(key).is_none() {
                Some(GraphError::UnknownPort)
            } else {
                None
            },
            GraphOp::SetShader(id, source) => if !self.has_node(id) {
                Some(GraphError::UnknownNode)
            } else if self.node(id).kind != NodeType::AudioShaderNode {
                Some(GraphError::NotAShader)
            } else {
                None
            },
        }
    }

    /// The graph after `op`: changed where the graph accepts the change, as
    /// before where it refuses.
    pub open spec fn after(self, op: GraphOp) -> GraphView {
        if self.op_error(op).is_some() {
            self
        } else {
            match op {
                GraphOp::AddNode(id, kind) => self.with_node(id, kind),
                GraphOp::RemoveNode(id) => self.without(id),
                GraphOp::Connect(c) => self.connected(c),
                GraphOp::Disconnect(c) => self.disconnected(c),
                GraphOp::SetInput(id, key, value) => self.with_node_updated(
                    id,
                    self.node(id).with_constant(key, value),
                ),
                GraphOp::SetShader(id, source) => self.with_node_updated(
                    id,
                    NodeView { shader: source, ..self.node(id) },
                ),
            }
        }
    }

    /// The graph after each of `ops` in turn.
    pub open spec fn after_all(self, ops: Seq<GraphOp>) -> GraphView
        decreases ops.len(),
    {
        if ops.len() == 0 {
            self
        } else {
            self.after_all(ops.drop_last()).after(ops.last())
        }
    }
}

impl Graph {
    /// Carries out `command`. A change that the graph refuses leaves it as it
    /// was and is answered with the reason.
    pub fn apply(&mut self, command: GraphCommand) -> (res: Result<(), GraphError>)
        requires
            old(self).wf(),
        ensures
            final(self).wf(),
            final(self)@ == old(self)@.after(command@),
            match old(self)@.op_error(command@) {
                Some(e) => res == Err::<(), GraphError>(e),
                None => res.is_ok(),
            },
    {
        match command {
            GraphCommand::AddNode(id, kind) => self.add_node(id, kind),
            GraphCommand::RemoveNode(id) => self.remove_node(id),
            GraphCommand::Connect(c) => self.connect(c.from, c.from_port, c.to, c.to_port),
            GraphCommand::Disconnect(c) => {
                proof {
                    if !self@.connectors.contains(c@) {
                        assert forall|i: int| 0 <= i < self@.connectors.len() implies (other_than(
                            c@,
                        ))(#[trigger] self@.connectors[i]) by {}
                        lemma_keep_all(self@.connectors, other_than(c@));
                    }
                }
                if self.disconnect(c.from, c.from_port, c.to, c.to_port) {
                    Ok(())
                } else {
                    Err(GraphError::UnknownConnector)
                }
            },
            GraphCommand::SetInput(id, key, value) => self.set_input(id, key, value),
            GraphCommand::SetShader(id, source) => self.set_shader(id, source),
        }
    }
}

/// A well-formed graph is well-formed after any change.
pub proof fn lemma_after_wf(g: GraphView, op: GraphOp)
    requires
        g.wf(),
    ensures
        g.after(op).wf(),
        g.after(op).input == g.input,
        g.after(op).output == g.output,
{
    if g.op_error(op).is_none() {
        match op {
            GraphOp::AddNode(id, kind) => {
                lemma_with_node_wf(g, id, kind);
            },
            GraphOp::RemoveNode(id) => {
                lemma_without_wf(g, id);
            },
            GraphOp::Connect(c) => {
                lemma_connected_wf(g, c);
            },
            GraphOp::Disconnect(c) => {
                lemma_disconnected_wf(g, c);
            },
            GraphOp::SetInput(id, key, value) => {
                let k = g.index_of(id);
                assert(g.nodes[k].wf());
                crate::node::lemma_with_constant_wf(g.node(id), key, value);
                lemma_with_node_updated_wf(g, id, g.node(id).with_constant(key, value));
            },
            GraphOp::SetShader(id, source) => {
                let k = g.index_of(id);
                assert(g.nodes[k].wf());
                lemma_with_node_updated_wf(g, id, NodeView { shader: source, ..g.node(id) });
            },
        }
    }
}

/// The graph that a track is created with is well-formed.
pub proof fn lemma_initial_wf(input: NodeId, output: NodeId)
    requires
        input != output,
    ensures
        GraphView::initial(input, output).wf(),
{
    let g = GraphView::initial(input, output);
    assert(g.nodes[0].id == input && g.nodes[1].id == output);
    lemma_index_of(g, input, 0);
    lemma_index_of(g, output, 1);
    assert(g.connectors[0].from == input);
    assert forall|i: int| 0 <= i < g.connectors.len() implies g.tags_match(
        #[trigger] g.connectors[i],
    ) by {}
    assert forall|i: int| 0 <= i < g.connectors.len() implies !reaches(
        g.connectors,
        (#[trigger] g.connectors[i]).to,
        g.connectors[i].from,
    ) by {
        if reaches(g.connectors, output, input) {
            crate::topology::lemma_no_way_out(g.connectors, output, input);
        }
    }
}

/// A change gives a graph no node that it had not before, but for the node
/// that the change adds.
pub proof fn lemma_after_nodes(g: GraphView, op: GraphOp, x: NodeId)
    requires
        g.wf(),
        g.after(op).has_node(x),
    ensures
        g.has_node(x) || (op matches GraphOp::AddNode(id, _) && id == x),
{
    let h = g.after(op);
    let i = h.index_of(x);
    if g.op_error(op).is_none() {
        match op {
            GraphOp::AddNode(id, kind) => {
                if i < g.nodes.len() {
                    assert(g.nodes[i].id == x);
                }
            },
            GraphOp::RemoveNode(id) => {
                let k = g.index_of(id);
                let i0 = if i < k { i } else { i + 1 };
                assert(h.nodes[i] == g.nodes[i0]);
            },
            GraphOp::Connect(c) => {},
            GraphOp::Disconnect(c) => {},
            GraphOp::SetInput(id, key, value) => {
                let k = g.index_of(id);
                crate::node::lemma_with_constant_wf(g.node(id), key, value);
                assert(g.nodes[i].id == x);
            },
            GraphOp::SetShader(id, source) => {
                assert(g.nodes[i].id == x);
            },
        }
    }
}

/// Whatever sequence of changes a well-formed graph goes through, whether it
/// accepts or refuses each, it has no cycle, every connector
/// joins declared ports of equal tag, and the entry and exit nodes it was
/// created with are still its entry and its exit.
pub proof fn lemma_graph_invariant(g: GraphView, ops: Seq<GraphOp>)
    requires
        g.wf(),
    ensures
        g.after_all(ops).wf(),
        acyclic(g.after_all(ops).connectors),
        forall|i: int|
            0 <= i < g.after_all(ops).connectors.len() ==> g.after_all(ops).tags_match(
                #[trigger] g.after_all(ops).connectors[i],
            ),
        g.after_all(ops).input == g.input,
        g.after_all(ops).output == g.output,
        g.after_all(ops).has_node(g.input),
        g.after_all(ops).has_node(g.output),
        g.after_all(ops).node(g.input).kind == NodeType::BufferInputNode,
        g.after_all(ops).node(g.output).kind == NodeType::BufferOutputNode,
    decreases ops.len(),
{
    if ops.len() > 0 {
        lemma_graph_invariant(g, ops.drop_last());
        lemma_after_wf(g.after_all(ops.drop_last()), ops.last());
    }
    let h = g.after_all(ops);
    let i = h.index_of(h.input);
    let o = h.index_of(h.output);
    assert(h.nodes[i].kind.is_input());
    assert(h.nodes[o].kind.is_output());
}

/// The entry node and the exit node of a well-formed graph are distinct, and
/// neither can be removed.
pub proof fn lemma_ends_stay(g: GraphView)
    requires
        g.wf(),
    ensures
        g.input != g.output,
        g.remove_error(g.input) == Some(GraphError::FixedNode),
        g.remove_error(g.output) == Some(GraphError::FixedNode),
        g.after(GraphOp::RemoveNode(g.input)) == g,
        g.after(GraphOp::RemoveNode(g.output)) == g,
        forall|id: NodeId|
            g.add_error(id, NodeType::BufferInputNode).is_some() && g.add_error(
                id,
                NodeType::BufferOutputNode,
            ).is_some(),
{
    let i = g.index_of(g.input);
    assert(g.nodes[i].kind.is_input());
    assert(!g.nodes[i].kind.is_output());
}

/// Removing a node right after it was added gives back the graph as it was,
/// and so its number of nodes.
pub proof fn lemma_add_then_remove(g: GraphView, id: NodeId, kind: NodeType)
    requires
        g.wf(),
        g.add_error(id, kind).is_none(),
    ensures
        g.with_node(id, kind).remove_error(id).is_none(),
        g.with_node(id, kind).without(id) == g,
        g.after(GraphOp::AddNode(id, kind)).after(GraphOp::RemoveNode(id)) == g,
        g.after(GraphOp::AddNode(id, kind)).after(GraphOp::RemoveNode(id)).nodes.len()
            == g.nodes.len(),
{
    let h = g.with_node(id, kind);
    let n = g.nodes.len() as int;
    lemma_with_node_wf(g, id, kind);
    assert(h.nodes[n].id == id);
    lemma_index_of(h, id, n);
    assert(h.nodes.remove(n) =~= g.nodes);
    assert forall|i: int| 0 <= i < g.connectors.len() implies (clear_of(id))(
        #[trigger] g.connectors[i],
    ) by {
        assert(g.tags_match(g.connectors[i]));
    }
    lemma_keep_all(g.connectors, clear_of(id));
    assert(id != g.input && id != g.output);
}

/// Taking a connector away right after it was made gives back the graph as it
/// was.
pub proof fn lemma_connect_then_disconnect(g: GraphView, c: ConnectorView)
    requires
        g.wf(),
        g.connect_error(c).is_none(),
    ensures
        g.connected(c).disconnected(c) == g,
        g.after(GraphOp::Connect(c)).after(GraphOp::Disconnect(c)) == g,
{
    assert(g.connected(c).connectors[g.connectors.len() as int] == c);
    lemma_keep_push(g.connectors, other_than(c), c);
    assert forall|i: int| 0 <= i < g.connectors.len() implies (other_than(c))(
        #[trigger] g.connectors[i],
    ) by {
        if g.connectors[i] == c {
            assert(g.connectors[i].to == c.to && g.connectors[i].to_port == c.to_port);
        }
    }
    lemma_keep_all(g.connectors, other_than(c));
}

impl Clone for Graph {
    fn clone(&self) -> (g: Graph)
        ensures
            g@ == self@,
    {
        let mut nodes: Vec<Node> = Vec::new();
        let mut i: usize = 0;
        while i < self.nodes.len()
            invariant
                i <= self.nodes@.len(),
                nodes@.len() == i,
                forall|j: int| 0 <= j < i ==> (#[trigger] nodes@[j])@ == self.nodes@[j]@,
            decreases self.nodes@.len() - i,
        {
            nodes.push(self.nodes[i].clone());
            i += 1;
        }
        let mut connectors: Vec<Connector> = Vec::new();
        let mut k: usize = 0;
        while k < self.connectors.len()
            invariant
                k <= self.connectors@.len(),
                connectors@.len() == k,
                forall|j: int| 0 <= j < k ==> (#[trigger] connectors@[j])@ == self.connectors@[j]@,
            decreases self.connectors@.len() - k,
        {
            connectors.push(self.connectors[k].clone());
            k += 1;
        }
        let g = Graph { nodes, connectors, input: self.input, output: self.output };
        assert(g@.nodes =~= self@.nodes);
        assert(g@.connectors =~= self@.connectors);
        g
    }
}

} // verus!
