//! The order in which the nodes of a graph are evaluated for one tick.

use vstd::prelude::*;
use crate::graph::{feeds, lemma_index_of, Graph, GraphView};
use crate::mixer::{Mixer, MixerView};
use crate::node::NodeId;
use crate::value::{Value, ValueView};
use crate::topology::{
    can_reach, connector_views, count_false, has_edge, lemma_count_false_set,
    lemma_reaches_self, lemma_reaches_then_edge, lemma_reaches_trans, reaches, Connector,
    ConnectorView,
};

verus! {

/// Node `x` is a node of the graph from which a walk leads to the exit: what
/// it puts out can reach the track's output.
pub open spec fn feeds_output(g: GraphView, x: NodeId) -> bool {
    g.has_node(x) && reaches(g.connectors, x, g.output)
}

/// The source of every connector that ends at node `id` occurs in `order`.
pub open spec fn sources_in(cs: Seq<ConnectorView>, order: Seq<NodeId>, id: NodeId) -> bool {
    forall|i: int| 0 <= i < cs.len() && (#[trigger] cs[i]).to == id ==> order.contains(cs[i].from)
}

/// Every node of `order` stands behind the sources of the connectors that end
/// at it.
pub open spec fn sources_first(cs: Seq<ConnectorView>, order: Seq<NodeId>) -> bool {
    forall|i: int, k: int|
        0 <= i < cs.len() && 0 <= k < order.len() && (#[trigger] cs[i]).to == (
        #[trigger] order[k]) ==> exists|j: int| 0 <= j < k && order[j] == cs[i].from
}

/// `order` is an order of evaluation for the graph `g`: it holds, once each,
/// exactly the nodes from which a walk leads to the exit, and each of them
/// after every node that is wired into it.
pub open spec fn is_evaluation_order(g: GraphView, order: Seq<NodeId>) -> bool {
    &&& order.no_duplicates()
    &&& forall|x: NodeId| order.contains(x) <==> feeds_output(g, x)
    &&& sources_first(g.connectors, order)
}

/// The nodes of `g` from which a walk leads to `x`.
pub open spec fn ancestors(g: GraphView, x: NodeId) -> Set<NodeId> {
    Set::new(|y: NodeId| g.has_node(y) && reaches(g.connectors, y, x))
}

/// The ids of the nodes of `g`.
pub open spec fn node_ids(g: GraphView) -> Set<NodeId> {
    Set::new(|y: NodeId| g.has_node(y))
}

/// A graph has finitely many nodes, so every node has finitely many
/// ancestors.
proof fn lemma_ancestors_finite(g: GraphView, x: NodeId)
    ensures
        node_ids(g).finite(),
        ancestors(g, x).finite(),
{
    let ids = Seq::new(g.nodes.len(), |i: int| g.nodes[i].id);
    assert forall|y: NodeId| node_ids(g).contains(y) == ids.to_set().contains(y) by {
        if g.has_node(y) {
            let i = g.index_of(y);
            assert(ids[i] == y);
        }
        if ids.contains(y) {
            let i = choose|i: int| 0 <= i < ids.len() && ids[i] == y;
            assert(g.nodes[i].id == y);
        }
    }
    assert(node_ids(g) =~= ids.to_set());
    vstd::seq_lib::seq_to_set_is_finite(ids);
    assert(ancestors(g, x).subset_of(node_ids(g)));
    vstd::set_lib::lemma_len_subset(ancestors(g, x), node_ids(g));
}

/// A node that is wired into another has fewer ancestors than it.
proof fn lemma_fewer_ancestors(g: GraphView, i: int)
    requires
        g.wf(),
        0 <= i < g.connectors.len(),
    ensures
        ancestors(g, g.connectors[i].from).len() < ancestors(g, g.connectors[i].to).len(),
{
    let cs = g.connectors;
    let u = cs[i].from;
    let x = cs[i].to;
    lemma_ancestors_finite(g, u);
    lemma_ancestors_finite(g, x);
    assert(g.tags_match(cs[i]));
    assert(has_edge(cs, u, x));
    let smaller = ancestors(g, x).remove(x);
    assert forall|y: NodeId| ancestors(g, u).contains(y) implies smaller.contains(y) by {
        lemma_reaches_then_edge(cs, y, u, x);
        if y == x {
            assert(!reaches(cs, cs[i].to, cs[i].from));
        }
    }
    assert(ancestors(g, u).subset_of(smaller));
    vstd::set_lib::lemma_len_subset(ancestors(g, u), smaller);
    lemma_reaches_self(cs, x);
    assert(ancestors(g, x).contains(x));
    assert(ancestors(g, x).len() == smaller.len() + 1);
}

/// Where no node that feeds the exit is left with all its sources in `order`,
/// every node that feeds the exit is in `order`.
proof fn lemma_order_complete(g: GraphView, order: Seq<NodeId>, x: NodeId)
    requires
        g.wf(),
        forall|y: NodeId|
            #![trigger feeds_output(g, y)]
            feeds_output(g, y) && !order.contains(y) ==> !sources_in(g.connectors, order, y),
        feeds_output(g, x),
    ensures
        order.contains(x),
    decreases ancestors(g, x).len(),
{
    if !order.contains(x) {
        let cs = g.connectors;
        assert(!sources_in(cs, order, x));
        let i = choose|i: int|
            0 <= i < cs.len() && (#[trigger] cs[i]).to == x && !order.contains(cs[i].from);
        let u = cs[i].from;
        assert(g.tags_match(cs[i]));
        assert(has_edge(cs, u, x));
        lemma_reaches_self(cs, u);
        lemma_reaches_then_edge(cs, u, u, x);
        lemma_reaches_trans(cs, u, x, g.output);
        assert(feeds_output(g, u));
        lemma_fewer_ancestors(g, i);
        lemma_order_complete(g, order, u);
    }
}

/// True when `x` occurs in `order`.
fn occurs(order: &Vec<NodeId>, x: NodeId) -> (r: bool)
    ensures
        r == order@.contains(x),
{
    let mut i: usize = 0;
    while i < order.len()
        invariant
            i <= order@.len(),
            forall|j: int| 0 <= j < i ==> order@[j] != x,
        decreases order@.len() - i,
    {
        if order[i] == x {
            return true;
        }
        i += 1;
    }
    false
}

/// True when the source of every connector that ends at node `id` occurs in
/// `order`.
fn ready(connectors: &Vec<Connector>, order: &Vec<NodeId>, id: NodeId) -> (r: bool)
    ensures
        r == sources_in(connector_views(connectors@), order@, id),
{
    let ghost cs = connector_views(connectors@);
    let mut i: usize = 0;
    while i < connectors.len()
        invariant
            i <= connectors@.len(),
            cs == connector_views(connectors@),
            forall|j: int|
                0 <= j < i && (#[trigger] cs[j]).to == id ==> order@.contains(cs[j].from),
        decreases connectors@.len() - i,
    {
        assert(cs[i as int] == connectors@[i as int]@);
        if connectors[i].to == id && !occurs(order, connectors[i].from) {
            return false;
        }
        i += 1;
    }
    true
}

impl Graph {
    /// An order in which to evaluate the nodes for one tick: the nodes from
    /// which a walk leads to the exit, each once, and each after every node
    /// that is wired into it. Nodes that cannot reach the exit are left out.
    pub fn evaluation_order(&self) -> (order: Vec<NodeId>)
        requires
            self.wf(),
        ensures
            is_evaluation_order(self@, order@),
    {
        let ghost g = self@;
        let ghost cs = g.connectors;
        let nodes = self.get_nodes();
        let connectors = self.get_connections();
        let exit = self.get_output_node_id();
        let n = nodes.len();
        let mut feeds: Vec<bool> = Vec::new();
        let mut done: Vec<bool> = Vec::new();
        let mut i: usize = 0;
        while i < n
            invariant
                i <= n,
                n == nodes@.len(),
                nodes@.len() == g.nodes.len(),
                forall|j: int| 0 <= j < nodes@.len() ==> (#[trigger] nodes@[j])@ == g.nodes[j],
                connector_views(connectors@) == cs,
                cs == g.connectors,
                exit == g.output,
                feeds@.len() == i,
                done@.len() == i,
                forall|j: int| 0 <= j < i ==> !done@[j],
                forall|j: int|
                    0 <= j < i ==> feeds@[j] == reaches(cs, (#[trigger] g.nodes[j]).id, g.output),
            decreases n - i,
        {
            feeds.push(can_reach(connectors, nodes[i].id(), exit));
            done.push(false);
            i += 1;
        }
        let mut order: Vec<NodeId> = Vec::new();
        let mut changed = true;
        while changed
            invariant
                g == self@,
                g.wf(),
                n == nodes@.len(),
                nodes@.len() == g.nodes.len(),
                forall|j: int| 0 <= j < nodes@.len() ==> (#[trigger] nodes@[j])@ == g.nodes[j],
                connector_views(connectors@) == cs,
                cs == g.connectors,
                feeds@.len() == n,
                done@.len() == n,
                forall|j: int|
                    0 <= j < n ==> feeds@[j] == reaches(cs, (#[trigger] g.nodes[j]).id, g.output),
                order@.no_duplicates(),
                forall|j: int| 0 <= j < n ==> done@[j] == order@.contains((#[trigger] g.nodes[j]).id),
                forall|k: int| 0 <= k < order@.len() ==> feeds_output(g, #[trigger] order@[k]),
                sources_first(cs, order@),
                !changed ==> forall|j: int|
                    0 <= j < n && feeds@[j] && !done@[j] ==> !sources_in(
                        cs,
                        order@,
                        (#[trigger] g.nodes[j]).id,
                    ),
            decreases
                    count_false(done@) + if changed {
                        1nat
                    } else {
                        0nat
                    },
        {
            changed = false;
            let ghost done_before = done@;
            let ghost order_before = order@;
            let mut i: usize = 0;
            while i < n
                invariant
                    g == self@,
                    g.wf(),
                    i <= n,
                    n == nodes@.len(),
                    nodes@.len() == g.nodes.len(),
                    forall|j: int| 0 <= j < nodes@.len() ==> (#[trigger] nodes@[j])@ == g.nodes[j],
                    connector_views(connectors@) == cs,
                    cs == g.connectors,
                    feeds@.len() == n,
                    done@.len() == n,
                    done_before.len() == n,
                    forall|j: int|
                        0 <= j < n ==> feeds@[j] == reaches(
                            cs,
                            (#[trigger] g.nodes[j]).id,
                            g.output,
                        ),
                    order@.no_duplicates(),
                    forall|j: int|
                        0 <= j < n ==> done@[j] == order@.contains((#[trigger] g.nodes[j]).id),
                    forall|k: int| 0 <= k < order@.len() ==> feeds_output(g, #[trigger] order@[k]),
                    sources_first(cs, order@),
                    !changed ==> done@ == done_before && order@ == order_before,
                    !changed ==> forall|j: int|
                        0 <= j < i && feeds@[j] && !done@[j] ==> !sources_in(
                            cs,
                            order@,
                            (#[trigger] g.nodes[j]).id,
                        ),
                    changed ==> count_false(done@) < count_false(done_before),
                decreases n - i,
            {
                let id = nodes[i].id();
                assert(id == g.nodes[i as int].id);
                if feeds[i] && !done[i] && ready(connectors, &order, id) {
                    let ghost old_order = order@;
                    let ghost old_done = done@;
                    proof {
                        lemma_count_false_set(done@, i as int);
                        lemma_index_of(g, id, i as int);
                    }
                    done.set(i, true);
                    order.push(id);
                    changed = true;
                    proof {
                        let new_order = order@;
                        assert(new_order == old_order.push(id));
                        assert(new_order[old_order.len() as int] == id);
                        assert forall|y: NodeId| new_order.contains(y) == (old_order.contains(y)
                            || y == id) by {
                            if old_order.contains(y) {
                                let k = choose|k: int| 0 <= k < old_order.len() && old_order[k] == y;
                                assert(new_order[k] == y);
                            }
                            if new_order.contains(y) {
                                let k = choose|k: int| 0 <= k < new_order.len() && new_order[k] == y;
                                if k < old_order.len() {
                                    assert(old_order[k] == y);
                                }
                            }
                        }
                        assert forall|a: int, b: int|
                            0 <= a < new_order.len() && 0 <= b < new_order.len() && a
                                != b implies new_order[a] != new_order[b] by {
                            if a < old_order.len() && b < old_order.len() {
                                assert(old_order[a] != old_order[b]);
                            } else if a < old_order.len() {
                                assert(old_order[a] == new_order[a]);
                                assert(old_order.contains(new_order[a]));
                            } else if b < old_order.len() {
                                assert(old_order[b] == new_order[b]);
                                assert(old_order.contains(new_order[b]));
                            }
                        }
                        assert forall|j: int| 0 <= j < n implies done@[j] == new_order.contains(
                            (#[trigger] g.nodes[j]).id,
                        ) by {
                            if j != i {
                                assert(old_done[j] == old_order.contains(g.nodes[j].id));
                                if j < i {
                                    assert(g.nodes[j].id != g.nodes[i as int].id);
                                } else {
                                    assert(g.nodes[i as int].id != g.nodes[j].id);
                                }
                            }
                        }
                        assert forall|k: int| 0 <= k < new_order.len() implies feeds_output(
                            g,
                            #[trigger] new_order[k],
                        ) by {
                            if k < old_order.len() {
                                assert(new_order[k] == old_order[k]);
                            }
                        }
                        assert forall|c: int, k: int|
                            0 <= c < cs.len() && 0 <= k < new_order.len() && (#[trigger] cs[c]).to
                                == (#[trigger] new_order[k]) implies exists|j: int|
                            0 <= j < k && new_order[j] == cs[c].from by {
                            if k < old_order.len() {
                                assert(old_order[k] == new_order[k]);
                                let j = choose|j: int| 0 <= j < k && old_order[j] == cs[c].from;
                                assert(new_order[j] == cs[c].from);
                            } else {
                                assert(old_order.contains(cs[c].from));
                                let j = choose|j: int|
                                    0 <= j < old_order.len() && old_order[j] == cs[c].from;
                                assert(new_order[j] == cs[c].from);
                            }
                        }
                    }
                }
                i += 1;
            }
        }
        proof {
            assert forall|y: NodeId|
                #![trigger feeds_output(g, y)]
                feeds_output(g, y) && !order@.contains(y) implies !sources_in(cs, order@, y) by {
                let j = g.index_of(y);
                assert(g.nodes[j].id == y);
                assert(done@[j] == order@.contains(g.nodes[j].id));
                assert(feeds@[j]);
            }
            assert forall|x: NodeId| order@.contains(x) <==> feeds_output(g, x) by {
                if feeds_output(g, x) {
                    lemma_order_complete(g, order@, x);
                }
                if order@.contains(x) {
                    let k = choose|k: int| 0 <= k < order@.len() && order@[k] == x;
                    assert(feeds_output(g, order@[k]));
                }
            }
        }
        order
    }
}

/// Where the value of an input port comes from in a tick.
pub enum InputSource {
    /// From the output `port` of node `from`, which a connector wires to the
    /// input.
    Wire { from: NodeId, port: String },
    /// From a constant: the value set for the input where it has the input's
    /// tag, the default of that tag otherwise.
    Constant(Value),
}

/// What an `InputSource` stands for in contracts.
pub enum InputSourceView {
    Wire { from: NodeId, port: Seq<char> },
    Constant(ValueView),
}

impl View for InputSource {
    type V = InputSourceView;

    open spec fn view(&self) -> InputSourceView {
        match self {
            InputSource::Wire { from, port } => InputSourceView::Wire { from: *from, port: port@ },
            InputSource::Constant(v) => InputSourceView::Constant(v@),
        }
    }
}

/// The position of the connector that ends at the input `port` of node `to`.
pub open spec fn feed_index(cs: Seq<ConnectorView>, to: NodeId, port: Seq<char>) -> int {
    choose|i: int| 0 <= i < cs.len() && #[trigger] cs[i].to == to && cs[i].to_port == port
}

/// Where the input `key` of node `id` takes its value from: the connector
/// that ends there, if there is one; otherwise the constant set for it, or
/// the default of the input's tag where none is set or the one set has
/// another tag.
pub open spec fn input_source(g: GraphView, id: NodeId, key: Seq<char>) -> InputSourceView {
    if feeds(g.connectors, id, key) {
        let c = g.connectors[feed_index(g.connectors, id, key)];
        InputSourceView::Wire { from: c.from, port: c.from_port }
    } else {
        let tag = g.node(id).kind.input_tag(key).unwrap();
        if g.node(id).has_constant(key) {
            InputSourceView::Constant(g.node(id).constant(key).coerced(tag))
        } else {
            InputSourceView::Constant(ValueView::default_for(tag))
        }
    }
}

/// What is to be evaluated for one track in a tick.
pub struct TrackPlan {
    pub track_id: u32,
    /// The nodes to evaluate, in order.
    pub order: Vec<NodeId>,
}

impl Graph {
    /// Where the input `key` of node `id` takes its value from, or `None`
    /// where the graph has no such node or the node declares no such input.
    pub fn resolve_input(&self, id: NodeId, key: &String) -> (source: Option<InputSource>)
        requires
            self.wf(),
        ensures
            source.is_some() == (self@.has_node(id) && self@.node(id).kind.input_tag(
                key@,
            ).is_some()),
            source matches Some(s) ==> s@ == input_source(self@, id, key@),
    {
        let ghost g = self@;
        let node = match self.get_node(id) {
            Some(n) => n,
            None => {
                return None;
            },
        };
        let tag = match node.kind().find_input(key) {
            Some(t) => t,
            None => {
                return None;
            },
        };
        let connectors = self.get_connections();
        let mut i: usize = 0;
        while i < connectors.len()
            invariant
                i <= connectors@.len(),
                g == self@,
                g.wf(),
                connector_views(connectors@) == g.connectors,
                forall|j: int|
                    0 <= j < i ==> !(#[trigger] g.connectors[j].to == id && g.connectors[j].to_port
                        == key@),
            decreases connectors@.len() - i,
        {
            assert(g.connectors[i as int] == connectors@[i as int]@);
            if connectors[i].to == id && connectors[i].to_port == *key {
                proof {
                    let k = feed_index(g.connectors, id, key@);
                    if k < i {
                    } else if i < k {
                        assert(!(g.connectors[i as int].to == g.connectors[k].to
                            && g.connectors[i as int].to_port == g.connectors[k].to_port));
                    }
                }
                return Some(
                    InputSource::Wire {
                        from: connectors[i].from,
                        port: connectors[i].from_port.clone(),
                    },
                );
            }
            i += 1;
        }
        proof {
            let idx = g.index_of(id);
            assert(g.nodes[idx].wf());
        }
        match node.input_constant(key) {
            Some(v) => Some(InputSource::Constant(v.coerced(tag))),
            None => Some(InputSource::Constant(Value::default_for(tag))),
        }
    }
}

/// `plans` holds, for each track of `m` in order, an order of evaluation for
/// its graph.
pub open spec fn is_mix_plan(m: MixerView, plans: Seq<TrackPlan>) -> bool {
    &&& plans.len() == m.tracks.len()
    &&& forall|i: int|
        0 <= i < plans.len() ==> (#[trigger] plans[i]).track_id == m.tracks[i].id
            && is_evaluation_order(m.tracks[i].graph, plans[i].order@)
}

impl Mixer {
    /// Readies a mix pass: for each track, in order, the order in which the
    /// nodes of its graph are to be evaluated. A well-formed mixer holds no
    /// graph with a cycle or with a connector between ports of different
    /// tags, so every graph has such an order.
    pub fn prepare(&self) -> (plans: Vec<TrackPlan>)
        requires
            self.wf(),
        ensures
            is_mix_plan(self@, plans@),
    {
        let ghost m = self@;
        let tracks = self.tracks();
        let mut plans: Vec<TrackPlan> = Vec::new();
        let mut i: usize = 0;
        while i < tracks.len()
            invariant
                i <= tracks@.len(),
                m.wf(),
                tracks@.len() == m.tracks.len(),
                forall|j: int| 0 <= j < tracks@.len() ==> (#[trigger] tracks@[j])@ == m.tracks[j],
                plans@.len() == i,
                forall|j: int|
                    0 <= j < i ==> (#[trigger] plans@[j]).track_id == m.tracks[j].id
                        && is_evaluation_order(m.tracks[j].graph, plans@[j].order@),
            decreases tracks@.len() - i,
        {
            assert(m.tracks[i as int].wf());
            let order = tracks[i].graph().evaluation_order();
            plans.push(TrackPlan { track_id: tracks[i].get_id(), order });
            i += 1;
        }
        plans
    }
}

} // verus!
