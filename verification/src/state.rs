//! The snapshot of a project that observers receive: a copy, by value, of
//! what they may see of the mixer, the node positions and the track colours.

use vstd::prelude::*;
use crate::graph::{Graph, GraphView};
use crate::layout::{color_of, position_of, NodePosition, Position, NodePositions, TrackColorView, TrackColors};
use crate::mixer::{Mixer, MixerView};
use crate::node::{Node, NodeId, NodeType, NodeView};
use crate::region::{Note, Region, RegionView};
use crate::time::Beats;
use crate::topology::{Connector, ConnectorView};
use crate::track::{Track, TrackType, TrackView};

verus! {

/// A note as observers see it.
#[derive(Clone, Copy, Debug, PartialEq, Eq, Structural)]
pub struct NoteState {
    pub id: u32,
    pub pitch: u8,
    pub velocity: u8,
    pub start_time: Beats,
    pub duration: Beats,
}

/// What observers see of a region's payload.
#[derive(Clone, Debug)]
pub enum RegionDataState {
    /// A region that contains audio data.
    BufferRegion(),
    /// A region that contains notes.
    NoteRegion(Vec<NoteState>),
}

/// A region as observers see it.
#[derive(Clone, Debug)]
pub struct RegionState {
    pub id: u32,
    pub name: String,
    pub start_time: Beats,
    pub duration: Beats,
    pub data: RegionDataState,
}

/// What observers see of what a node holds besides its ports.
#[derive(Clone, Debug)]
pub enum NodeDataState {
    EmptyNode,
    AudioShaderNode { shader_code: String },
    NoteInputNode,
    /// The entry and exit nodes, which hold nothing to show.
    Invalid,
}

/// A node as observers see it.
#[derive(Clone, Debug)]
pub struct NodeState {
    pub id: NodeId,
    pub name: String,
    pub node_type: String,
    pub inputs: Vec<String>,
    pub outputs: Vec<String>,
    pub is_input_node: bool,
    pub is_output_node: bool,
    pub position: Position,
    pub data: NodeDataState,
}

/// A connector as observers see it.
#[derive(Clone, Debug)]
pub struct ConnectorState {
    pub from: NodeId,
    pub from_param: String,
    pub to: NodeId,
    pub to_param: String,
}

/// A graph as observers see it.
#[derive(Clone, Debug)]
pub struct GraphState {
    pub nodes: Vec<NodeState>,
    pub connections: Vec<ConnectorState>,
    pub input_node: NodeId,
    pub output_node: NodeId,
}

/// A track as observers see it.
#[derive(Clone, Debug)]
pub struct TrackState {
    pub id: u32,
    pub name: String,
    pub channels: usize,
    pub track_type: TrackType,
    pub regions: Vec<RegionState>,
    pub color: String,
    pub graph: GraphState,
}

/// The project as observers see it. The tempo is in thousandths of a beat
/// per minute.
#[derive(Clone, Debug)]
pub struct MixerState {
    pub tracks: Vec<TrackState>,
    pub bpm: u32,
    pub samples_per_beat: u64,
    pub duration: Beats,
    pub node_positions: Vec<NodePosition>,
}

/// The strings of `v` are, in order, those of `names`.
pub open spec fn names_are(v: Seq<String>, names: Seq<Seq<char>>) -> bool {
    &&& v.len() == names.len()
    &&& forall|i: int| 0 <= i < v.len() ==> (#[trigger] v[i])@ == names[i]
}

impl NoteState {
    /// What observers see of the note `n`.
    pub open spec fn of(n: Note) -> NoteState {
        NoteState {
            id: n.id,
            pitch: n.pitch,
            velocity: n.velocity,
            start_time: n.start_beat,
            duration: n.duration,
        }
    }

    /// What observers see of `note`.
    pub fn from_note(note: &Note) -> (s: NoteState)
        ensures
            s == NoteState::of(*note),
    {
        NoteState {
            id: note.id,
            pitch: note.pitch,
            velocity: note.velocity,
            start_time: note.start_beat,
            duration: note.duration,
        }
    }
}

impl RegionState {
    /// This is what observers see of the region `r`.
    pub open spec fn describes(&self, r: RegionView) -> bool {
        &&& self.id == r.id
        &&& self.name@ == r.name
        &&& self.start_time == r.start_time
        &&& self.duration == r.duration
        &&& match self.data {
            RegionDataState::BufferRegion() => !r.is_notes(),
            RegionDataState::NoteRegion(notes) => r.is_notes() && notes@ == Seq::new(
                r.notes().len(),
                |i: int| NoteState::of(r.notes()[i]),
            ),
        }
    }

    /// What observers see of `region`.
    pub fn from_region(region: &Region) -> (s: RegionState)
        ensures
            s.describes(region@),
    {
        let data = if region.is_notes() {
            let notes = region.notes();
            let mut out: Vec<NoteState> = Vec::new();
            let mut i: usize = 0;
            while i < notes.len()
                invariant
                    i <= notes@.len(),
                    out@.len() == i,
                    forall|j: int| 0 <= j < i ==> out@[j] == NoteState::of(notes@[j]),
                decreases notes@.len() - i,
            {
                out.push(NoteState::from_note(&notes[i]));
                i += 1;
            }
            assert(out@ =~= Seq::new(notes@.len(), |i: int| NoteState::of(notes@[i])));
            RegionDataState::NoteRegion(out)
        } else {
            RegionDataState::BufferRegion()
        };
        RegionState {
            id: region.get_id(),
            name: region.get_name().clone(),
            start_time: region.start_time(),
            duration: region.duration(),
            data,
        }
    }
}

impl NodeDataState {
    /// This is what observers see of what the node `n` holds.
    pub open spec fn describes(&self, n: NodeView) -> bool {
        match self {
            NodeDataState::EmptyNode => n.kind == NodeType::EmptyNode,
            NodeDataState::AudioShaderNode { shader_code } => n.kind == NodeType::AudioShaderNode
                && shader_code@ == n.shader,
            NodeDataState::NoteInputNode => n.kind == NodeType::NoteInputNode,
            NodeDataState::Invalid => !n.kind.is_addable(),
        }
    }
}

impl NodeState {
    /// This is what observers see of the node `n` drawn at `position`.
    pub open spec fn describes(&self, n: NodeView, position: Position) -> bool {
        &&& self.id == n.id
        &&& self.name@ == n.kind.kind_name()
        &&& self.node_type@ == n.kind.kind_name()
        &&& names_are(self.inputs@, n.kind.input_names())
        &&& names_are(self.outputs@, n.kind.output_names())
        &&& self.is_input_node == n.kind.is_input()
        &&& self.is_output_node == n.kind.is_output()
        &&& self.position == position
        &&& self.data.describes(n)
    }

    /// What observers see of `node` drawn at `position`.
    pub fn from_node(node: &Node, position: Position) -> (s: NodeState)
        ensures
            s.describes(node@, position),
    {
        let kind = node.kind();
        let data = match kind {
            NodeType::AudioShaderNode => NodeDataState::AudioShaderNode {
                shader_code: node.shader().clone(),
            },
            NodeType::EmptyNode => NodeDataState::EmptyNode,
            NodeType::NoteInputNode => NodeDataState::NoteInputNode,
            _ => NodeDataState::Invalid,
        };
        NodeState {
            id: node.id(),
            name: kind.name(),
            node_type: kind.name(),
            inputs: kind.inputs(),
            outputs: kind.outputs(),
            is_input_node: node.is_input(),
            is_output_node: node.is_output(),
            position,
            data,
        }
    }
}

impl ConnectorState {
    /// This is what observers see of the connector `c`.
    pub open spec fn describes(&self, c: ConnectorView) -> bool {
        &&& self.from == c.from
        &&& self.from_param@ == c.from_port
        &&& self.to == c.to
        &&& self.to_param@ == c.to_port
    }

    /// What observers see of `connector`.
    pub fn from_connector(connector: &Connector) -> (s: ConnectorState)
        ensures
            s.describes(connector@),
    {
        ConnectorState {
            from: connector.from,
            from_param: connector.from_port.clone(),
            to: connector.to,
            to_param: connector.to_port.clone(),
        }
    }
}

impl GraphState {
    /// This is what observers see of the graph `g` of track `track`, whose
    /// nodes are drawn where `positions` says.
    pub open spec fn describes(&self, g: GraphView, track: u32, positions: Seq<NodePosition>) -> bool {
        &&& self.nodes@.len() == g.nodes.len()
        &&& forall|i: int|
            0 <= i < self.nodes@.len() ==> (#[trigger] self.nodes@[i]).describes(
                g.nodes[i],
                position_of(positions, track, g.nodes[i].id),
            )
        &&& self.connections@.len() == g.connectors.len()
        &&& forall|i: int|
            0 <= i < self.connections@.len() ==> (#[trigger] self.connections@[i]).describes(
                g.connectors[i],
            )
        &&& self.input_node == g.input
        &&& self.output_node == g.output
    }

    /// What observers see of `graph`, the graph of track `track`, with each
    /// node drawn where `node_positions` says, or at the origin.
    pub fn from_graph(graph: &Graph, track: u32, node_positions: &NodePositions) -> (s: GraphState)
        requires
            node_positions.wf(),
        ensures
            s.describes(graph@, track, node_positions@),
    {
        let ghost g = graph@;
        let all = graph.get_nodes();
        let mut nodes: Vec<NodeState> = Vec::new();
        let mut i: usize = 0;
        while i < all.len()
            invariant
                node_positions.wf(),
                i <= all@.len(),
                all@.len() == g.nodes.len(),
                forall|j: int| 0 <= j < all@.len() ==> (#[trigger] all@[j])@ == g.nodes[j],
                nodes@.len() == i,
                forall|j: int|
                    0 <= j < i ==> (#[trigger] nodes@[j]).describes(
                        g.nodes[j],
                        position_of(node_positions@, track, g.nodes[j].id),
                    ),
            decreases all@.len() - i,
        {
            let position = node_positions.get(track, all[i].id());
            nodes.push(NodeState::from_node(&all[i], position));
            i += 1;
        }
        let wires = graph.get_connections();
        let mut connections: Vec<ConnectorState> = Vec::new();
        let mut k: usize = 0;
        while k < wires.len()
            invariant
                k <= wires@.len(),
                crate::topology::connector_views(wires@) == g.connectors,
                connections@.len() == k,
                forall|j: int|
                    0 <= j < k ==> (#[trigger] connections@[j]).describes(g.connectors[j]),
            decreases wires@.len() - k,
        {
            assert(g.connectors[k as int] == wires@[k as int]@);
            connections.push(ConnectorState::from_connector(&wires[k]));
            k += 1;
        }
        assert(g.connectors.len() == wires@.len());
        GraphState {
            nodes,
            connections,
            input_node: graph.get_input_node_id(),
            output_node: graph.get_output_node_id(),
        }
    }
}

impl TrackState {
    /// This is what observers see of the track `t`, with its nodes drawn
    /// where `positions` says and in the colour `color`.
    pub open spec fn describes(&self, t: TrackView, positions: Seq<NodePosition>, color: Seq<char>) -> bool {
        &&& self.id == t.id
        &&& self.name@ == t.name
        &&& self.channels == t.channels
        &&& self.track_type == t.track_type
        &&& self.regions@.len() == t.regions.len()
        &&& forall|i: int|
            0 <= i < self.regions@.len() ==> (#[trigger] self.regions@[i]).describes(t.regions[i])
        &&& self.color@ == color
        &&& self.graph.describes(t.graph, t.id, positions)
    }

    /// What observers see of `track`, with its nodes drawn where
    /// `node_positions` says and in the colour `color`.
    pub fn from_track(track: &Track, node_positions: &NodePositions, color: String) -> (s:
        TrackState)
        requires
            node_positions.wf(),
        ensures
            s.describes(track@, node_positions@, color@),
    {
        let ghost t = track@;
        let all = track.regions();
        let mut regions: Vec<RegionState> = Vec::new();
        let mut i: usize = 0;
        while i < all.len()
            invariant
                i <= all@.len(),
                all@.len() == t.regions.len(),
                forall|j: int| 0 <= j < all@.len() ==> (#[trigger] all@[j])@ == t.regions[j],
                regions@.len() == i,
                forall|j: int| 0 <= j < i ==> (#[trigger] regions@[j]).describes(t.regions[j]),
            decreases all@.len() - i,
        {
            regions.push(RegionState::from_region(&all[i]));
            i += 1;
        }
        let graph = GraphState::from_graph(track.graph(), track.get_id(), node_positions);
        TrackState {
            id: track.get_id(),
            name: track.get_name().clone(),
            channels: track.channels(),
            track_type: track.track_type(),
            regions,
            color,
            graph,
        }
    }
}

impl MixerState {
    /// This is what observers see of the mixer `m`, with nodes drawn where
    /// `positions` says and tracks in the colours that `colors` gives them.
    pub open spec fn describes(
        &self,
        m: MixerView,
        positions: Seq<NodePosition>,
        colors: Seq<TrackColorView>,
    ) -> bool {
        &&& self.tracks@.len() == m.tracks.len()
        &&& forall|i: int|
            0 <= i < self.tracks@.len() ==> (#[trigger] self.tracks@[i]).describes(
                m.tracks[i],
                positions,
                color_of(colors, m.tracks[i].id),
            )
        &&& self.bpm == m.tempo_milli
        &&& self.samples_per_beat == m.samples_per_beat()
        &&& self.duration@ == m.duration()
        &&& self.node_positions@ == positions
    }

    /// What observers see of `mixer`, with nodes drawn where `node_positions`
    /// says and tracks in the colours that `track_colors` gives them.
    pub fn from_mixer(mixer: &Mixer, node_positions: &NodePositions, track_colors: &TrackColors) -> (s:
        MixerState)
        requires
            mixer.wf(),
            node_positions.wf(),
            track_colors.wf(),
        ensures
            s.describes(mixer@, node_positions@, track_colors@),
    {
        let ghost m = mixer@;
        let all = mixer.tracks();
        let mut tracks: Vec<TrackState> = Vec::new();
        let mut i: usize = 0;
        while i < all.len()
            invariant
                node_positions.wf(),
                track_colors.wf(),
                i <= all@.len(),
                all@.len() == m.tracks.len(),
                forall|j: int| 0 <= j < all@.len() ==> (#[trigger] all@[j])@ == m.tracks[j],
                tracks@.len() == i,
                forall|j: int|
                    0 <= j < i ==> (#[trigger] tracks@[j]).describes(
                        m.tracks[j],
                        node_positions@,
                        color_of(track_colors@, m.tracks[j].id),
                    ),
            decreases all@.len() - i,
        {
            let color = track_colors.get(all[i].get_id());
            tracks.push(TrackState::from_track(&all[i], node_positions, color));
            i += 1;
        }
        let entries = node_positions.entries();
        let mut placed: Vec<NodePosition> = Vec::new();
        let mut k: usize = 0;
        while k < entries.len()
            invariant
                k <= entries@.len(),
                placed@ == entries@.subrange(0, k as int),
            decreases entries@.len() - k,
        {
            placed.push(entries[k]);
            assert(placed@ =~= entries@.subrange(0, k + 1));
            k += 1;
        }
        assert(placed@ =~= entries@);
        MixerState {
            tracks,
            bpm: mixer.tempo_milli(),
            samples_per_beat: mixer.samples_per_beat(),
            duration: mixer.duration(),
            node_positions: placed,
        }
    }
}

} // verus!
