//! The mixer: the tracks of a project, its tempo and its output format.

use vstd::prelude::*;
use crate::graph::{lemma_after_wf, GraphCommand, GraphError, GraphOp};
use crate::node::{NodeId, NodeType};
use crate::region::{
    BufferSource, RegionData, RegionError, RegionOp, RegionOperation, RegionView,
};
use crate::time::{samples_per_beat, samples_per_beat_of, Beats};
use crate::topology::Connector;
use crate::track::{Track, TrackData, TrackError, TrackType, TrackView};
use crate::value::Value;

verus! {

/// The tempo a mixer starts with, in thousandths of a beat per minute.
pub const DEFAULT_TEMPO_MILLI: u32 = 120_000;

/// The sample rate a mixer starts with, in hertz.
pub const DEFAULT_SAMPLE_RATE: u32 = 48_000;

/// The number of output channels a mixer starts with.
pub const DEFAULT_CHANNELS: usize = 2;

/// Why the mixer refused a change.
#[derive(Clone, Copy, Debug, PartialEq, Eq, Structural)]
pub enum MixerError {
    /// The tempo is zero.
    InvalidTempo,
    /// The sample rate is zero.
    InvalidSampleRate,
    /// A mixer has at least one output channel.
    NoChannels,
    /// The mixer has no track of that id.
    UnknownTrack,
    /// The mixer has given out every track id.
    TrackIdsExhausted,
    /// The mixer has given out every node id.
    NodeIdsExhausted,
    /// The track refused the change.
    Track(TrackError),
    /// The track's graph refused the change.
    Graph(GraphError),
}

/// The owner of the tracks.
pub struct Mixer {
    tempo_milli: u32,
    sample_rate: u32,
    channels: usize,
    tracks: Vec<Track>,
    next_track_id: u32,
    next_node_id: NodeId,
}

/// What a `Mixer` stands for in contracts.
pub struct MixerView {
    pub tempo_milli: u32,
    pub sample_rate: u32,
    pub channels: usize,
    pub tracks: Seq<TrackView>,
    pub next_track_id: u32,
    pub next_node_id: NodeId,
}

/// The latest end of the regions of all of `tracks`; none where no track has
/// a region.
pub open spec fn latest_track_end(tracks: Seq<TrackView>) -> Option<int>
    decreases tracks.len(),
{
    if tracks.len() == 0 {
        None
    } else {
        match (latest_track_end(tracks.drop_last()), tracks.last().end()) {
            (Some(rest), Some(end)) => if rest > end {
                Some(rest)
            } else {
                Some(end)
            },
            (Some(rest), None) => Some(rest),
            (None, end) => end,
        }
    }
}

impl MixerView {
    /// A track of the mixer has the id `id`.
    pub open spec fn has_track(self, id: u32) -> bool {
        exists|i: int| 0 <= i < self.tracks.len() && #[trigger] self.tracks[i].id == id
    }

    /// The position of the track with id `id`.
    pub open spec fn track_index(self, id: u32) -> int {
        choose|i: int| 0 <= i < self.tracks.len() && #[trigger] self.tracks[i].id == id
    }

    /// The track with id `id`.
    pub open spec fn track(self, id: u32) -> TrackView {
        self.tracks[self.track_index(id)]
    }

    /// Some track's graph has a node of id `id`.
    pub open spec fn has_node(self, id: NodeId) -> bool {
        exists|i: int| 0 <= i < self.tracks.len() && #[trigger] self.tracks[i].graph.has_node(id)
    }

    /// Tracks are in ascending order of id.
    pub open spec fn ids_ascending(self) -> bool {
        forall|i: int, j: int|
            0 <= i < j < self.tracks.len() ==> (#[trigger] self.tracks[i]).id < (
            #[trigger] self.tracks[j]).id
    }

    /// Tracks are in ascending order of id, below the next id, and each is
    /// well-formed.
    pub open spec fn tracks_wf(self) -> bool {
        &&& self.ids_ascending()
        &&& forall|i: int|
            0 <= i < self.tracks.len() ==> (#[trigger] self.tracks[i]).id < self.next_track_id
                && self.tracks[i].wf()
    }

    /// No node id occurs in the graphs of two tracks, and every node id is
    /// below the next one the mixer gives out.
    pub open spec fn node_ids_wf(self) -> bool {
        &&& forall|i: int, j: int, id: NodeId|
            0 <= i < j < self.tracks.len() ==> !(#[trigger] self.tracks[i].graph.has_node(id) && #[trigger] self.tracks[j].graph.has_node(id))
        &&& forall|i: int, id: NodeId|
            0 <= i < self.tracks.len() && #[trigger] self.tracks[i].graph.has_node(id) ==> id
                < self.next_node_id
    }

    /// The invariant of a mixer.
    pub open spec fn wf(self) -> bool {
        &&& self.tempo_milli > 0
        &&& self.sample_rate > 0
        &&& self.channels >= 1
        &&& self.tracks_wf()
        &&& self.node_ids_wf()
    }

    /// A mixer as it is created: no track, and the first ids still to give out.
    pub open spec fn fresh(tempo_milli: u32, sample_rate: u32, channels: usize) -> MixerView {
        MixerView {
            tempo_milli,
            sample_rate,
            channels,
            tracks: Seq::empty(),
            next_track_id: 0,
            next_node_id: 0,
        }
    }

    /// Why the mixer refuses a new track of `channels` channels, or `None`
    /// where it accepts it.
    pub open spec fn add_track_error(self, channels: usize) -> Option<MixerError> {
        if channels == 0 {
            Some(MixerError::Track(TrackError::NoChannels))
        } else if self.next_track_id == u32::MAX {
            Some(MixerError::TrackIdsExhausted)
        } else if self.next_node_id >= u64::MAX - 1 {
            Some(MixerError::NodeIdsExhausted)
        } else {
            None
        }
    }

    /// The mixer with a new track added at the end, under the next track id
    /// and with the next two node ids for its entry and its exit.
    pub open spec fn with_new_track(self, name: Seq<char>, channels: usize, track_type: TrackType) -> MixerView {
        MixerView {
            tracks: self.tracks.push(
                TrackView::fresh(
                    self.next_track_id,
                    name,
                    channels,
                    track_type,
                    self.next_node_id,
                    (self.next_node_id + 1) as u64,
                ),
            ),
            next_track_id: (self.next_track_id + 1) as u32,
            next_node_id: (self.next_node_id + 2) as u64,
            ..self
        }
    }

    /// The mixer without the track `id`; the mixer itself where it has no such
    /// track.
    pub open spec fn without_track(self, id: u32) -> MixerView {
        if self.has_track(id) {
            MixerView { tracks: self.tracks.remove(self.track_index(id)), ..self }
        } else {
            self
        }
    }

    /// The mixer with the track `id` replaced by `track`; the mixer itself
    /// where it has no such track.
    pub open spec fn with_track_updated(self, id: u32, track: TrackView) -> MixerView {
        if self.has_track(id) {
            MixerView { tracks: self.tracks.update(self.track_index(id), track), ..self }
        } else {
            self
        }
    }

    /// Why the mixer refuses the change `op` to the graph of track `id`, or
    /// `None` where it is carried out.
    pub open spec fn graph_op_error(self, id: u32, op: GraphOp) -> Option<MixerError> {
        if !self.has_track(id) {
            Some(MixerError::UnknownTrack)
        } else {
            match self.track(id).graph.op_error(op) {
                Some(e) => Some(MixerError::Graph(e)),
                None => None,
            }
        }
    }

    /// The mixer after the change `op` to the graph of track `id`.
    pub open spec fn after_graph_op(self, id: u32, op: GraphOp) -> MixerView {
        self.with_track_updated(id, self.track(id).after_graph_op(op))
    }

    /// Why the mixer refuses a new node of kind `kind` in track `id`, or
    /// `None` where it accepts it.
    pub open spec fn add_node_error(self, id: u32, kind: NodeType) -> Option<MixerError> {
        if !self.has_track(id) {
            Some(MixerError::UnknownTrack)
        } else if !kind.is_addable() {
            Some(MixerError::Graph(GraphError::FixedNode))
        } else if self.next_node_id == u64::MAX {
            Some(MixerError::NodeIdsExhausted)
        } else {
            None
        }
    }

    /// The mixer after a node of kind `kind` was added to track `id` under the
    /// next node id.
    pub open spec fn with_new_node(self, id: u32, kind: NodeType) -> MixerView {
        MixerView {
            next_node_id: (self.next_node_id + 1) as u64,
            ..self.after_graph_op(id, GraphOp::AddNode(self.next_node_id, kind))
        }
    }

    /// Why the mixer refuses a new region in track `id`, of notes where
    /// `is_notes`, or `None` where it accepts it.
    pub open spec fn add_region_error(self, id: u32, is_notes: bool) -> Option<MixerError> {
        if !self.has_track(id) {
            Some(MixerError::UnknownTrack)
        } else {
            match self.track(id).add_region_error(is_notes) {
                Some(e) => Some(MixerError::Track(e)),
                None => None,
            }
        }
    }

    /// Why the mixer refuses the operation `op` on region `region` of track
    /// `id`, or `None` where it is carried out.
    pub open spec fn region_op_error(self, id: u32, region: u32, op: RegionOp) -> Option<MixerError> {
        if !self.has_track(id) {
            Some(MixerError::UnknownTrack)
        } else {
            match self.track(id).region_op_error(region, op) {
                Some(e) => Some(MixerError::Track(e)),
                None => None,
            }
        }
    }

    /// The mixer after the operation `op` on region `region` of track `id`.
    pub open spec fn after_region_op(self, id: u32, region: u32, op: RegionOp) -> MixerView {
        self.with_track_updated(id, self.track(id).after_region_op(region, op))
    }

    /// The time at which the last region of the project ends; zero for a
    /// project without regions.
    pub open spec fn duration(self) -> int {
        match latest_track_end(self.tracks) {
            Some(end) => end,
            None => 0,
        }
    }

    /// Whole samples in one beat.
    pub open spec fn samples_per_beat(self) -> int {
        samples_per_beat_of(self.sample_rate as int, self.tempo_milli as int)
    }
}

impl View for Mixer {
    type V = MixerView;

    closed spec fn view(&self) -> MixerView {
        MixerView {
            tempo_milli: self.tempo_milli,
            sample_rate: self.sample_rate,
            channels: self.channels,
            tracks: Seq::new(self.tracks@.len(), |i: int| self.tracks@[i]@),
            next_track_id: self.next_track_id,
            next_node_id: self.next_node_id,
        }
    }
}

/// Among tracks in ascending order of id the track with a given id has one
/// position.
pub proof fn lemma_track_index(m: MixerView, id: u32, i: int)
    requires
        m.ids_ascending(),
        0 <= i < m.tracks.len(),
        m.tracks[i].id == id,
    ensures
        m.has_track(id),
        m.track_index(id) == i,
{
    let k = m.track_index(id);
    if k < i {
        assert(m.tracks[k].id < m.tracks[i].id);
    } else if i < k {
        assert(m.tracks[i].id < m.tracks[k].id);
    }
}

/// A mixer stays well-formed when a track is replaced by a well-formed track
/// of the same id whose graph has no node that it had not before, but for
/// nodes whose ids no track has yet.
pub proof fn lemma_with_track_updated_wf(m: MixerView, id: u32, track: TrackView)
    requires
        m.wf(),
        m.has_track(id),
        track.wf(),
        track.id == id,
        forall|x: NodeId| #[trigger]
            track.graph.has_node(x) ==> m.track(id).graph.has_node(x) || (!m.has_node(x) && x
                < m.next_node_id),
    ensures
        m.with_track_updated(id, track).wf(),
{
    let k = m.track_index(id);
    let u = m.with_track_updated(id, track);
    assert forall|i: int, j: int| 0 <= i < j < u.tracks.len() implies (#[trigger] u.tracks[i]).id < (
    #[trigger] u.tracks[j]).id by {
        assert(u.tracks[i].id == m.tracks[i].id && u.tracks[j].id == m.tracks[j].id);
    }
    assert forall|i: int| 0 <= i < u.tracks.len() implies (#[trigger] u.tracks[i]).id
        < u.next_track_id && u.tracks[i].wf() by {
        if i != k {
            assert(u.tracks[i] == m.tracks[i]);
        }
    }
    assert forall|i: int, x: NodeId| 0 <= i < u.tracks.len() && #[trigger] u.tracks[i].graph.has_node(x) implies m.tracks[i].graph.has_node(x) || (i == k && !m.has_node(x) && x < m.next_node_id) by {
        if i != k {
            assert(u.tracks[i] == m.tracks[i]);
        }
    }
    assert forall|i: int, j: int, x: NodeId| 0 <= i < j < u.tracks.len() implies !(#[trigger] u.tracks[i].graph.has_node(x) && #[trigger] u.tracks[j].graph.has_node(x)) by {
        if u.tracks[i].graph.has_node(x) && u.tracks[j].graph.has_node(x) {
            if m.tracks[i].graph.has_node(x) && m.tracks[j].graph.has_node(x) {
            } else if m.tracks[i].graph.has_node(x) {
                assert(m.has_node(x));
            } else if m.tracks[j].graph.has_node(x) {
                assert(m.has_node(x));
            }
        }
    }
    assert forall|i: int, x: NodeId| 0 <= i < u.tracks.len() && #[trigger] u.tracks[i].graph.has_node(x) implies x < u.next_node_id by {
        if m.tracks[i].graph.has_node(x) {
        }
    }
}

/// In a well-formed mixer no two tracks share an id, no two regions of a
/// track share an id, and no two nodes share an id, be they of one track or
/// of two.
pub proof fn lemma_ids_unique(m: MixerView)
    requires
        m.wf(),
    ensures
        forall|i: int, j: int|
            0 <= i < m.tracks.len() && 0 <= j < m.tracks.len() && i != j ==> (
            #[trigger] m.tracks[i]).id != (#[trigger] m.tracks[j]).id,
        forall|i: int, a: int, b: int|
            0 <= i < m.tracks.len() && 0 <= a < m.tracks[i].regions.len() && 0 <= b
                < m.tracks[i].regions.len() && a != b ==> (#[trigger] m.tracks[i].regions[a]).id != (
            #[trigger] m.tracks[i].regions[b]).id,
        forall|i: int, j: int, a: int, b: int|
            0 <= i < m.tracks.len() && 0 <= j < m.tracks.len() && 0 <= a
                < m.tracks[i].graph.nodes.len() && 0 <= b < m.tracks[j].graph.nodes.len() && (i
                != j || a != b) ==> (#[trigger] m.tracks[i].graph.nodes[a]).id != (
            #[trigger] m.tracks[j].graph.nodes[b]).id,
{
    assert forall|i: int, j: int|
        0 <= i < m.tracks.len() && 0 <= j < m.tracks.len() && i != j implies (
    #[trigger] m.tracks[i]).id != (#[trigger] m.tracks[j]).id by {
        if i < j {
            assert(m.tracks[i].id < m.tracks[j].id);
        } else {
            assert(m.tracks[j].id < m.tracks[i].id);
        }
    }
    assert forall|i: int, a: int, b: int|
        0 <= i < m.tracks.len() && 0 <= a < m.tracks[i].regions.len() && 0 <= b
            < m.tracks[i].regions.len() && a != b implies (#[trigger] m.tracks[i].regions[a]).id != (
    #[trigger] m.tracks[i].regions[b]).id by {
        let t = m.tracks[i];
        assert(t.wf());
        if a < b {
            assert(t.regions[a].id < t.regions[b].id);
        } else {
            assert(t.regions[b].id < t.regions[a].id);
        }
    }
    assert forall|i: int, j: int, a: int, b: int|
        0 <= i < m.tracks.len() && 0 <= j < m.tracks.len() && 0 <= a
            < m.tracks[i].graph.nodes.len() && 0 <= b < m.tracks[j].graph.nodes.len() && (i != j
            || a != b) implies (#[trigger] m.tracks[i].graph.nodes[a]).id != (
    #[trigger] m.tracks[j].graph.nodes[b]).id by {
        let x = m.tracks[i].graph.nodes[a].id;
        let y = m.tracks[j].graph.nodes[b].id;
        assert(m.tracks[i].wf() && m.tracks[j].wf());
        if i == j {
            if a < b {
                assert(m.tracks[i].graph.nodes[a].id != m.tracks[i].graph.nodes[b].id);
            } else {
                assert(m.tracks[i].graph.nodes[b].id != m.tracks[i].graph.nodes[a].id);
            }
        } else if x == y {
            assert(m.tracks[i].graph.has_node(x));
            assert(m.tracks[j].graph.has_node(x));
            if i < j {
                assert(!(m.tracks[i].graph.has_node(x) && m.tracks[j].graph.has_node(x)));
            } else {
                assert(!(m.tracks[j].graph.has_node(x) && m.tracks[i].graph.has_node(x)));
            }
        }
    }
}

/// Replacing a track by one of the same id puts that one in its place;
/// replacing it twice is replacing it by the second, and replacing it by
/// itself changes nothing.
pub proof fn lemma_updated_track(m: MixerView, id: u32, t: TrackView, u: TrackView)
    requires
        m.ids_ascending(),
        m.has_track(id),
        t.id == id,
        u.id == id,
    ensures
        m.with_track_updated(id, t).ids_ascending(),
        m.with_track_updated(id, t).has_track(id),
        m.with_track_updated(id, t).track(id) == t,
        m.with_track_updated(id, t).with_track_updated(id, u) == m.with_track_updated(id, u),
        m.with_track_updated(id, m.track(id)) == m,
{
    let k = m.track_index(id);
    let n = m.with_track_updated(id, t);
    assert forall|i: int, j: int| 0 <= i < j < n.tracks.len() implies (#[trigger] n.tracks[i]).id < (
    #[trigger] n.tracks[j]).id by {
        assert(n.tracks[i].id == m.tracks[i].id && n.tracks[j].id == m.tracks[j].id);
    }
    assert(n.tracks[k].id == id);
    lemma_track_index(n, id, k);
    assert(n.tracks.update(k, u) =~= m.tracks.update(k, u));
    assert(m.tracks.update(k, m.track(id)) =~= m.tracks);
}

/// A mixer stays well-formed when a track is removed.
pub proof fn lemma_without_track_wf(m: MixerView, id: u32)
    requires
        m.wf(),
    ensures
        m.without_track(id).wf(),
        !m.without_track(id).has_track(id),
{
    let u = m.without_track(id);
    if m.has_track(id) {
        let k = m.track_index(id);
        assert forall|i: int| 0 <= i < u.tracks.len() implies #[trigger] u.tracks[i]
            == m.tracks[if i < k {
            i
        } else {
            i + 1
        }] by {}
        assert forall|i: int, j: int| 0 <= i < j < u.tracks.len() implies (#[trigger] u.tracks[i]).id
            < (#[trigger] u.tracks[j]).id by {
            let i0 = if i < k { i } else { i + 1 };
            let j0 = if j < k { j } else { j + 1 };
            assert(u.tracks[i] == m.tracks[i0] && u.tracks[j] == m.tracks[j0]);
        }
        assert forall|i: int| 0 <= i < u.tracks.len() implies (#[trigger] u.tracks[i]).id
            < u.next_track_id && u.tracks[i].wf() by {
            let i0 = if i < k { i } else { i + 1 };
            assert(u.tracks[i] == m.tracks[i0]);
        }
        assert forall|i: int, j: int, x: NodeId| 0 <= i < j < u.tracks.len() implies !(#[trigger] u.tracks[i].graph.has_node(x) && #[trigger] u.tracks[j].graph.has_node(x)) by {
            let i0 = if i < k { i } else { i + 1 };
            let j0 = if j < k { j } else { j + 1 };
            assert(u.tracks[i] == m.tracks[i0] && u.tracks[j] == m.tracks[j0]);
        }
        assert forall|i: int, x: NodeId| 0 <= i < u.tracks.len() && #[trigger] u.tracks[i].graph.has_node(x) implies x < u.next_node_id by {
            let i0 = if i < k { i } else { i + 1 };
            assert(u.tracks[i] == m.tracks[i0]);
        }
        if u.has_track(id) {
            let n = u.track_index(id);
            let n0 = if n < k { n } else { n + 1 };
            assert(u.tracks[n] == m.tracks[n0]);
            lemma_track_index(m, id, n0);
        }
    }
}

/// A mixer stays well-formed when a new track is added.
pub proof fn lemma_with_new_track_wf(m: MixerView, name: Seq<char>, channels: usize, track_type: TrackType)
    requires
        m.wf(),
        m.add_track_error(channels).is_none(),
        TrackView::fresh(
            m.next_track_id,
            name,
            channels,
            track_type,
            m.next_node_id,
            (m.next_node_id + 1) as u64,
        ).wf(),
    ensures
        m.with_new_track(name, channels, track_type).wf(),
{
    let u = m.with_new_track(name, channels, track_type);
    let n = m.tracks.len() as int;
    let t = u.tracks[n];
    assert forall|x: NodeId| t.graph.has_node(x) implies x == m.next_node_id || x
        == m.next_node_id + 1 by {
        let i = t.graph.index_of(x);
        assert(t.graph.nodes[i].id == x);
    }
    assert forall|i: int, j: int| 0 <= i < j < u.tracks.len() implies (#[trigger] u.tracks[i]).id < (
    #[trigger] u.tracks[j]).id by {
        assert(u.tracks[i] == m.tracks[i]);
        if j < n {
            assert(u.tracks[j] == m.tracks[j]);
        }
    }
    assert forall|i: int| 0 <= i < u.tracks.len() implies (#[trigger] u.tracks[i]).id
        < u.next_track_id && u.tracks[i].wf() by {
        if i < n {
            assert(u.tracks[i] == m.tracks[i]);
        }
    }
    assert forall|i: int, j: int, x: NodeId| 0 <= i < j < u.tracks.len() implies !(#[trigger] u.tracks[i].graph.has_node(x) && #[trigger] u.tracks[j].graph.has_node(x)) by {
        assert(u.tracks[i] == m.tracks[i]);
        if j < n {
            assert(u.tracks[j] == m.tracks[j]);
        }
    }
    assert forall|i: int, x: NodeId| 0 <= i < u.tracks.len() && #[trigger] u.tracks[i].graph.has_node(x) implies x < u.next_node_id by {
        if i < n {
            assert(u.tracks[i] == m.tracks[i]);
        }
    }
}

impl Mixer {
    /// The invariant of a mixer.
    pub open spec fn wf(&self) -> bool {
        self@.wf()
    }

    /// A mixer without tracks. A tempo, a sample rate or a number of channels
    /// of zero is refused.
    pub fn new(tempo_milli: u32, sample_rate: u32, channels: usize) -> (res: Result<
        Mixer,
        MixerError,
    >)
        ensures
            tempo_milli == 0 ==> res == Err::<Mixer, MixerError>(MixerError::InvalidTempo),
            tempo_milli != 0 && sample_rate == 0 ==> res == Err::<Mixer, MixerError>(
                MixerError::InvalidSampleRate,
            ),
            tempo_milli != 0 && sample_rate != 0 && channels == 0 ==> res == Err::<
                Mixer,
                MixerError,
            >(MixerError::NoChannels),
            tempo_milli != 0 && sample_rate != 0 && channels != 0 ==> res.is_ok()
                && res.unwrap().wf() && res.unwrap()@ == MixerView::fresh(
                tempo_milli,
                sample_rate,
                channels,
            ),
    {
        if tempo_milli == 0 {
            return Err(MixerError::InvalidTempo);
        }
        if sample_rate == 0 {
            return Err(MixerError::InvalidSampleRate);
        }
        if channels == 0 {
            return Err(MixerError::NoChannels);
        }
        let mixer = Mixer {
            tempo_milli,
            sample_rate,
            channels,
            tracks: Vec::new(),
            next_track_id: 0,
            next_node_id: 0,
        };
        assert(mixer@.tracks =~= Seq::empty());
        Ok(mixer)
    }

    /// A mixer without tracks at the default tempo, sample rate and number of
    /// channels.
    pub fn with_defaults() -> (mixer: Mixer)
        ensures
            mixer.wf(),
            mixer@ == MixerView::fresh(DEFAULT_TEMPO_MILLI, DEFAULT_SAMPLE_RATE, DEFAULT_CHANNELS),
    {
        let mixer = Mixer {
            tempo_milli: DEFAULT_TEMPO_MILLI,
            sample_rate: DEFAULT_SAMPLE_RATE,
            channels: DEFAULT_CHANNELS,
            tracks: Vec::new(),
            next_track_id: 0,
            next_node_id: 0,
        };
        assert(mixer@.tracks =~= Seq::empty());
        mixer
    }

    /// The tempo, in thousandths of a beat per minute.
    pub fn tempo_milli(&self) -> (t: u32)
        ensures
            t == self@.tempo_milli,
    {
        self.tempo_milli
    }

    /// The sample rate, in hertz.
    pub fn sample_rate(&self) -> (r: u32)
        ensures
            r == self@.sample_rate,
    {
        self.sample_rate
    }

    /// The number of output channels.
    pub fn channels(&self) -> (n: usize)
        ensures
            n == self@.channels,
    {
        self.channels
    }

    /// The tracks, in ascending order of id.
    pub fn tracks(&self) -> (tracks: &Vec<Track>)
        ensures
            tracks@.len() == self@.tracks.len(),
            forall|i: int| 0 <= i < tracks@.len() ==> (#[trigger] tracks@[i])@ == self@.tracks[i],
    {
        &self.tracks
    }

    /// Whole samples in one beat.
    pub fn samples_per_beat(&self) -> (n: u64)
        requires
            self.wf(),
        ensures
            n == self@.samples_per_beat(),
    {
        samples_per_beat(self.sample_rate, self.tempo_milli)
    }

    /// The time at which the last region of the project ends; zero for a
    /// project without regions.
    pub fn duration(&self) -> (b: Beats)
        ensures
            b@ == self@.duration(),
    {
        let ghost all = self@.tracks;
        let mut latest: Option<Beats> = None;
        let mut i: usize = 0;
        assert(all.subrange(0, 0) =~= Seq::empty());
        while i < self.tracks.len()
            invariant
                i <= self.tracks@.len(),
                all == self@.tracks,
                all.len() == self.tracks@.len(),
                latest.is_some() == latest_track_end(all.subrange(0, i as int)).is_some(),
                latest matches Some(t) ==> latest_track_end(all.subrange(0, i as int)) == Some(t@),
            decreases self.tracks@.len() - i,
        {
            assert(all.subrange(0, i + 1).drop_last() =~= all.subrange(0, i as int));
            assert(all.subrange(0, i + 1).last() == self.tracks@[i as int]@);
            latest = match (latest, self.tracks[i].end()) {
                (Some(rest), Some(end)) => if end.lt(rest) {
                    Some(rest)
                } else {
                    Some(end)
                },
                (Some(rest), None) => Some(rest),
                (None, end) => end,
            };
            i += 1;
        }
        assert(all.subrange(0, i as int) =~= all);
        match latest {
            Some(end) => end,
            None => Beats::zero(),
        }
    }

    /// The position of the track with id `id`, if the mixer has one.
    fn find_track(&self, id: u32) -> (found: Option<usize>)
        ensures
            match found {
                Some(i) => i < self@.tracks.len() && self@.tracks[i as int].id == id,
                None => !self@.has_track(id),
            },
    {
        let mut i: usize = 0;
        while i < self.tracks.len()
            invariant
                i <= self.tracks@.len(),
                self@.tracks.len() == self.tracks@.len(),
                forall|j: int| 0 <= j < i ==> (#[trigger] self@.tracks[j]).id != id,
            decreases self.tracks@.len() - i,
        {
            if self.tracks[i].get_id() == id {
                return Some(i);
            }
            i += 1;
        }
        None
    }

    /// The track with id `id`, if the mixer has one.
    pub fn get_track_by_id(&self, id: u32) -> (track: Option<&Track>)
        requires
            self.wf(),
        ensures
            track.is_some() == self@.has_track(id),
            track matches Some(t) ==> t@ == self@.track(id),
    {
        match self.find_track(id) {
            Some(i) => {
                proof {
                    lemma_track_index(self@, id, i as int);
                }
                Some(&self.tracks[i])
            },
            None => None,
        }
    }

    /// Adds a track described by `data` under the next track id and returns
    /// that id. Its graph gets the next two node ids for its entry and exit
    /// and the default connector between them. A track without channels is
    /// refused and changes nothing.
    pub fn add_track(&mut self, data: TrackData) -> (res: Result<u32, MixerError>)
        requires
            old(self).wf(),
        ensures
            final(self).wf(),
            match old(self)@.add_track_error(data.channels) {
                Some(e) => res == Err::<u32, MixerError>(e) && final(self)@ == old(self)@,
                None => res == Ok::<u32, MixerError>(old(self)@.next_track_id) && final(self)@
                    == old(self)@.with_new_track(data.name@, data.channels, data.track_type),
            },
    {
        if data.channels == 0 {
            return Err(MixerError::Track(TrackError::NoChannels));
        }
        if self.next_track_id == u32::MAX {
            return Err(MixerError::TrackIdsExhausted);
        }
        if self.next_node_id >= u64::MAX - 1 {
            return Err(MixerError::NodeIdsExhausted);
        }
        let id = self.next_track_id;
        let input = self.next_node_id;
        let output = self.next_node_id + 1;
        let ghost before = self@;
        let track = match Track::new(id, data.name, data.channels, data.track_type, input, output) {
            Ok(t) => t,
            Err(e) => {
                return Err(MixerError::Track(e));
            },
        };
        proof {
            lemma_with_new_track_wf(before, data.name@, data.channels, data.track_type);
        }
        self.tracks.push(track);
        self.next_track_id = id + 1;
        self.next_node_id = output + 1;
        assert(self@.tracks =~= before.with_new_track(
            data.name@,
            data.channels,
            data.track_type,
        ).tracks);
        Ok(id)
    }

    /// Removes the track `id` and says whether there was one.
    pub fn remove_track(&mut self, id: u32) -> (removed: bool)
        requires
            old(self).wf(),
        ensures
            final(self).wf(),
            removed == old(self)@.has_track(id),
            final(self)@ == old(self)@.without_track(id),
    {
        let ghost before = self@;
        proof {
            lemma_without_track_wf(before, id);
        }
        match self.find_track(id) {
            Some(i) => {
                proof {
                    lemma_track_index(before, id, i as int);
                }
                let _ = self.tracks.remove(i);
                assert(self@.tracks =~= before.without_track(id).tracks);
                true
            },
            None => false,
        }
    }

    /// Carries out `command` on the graph of track `id`. A node to add must
    /// come with an id that no track has and that lies below the next id.
    fn edit_graph(&mut self, id: u32, command: GraphCommand) -> (res: Result<(), MixerError>)
        requires
            old(self).wf(),
            command@ matches GraphOp::AddNode(x, _) ==> !old(self)@.has_node(x) && x < old(self)@.next_node_id,
        ensures
            final(self).wf(),
            final(self)@ == old(self)@.after_graph_op(id, command@),
            match old(self)@.graph_op_error(id, command@) {
                Some(e) => res == Err::<(), MixerError>(e),
                None => res.is_ok(),
            },
    {
        let ghost before = self@;
        let i = match self.find_track(id) {
            Some(i) => i,
            None => {
                return Err(MixerError::UnknownTrack);
            },
        };
        proof {
            lemma_track_index(before, id, i as int);
        }
        let mut track = self.tracks.remove(i);
        let r = track.apply_graph(command);
        proof {
            let t = before.track(id);
            lemma_after_wf(t.graph, command@);
            assert forall|x: NodeId| #[trigger] track@.graph.has_node(x) implies t.graph.has_node(x)
                || (!before.has_node(x) && x < before.next_node_id) by {
                crate::graph::lemma_after_nodes(t.graph, command@, x);
            }
            lemma_with_track_updated_wf(before, id, track@);
        }
        self.tracks.insert(i, track);
        assert(self@.tracks =~= before.after_graph_op(id, command@).tracks);
        match r {
            Ok(()) => Ok(()),
            Err(e) => Err(MixerError::Graph(e)),
        }
    }

    /// Wires the output `from_port` of node `from` to the input `to_port` of
    /// node `to` in the graph of track `id`. An unknown track, and a connector
    /// that the graph refuses, change nothing.
    pub fn connect(
        &mut self,
        id: u32,
        from: NodeId,
        from_port: String,
        to: NodeId,
        to_port: String,
    ) -> (res: Result<(), MixerError>)
        requires
            old(self).wf(),
        ensures
            final(self).wf(),
            final(self)@ == old(self)@.after_graph_op(
                id,
                GraphOp::Connect((Connector { from, from_port, to, to_port })@),
            ),
            match old(self)@.graph_op_error(
                id,
                GraphOp::Connect((Connector { from, from_port, to, to_port })@),
            ) {
                Some(e) => res == Err::<(), MixerError>(e),
                None => res.is_ok(),
            },
    {
        self.edit_graph(id, GraphCommand::Connect(Connector { from, from_port, to, to_port }))
    }

    /// Takes away the connector from the output `from_port` of node `from` to
    /// the input `to_port` of node `to` in the graph of track `id`. An unknown
    /// track and an unknown connector change nothing.
    pub fn disconnect(
        &mut self,
        id: u32,
        from: NodeId,
        from_port: String,
        to: NodeId,
        to_port: String,
    ) -> (res: Result<(), MixerError>)
        requires
            old(self).wf(),
        ensures
            final(self).wf(),
            final(self)@ == old(self)@.after_graph_op(
                id,
                GraphOp::Disconnect((Connector { from, from_port, to, to_port })@),
            ),
            match old(self)@.graph_op_error(
                id,
                GraphOp::Disconnect((Connector { from, from_port, to, to_port })@),
            ) {
                Some(e) => res == Err::<(), MixerError>(e),
                None => res.is_ok(),
            },
    {
        self.edit_graph(id, GraphCommand::Disconnect(Connector { from, from_port, to, to_port }))
    }

    /// Adds a node of kind `kind` to the graph of track `id` under the next
    /// node id and returns that id. An unknown track, and the entry and exit
    /// kinds, are refused and change nothing.
    pub fn add_node(&mut self, id: u32, kind: NodeType) -> (res: Result<NodeId, MixerError>)
        requires
            old(self).wf(),
        ensures
            final(self).wf(),
            match old(self)@.add_node_error(id, kind) {
                Some(e) => res == Err::<NodeId, MixerError>(e) && final(self)@ == old(self)@,
                None => res == Ok::<NodeId, MixerError>(old(self)@.next_node_id) && final(self)@
                    == old(self)@.with_new_node(id, kind),
            },
            old(self)@.add_node_error(id, kind).is_none() ==> final(self)@.has_track(id) && final(self)@.track(id).graph == old(self)@.track(id).graph.with_node(
                old(self)@.next_node_id,
                kind,
            ),
    {
        let ghost before = self@;
        if self.find_track(id).is_none() {
            return Err(MixerError::UnknownTrack);
        }
        match kind {
            NodeType::BufferInputNode | NodeType::BufferOutputNode => {
                return Err(MixerError::Graph(GraphError::FixedNode));
            },
            _ => {},
        }
        if self.next_node_id == u64::MAX {
            return Err(MixerError::NodeIdsExhausted);
        }
        let node_id = self.next_node_id;
        proof {
            let k = before.track_index(id);
            if before.track(id).graph.has_node(node_id) {
                assert(before.tracks[k].graph.has_node(node_id));
            }
            assert(!before.has_node(node_id));
        }
        self.next_node_id = node_id + 1;
        let ghost mid = self@;
        assert(mid.tracks == before.tracks);
        assert(mid.wf());
        assert(!mid.has_node(node_id));
        let r = self.edit_graph(id, GraphCommand::AddNode(node_id, kind));
        proof {
            let k = before.track_index(id);
            lemma_track_index(self@, id, k);
        }
        Ok(node_id)
    }

    /// Removes the node `node` and the connectors that touch it from the graph
    /// of track `id`. An unknown track, an unknown node, and the entry and
    /// exit nodes, are refused and change nothing.
    pub fn remove_node(&mut self, id: u32, node: NodeId) -> (res: Result<(), MixerError>)
        requires
            old(self).wf(),
        ensures
            final(self).wf(),
            final(self)@ == old(self)@.after_graph_op(id, GraphOp::RemoveNode(node)),
            match old(self)@.graph_op_error(id, GraphOp::RemoveNode(node)) {
                Some(e) => res == Err::<(), MixerError>(e),
                None => res.is_ok(),
            },
    {
        self.edit_graph(id, GraphCommand::RemoveNode(node))
    }

    /// Sets the constant for the input `key` of node `node` in the graph of
    /// track `id`. An unknown track, an unknown node and an undeclared input
    /// are refused and change nothing.
    pub fn set_input(&mut self, id: u32, node: NodeId, key: String, value: Value) -> (res: Result<
        (),
        MixerError,
    >)
        requires
            old(self).wf(),
        ensures
            final(self).wf(),
            final(self)@ == old(self)@.after_graph_op(id, GraphOp::SetInput(node, key@, value@)),
            match old(self)@.graph_op_error(id, GraphOp::SetInput(node, key@, value@)) {
                Some(e) => res == Err::<(), MixerError>(e),
                None => res.is_ok(),
            },
    {
        self.edit_graph(id, GraphCommand::SetInput(node, key, value))
    }

    /// Stores `source` as the shader of node `node` in the graph of track
    /// `id`. An unknown track, an unknown node and a node that is no audio
    /// shader are refused and change nothing.
    pub fn set_shader(&mut self, id: u32, node: NodeId, source: String) -> (res: Result<
        (),
        MixerError,
    >)
        requires
            old(self).wf(),
        ensures
            final(self).wf(),
            final(self)@ == old(self)@.after_graph_op(id, GraphOp::SetShader(node, source@)),
            match old(self)@.graph_op_error(id, GraphOp::SetShader(node, source@)) {
                Some(e) => res == Err::<(), MixerError>(e),
                None => res.is_ok(),
            },
    {
        self.edit_graph(id, GraphCommand::SetShader(node, source))
    }

    /// Adds a region described by `data` to track `id` under the track's next
    /// region id and returns that id. An unknown track, and a region of the
    /// kind the track does not hold, are refused and change nothing.
    pub fn add_region(&mut self, id: u32, data: RegionData) -> (res: Result<u32, MixerError>)
        requires
            old(self).wf(),
        ensures
            final(self).wf(),
            match old(self)@.add_region_error(id, data.region_type is NoteRegion) {
                Some(e) => res == Err::<u32, MixerError>(e) && final(self)@ == old(self)@,
                None => res == Ok::<u32, MixerError>(old(self)@.track(id).next_region_id) && final(self)@ == old(self)@.with_track_updated(
                    id,
                    old(self)@.track(id).with_region(
                        RegionView::fresh(
                            old(self)@.track(id).next_region_id,
                            data.name@,
                            data.start_time,
                            data.duration,
                            data.samples_per_beat,
                            data.region_type is NoteRegion,
                        ),
                    ),
                ),
            },
    {
        let ghost before = self@;
        let i = match self.find_track(id) {
            Some(i) => i,
            None => {
                return Err(MixerError::UnknownTrack);
            },
        };
        proof {
            lemma_track_index(before, id, i as int);
        }
        let mut track = self.tracks.remove(i);
        let r = track.add_region(data);
        proof {
            lemma_with_track_updated_wf(before, id, track@);
        }
        self.tracks.insert(i, track);
        assert(self@.tracks =~= before.tracks.update(i as int, track@));
        match r {
            Ok(region_id) => Ok(region_id),
            Err(e) => {
                assert(self@.tracks =~= before.tracks);
                Err(MixerError::Track(e))
            },
        }
    }

    /// Removes the region `region` from track `id` and says whether there was
    /// one. An unknown track is refused; a region that is not there changes
    /// nothing.
    pub fn remove_region(&mut self, id: u32, region: u32) -> (res: Result<bool, MixerError>)
        requires
            old(self).wf(),
        ensures
            final(self).wf(),
            !old(self)@.has_track(id) ==> res == Err::<bool, MixerError>(MixerError::UnknownTrack)
                && final(self)@ == old(self)@,
            old(self)@.has_track(id) ==> res == Ok::<bool, MixerError>(
                old(self)@.track(id).has_region(region),
            ) && final(self)@ == old(self)@.with_track_updated(
                id,
                old(self)@.track(id).without_region(region),
            ),
    {
        let ghost before = self@;
        let i = match self.find_track(id) {
            Some(i) => i,
            None => {
                return Err(MixerError::UnknownTrack);
            },
        };
        proof {
            lemma_track_index(before, id, i as int);
        }
        let mut track = self.tracks.remove(i);
        let removed = track.remove_region(region);
        proof {
            lemma_with_track_updated_wf(before, id, track@);
        }
        self.tracks.insert(i, track);
        assert(self@.tracks =~= before.tracks.update(i as int, track@));
        Ok(removed)
    }

    /// Carries out `op` on region `region` of track `id`. An unknown track,
    /// an unknown region, and an operation that the region refuses, change
    /// nothing.
    pub fn apply_region_op(&mut self, id: u32, region: u32, op: &RegionOperation) -> (res: Result<
        (),
        MixerError,
    >)
        requires
            old(self).wf(),
        ensures
            final(self).wf(),
            final(self)@ == old(self)@.after_region_op(id, region, op@),
            match old(self)@.region_op_error(id, region, op@) {
                Some(e) => res == Err::<(), MixerError>(e),
                None => res.is_ok(),
            },
    {
        let ghost before = self@;
        let i = match self.find_track(id) {
            Some(i) => i,
            None => {
                return Err(MixerError::UnknownTrack);
            },
        };
        proof {
            lemma_track_index(before, id, i as int);
        }
        let mut track = self.tracks.remove(i);
        let r = track.apply_region_op(region, op);
        proof {
            lemma_with_track_updated_wf(before, id, track@);
        }
        self.tracks.insert(i, track);
        assert(self@.tracks =~= before.tracks.update(i as int, track@));
        match r {
            Ok(()) => Ok(()),
            Err(e) => Err(MixerError::Track(e)),
        }
    }

    /// Binds `source` to the audio clip `region` of track `id`, or unbinds
    /// with `None`, and records the mixer's tempo with it. An unknown track,
    /// an unknown region and a region of notes are refused and change nothing.
    pub fn set_audio_source(&mut self, id: u32, region: u32, source: Option<BufferSource>) -> (res:
        Result<(), MixerError>)
        requires
            old(self).wf(),
        ensures
            final(self).wf(),
            !old(self)@.has_track(id) ==> res == Err::<(), MixerError>(MixerError::UnknownTrack)
                && final(self)@ == old(self)@,
            old(self)@.has_track(id) && !old(self)@.track(id).has_region(region) ==> res == Err::<
                (),
                MixerError,
            >(MixerError::Track(TrackError::UnknownRegion)) && final(self)@ == old(self)@,
            old(self)@.has_track(id) && old(self)@.track(id).has_region(region) && old(self)@.track(id).region(region).is_notes() ==> res == Err::<(), MixerError>(
                MixerError::Track(TrackError::Region(RegionError::NotABufferRegion)),
            ) && final(self)@ == old(self)@,
            old(self)@.has_track(id) && old(self)@.track(id).has_region(region) && !old(self)@.track(id).region(region).is_notes() ==> res.is_ok() && final(self)@ == old(self)@.with_track_updated(
                id,
                old(self)@.track(id).with_region_updated(
                    region,
                    old(self)@.track(id).region(region).bound(source, old(self)@.tempo_milli),
                ),
            ),
    {
        let ghost before = self@;
        let i = match self.find_track(id) {
            Some(i) => i,
            None => {
                return Err(MixerError::UnknownTrack);
            },
        };
        proof {
            lemma_track_index(before, id, i as int);
        }
        let mut track = self.tracks.remove(i);
        let r = track.set_audio_source(region, source, self.tempo_milli);
        proof {
            lemma_with_track_updated_wf(before, id, track@);
        }
        self.tracks.insert(i, track);
        assert(self@.tracks =~= before.tracks.update(i as int, track@));
        match r {
            Ok(()) => Ok(()),
            Err(e) => {
                assert(self@.tracks =~= before.tracks);
                Err(MixerError::Track(e))
            },
        }
    }
}

impl Clone for Mixer {
    /// A copy of the whole project, which a mix pass can render while the
    /// mixer itself goes on being edited.
    fn clone(&self) -> (mixer: Mixer)
        ensures
            mixer@ == self@,
    {
        let mut tracks: Vec<Track> = Vec::new();
        let mut i: usize = 0;
        while i < self.tracks.len()
            invariant
                i <= self.tracks@.len(),
                tracks@.len() == i,
                forall|j: int| 0 <= j < i ==> (#[trigger] tracks@[j])@ == self.tracks@[j]@,
            decreases self.tracks@.len() - i,
        {
            tracks.push(self.tracks[i].clone());
            i += 1;
        }
        let mixer = Mixer {
            tempo_milli: self.tempo_milli,
            sample_rate: self.sample_rate,
            channels: self.channels,
            tracks,
            next_track_id: self.next_track_id,
            next_node_id: self.next_node_id,
        };
        assert(mixer@.tracks =~= self@.tracks);
        mixer
    }
}

} // verus!
