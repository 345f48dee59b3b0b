//! The mixer actor: the one owner of the project, which applies commands one
//! at a time and says, for each, what is to be told to observers and what is
//! left for the caller to do.

use vstd::prelude::*;
use crate::graph::GraphOp;
use crate::layout::{
    with_color, with_position, without_color, without_position, without_track_positions,
    NodePosition, NodePositions, Position, TrackColorView, TrackColors,
};
use crate::mixer::{
    Mixer, MixerError, MixerView, DEFAULT_CHANNELS, DEFAULT_SAMPLE_RATE, DEFAULT_TEMPO_MILLI,
};
use crate::node::{NodeData, NodeId};
use crate::plan::{is_mix_plan, TrackPlan};
use crate::region::{
    BufferSource, RegionData, RegionOp, RegionOperation, RegionType, RegionView,
};
use crate::state::MixerState;
use crate::time::Beats;
use crate::topology::ConnectorView;
use crate::track::{TrackData, TrackError};
use crate::value::Value;

verus! {

/// The least time, in milliseconds, between two snapshots that follow
/// commands on whole tracks.
pub const EMIT_INTERVAL_MS: u64 = 100;

/// What the actor is asked to do.
pub enum MixerCommand {
    /// Start a mix pass at the given time.
    Mix(Beats),
    /// Add a track to the mixer.
    AddTrack(TrackData),
    /// Remove a track from the mixer.
    RemoveTrack(u32),
    /// Set the colour of a track.
    SetTrackColor(u32, String),
    /// Add a region to the track.
    AddRegion(u32, RegionData),
    /// Remove the region from the track.
    RemoveRegion(u32, u32),
    /// Carry out the operation on the region of the track.
    ApplyRegionOp(u32, u32, RegionOperation),
    /// In the track's graph, wire an output port of one node to an input port
    /// of another.
    ConnectGraph(u32, NodeId, String, NodeId, String),
    /// In the track's graph, take the connector between the two ports away.
    DisconnectGraph(u32, NodeId, String, NodeId, String),
    /// Add a node to the track's graph and draw it at the position.
    AddNode(u32, NodeData, Position),
    /// Remove a node from the track's graph.
    RemoveNode(u32, NodeId),
    /// Draw the node at the position.
    MoveNode(u32, NodeId, Position),
    /// Set the constant for an input of a node.
    SetInputProperties(u32, NodeId, String, Value),
    /// Ask for the entry node of the track's graph.
    GetInputNode(u32),
    /// Ask for the exit node of the track's graph.
    GetOutputNode(u32),
    /// Store the source as the shader of an audio shader node.
    SetAudioShader(u32, NodeId, String),
    /// Ask whether the project changed since the last mix pass began.
    DoesNeedMix,
    /// Stop the mix pass that is under way.
    StopMixing,
}

/// What the actor answers to a command that asks for an answer.
#[derive(Debug)]
pub enum MixerResult {
    /// The entry node of the track's graph.
    InputNode(NodeId),
    /// The exit node of the track's graph.
    OutputNode(NodeId),
    /// Whether the project changed since the last mix pass began.
    NeedsMix(bool),
    /// What the shader compiler said of the source; nothing where it compiled.
    AudioShaderErrors(Vec<String>),
    /// The command was refused.
    Failed(MixerError),
}

/// What a command leaves for the caller to do.
pub enum Effect {
    /// Nothing.
    Nothing,
    /// Decode track `track_index` of the audio file at `path`, then hand the
    /// buffer, or the failure, to `bind_source` for the region.
    LoadSource { track_id: u32, region_id: u32, path: String, track_index: usize },
    /// Compile `source` for the node, then answer the sender with what the
    /// compiler said.
    CompileShader { track_id: u32, node_id: NodeId, source: String },
    /// Stop the mix pass under way, if `preempt` says there is one, then
    /// render a copy of the project from `at` on, evaluating each track as
    /// `plans` says.
    StartMix { at: Beats, plans: Vec<TrackPlan>, preempt: bool },
    /// Stop the mix pass under way.
    StopMix,
}

/// What came of a command.
pub struct Outcome {
    /// The answer for the sender, where the command asks for one.
    pub reply: Option<MixerResult>,
    /// The snapshot to publish, where one is due.
    pub snapshot: Option<MixerState>,
    /// What is left for the caller to do.
    pub effect: Effect,
    /// Why the command was refused, where it was.
    pub error: Option<MixerError>,
}

/// The owner of the project.
pub struct MixerActor {
    mixer: Mixer,
    node_positions: NodePositions,
    track_colors: TrackColors,
    needs_mix: bool,
    last_emit_ms: u64,
    mixing: bool,
}

/// What a `MixerActor` stands for in contracts.
pub struct ActorView {
    pub mixer: MixerView,
    pub positions: Seq<NodePosition>,
    pub colors: Seq<TrackColorView>,
    pub needs_mix: bool,
    pub last_emit_ms: u64,
    pub mixing: bool,
}

/// The operation `op` changes what a region sounds like.
pub open spec fn region_op_sounds(op: RegionOp) -> bool {
    !(op is SetName)
}

/// The change to a graph that `command` asks for, where it asks for one that
/// needs no new id.
pub open spec fn graph_op_of(command: MixerCommand) -> Option<GraphOp> {
    match command {
        MixerCommand::ConnectGraph(_, from, from_port, to, to_port) => Some(
            GraphOp::Connect(
                ConnectorView { from, from_port: from_port@, to, to_port: to_port@ },
            ),
        ),
        MixerCommand::DisconnectGraph(_, from, from_port, to, to_port) => Some(
            GraphOp::Disconnect(
                ConnectorView { from, from_port: from_port@, to, to_port: to_port@ },
            ),
        ),
        MixerCommand::RemoveNode(_, node) => Some(GraphOp::RemoveNode(node)),
        MixerCommand::SetInputProperties(_, node, key, value) => Some(
            GraphOp::SetInput(node, key@, value@),
        ),
        MixerCommand::SetAudioShader(_, node, source) => Some(GraphOp::SetShader(node, source@)),
        _ => None,
    }
}

/// The track that `command` is about, where it is about one.
pub open spec fn track_of(command: MixerCommand) -> u32 {
    match command {
        MixerCommand::RemoveTrack(t) => t,
        MixerCommand::SetTrackColor(t, _) => t,
        MixerCommand::AddRegion(t, _) => t,
        MixerCommand::RemoveRegion(t, _) => t,
        MixerCommand::ApplyRegionOp(t, _, _) => t,
        MixerCommand::ConnectGraph(t, _, _, _, _) => t,
        MixerCommand::DisconnectGraph(t, _, _, _, _) => t,
        MixerCommand::AddNode(t, _, _) => t,
        MixerCommand::RemoveNode(t, _) => t,
        MixerCommand::MoveNode(t, _, _) => t,
        MixerCommand::SetInputProperties(t, _, _, _) => t,
        MixerCommand::GetInputNode(t) => t,
        MixerCommand::GetOutputNode(t) => t,
        MixerCommand::SetAudioShader(t, _, _) => t,
        _ => 0,
    }
}

/// A snapshot follows `command` only if enough time has passed since the
/// last such snapshot.
pub open spec fn is_throttled(command: MixerCommand) -> bool {
    command is AddTrack || command is RemoveTrack || command is SetTrackColor
}

/// A snapshot follows `command` whenever it is handled.
pub open spec fn always_emits(command: MixerCommand) -> bool {
    command is AddRegion || command is RemoveRegion || command is ApplyRegionOp
        || command is ConnectGraph || command is DisconnectGraph || command is AddNode
        || command is RemoveNode || command is MoveNode || command is SetInputProperties
        || command is SetAudioShader
}

/// `command`, where the actor accepts it, changes what a mix pass renders.
pub open spec fn may_change_sound(command: MixerCommand) -> bool {
    match command {
        MixerCommand::AddTrack(_) => true,
        MixerCommand::RemoveTrack(_) => true,
        MixerCommand::AddRegion(_, _) => true,
        MixerCommand::RemoveRegion(_, _) => true,
        MixerCommand::ApplyRegionOp(_, _, op) => region_op_sounds(op@),
        MixerCommand::ConnectGraph(_, _, _, _, _) => true,
        MixerCommand::DisconnectGraph(_, _, _, _, _) => true,
        MixerCommand::AddNode(_, _, _) => true,
        MixerCommand::RemoveNode(_, _) => true,
        MixerCommand::SetInputProperties(_, _, _, _) => true,
        MixerCommand::SetAudioShader(_, _, _) => true,
        _ => false,
    }
}

impl ActorView {
    /// The invariant of the actor.
    pub open spec fn wf(self) -> bool {
        &&& self.mixer.wf()
        &&& crate::layout::places_distinct(self.positions)
        &&& crate::layout::colors_distinct(self.colors)
    }

    /// An actor as it starts at the time `now_ms`: a mixer without tracks at
    /// the default tempo, sample rate and number of channels, nothing drawn
    /// or coloured, nothing to mix and no mix pass under way.
    pub open spec fn fresh(now_ms: u64) -> ActorView {
        ActorView {
            mixer: MixerView::fresh(DEFAULT_TEMPO_MILLI, DEFAULT_SAMPLE_RATE, DEFAULT_CHANNELS),
            positions: Seq::empty(),
            colors: Seq::empty(),
            needs_mix: false,
            last_emit_ms: now_ms,
            mixing: false,
        }
    }

    /// Why the actor refuses `command`, or `None` where it accepts it.
    pub open spec fn error_of(self, command: MixerCommand) -> Option<MixerError> {
        match command {
            MixerCommand::AddTrack(data) => self.mixer.add_track_error(data.channels),
            MixerCommand::RemoveTrack(t) => if self.mixer.has_track(t) {
                None
            } else {
                Some(MixerError::UnknownTrack)
            },
            MixerCommand::AddRegion(t, data) => self.mixer.add_region_error(
                t,
                data.region_type is NoteRegion,
            ),
            MixerCommand::RemoveRegion(t, r) => if !self.mixer.has_track(t) {
                Some(MixerError::UnknownTrack)
            } else if !self.mixer.track(t).has_region(r) {
                Some(MixerError::Track(TrackError::UnknownRegion))
            } else {
                None
            },
            MixerCommand::ApplyRegionOp(t, r, op) => self.mixer.region_op_error(t, r, op@),
            MixerCommand::AddNode(t, data, _) => self.mixer.add_node_error(t, data.node_type),
            MixerCommand::GetInputNode(t) => if self.mixer.has_track(t) {
                None
            } else {
                Some(MixerError::UnknownTrack)
            },
            MixerCommand::GetOutputNode(t) => if self.mixer.has_track(t) {
                None
            } else {
                Some(MixerError::UnknownTrack)
            },
            _ => match graph_op_of(command) {
                Some(op) => self.mixer.graph_op_error(track_of(command), op),
                None => None,
            },
        }
    }

    /// The mixer after `command`.
    pub open spec fn mixer_after(self, command: MixerCommand) -> MixerView {
        if self.error_of(command).is_some() {
            self.mixer
        } else {
            match command {
                MixerCommand::AddTrack(data) => self.mixer.with_new_track(
                    data.name@,
                    data.channels,
                    data.track_type,
                ),
                MixerCommand::RemoveTrack(t) => self.mixer.without_track(t),
                MixerCommand::AddRegion(t, data) => self.mixer.with_track_updated(
                    t,
                    self.mixer.track(t).with_region(
                        RegionView::fresh(
                            self.mixer.track(t).next_region_id,
                            data.name@,
                            data.start_time,
                            data.duration,
                            data.samples_per_beat,
                            data.region_type is NoteRegion,
                        ),
                    ),
                ),
                MixerCommand::RemoveRegion(t, r) => self.mixer.with_track_updated(
                    t,
                    self.mixer.track(t).without_region(r),
                ),
                MixerCommand::ApplyRegionOp(t, r, op) => self.mixer.after_region_op(t, r, op@),
                MixerCommand::AddNode(t, data, _) => self.mixer.with_new_node(t, data.node_type),
                _ => match graph_op_of(command) {
                    Some(op) => self.mixer.after_graph_op(track_of(command), op),
                    None => self.mixer,
                },
            }
        }
    }

    /// Where nodes are drawn after `command`.
    pub open spec fn positions_after(self, command: MixerCommand) -> Seq<NodePosition> {
        match command {
            MixerCommand::MoveNode(t, node, p) => with_position(
                self.positions,
                NodePosition { track_id: t, node_id: node, x: p.x, y: p.y },
            ),
            _ => if self.error_of(command).is_some() {
                self.positions
            } else {
                match command {
                    MixerCommand::RemoveTrack(t) => without_track_positions(self.positions, t),
                    MixerCommand::AddNode(t, _, p) => with_position(
                        self.positions,
                        NodePosition {
                            track_id: t,
                            node_id: self.mixer.next_node_id,
                            x: p.x,
                            y: p.y,
                        },
                    ),
                    MixerCommand::RemoveNode(t, node) => without_position(self.positions, t, node),
                    _ => self.positions,
                }
            },
        }
    }

    /// The colours of the tracks after `command`.
    pub open spec fn colors_after(self, command: MixerCommand) -> Seq<TrackColorView> {
        match command {
            MixerCommand::SetTrackColor(t, color) => with_color(
                self.colors,
                TrackColorView { track_id: t, color: color@ },
            ),
            MixerCommand::RemoveTrack(t) => if self.error_of(command).is_some() {
                self.colors
            } else {
                without_color(self.colors, t)
            },
            _ => self.colors,
        }
    }

    /// Whether the project, after `command`, has changed since the last mix
    /// pass began: a mix pass that begins clears the mark, and a command that
    /// the actor accepts and that changes what is rendered sets it.
    pub open spec fn needs_mix_after(self, command: MixerCommand) -> bool {
        if command is Mix {
            false
        } else {
            self.needs_mix || (may_change_sound(command) && self.error_of(command).is_none())
        }
    }

    /// A snapshot follows `command` handled at the time `now_ms`.
    pub open spec fn emits(self, command: MixerCommand, now_ms: u64) -> bool {
        always_emits(command) || (is_throttled(command) && now_ms - self.last_emit_ms
            >= EMIT_INTERVAL_MS)
    }

    /// The actor after `command` handled at the time `now_ms`.
    pub open spec fn after(self, command: MixerCommand, now_ms: u64) -> ActorView {
        ActorView {
            mixer: self.mixer_after(command),
            positions: self.positions_after(command),
            colors: self.colors_after(command),
            needs_mix: self.needs_mix_after(command),
            last_emit_ms: if is_throttled(command) && self.emits(command, now_ms) {
                now_ms
            } else {
                self.last_emit_ms
            },
            mixing: if command is Mix {
                true
            } else if command is StopMixing {
                false
            } else {
                self.mixing
            },
        }
    }

    /// The answer to `command`, where it gets one.
    pub open spec fn reply_to(self, command: MixerCommand) -> Option<MixerResult> {
        match command {
            MixerCommand::GetInputNode(t) => Some(
                if self.mixer.has_track(t) {
                    MixerResult::InputNode(self.mixer.track(t).graph.input)
                } else {
                    MixerResult::Failed(MixerError::UnknownTrack)
                },
            ),
            MixerCommand::GetOutputNode(t) => Some(
                if self.mixer.has_track(t) {
                    MixerResult::OutputNode(self.mixer.track(t).graph.output)
                } else {
                    MixerResult::Failed(MixerError::UnknownTrack)
                },
            ),
            MixerCommand::DoesNeedMix => Some(MixerResult::NeedsMix(self.needs_mix)),
            MixerCommand::SetAudioShader(_, _, _) => match self.error_of(command) {
                Some(e) => Some(MixerResult::Failed(e)),
                None => None,
            },
            _ => None,
        }
    }

    /// `effect` is what `command` leaves for the caller to do.
    pub open spec fn leaves(self, command: MixerCommand, effect: Effect) -> bool {
        match command {
            MixerCommand::Mix(at) => effect matches Effect::StartMix { at: a, plans, preempt }
                && a == at && preempt == self.mixing && is_mix_plan(self.mixer, plans@),
            MixerCommand::StopMixing => effect is StopMix,
            MixerCommand::AddRegion(t, data) => match data.region_type {
                RegionType::BufferRegion(path, track_index) => if self.error_of(command).is_none() {
                    effect matches Effect::LoadSource { track_id, region_id, path: p, track_index: i }
                        && track_id == t && region_id == self.mixer.track(t).next_region_id && p@
                        == path@ && i == track_index
                } else {
                    effect is Nothing
                },
                RegionType::NoteRegion() => effect is Nothing,
            },
            MixerCommand::SetAudioShader(t, node, source) => if self.error_of(command).is_none() {
                effect matches Effect::CompileShader { track_id, node_id, source: s } && track_id
                    == t && node_id == node && s@ == source@
            } else {
                effect is Nothing
            },
            _ => effect is Nothing,
        }
    }
}

/// `out` and the actor `after` are what comes of `command` handled by the
/// actor `before` at the time `now_ms`.
pub open spec fn handled(
    before: ActorView,
    command: MixerCommand,
    now_ms: u64,
    after: ActorView,
    out: Outcome,
) -> bool {
    &&& after.wf()
    &&& after == before.after(command, now_ms)
    &&& out.error == before.error_of(command)
    &&& out.reply == before.reply_to(command)
    &&& before.leaves(command, out.effect)
    &&& out.snapshot.is_some() == before.emits(command, now_ms)
    &&& out.snapshot matches Some(s) ==> s.describes(after.mixer, after.positions, after.colors)
}

impl View for MixerActor {
    type V = ActorView;

    closed spec fn view(&self) -> ActorView {
        ActorView {
            mixer: self.mixer@,
            positions: self.node_positions@,
            colors: self.track_colors@,
            needs_mix: self.needs_mix,
            last_emit_ms: self.last_emit_ms,
            mixing: self.mixing,
        }
    }
}

impl MixerActor {
    /// The invariant of the actor.
    pub open spec fn wf(&self) -> bool {
        self@.wf()
    }

    /// An actor that starts at the time `now_ms`, in milliseconds of a clock
    /// that never runs backwards.
    pub fn new(now_ms: u64) -> (actor: MixerActor)
        ensures
            actor.wf(),
            actor@ == ActorView::fresh(now_ms),
    {
        MixerActor {
            mixer: Mixer::with_defaults(),
            node_positions: NodePositions::new(),
            track_colors: TrackColors::new(),
            needs_mix: false,
            last_emit_ms: now_ms,
            mixing: false,
        }
    }

    /// Whether the project changed since the last mix pass began.
    pub fn needs_mix(&self) -> (r: bool)
        ensures
            r == self@.needs_mix,
    {
        self.needs_mix
    }

    /// Whether a mix pass is under way.
    pub fn is_mixing(&self) -> (r: bool)
        ensures
            r == self@.mixing,
    {
        self.mixing
    }

    /// The mixer.
    pub fn mixer(&self) -> (m: &Mixer)
        ensures
            m@ == self@.mixer,
    {
        &self.mixer
    }

    /// Where nodes are drawn.
    pub fn node_positions(&self) -> (p: &NodePositions)
        ensures
            p@ == self@.positions,
    {
        &self.node_positions
    }

    /// The colours of the tracks.
    pub fn track_colors(&self) -> (c: &TrackColors)
        ensures
            c@ == self@.colors,
    {
        &self.track_colors
    }

    /// The project as observers see it now.
    pub fn snapshot(&self) -> (s: MixerState)
        requires
            self.wf(),
        ensures
            s.describes(self@.mixer, self@.positions, self@.colors),
    {
        MixerState::from_mixer(&self.mixer, &self.node_positions, &self.track_colors)
    }

    /// The snapshot to publish, where one is due.
    fn emit(&self, due: bool) -> (s: Option<MixerState>)
        requires
            self.wf(),
        ensures
            s.is_some() == due,
            s matches Some(state) ==> state.describes(self@.mixer, self@.positions, self@.colors),
    {
        if due {
            Some(self.snapshot())
        } else {
            None
        }
    }

    /// Says whether a throttled snapshot is due at the time `now_ms`, and
    /// where it is, records that time as that of the last one.
    fn throttle(&mut self, now_ms: u64) -> (due: bool)
        ensures
            due == (now_ms - old(self)@.last_emit_ms >= EMIT_INTERVAL_MS),
            final(self)@ == (ActorView {
                last_emit_ms: if due {
                    now_ms
                } else {
                    old(self)@.last_emit_ms
                },
                ..old(self)@
            }),
    {
        if now_ms >= self.last_emit_ms && now_ms - self.last_emit_ms >= EMIT_INTERVAL_MS {
            self.last_emit_ms = now_ms;
            true
        } else {
            false
        }
    }

    /// Starts a mix pass.
    fn on_mix(&mut self, at: Beats) -> (out: Outcome)
        requires
            old(self).wf(),
        ensures
            handled(old(self)@, MixerCommand::Mix(at), 0, final(self)@, out),
    {
        let plans = self.mixer.prepare();
        let effect = Effect::StartMix { at, plans, preempt: self.mixing };
        self.needs_mix = false;
        self.mixing = true;
        Outcome { reply: None, snapshot: None, effect, error: None }
    }

    /// Adds a track.
    fn on_add_track(&mut self, data: TrackData, now_ms: u64) -> (out: Outcome)
        requires
            old(self).wf(),
        ensures
            handled(old(self)@, MixerCommand::AddTrack(data), now_ms, final(self)@, out),
    {
        let mut error: Option<MixerError> = None;
        match self.mixer.add_track(data) {
            Ok(_) => {
                self.needs_mix = true;
            },
            Err(e) => {
                error = Some(e);
            },
        }
        let due = self.throttle(now_ms);
        let snapshot = self.emit(due);
        Outcome { reply: None, snapshot, effect: Effect::Nothing, error }
    }

    /// Removes a track, with the places of its nodes and its colour.
    fn on_remove_track(&mut self, t: u32, now_ms: u64) -> (out: Outcome)
        requires
            old(self).wf(),
        ensures
            handled(old(self)@, MixerCommand::RemoveTrack(t), now_ms, final(self)@, out),
    {
        let mut error: Option<MixerError> = None;
        if self.mixer.remove_track(t) {
            self.node_positions.remove_track(t);
            self.track_colors.remove(t);
            self.needs_mix = true;
        } else {
            error = Some(MixerError::UnknownTrack);
        }
        let due = self.throttle(now_ms);
        let snapshot = self.emit(due);
        Outcome { reply: None, snapshot, effect: Effect::Nothing, error }
    }

    /// Colours a track.
    fn on_set_track_color(&mut self, t: u32, color: String, now_ms: u64) -> (out: Outcome)
        requires
            old(self).wf(),
        ensures
            handled(old(self)@, MixerCommand::SetTrackColor(t, color), now_ms, final(self)@, out),
    {
        self.track_colors.insert(t, color);
        let due = self.throttle(now_ms);
        let snapshot = self.emit(due);
        Outcome { reply: None, snapshot, effect: Effect::Nothing, error: None }
    }

    /// Adds a region; an audio clip is left for the caller to load.
    fn on_add_region(&mut self, t: u32, data: RegionData) -> (out: Outcome)
        requires
            old(self).wf(),
        ensures
            handled(old(self)@, MixerCommand::AddRegion(t, data), 0, final(self)@, out),
    {
        let mut error: Option<MixerError> = None;
        let mut effect = Effect::Nothing;
        let load = match &data.region_type {
            RegionType::BufferRegion(path, track_index) => Some((path.clone(), *track_index)),
            RegionType::NoteRegion() => None,
        };
        match self.mixer.add_region(t, data) {
            Ok(region_id) => {
                self.needs_mix = true;
                match load {
                    Some((path, track_index)) => {
                        effect = Effect::LoadSource { track_id: t, region_id, path, track_index };
                    },
                    None => {},
                }
            },
            Err(e) => {
                error = Some(e);
            },
        }
        let snapshot = self.emit(true);
        Outcome { reply: None, snapshot, effect, error }
    }

    /// Removes a region.
    fn on_remove_region(&mut self, t: u32, r: u32) -> (out: Outcome)
        requires
            old(self).wf(),
        ensures
            handled(old(self)@, MixerCommand::RemoveRegion(t, r), 0, final(self)@, out),
    {
        let ghost before = self@;
        let mut error: Option<MixerError> = None;
        match self.mixer.remove_region(t, r) {
            Ok(removed) => {
                if removed {
                    self.needs_mix = true;
                } else {
                    proof {
                        let k = before.mixer.track_index(t);
                        assert(before.mixer.tracks.update(k, before.mixer.track(t))
                            =~= before.mixer.tracks);
                    }
                    error = Some(MixerError::Track(TrackError::UnknownRegion));
                }
            },
            Err(e) => {
                error = Some(e);
            },
        }
        let snapshot = self.emit(true);
        Outcome { reply: None, snapshot, effect: Effect::Nothing, error }
    }

    /// Carries out an operation on a region.
    fn on_apply_region_op(&mut self, t: u32, r: u32, op: RegionOperation) -> (out: Outcome)
        requires
            old(self).wf(),
        ensures
            handled(old(self)@, MixerCommand::ApplyRegionOp(t, r, op), 0, final(self)@, out),
    {
        let ghost before = self@;
        let mut error: Option<MixerError> = None;
        let sounds = match &op {
            RegionOperation::SetName(_) => false,
            _ => true,
        };
        proof {
            if before.mixer.region_op_error(t, r, op@).is_some() {
                lemma_refused_region_op(before.mixer, t, r, op@);
            }
        }
        match self.mixer.apply_region_op(t, r, &op) {
            Ok(()) => {
                if sounds {
                    self.needs_mix = true;
                }
            },
            Err(e) => {
                error = Some(e);
            },
        }
        let snapshot = self.emit(true);
        Outcome { reply: None, snapshot, effect: Effect::Nothing, error }
    }

    /// Makes a connector.
    fn on_connect(&mut self, t: u32, from: NodeId, from_port: String, to: NodeId, to_port: String) -> (out:
        Outcome)
        requires
            old(self).wf(),
        ensures
            handled(
                old(self)@,
                MixerCommand::ConnectGraph(t, from, from_port, to, to_port),
                0,
                final(self)@,
                out,
            ),
    {
        let ghost command = MixerCommand::ConnectGraph(t, from, from_port, to, to_port);
        let mut error: Option<MixerError> = None;
        proof {
            lemma_refused_graph_op(self@.mixer, t, graph_op_of(command).unwrap());
        }
        match self.mixer.connect(t, from, from_port, to, to_port) {
            Ok(()) => {
                self.needs_mix = true;
            },
            Err(e) => {
                error = Some(e);
            },
        }
        let snapshot = self.emit(true);
        Outcome { reply: None, snapshot, effect: Effect::Nothing, error }
    }

    /// Takes a connector away.
    fn on_disconnect(&mut self, t: u32, from: NodeId, from_port: String, to: NodeId, to_port: String) -> (out:
        Outcome)
        requires
            old(self).wf(),
        ensures
            handled(
                old(self)@,
                MixerCommand::DisconnectGraph(t, from, from_port, to, to_port),
                0,
                final(self)@,
                out,
            ),
    {
        let ghost command = MixerCommand::DisconnectGraph(t, from, from_port, to, to_port);
        let mut error: Option<MixerError> = None;
        proof {
            lemma_refused_graph_op(self@.mixer, t, graph_op_of(command).unwrap());
        }
        match self.mixer.disconnect(t, from, from_port, to, to_port) {
            Ok(()) => {
                self.needs_mix = true;
            },
            Err(e) => {
                error = Some(e);
            },
        }
        let snapshot = self.emit(true);
        Outcome { reply: None, snapshot, effect: Effect::Nothing, error }
    }

    /// Adds a node and draws it.
    fn on_add_node(&mut self, t: u32, data: NodeData, position: Position) -> (out: Outcome)
        requires
            old(self).wf(),
        ensures
            handled(old(self)@, MixerCommand::AddNode(t, data, position), 0, final(self)@, out),
    {
        let mut error: Option<MixerError> = None;
        match self.mixer.add_node(t, data.node_type) {
            Ok(node) => {
                self.node_positions.insert(t, node, position);
                self.needs_mix = true;
            },
            Err(e) => {
                error = Some(e);
            },
        }
        let snapshot = self.emit(true);
        Outcome { reply: None, snapshot, effect: Effect::Nothing, error }
    }

    /// Removes a node and forgets where it was drawn.
    fn on_remove_node(&mut self, t: u32, node: NodeId) -> (out: Outcome)
        requires
            old(self).wf(),
        ensures
            handled(old(self)@, MixerCommand::RemoveNode(t, node), 0, final(self)@, out),
    {
        let ghost command = MixerCommand::RemoveNode(t, node);
        let mut error: Option<MixerError> = None;
        proof {
            lemma_refused_graph_op(self@.mixer, t, graph_op_of(command).unwrap());
        }
        match self.mixer.remove_node(t, node) {
            Ok(()) => {
                self.node_positions.remove(t, node);
                self.needs_mix = true;
            },
            Err(e) => {
                error = Some(e);
            },
        }
        let snapshot = self.emit(true);
        Outcome { reply: None, snapshot, effect: Effect::Nothing, error }
    }

    /// Draws a node somewhere else.
    fn on_move_node(&mut self, t: u32, node: NodeId, position: Position) -> (out: Outcome)
        requires
            old(self).wf(),
        ensures
            handled(old(self)@, MixerCommand::MoveNode(t, node, position), 0, final(self)@, out),
    {
        self.node_positions.insert(t, node, position);
        let snapshot = self.emit(true);
        Outcome { reply: None, snapshot, effect: Effect::Nothing, error: None }
    }

    /// Sets a constant input of a node.
    fn on_set_input(&mut self, t: u32, node: NodeId, key: String, value: Value) -> (out: Outcome)
        requires
            old(self).wf(),
        ensures
            handled(
                old(self)@,
                MixerCommand::SetInputProperties(t, node, key, value),
                0,
                final(self)@,
                out,
            ),
    {
        let ghost command = MixerCommand::SetInputProperties(t, node, key, value);
        let mut error: Option<MixerError> = None;
        proof {
            lemma_refused_graph_op(self@.mixer, t, graph_op_of(command).unwrap());
        }
        match self.mixer.set_input(t, node, key, value) {
            Ok(()) => {
                self.needs_mix = true;
            },
            Err(e) => {
                error = Some(e);
            },
        }
        let snapshot = self.emit(true);
        Outcome { reply: None, snapshot, effect: Effect::Nothing, error }
    }

    /// Stores a shader; compiling it is left for the caller.
    fn on_set_shader(&mut self, t: u32, node: NodeId, source: String) -> (out: Outcome)
        requires
            old(self).wf(),
        ensures
            handled(old(self)@, MixerCommand::SetAudioShader(t, node, source), 0, final(self)@, out),
    {
        let ghost command = MixerCommand::SetAudioShader(t, node, source);
        let mut error: Option<MixerError> = None;
        let mut reply: Option<MixerResult> = None;
        let mut effect = Effect::Nothing;
        proof {
            lemma_refused_graph_op(self@.mixer, t, graph_op_of(command).unwrap());
        }
        let copy = source.clone();
        match self.mixer.set_shader(t, node, source) {
            Ok(()) => {
                effect = Effect::CompileShader { track_id: t, node_id: node, source: copy };
                self.needs_mix = true;
            },
            Err(e) => {
                reply = Some(MixerResult::Failed(e));
                error = Some(e);
            },
        }
        let snapshot = self.emit(true);
        Outcome { reply, snapshot, effect, error }
    }

    /// Answers with the entry node of a track's graph, or with its exit node.
    fn on_get_end(&self, t: u32, exit: bool) -> (out: Outcome)
        requires
            self.wf(),
        ensures
            handled(
                self@,
                if exit {
                    MixerCommand::GetOutputNode(t)
                } else {
                    MixerCommand::GetInputNode(t)
                },
                0,
                self@,
                out,
            ),
    {
        match self.mixer.get_track_by_id(t) {
            Some(track) => {
                let reply = if exit {
                    MixerResult::OutputNode(track.graph().get_output_node_id())
                } else {
                    MixerResult::InputNode(track.graph().get_input_node_id())
                };
                Outcome { reply: Some(reply), snapshot: None, effect: Effect::Nothing, error: None }
            },
            None => Outcome {
                reply: Some(MixerResult::Failed(MixerError::UnknownTrack)),
                snapshot: None,
                effect: Effect::Nothing,
                error: Some(MixerError::UnknownTrack),
            },
        }
    }

    /// Handles `command` at the time `now_ms`, in milliseconds of a clock that
    /// never runs backwards. A command that the actor refuses changes nothing
    /// of the project; the reason is in the outcome, and a snapshot follows as
    /// if it had been accepted.
    pub fn handle(&mut self, command: MixerCommand, now_ms: u64) -> (out: Outcome)
        requires
            old(self).wf(),
        ensures
            final(self).wf(),
            final(self)@ == old(self)@.after(command, now_ms),
            out.error == old(self)@.error_of(command),
            out.reply == old(self)@.reply_to(command),
            old(self)@.leaves(command, out.effect),
            out.snapshot.is_some() == old(self)@.emits(command, now_ms),
            out.snapshot matches Some(s) ==> s.describes(
                final(self)@.mixer,
                final(self)@.positions,
                final(self)@.colors,
            ),
    {
        match command {
            MixerCommand::Mix(at) => self.on_mix(at),
            MixerCommand::AddTrack(data) => self.on_add_track(data, now_ms),
            MixerCommand::RemoveTrack(t) => self.on_remove_track(t, now_ms),
            MixerCommand::SetTrackColor(t, color) => self.on_set_track_color(t, color, now_ms),
            MixerCommand::AddRegion(t, data) => self.on_add_region(t, data),
            MixerCommand::RemoveRegion(t, r) => self.on_remove_region(t, r),
            MixerCommand::ApplyRegionOp(t, r, op) => self.on_apply_region_op(t, r, op),
            MixerCommand::ConnectGraph(t, from, from_port, to, to_port) => self.on_connect(
                t,
                from,
                from_port,
                to,
                to_port,
            ),
            MixerCommand::DisconnectGraph(t, from, from_port, to, to_port) => self.on_disconnect(
                t,
                from,
                from_port,
                to,
                to_port,
            ),
            MixerCommand::AddNode(t, data, position) => self.on_add_node(t, data, position),
            MixerCommand::RemoveNode(t, node) => self.on_remove_node(t, node),
            MixerCommand::MoveNode(t, node, position) => self.on_move_node(t, node, position),
            MixerCommand::SetInputProperties(t, node, key, value) => self.on_set_input(
                t,
                node,
                key,
                value,
            ),
            MixerCommand::GetInputNode(t) => self.on_get_end(t, false),
            MixerCommand::GetOutputNode(t) => self.on_get_end(t, true),
            MixerCommand::SetAudioShader(t, node, source) => self.on_set_shader(t, node, source),
            MixerCommand::DoesNeedMix => Outcome {
                reply: Some(MixerResult::NeedsMix(self.needs_mix)),
                snapshot: None,
                effect: Effect::Nothing,
                error: None,
            },
            MixerCommand::StopMixing => {
                self.mixing = false;
                Outcome { reply: None, snapshot: None, effect: Effect::StopMix, error: None }
            },
        }
    }

    /// Binds the buffer that was decoded for the audio clip `region_id` of
    /// track `track_id`, or records with `None` that decoding failed and the
    /// clip stays silent. A snapshot follows in either case. Where the clip is
    /// no longer there, or is no audio clip, nothing changes and the outcome
    /// says why.
    pub fn bind_source(&mut self, track_id: u32, region_id: u32, source: Option<BufferSource>) -> (out:
        Outcome)
        requires
            old(self).wf(),
        ensures
            final(self).wf(),
            out.reply.is_none(),
            out.effect is Nothing,
            out.snapshot matches Some(s) && s.describes(
                final(self)@.mixer,
                final(self)@.positions,
                final(self)@.colors,
            ),
            final(self)@.positions == old(self)@.positions,
            final(self)@.colors == old(self)@.colors,
            final(self)@.last_emit_ms == old(self)@.last_emit_ms,
            final(self)@.mixing == old(self)@.mixing,
            !old(self)@.mixer.has_track(track_id) ==> out.error == Some(MixerError::UnknownTrack)
                && final(self)@ == old(self)@,
            old(self)@.mixer.has_track(track_id) && !old(self)@.mixer.track(track_id).has_region(
                region_id,
            ) ==> out.error == Some(MixerError::Track(TrackError::UnknownRegion)) && final(self)@
                == old(self)@,
            old(self)@.mixer.has_track(track_id) && old(self)@.mixer.track(track_id).has_region(
                region_id,
            ) && old(self)@.mixer.track(track_id).region(region_id).is_notes() ==> out.error
                == Some(MixerError::Track(TrackError::Region(crate::region::RegionError::NotABufferRegion)))
                && final(self)@ == old(self)@,
            old(self)@.mixer.has_track(track_id) && old(self)@.mixer.track(track_id).has_region(
                region_id,
            ) && !old(self)@.mixer.track(track_id).region(region_id).is_notes()
                ==> out.error.is_none() && final(self)@.needs_mix && final(self)@.mixer == old(self)@.mixer.with_track_updated(
                track_id,
                old(self)@.mixer.track(track_id).with_region_updated(
                    region_id,
                    old(self)@.mixer.track(track_id).region(region_id).bound(
                        source,
                        old(self)@.mixer.tempo_milli,
                    ),
                ),
            ),
    {
        let mut error: Option<MixerError> = None;
        match self.mixer.set_audio_source(track_id, region_id, source) {
            Ok(()) => {
                self.needs_mix = true;
            },
            Err(e) => {
                error = Some(e);
            },
        }
        let snapshot = self.emit(true);
        Outcome { reply: None, snapshot, effect: Effect::Nothing, error }
    }

    /// Records that the mix pass that was under way has ended.
    pub fn mix_finished(&mut self)
        ensures
            final(self)@ == (ActorView { mixing: false, ..old(self)@ }),
    {
        self.mixing = false;
    }
}

/// A change to a graph that the mixer refuses leaves the mixer as it was.
pub proof fn lemma_refused_graph_op(m: MixerView, track: u32, op: GraphOp)
    requires
        m.wf(),
    ensures
        m.graph_op_error(track, op).is_some() ==> m.after_graph_op(track, op) == m,
{
    if m.has_track(track) && m.graph_op_error(track, op).is_some() {
        let k = m.track_index(track);
        assert(m.track(track).graph.after(op) == m.track(track).graph);
        assert(m.track(track).after_graph_op(op) == m.track(track));
        assert(m.tracks.update(k, m.track(track)) =~= m.tracks);
    }
}

/// An operation on a region that the mixer refuses leaves the mixer as it
/// was.
pub proof fn lemma_refused_region_op(m: MixerView, track: u32, region: u32, op: RegionOp)
    requires
        m.wf(),
        m.region_op_error(track, region, op).is_some(),
    ensures
        m.after_region_op(track, region, op) == m,
{
    if m.has_track(track) {
        let k = m.track_index(track);
        let t = m.track(track);
        if t.has_region(region) {
            let j = t.region_index(region);
            assert(t.region(region).after(op) == t.region(region));
            assert(t.regions.update(j, t.region(region)) =~= t.regions);
        }
        assert(t.after_region_op(region, op) == t);
        assert(m.tracks.update(k, t) =~= m.tracks);
    }
}

/// A mix pass that begins leaves nothing to mix. Any other command leaves the
/// project marked as changed exactly if it was marked before, or the command
/// changes what is rendered and the actor accepts it; and a command that the
/// actor refuses leaves the mixer as it was.
pub proof fn lemma_needs_mix(a: ActorView, command: MixerCommand, now_ms: u64)
    requires
        a.wf(),
    ensures
        command is Mix ==> !a.after(command, now_ms).needs_mix,
        !(command is Mix) ==> a.after(command, now_ms).needs_mix == (a.needs_mix || (
        may_change_sound(command) && a.error_of(command).is_none())),
        !a.needs_mix && !(command is Mix) ==> (a.after(command, now_ms).needs_mix
            <==> may_change_sound(command) && a.error_of(command).is_none()),
        a.error_of(command).is_some() ==> a.after(command, now_ms).mixer == a.mixer && a.after(
            command,
            now_ms,
        ).needs_mix == a.needs_mix,
{
}

/// Drawing a node at a position twice is drawing it there once.
pub proof fn lemma_move_node_twice(a: ActorView, track: u32, node: NodeId, p: Position, now_ms: u64)
    requires
        a.wf(),
    ensures
        a.after(MixerCommand::MoveNode(track, node, p), now_ms).after(
            MixerCommand::MoveNode(track, node, p),
            now_ms,
        ) == a.after(MixerCommand::MoveNode(track, node, p), now_ms),
{
    crate::layout::lemma_with_position_twice(
        a.positions,
        NodePosition { track_id: track, node_id: node, x: p.x, y: p.y },
    );
}

/// Removing the node that a command has just added gives the track's graph
/// back as it was, and so its number of nodes.
pub proof fn lemma_add_then_remove_node(
    a: ActorView,
    track: u32,
    data: NodeData,
    p: Position,
    now_ms: u64,
)
    requires
        a.wf(),
        a.error_of(MixerCommand::AddNode(track, data, p)).is_none(),
    ensures
        ({
            let added = a.after(MixerCommand::AddNode(track, data, p), now_ms);
            let removed = added.after(MixerCommand::RemoveNode(track, a.mixer.next_node_id), now_ms);
            &&& added.mixer.has_track(track)
            &&& added.mixer.track(track).graph.nodes.len() == a.mixer.track(track).graph.nodes.len()
                + 1
            &&& added.error_of(MixerCommand::RemoveNode(track, a.mixer.next_node_id)).is_none()
            &&& removed.mixer.has_track(track)
            &&& removed.mixer.track(track).graph == a.mixer.track(track).graph
            &&& removed.mixer.track(track).graph.nodes.len() == a.mixer.track(
                track,
            ).graph.nodes.len()
        }),
{
    let m = a.mixer;
    let n = m.next_node_id;
    let t = m.track(track);
    let k = m.track_index(track);
    let g = t.graph;
    assert(m.tracks[k].wf());
    assert(m.tracks[k].graph.has_node(n) ==> n < m.next_node_id);
    assert(!g.has_node(n));
    assert(g.add_error(n, data.node_type).is_none());
    crate::graph::lemma_add_then_remove(g, n, data.node_type);
    let t1 = t.after_graph_op(GraphOp::AddNode(n, data.node_type));
    crate::mixer::lemma_updated_track(m, track, t1, t1);
    let added = a.after(MixerCommand::AddNode(track, data, p), now_ms);
    let m1 = added.mixer;
    assert(m1.tracks == m.with_track_updated(track, t1).tracks);
    assert(m1.tracks[k] == t1);
    crate::mixer::lemma_track_index(m1, track, k);
    let t2 = t1.after_graph_op(GraphOp::RemoveNode(n));
    crate::mixer::lemma_updated_track(m1, track, t2, t2);
}

/// Taking a connector away right after a command has made it gives the mixer
/// back as it was.
pub proof fn lemma_connect_then_disconnect_graph(
    a: ActorView,
    track: u32,
    from: NodeId,
    from_port: String,
    to: NodeId,
    to_port: String,
    now_ms: u64,
)
    requires
        a.wf(),
        a.error_of(MixerCommand::ConnectGraph(track, from, from_port, to, to_port)).is_none(),
    ensures
        ({
            let connected = a.after(
                MixerCommand::ConnectGraph(track, from, from_port, to, to_port),
                now_ms,
            );
            let undone = connected.after(
                MixerCommand::DisconnectGraph(track, from, from_port, to, to_port),
                now_ms,
            );
            &&& connected.error_of(
                MixerCommand::DisconnectGraph(track, from, from_port, to, to_port),
            ).is_none()
            &&& undone.mixer == a.mixer
            &&& undone.positions == a.positions
            &&& undone.colors == a.colors
        }),
{
    let m = a.mixer;
    let t = m.track(track);
    let k = m.track_index(track);
    let g = t.graph;
    let c = ConnectorView { from, from_port: from_port@, to, to_port: to_port@ };
    assert(m.tracks[k].wf());
    crate::graph::lemma_connect_then_disconnect(g, c);
    let t1 = t.after_graph_op(GraphOp::Connect(c));
    assert(t1.graph.connectors[g.connectors.len() as int] == c);
    let t2 = t1.after_graph_op(GraphOp::Disconnect(c));
    assert(t2 == t);
    crate::mixer::lemma_updated_track(m, track, t1, t2);
    let m1 = m.with_track_updated(track, t1);
    crate::mixer::lemma_updated_track(m1, track, t2, t2);
}

/// The actor stays well-formed whatever command it handles: every graph
/// without a cycle, every connector between declared ports of equal tag,
/// every track with its one entry and its one exit, and no id given twice.
pub proof fn lemma_actor_invariant(a: ActorView, command: MixerCommand, now_ms: u64)
    requires
        a.wf(),
    ensures
        a.after(command, now_ms).wf(),
{
    let m = a.mixer;
    let b = a.after(command, now_ms);
    match command {
        MixerCommand::AddTrack(data) => {
            if a.error_of(command).is_none() {
                crate::graph::lemma_initial_wf(m.next_node_id, (m.next_node_id + 1) as u64);
                crate::mixer::lemma_with_new_track_wf(m, data.name@, data.channels, data.track_type);
            }
        },
        MixerCommand::RemoveTrack(t) => {
            crate::mixer::lemma_without_track_wf(m, t);
            crate::layout::lemma_without_track_positions(a.positions, t);
            crate::layout::lemma_without_color(a.colors, t);
        },
        MixerCommand::SetTrackColor(t, color) => {
            crate::layout::lemma_with_color(a.colors, TrackColorView { track_id: t, color: color@ });
        },
        MixerCommand::AddRegion(t, data) => {
            if a.error_of(command).is_none() {
                let track = m.track(t);
                let k = m.track_index(t);
                assert(m.tracks[k].wf());
                let fresh = RegionView::fresh(
                    track.next_region_id,
                    data.name@,
                    data.start_time,
                    data.duration,
                    data.samples_per_beat,
                    data.region_type is NoteRegion,
                );
                crate::track::lemma_with_region_wf(track, fresh);
                crate::mixer::lemma_with_track_updated_wf(m, t, track.with_region(fresh));
            }
        },
        MixerCommand::RemoveRegion(t, r) => {
            if a.error_of(command).is_none() {
                let track = m.track(t);
                let k = m.track_index(t);
                assert(m.tracks[k].wf());
                crate::track::lemma_without_region_wf(track, r);
                crate::mixer::lemma_with_track_updated_wf(m, t, track.without_region(r));
            }
        },
        MixerCommand::ApplyRegionOp(t, r, op) => {
            if a.error_of(command).is_none() {
                let track = m.track(t);
                let k = m.track_index(t);
                assert(m.tracks[k].wf());
                crate::track::lemma_after_region_op_wf(track, r, op@);
                crate::mixer::lemma_with_track_updated_wf(m, t, track.after_region_op(r, op@));
            }
        },
        MixerCommand::AddNode(t, data, p) => {
            crate::layout::lemma_with_position(
                a.positions,
                NodePosition { track_id: t, node_id: m.next_node_id, x: p.x, y: p.y },
            );
            if a.error_of(command).is_none() {
                let n = m.next_node_id;
                let op = GraphOp::AddNode(n, data.node_type);
                let wider = MixerView { next_node_id: (n + 1) as u64, ..m };
                assert(wider.tracks == m.tracks);
                assert(wider.wf());
                assert(!wider.has_node(n)) by {
                    if wider.has_node(n) {
                        let i = choose|i: int|
                            0 <= i < wider.tracks.len() && #[trigger] wider.tracks[i].graph.has_node(
                                n,
                            );
                        assert(m.tracks[i].graph.has_node(n));
                    }
                }
                lemma_graph_op_wf(wider, t, op);
                assert(wider.after_graph_op(t, op) == b.mixer);
            }
        },
        MixerCommand::MoveNode(t, node, p) => {
            crate::layout::lemma_with_position(
                a.positions,
                NodePosition { track_id: t, node_id: node, x: p.x, y: p.y },
            );
        },
        MixerCommand::RemoveNode(t, node) => {
            crate::layout::lemma_without_position(a.positions, t, node);
            lemma_graph_op_wf(m, t, GraphOp::RemoveNode(node));
        },
        _ => {
            match graph_op_of(command) {
                Some(op) => {
                    lemma_graph_op_wf(m, track_of(command), op);
                },
                None => {},
            }
        },
    }
}

/// A command and the time at which the actor handles it.
pub struct Step {
    pub command: MixerCommand,
    pub now_ms: u64,
}

impl ActorView {
    /// The actor after each of `steps` in turn.
    pub open spec fn after_all(self, steps: Seq<Step>) -> ActorView
        decreases steps.len(),
    {
        if steps.len() == 0 {
            self
        } else {
            self.after_all(steps.drop_last()).after(steps.last().command, steps.last().now_ms)
        }
    }
}

/// Whatever commands an actor handles from its start on, in whatever order,
/// accepted or refused, it is well-formed after them.
pub proof fn lemma_actor_always_wf(start_ms: u64, steps: Seq<Step>)
    ensures
        ActorView::fresh(start_ms).after_all(steps).wf(),
    decreases steps.len(),
{
    if steps.len() == 0 {
        let a = ActorView::fresh(start_ms);
        assert(a.mixer.wf());
    } else {
        lemma_actor_always_wf(start_ms, steps.drop_last());
        lemma_actor_invariant(
            ActorView::fresh(start_ms).after_all(steps.drop_last()),
            steps.last().command,
            steps.last().now_ms,
        );
    }
}

/// A mixer stays well-formed under a change to the graph of one of its
/// tracks, where a node that the change adds comes with an id that no track
/// has and that lies below the next id.
pub proof fn lemma_graph_op_wf(m: MixerView, track: u32, op: GraphOp)
    requires
        m.wf(),
        op matches GraphOp::AddNode(x, _) ==> !m.has_node(x) && x < m.next_node_id,
    ensures
        m.after_graph_op(track, op).wf(),
{
    if m.has_track(track) {
        let t = m.track(track);
        let k = m.track_index(track);
        assert(m.tracks[k].wf());
        let u = t.after_graph_op(op);
        crate::graph::lemma_after_wf(t.graph, op);
        assert forall|x: NodeId| #[trigger] u.graph.has_node(x) implies t.graph.has_node(x) || (
        !m.has_node(x) && x < m.next_node_id) by {
            crate::graph::lemma_after_nodes(t.graph, op, x);
        }
        crate::mixer::lemma_with_track_updated_wf(m, track, u);
    }
}

} // verus!
