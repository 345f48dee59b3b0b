//! The commands that callers send to the mixer actor, and what its answers
//! mean to them.

use vstd::prelude::*;
use crate::actor::{MixerCommand, MixerResult};
use crate::layout::Position;
use crate::node::{NodeId, NodeType, NodeData};
use crate::region::{RegionData, RegionOperation};
use crate::time::{Beats, Ratio};
use crate::track::TrackData;
use crate::value::Value;

verus! {

/// What a caller says of a note.
#[derive(Clone, Copy, Debug, PartialEq, Eq, Structural)]
pub struct NoteData {
    pub pitch: u8,
    pub velocity: u8,
    pub start_beat: Beats,
    pub duration: Beats,
}

/// The command that adds a track.
pub fn add_track(track_data: TrackData) -> (c: MixerCommand)
    ensures
        c == MixerCommand::AddTrack(track_data),
{
    MixerCommand::AddTrack(track_data)
}

/// The command that removes a track.
pub fn remove_track(track_id: u32) -> (c: MixerCommand)
    ensures
        c == MixerCommand::RemoveTrack(track_id),
{
    MixerCommand::RemoveTrack(track_id)
}

/// The command that colours a track.
pub fn set_track_color(track_id: u32, color: String) -> (c: MixerCommand)
    ensures
        c == MixerCommand::SetTrackColor(track_id, color),
{
    MixerCommand::SetTrackColor(track_id, color)
}

/// The command that adds a region to a track.
pub fn add_region(region_data: RegionData, track_id: u32) -> (c: MixerCommand)
    ensures
        c == MixerCommand::AddRegion(track_id, region_data),
{
    MixerCommand::AddRegion(track_id, region_data)
}

/// The command that removes a region from a track.
pub fn remove_region(track_id: u32, region_id: u32) -> (c: MixerCommand)
    ensures
        c == MixerCommand::RemoveRegion(track_id, region_id),
{
    MixerCommand::RemoveRegion(track_id, region_id)
}

/// The command that moves a region to start at `new_beats`.
pub fn move_region(track_id: u32, region_id: u32, new_beats: Beats) -> (c: MixerCommand)
    ensures
        c == MixerCommand::ApplyRegionOp(
            track_id,
            region_id,
            RegionOperation::SetStartTime(new_beats),
        ),
{
    MixerCommand::ApplyRegionOp(track_id, region_id, RegionOperation::SetStartTime(new_beats))
}

/// The command that gives a region the duration `new_duration`.
pub fn set_duration(track_id: u32, region_id: u32, new_duration: Beats) -> (c: MixerCommand)
    ensures
        c == MixerCommand::ApplyRegionOp(
            track_id,
            region_id,
            RegionOperation::SetDuration(new_duration),
        ),
{
    MixerCommand::ApplyRegionOp(track_id, region_id, RegionOperation::SetDuration(new_duration))
}

/// The command that names a region.
pub fn set_region_name(track_id: u32, region_id: u32, new_name: String) -> (c: MixerCommand)
    ensures
        c == MixerCommand::ApplyRegionOp(track_id, region_id, RegionOperation::SetName(new_name)),
{
    MixerCommand::ApplyRegionOp(track_id, region_id, RegionOperation::SetName(new_name))
}

/// The command that stretches a region by `scale_factor`.
pub fn scale_region(track_id: u32, region_id: u32, scale_factor: Ratio) -> (c: MixerCommand)
    ensures
        c == MixerCommand::ApplyRegionOp(track_id, region_id, RegionOperation::Scale(scale_factor)),
{
    MixerCommand::ApplyRegionOp(track_id, region_id, RegionOperation::Scale(scale_factor))
}

/// The command that adds a note to a note region.
pub fn add_note_to_region(track_id: u32, region_id: u32, note_data: NoteData) -> (c: MixerCommand)
    ensures
        c == MixerCommand::ApplyRegionOp(
            track_id,
            region_id,
            RegionOperation::AddNote {
                pitch: note_data.pitch,
                velocity: note_data.velocity,
                start_beat: note_data.start_beat,
                duration: note_data.duration,
            },
        ),
{
    let op = RegionOperation::AddNote {
        pitch: note_data.pitch,
        velocity: note_data.velocity,
        start_beat: note_data.start_beat,
        duration: note_data.duration,
    };
    MixerCommand::ApplyRegionOp(track_id, region_id, op)
}

/// The command that removes a note from a note region.
pub fn remove_note_from_region(track_id: u32, region_id: u32, note_id: u32) -> (c: MixerCommand)
    ensures
        c == MixerCommand::ApplyRegionOp(
            track_id,
            region_id,
            RegionOperation::RemoveNote { id: note_id },
        ),
{
    MixerCommand::ApplyRegionOp(track_id, region_id, RegionOperation::RemoveNote { id: note_id })
}

/// The command that replaces what a note of a note region holds.
pub fn modify_note_in_region(track_id: u32, region_id: u32, note_id: u32, note_data: NoteData) -> (c:
    MixerCommand)
    ensures
        c == MixerCommand::ApplyRegionOp(
            track_id,
            region_id,
            RegionOperation::ModifyNote {
                id: note_id,
                pitch: note_data.pitch,
                velocity: note_data.velocity,
                start_beat: note_data.start_beat,
                duration: note_data.duration,
            },
        ),
{
    let op = RegionOperation::ModifyNote {
        id: note_id,
        pitch: note_data.pitch,
        velocity: note_data.velocity,
        start_beat: note_data.start_beat,
        duration: note_data.duration,
    };
    MixerCommand::ApplyRegionOp(track_id, region_id, op)
}

/// The command that wires an output port to an input port.
pub fn connect_graph(track_id: u32, from: NodeId, from_param: String, to: NodeId, to_param: String) -> (c:
    MixerCommand)
    ensures
        c == MixerCommand::ConnectGraph(track_id, from, from_param, to, to_param),
{
    MixerCommand::ConnectGraph(track_id, from, from_param, to, to_param)
}

/// The command that takes the connector between two ports away.
pub fn disconnect_graph(
    track_id: u32,
    from: NodeId,
    from_param: String,
    to: NodeId,
    to_param: String,
) -> (c: MixerCommand)
    ensures
        c == MixerCommand::DisconnectGraph(track_id, from, from_param, to, to_param),
{
    MixerCommand::DisconnectGraph(track_id, from, from_param, to, to_param)
}

/// The command that adds a node of kind `node_data` and draws it at
/// `position`.
pub fn add_node(track_id: u32, node_data: NodeType, position: Position) -> (c: MixerCommand)
    ensures
        c == MixerCommand::AddNode(track_id, NodeData { node_type: node_data }, position),
{
    MixerCommand::AddNode(track_id, NodeData { node_type: node_data }, position)
}

/// The command that removes a node.
pub fn remove_node(track_id: u32, node_id: NodeId) -> (c: MixerCommand)
    ensures
        c == MixerCommand::RemoveNode(track_id, node_id),
{
    MixerCommand::RemoveNode(track_id, node_id)
}

/// The command that draws a node at `position`.
pub fn move_node(track_id: u32, node_id: NodeId, position: Position) -> (c: MixerCommand)
    ensures
        c == MixerCommand::MoveNode(track_id, node_id, position),
{
    MixerCommand::MoveNode(track_id, node_id, position)
}

/// The command that sets the constant for an input of a node.
pub fn set_input_properties(track_id: u32, node_id: NodeId, key: String, value: Value) -> (c:
    MixerCommand)
    ensures
        c == MixerCommand::SetInputProperties(track_id, node_id, key, value),
{
    MixerCommand::SetInputProperties(track_id, node_id, key, value)
}

/// The command that asks for the entry node of a track's graph.
pub fn get_input_nodes(track_id: u32) -> (c: MixerCommand)
    ensures
        c == MixerCommand::GetInputNode(track_id),
{
    MixerCommand::GetInputNode(track_id)
}

/// The command that asks for the exit node of a track's graph.
pub fn get_output_node(track_id: u32) -> (c: MixerCommand)
    ensures
        c == MixerCommand::GetOutputNode(track_id),
{
    MixerCommand::GetOutputNode(track_id)
}

/// The command that stores `shader` as the source of an audio shader node.
pub fn set_audio_shader(track_id: u32, node_id: NodeId, shader: String) -> (c: MixerCommand)
    ensures
        c == MixerCommand::SetAudioShader(track_id, node_id, shader),
{
    MixerCommand::SetAudioShader(track_id, node_id, shader)
}

/// The entry node that `reply` names, if it names one.
pub fn input_node_from(reply: &MixerResult) -> (node: Option<NodeId>)
    ensures
        node == match *reply {
            MixerResult::InputNode(id) => Some(id),
            _ => None,
        },
{
    match reply {
        MixerResult::InputNode(id) => Some(*id),
        _ => None,
    }
}

/// The exit node that `reply` names, if it names one.
pub fn output_node_from(reply: &MixerResult) -> (node: Option<NodeId>)
    ensures
        node == match *reply {
            MixerResult::OutputNode(id) => Some(id),
            _ => None,
        },
{
    match reply {
        MixerResult::OutputNode(id) => Some(*id),
        _ => None,
    }
}

/// The answer to a shader that was stored: what the compiler said of it.
pub fn shader_compiled(errors: Vec<String>) -> (reply: MixerResult)
    ensures
        reply == MixerResult::AudioShaderErrors(errors),
{
    MixerResult::AudioShaderErrors(errors)
}

/// What the sender of a shader is told: the compiler's errors where the
/// answer holds them, otherwise one line that says what went wrong. `reply`
/// is `None` where no answer came.
pub fn shader_errors_from(reply: Option<MixerResult>) -> (errors: Vec<String>)
    ensures
        match reply {
            Some(MixerResult::AudioShaderErrors(e)) => errors == e,
            Some(_) => errors@.len() == 1 && errors@[0]@ == "Unexpected result type received."@,
            None => errors@.len() == 1 && errors@[0]@ == "Error receiving from mixer."@,
        },
{
    match reply {
        Some(MixerResult::AudioShaderErrors(e)) => e,
        Some(_) => {
            let mut v: Vec<String> = Vec::new();
            v.push("Unexpected result type received.".to_owned());
            v
        },
        None => {
            let mut v: Vec<String> = Vec::new();
            v.push("Error receiving from mixer.".to_owned());
            v
        },
    }
}

} // verus!
