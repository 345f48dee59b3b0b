use knodiq_mixer::actor::{Effect, MixerActor, MixerCommand, MixerResult};
use knodiq_mixer::api;
use knodiq_mixer::graph::GraphError;
use knodiq_mixer::layout::Position;
use knodiq_mixer::mixer::MixerError;
use knodiq_mixer::node::NodeType;
use knodiq_mixer::state::NodeDataState;
use knodiq_mixer::track::{TrackData, TrackType};

fn actor_with_buffer_track() -> MixerActor {
    let mut actor = MixerActor::new(0);
    let out = actor.handle(
        api::add_track(TrackData {
            name: "A".to_string(),
            channels: 2,
            track_type: TrackType::BufferTrack,
        }),
        1000,
    );
    assert!(out.error.is_none());
    actor
}

fn input_of(actor: &mut MixerActor, track: u32) -> Option<u64> {
    let out = actor.handle(api::get_input_nodes(track), 1000);
    api::input_node_from(&out.reply.unwrap())
}

fn output_of(actor: &mut MixerActor, track: u32) -> Option<u64> {
    let out = actor.handle(api::get_output_node(track), 1000);
    api::output_node_from(&out.reply.unwrap())
}

#[test]
fn fresh_track_has_distinct_stable_ends_and_default_connector() {
    let mut actor = MixerActor::new(0);
    let out = actor.handle(
        api::add_track(TrackData {
            name: "A".to_string(),
            channels: 2,
            track_type: TrackType::BufferTrack,
        }),
        1000,
    );
    assert!(out.error.is_none());
    let snapshot = out.snapshot.expect("a snapshot is due after 100 ms");
    let input = input_of(&mut actor, 0).unwrap();
    let output = output_of(&mut actor, 0).unwrap();
    assert_ne!(input, output);
    assert_eq!(input_of(&mut actor, 0), Some(input));
    assert_eq!(output_of(&mut actor, 0), Some(output));
    assert_eq!(snapshot.tracks.len(), 1);
    let track = &snapshot.tracks[0];
    assert_eq!(track.id, 0);
    assert_eq!(track.name, "A");
    assert_eq!(track.channels, 2);
    assert_eq!(track.track_type, TrackType::BufferTrack);
    assert_eq!(track.graph.input_node, input);
    assert_eq!(track.graph.output_node, output);
    assert_eq!(track.graph.nodes.len(), 2);
    assert_eq!(track.graph.connections.len(), 1);
    let wire = &track.graph.connections[0];
    assert_eq!(wire.from, input);
    assert_eq!(wire.from_param, "audio");
    assert_eq!(wire.to, output);
    assert_eq!(wire.to_param, "audio");
    assert_eq!(snapshot.bpm, 120_000);
    assert_eq!(snapshot.samples_per_beat, 24_000);
}

#[test]
fn bad_shader_is_stored_and_its_errors_returned() {
    let mut actor = actor_with_buffer_track();
    let out = actor.handle(
        api::add_node(0, NodeType::AudioShaderNode, Position { x: 10, y: 20 }),
        1000,
    );
    assert!(out.error.is_none());
    let snapshot = out.snapshot.unwrap();
    let node = snapshot.tracks[0].graph.nodes.last().unwrap();
    let nid = node.id;
    assert_eq!(node.position, Position { x: 10, y: 20 });
    let out = actor.handle(api::set_audio_shader(0, nid, "bad".to_string()), 1000);
    assert!(out.error.is_none());
    assert!(out.reply.is_none());
    match out.effect {
        Effect::CompileShader { track_id, node_id, source } => {
            assert_eq!(track_id, 0);
            assert_eq!(node_id, nid);
            assert_eq!(source, "bad");
        }
        _ => panic!("the shader is left to compile"),
    }
    let compiler_said = vec!["1:1 unexpected token".to_string()];
    let errors = api::shader_errors_from(Some(api::shader_compiled(compiler_said.clone())));
    assert!(!errors.is_empty());
    assert_eq!(errors, compiler_said);
    let snapshot = out.snapshot.unwrap();
    let node = snapshot.tracks[0].graph.nodes.last().unwrap();
    match &node.data {
        NodeDataState::AudioShaderNode { shader_code } => assert_eq!(shader_code, "bad"),
        _ => panic!("an audio shader node shows its code"),
    }
}

#[test]
fn connecting_output_back_to_input_is_rejected() {
    let mut actor = actor_with_buffer_track();
    let input = input_of(&mut actor, 0).unwrap();
    let output = output_of(&mut actor, 0).unwrap();
    // a mix pass clears the mark that the project changed
    let _ = actor.handle(MixerCommand::Mix(knodiq_mixer::time::Beats::zero()), 1000);
    assert!(!actor.needs_mix());
    let before = actor.snapshot();
    let out = actor.handle(
        api::connect_graph(0, output, "audio".to_string(), input, "audio".to_string()),
        1000,
    );
    assert_eq!(out.error, Some(MixerError::Graph(GraphError::Cycle)));
    let after = out.snapshot.expect("a snapshot follows a refused command too");
    assert_eq!(after.tracks.len(), before.tracks.len());
    assert_eq!(after.tracks[0].graph.nodes.len(), before.tracks[0].graph.nodes.len());
    assert_eq!(after.tracks[0].graph.connections.len(), 1);
    assert_eq!(after.tracks[0].graph.connections[0].from, input);
    assert_eq!(after.tracks[0].graph.connections[0].to, output);
    assert!(!actor.needs_mix());
    let out = actor.handle(MixerCommand::DoesNeedMix, 1000);
    assert!(matches!(out.reply, Some(MixerResult::NeedsMix(false))));
}
