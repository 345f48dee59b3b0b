use knodiq_mixer::graph::Graph;
use knodiq_mixer::layout::{NodePosition, NodePositions, Position, TrackColors};
use knodiq_mixer::mixer::Mixer;
use knodiq_mixer::node::{Node, NodeType};
use knodiq_mixer::region::{Note, Region, RegionData, RegionOperation, RegionType};
use knodiq_mixer::state::{
    ConnectorState, GraphState, MixerState, NodeDataState, NodeState, NoteState, RegionDataState,
    RegionState, TrackState,
};
use knodiq_mixer::time::Beats;
use knodiq_mixer::topology::Connector;
use knodiq_mixer::track::{Track, TrackData, TrackType};

fn s(text: &str) -> String {
    text.to_string()
}

#[test]
fn a_note_is_shown_field_by_field() {
    let note = Note {
        id: 4,
        pitch: 60,
        velocity: 90,
        start_beat: Beats::from_ticks(10),
        duration: Beats::from_ticks(20),
    };
    assert_eq!(
        NoteState::from_note(&note),
        NoteState {
            id: 4,
            pitch: 60,
            velocity: 90,
            start_time: Beats::from_ticks(10),
            duration: Beats::from_ticks(20),
        }
    );
}

#[test]
fn a_region_is_shown_with_its_notes_or_as_audio() {
    let clip = Region::new(2, s("c"), Beats::from_ticks(1), Beats::from_ticks(2), 5, false);
    let shown = RegionState::from_region(&clip);
    assert_eq!((shown.id, shown.name.as_str()), (2, "c"));
    assert_eq!((shown.start_time.ticks, shown.duration.ticks), (1, 2));
    assert!(matches!(shown.data, RegionDataState::BufferRegion()));

    let mut phrase = Region::new(3, s("p"), Beats::zero(), Beats::zero(), 5, true);
    let op = RegionOperation::AddNote {
        pitch: 1,
        velocity: 2,
        start_beat: Beats::from_ticks(3),
        duration: Beats::from_ticks(4),
    };
    assert_eq!(op.apply(&mut phrase), Ok(()));
    match RegionState::from_region(&phrase).data {
        RegionDataState::NoteRegion(notes) => {
            assert_eq!(
                notes,
                vec![NoteState {
                    id: 0,
                    pitch: 1,
                    velocity: 2,
                    start_time: Beats::from_ticks(3),
                    duration: Beats::from_ticks(4),
                }]
            );
        }
        _ => panic!("a note region shows its notes"),
    }
    let empty = Region::new(3, s("p"), Beats::zero(), Beats::zero(), 5, true);
    match RegionState::from_region(&empty).data {
        RegionDataState::NoteRegion(notes) => assert!(notes.is_empty()),
        _ => panic!("an empty note region is still a note region"),
    }
}

#[test]
fn a_node_is_shown_with_ports_kind_and_data() {
    let mut shader = Node::new(7, NodeType::AudioShaderNode);
    assert!(shader.set_shader(s("code")).is_ok());
    let shown = NodeState::from_node(&shader, Position { x: 1, y: 2 });
    assert_eq!(shown.id, 7);
    assert_eq!(shown.name, "AudioShaderNode");
    assert_eq!(shown.node_type, "AudioShaderNode");
    assert_eq!(shown.inputs, vec![s("audio"), s("notes")]);
    assert_eq!(shown.outputs, vec![s("audio")]);
    assert!(!shown.is_input_node);
    assert!(!shown.is_output_node);
    assert_eq!(shown.position, Position { x: 1, y: 2 });
    match shown.data {
        NodeDataState::AudioShaderNode { shader_code } => assert_eq!(shader_code, "code"),
        _ => panic!("an audio shader shows its code"),
    }
    let entry = NodeState::from_node(&Node::new(1, NodeType::BufferInputNode), Position { x: 0, y: 0 });
    assert!(entry.is_input_node && !entry.is_output_node);
    assert!(matches!(entry.data, NodeDataState::Invalid));
    assert!(entry.inputs.is_empty());
    let exit = NodeState::from_node(&Node::new(2, NodeType::BufferOutputNode), Position { x: 0, y: 0 });
    assert!(!exit.is_input_node && exit.is_output_node);
    assert!(matches!(exit.data, NodeDataState::Invalid));
    assert!(exit.outputs.is_empty());
    let empty = NodeState::from_node(&Node::new(3, NodeType::EmptyNode), Position { x: 0, y: 0 });
    assert!(matches!(empty.data, NodeDataState::EmptyNode));
    let notes = NodeState::from_node(&Node::new(4, NodeType::NoteInputNode), Position { x: 0, y: 0 });
    assert!(matches!(notes.data, NodeDataState::NoteInputNode));
}

#[test]
fn a_connector_is_shown_end_by_end() {
    let c = Connector { from: 1, from_port: s("audio"), to: 2, to_port: s("notes") };
    let shown = ConnectorState::from_connector(&c);
    assert_eq!(
        (shown.from, shown.from_param.as_str(), shown.to, shown.to_param.as_str()),
        (1, "audio", 2, "notes")
    );
}

#[test]
fn a_graph_is_shown_with_the_positions_of_its_track() {
    let mut g = Graph::wired(1, 2).unwrap();
    assert!(g.add_node(3, NodeType::EmptyNode).is_ok());
    let mut positions = NodePositions::new();
    positions.insert(5, 1, Position { x: 10, y: 11 });
    positions.insert(6, 2, Position { x: 20, y: 21 });
    positions.insert(5, 3, Position { x: 30, y: 31 });
    let shown = GraphState::from_graph(&g, 5, &positions);
    assert_eq!((shown.input_node, shown.output_node), (1, 2));
    assert_eq!(shown.nodes.iter().map(|n| n.id).collect::<Vec<_>>(), vec![1, 2, 3]);
    assert_eq!(
        shown.nodes.iter().map(|n| (n.position.x, n.position.y)).collect::<Vec<_>>(),
        vec![(10, 11), (0, 0), (30, 31)]
    );
    assert_eq!(shown.connections.len(), 1);
    assert_eq!(shown.connections[0].from, 1);
    assert_eq!(shown.connections[0].to, 2);
}

#[test]
fn a_track_is_shown_with_regions_colour_and_graph() {
    let mut t = Track::new(8, s("bass"), 1, TrackType::BufferTrack, 1, 2).unwrap();
    let data = RegionData {
        name: s("r"),
        start_time: Beats::zero(),
        duration: Beats::from_beats(1),
        samples_per_beat: 1,
        region_type: RegionType::BufferRegion(s("x.wav"), 0),
    };
    assert_eq!(t.add_region(data), Ok(0));
    let shown = TrackState::from_track(&t, &NodePositions::new(), s("teal"));
    assert_eq!((shown.id, shown.name.as_str(), shown.channels), (8, "bass", 1));
    assert_eq!(shown.track_type, TrackType::BufferTrack);
    assert_eq!(shown.color, "teal");
    assert_eq!(shown.regions.len(), 1);
    assert_eq!(shown.regions[0].name, "r");
    assert_eq!(shown.graph.nodes.len(), 2);
    let copy = shown.clone();
    assert_eq!(format!("{:?}", copy), format!("{:?}", shown));
}

#[test]
fn a_mixer_is_shown_whole() {
    let mut m = Mixer::new(60_000, 44_100, 2).unwrap();
    let data = |name: &str| TrackData { name: s(name), channels: 2, track_type: TrackType::NoteTrack };
    assert_eq!(m.add_track(data("a")), Ok(0));
    assert_eq!(m.add_track(data("b")), Ok(1));
    let region = RegionData {
        name: s("r"),
        start_time: Beats::from_beats(2),
        duration: Beats::from_beats(3),
        samples_per_beat: 1,
        region_type: RegionType::NoteRegion(),
    };
    assert_eq!(m.add_region(1, region), Ok(0));
    let mut positions = NodePositions::new();
    positions.insert(1, 3, Position { x: 9, y: 8 });
    let mut colors = TrackColors::new();
    colors.insert(1, s("pink"));
    let shown = MixerState::from_mixer(&m, &positions, &colors);
    assert_eq!(shown.bpm, 60_000);
    assert_eq!(shown.samples_per_beat, 44_100);
    assert_eq!(shown.duration, Beats::from_beats(5));
    assert_eq!(shown.tracks.iter().map(|t| t.id).collect::<Vec<_>>(), vec![0, 1]);
    assert_eq!(shown.tracks[0].color, "");
    assert_eq!(shown.tracks[1].color, "pink");
    assert_eq!(shown.tracks[1].graph.nodes[1].position, Position { x: 9, y: 8 });
    assert_eq!(shown.tracks[0].graph.nodes[1].position, Position { x: 0, y: 0 });
    assert_eq!(
        shown.node_positions,
        vec![NodePosition { track_id: 1, node_id: 3, x: 9, y: 8 }]
    );
    // the snapshot is a copy: editing the mixer does not reach it
    assert!(m.remove_track(0));
    assert_eq!(shown.tracks.len(), 2);
}
