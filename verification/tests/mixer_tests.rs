use knodiq_mixer::graph::GraphError;
use knodiq_mixer::mixer::{Mixer, MixerError};
use knodiq_mixer::node::NodeType;
use knodiq_mixer::region::{BufferSource, RegionData, RegionError, RegionOperation, RegionType};
use knodiq_mixer::time::Beats;
use knodiq_mixer::track::{TrackData, TrackError, TrackType};
use knodiq_mixer::value::Value;

fn s(text: &str) -> String {
    text.to_string()
}

fn track(name: &str, kind: TrackType) -> TrackData {
    TrackData { name: s(name), channels: 2, track_type: kind }
}

fn clip(start: i64, len: i64) -> RegionData {
    RegionData {
        name: s("clip"),
        start_time: Beats::from_ticks(start),
        duration: Beats::from_ticks(len),
        samples_per_beat: 24_000,
        region_type: RegionType::BufferRegion(s("a.wav"), 0),
    }
}

fn two_tracks() -> Mixer {
    let mut m = Mixer::with_defaults();
    assert_eq!(m.add_track(track("a", TrackType::BufferTrack)), Ok(0));
    assert_eq!(m.add_track(track("b", TrackType::NoteTrack)), Ok(1));
    m
}

fn all_node_ids(m: &Mixer) -> Vec<u64> {
    m.tracks()
        .iter()
        .flat_map(|t| t.graph().get_nodes().iter().map(|n| n.id()))
        .collect()
}

#[test]
fn the_default_mixer_plays_at_120_bpm_48_khz_stereo() {
    let m = Mixer::with_defaults();
    assert_eq!(m.tempo_milli(), 120_000);
    assert_eq!(m.sample_rate(), 48_000);
    assert_eq!(m.channels(), 2);
    assert!(m.tracks().is_empty());
    assert_eq!(m.samples_per_beat(), 24_000);
    assert_eq!(m.duration(), Beats::zero());
}

#[test]
fn a_mixer_needs_tempo_rate_and_channels() {
    assert!(matches!(Mixer::new(0, 48_000, 2), Err(MixerError::InvalidTempo)));
    assert!(matches!(Mixer::new(0, 0, 0), Err(MixerError::InvalidTempo)));
    assert!(matches!(Mixer::new(1, 0, 2), Err(MixerError::InvalidSampleRate)));
    assert!(matches!(Mixer::new(1, 0, 0), Err(MixerError::InvalidSampleRate)));
    assert!(matches!(Mixer::new(1, 1, 0), Err(MixerError::NoChannels)));
    let m = Mixer::new(90_000, 44_100, 1).unwrap();
    assert_eq!(m.samples_per_beat(), 29_400);
}

#[test]
fn tracks_get_ascending_ids_and_fresh_node_ids() {
    let mut m = two_tracks();
    assert_eq!(m.tracks().iter().map(|t| t.get_id()).collect::<Vec<_>>(), vec![0, 1]);
    assert_eq!(all_node_ids(&m), vec![0, 1, 2, 3]);
    assert!(m.remove_track(0));
    assert!(!m.remove_track(0));
    assert_eq!(m.add_track(track("c", TrackType::BufferTrack)), Ok(2));
    assert_eq!(m.tracks().iter().map(|t| t.get_id()).collect::<Vec<_>>(), vec![1, 2]);
    assert_eq!(all_node_ids(&m), vec![2, 3, 4, 5]);
    assert_eq!(m.get_track_by_id(2).unwrap().get_name(), "c");
    assert!(m.get_track_by_id(0).is_none());
}

#[test]
fn a_track_without_channels_is_refused() {
    let mut m = Mixer::with_defaults();
    let data = TrackData { name: s("x"), channels: 0, track_type: TrackType::BufferTrack };
    assert_eq!(m.add_track(data), Err(MixerError::Track(TrackError::NoChannels)));
    assert!(m.tracks().is_empty());
    assert_eq!(m.add_track(track("a", TrackType::BufferTrack)), Ok(0));
    assert_eq!(all_node_ids(&m), vec![0, 1]);
}

#[test]
fn node_ids_are_unique_across_tracks() {
    let mut m = two_tracks();
    assert_eq!(m.add_node(0, NodeType::AudioShaderNode), Ok(4));
    assert_eq!(m.add_node(1, NodeType::AudioShaderNode), Ok(5));
    assert_eq!(m.add_node(0, NodeType::EmptyNode), Ok(6));
    assert_eq!(m.remove_node(0, 4), Ok(()));
    assert_eq!(m.add_node(1, NodeType::NoteInputNode), Ok(7));
    let mut ids = all_node_ids(&m);
    let count = ids.len();
    ids.sort();
    ids.dedup();
    assert_eq!(ids.len(), count);
    assert_eq!(ids, vec![0, 1, 2, 3, 5, 6, 7]);
}

#[test]
fn add_node_reports_each_reason_for_refusal() {
    let mut m = two_tracks();
    assert_eq!(m.add_node(9, NodeType::EmptyNode), Err(MixerError::UnknownTrack));
    assert_eq!(
        m.add_node(0, NodeType::BufferInputNode),
        Err(MixerError::Graph(GraphError::FixedNode))
    );
    assert_eq!(
        m.add_node(0, NodeType::BufferOutputNode),
        Err(MixerError::Graph(GraphError::FixedNode))
    );
    // a refused node takes no id
    assert_eq!(m.add_node(0, NodeType::EmptyNode), Ok(4));
}

#[test]
fn graph_edits_name_their_track() {
    let mut m = two_tracks();
    assert_eq!(m.add_node(1, NodeType::AudioShaderNode), Ok(4));
    // node 4 lives in track 1, not in track 0
    assert_eq!(
        m.connect(0, 0, s("audio"), 4, s("audio")),
        Err(MixerError::Graph(GraphError::UnknownNode))
    );
    assert_eq!(m.connect(1, 2, s("audio"), 4, s("audio")), Ok(()));
    assert_eq!(m.connect(7, 2, s("audio"), 4, s("audio")), Err(MixerError::UnknownTrack));
    assert_eq!(
        m.connect(1, 3, s("audio"), 2, s("audio")),
        Err(MixerError::Graph(GraphError::Cycle))
    );
    assert_eq!(
        m.disconnect(1, 2, s("audio"), 4, s("notes")),
        Err(MixerError::Graph(GraphError::UnknownConnector))
    );
    assert_eq!(m.disconnect(1, 2, s("audio"), 4, s("audio")), Ok(()));
    assert_eq!(m.set_shader(1, 4, s("code")), Ok(()));
    assert_eq!(m.set_shader(1, 2, s("code")), Err(MixerError::Graph(GraphError::NotAShader)));
    assert_eq!(m.set_input(1, 4, s("audio"), Value::Buffer(3)), Ok(()));
    assert_eq!(
        m.set_input(1, 4, s("x"), Value::Buffer(3)),
        Err(MixerError::Graph(GraphError::UnknownPort))
    );
    assert_eq!(m.remove_node(1, 2), Err(MixerError::Graph(GraphError::FixedNode)));
    assert_eq!(m.remove_node(0, 4), Err(MixerError::Graph(GraphError::UnknownNode)));
    assert_eq!(m.remove_node(1, 4), Ok(()));
    assert_eq!(m.get_track_by_id(0).unwrap().graph().get_connections().len(), 1);
}

#[test]
fn regions_live_in_their_track() {
    let mut m = two_tracks();
    assert_eq!(m.add_region(0, clip(0, 960)), Ok(0));
    assert_eq!(m.add_region(0, clip(960, 960)), Ok(1));
    assert_eq!(m.add_region(1, clip(0, 960)), Err(MixerError::Track(TrackError::WrongRegionType)));
    assert_eq!(m.add_region(5, clip(0, 960)), Err(MixerError::UnknownTrack));
    assert_eq!(m.remove_region(5, 0), Err(MixerError::UnknownTrack));
    assert_eq!(m.remove_region(0, 7), Ok(false));
    assert_eq!(m.remove_region(0, 0), Ok(true));
    assert_eq!(m.remove_region(0, 0), Ok(false));
    assert_eq!(
        m.apply_region_op(0, 1, &RegionOperation::SetDuration(Beats::from_ticks(5))),
        Ok(())
    );
    assert_eq!(
        m.apply_region_op(0, 0, &RegionOperation::SetDuration(Beats::from_ticks(5))),
        Err(MixerError::Track(TrackError::UnknownRegion))
    );
    assert_eq!(
        m.apply_region_op(3, 0, &RegionOperation::SetDuration(Beats::from_ticks(5))),
        Err(MixerError::UnknownTrack)
    );
    assert_eq!(
        m.apply_region_op(0, 1, &RegionOperation::RemoveNote { id: 1 }),
        Err(MixerError::Track(TrackError::Region(RegionError::NotANoteRegion)))
    );
    assert_eq!(m.get_track_by_id(0).unwrap().get_region(1).unwrap().duration().ticks, 5);
}

#[test]
fn duration_is_the_latest_end_of_any_region() {
    let mut m = two_tracks();
    assert_eq!(m.duration(), Beats::zero());
    assert_eq!(m.add_region(0, clip(0, 960)), Ok(0));
    assert_eq!(m.duration(), Beats::from_ticks(960));
    assert_eq!(m.add_region(0, clip(5000, 10)), Ok(1));
    assert_eq!(m.duration(), Beats::from_ticks(5010));
    let notes = RegionData {
        name: s("p"),
        start_time: Beats::from_ticks(9000),
        duration: Beats::from_ticks(1),
        samples_per_beat: 1,
        region_type: RegionType::NoteRegion(),
    };
    assert_eq!(m.add_region(1, notes), Ok(0));
    assert_eq!(m.duration(), Beats::from_ticks(9001));
    assert_eq!(m.remove_region(1, 0), Ok(true));
    assert_eq!(m.duration(), Beats::from_ticks(5010));
}

#[test]
fn duration_may_lie_before_zero() {
    let mut m = two_tracks();
    assert_eq!(m.add_region(0, clip(-5000, 1000)), Ok(0));
    assert_eq!(m.duration(), Beats::from_ticks(-4000));
    assert_eq!(m.add_region(0, clip(-9000, 1000)), Ok(1));
    assert_eq!(m.duration(), Beats::from_ticks(-4000));
    assert_eq!(m.remove_region(0, 0), Ok(true));
    assert_eq!(m.duration(), Beats::from_ticks(-8000));
    assert_eq!(m.remove_region(0, 1), Ok(true));
    assert_eq!(m.duration(), Beats::zero());
}

#[test]
fn a_bound_buffer_remembers_the_mixers_tempo() {
    let mut m = two_tracks();
    assert_eq!(m.add_region(0, clip(0, 960)), Ok(0));
    let source = BufferSource { handle: 3, channels: 2, sample_rate: 48_000, frames: 24_000 };
    assert_eq!(m.set_audio_source(0, 0, Some(source)), Ok(()));
    let region = m.get_track_by_id(0).unwrap().get_region(0).unwrap();
    assert_eq!(region.source(), Some(source));
    // half a second at 120 beats per minute is one beat
    assert_eq!(region.span(), Some(Beats::from_beats(1)));
    assert_eq!(m.set_audio_source(4, 0, Some(source)), Err(MixerError::UnknownTrack));
    assert_eq!(
        m.set_audio_source(0, 4, Some(source)),
        Err(MixerError::Track(TrackError::UnknownRegion))
    );
}

#[test]
fn prepare_plans_every_track() {
    let mut m = two_tracks();
    assert_eq!(m.add_node(1, NodeType::AudioShaderNode), Ok(4));
    assert_eq!(m.disconnect(1, 2, s("audio"), 3, s("audio")), Ok(()));
    assert_eq!(m.connect(1, 4, s("audio"), 3, s("audio")), Ok(()));
    let plans = m.prepare();
    assert_eq!(plans.len(), 2);
    assert_eq!(plans[0].track_id, 0);
    assert_eq!(plans[0].order, vec![0, 1]);
    assert_eq!(plans[1].track_id, 1);
    assert_eq!(plans[1].order, vec![4, 3]);
    assert!(Mixer::with_defaults().prepare().is_empty());
}

#[test]
fn a_cloned_mixer_is_a_deep_copy() {
    let mut m = two_tracks();
    assert_eq!(m.add_region(0, clip(0, 960)), Ok(0));
    let copy = m.clone();
    assert!(m.remove_track(0));
    assert_eq!(m.add_node(1, NodeType::EmptyNode), Ok(4));
    assert_eq!(copy.tracks().len(), 2);
    assert_eq!(copy.get_track_by_id(0).unwrap().regions().len(), 1);
    assert_eq!(all_node_ids(&copy), vec![0, 1, 2, 3]);
    assert_eq!(copy.tempo_milli(), 120_000);
    assert_eq!(copy.duration(), Beats::from_ticks(960));
}
