use knodiq_mixer::graph::{GraphCommand, GraphError};
use knodiq_mixer::node::NodeType;
use knodiq_mixer::region::{BufferSource, RegionData, RegionError, RegionOperation, RegionType};
use knodiq_mixer::time::Beats;
use knodiq_mixer::track::{Track, TrackError, TrackType};

fn beats(ticks: i64) -> Beats {
    Beats::from_ticks(ticks)
}

fn clip(name: &str, start: i64, len: i64) -> RegionData {
    RegionData {
        name: name.to_string(),
        start_time: beats(start),
        duration: beats(len),
        samples_per_beat: 24_000,
        region_type: RegionType::BufferRegion("a.wav".to_string(), 0),
    }
}

fn phrase(name: &str, start: i64, len: i64) -> RegionData {
    RegionData {
        name: name.to_string(),
        start_time: beats(start),
        duration: beats(len),
        samples_per_beat: 24_000,
        region_type: RegionType::NoteRegion(),
    }
}

fn audio_track() -> Track {
    Track::new(0, "drums".to_string(), 2, TrackType::BufferTrack, 10, 11).unwrap()
}

#[test]
fn a_new_track_is_wired_entry_to_exit() {
    let t = audio_track();
    assert_eq!(t.get_id(), 0);
    assert_eq!(t.get_name(), "drums");
    assert_eq!(t.channels(), 2);
    assert_eq!(t.track_type(), TrackType::BufferTrack);
    assert!(t.regions().is_empty());
    let g = t.graph();
    assert_eq!(g.get_input_node_id(), 10);
    assert_eq!(g.get_output_node_id(), 11);
    assert_eq!(g.get_nodes().len(), 2);
    assert_eq!(g.get_connections().len(), 1);
    let c = &g.get_connections()[0];
    assert_eq!((c.from, c.from_port.as_str(), c.to, c.to_port.as_str()), (10, "audio", 11, "audio"));
}

#[test]
fn a_note_track_is_wired_like_any_other() {
    let t = Track::new(1, "keys".to_string(), 1, TrackType::NoteTrack, 4, 5).unwrap();
    assert_eq!(t.track_type(), TrackType::NoteTrack);
    assert_eq!(t.graph().get_connections().len(), 1);
    assert_eq!(t.graph().get_nodes()[0].kind(), NodeType::BufferInputNode);
    assert_eq!(t.graph().get_nodes()[1].kind(), NodeType::BufferOutputNode);
}

#[test]
fn a_track_without_channels_or_with_equal_ends_is_refused() {
    assert!(matches!(
        Track::new(0, String::new(), 0, TrackType::BufferTrack, 1, 2),
        Err(TrackError::NoChannels)
    ));
    assert!(matches!(
        Track::new(0, String::new(), 0, TrackType::BufferTrack, 1, 1),
        Err(TrackError::NoChannels)
    ));
    assert!(matches!(
        Track::new(0, String::new(), 2, TrackType::NoteTrack, 1, 1),
        Err(TrackError::SameEnds)
    ));
}

#[test]
fn regions_get_ascending_ids_and_may_overlap() {
    let mut t = audio_track();
    assert_eq!(t.add_region(clip("a", 0, 960)), Ok(0));
    assert_eq!(t.add_region(clip("b", 480, 960)), Ok(1));
    assert_eq!(t.add_region(clip("c", 0, 960)), Ok(2));
    assert_eq!(t.regions().iter().map(|r| r.get_id()).collect::<Vec<_>>(), vec![0, 1, 2]);
    assert_eq!(t.get_region(1).unwrap().get_name(), "b");
    assert!(t.get_region(1).unwrap().source().is_none());
    assert!(t.get_region(3).is_none());
    assert!(t.remove_region(1));
    assert_eq!(t.add_region(clip("d", 0, 1)), Ok(3));
    assert_eq!(t.regions().iter().map(|r| r.get_id()).collect::<Vec<_>>(), vec![0, 2, 3]);
}

#[test]
fn a_track_takes_only_regions_of_its_kind() {
    let mut t = audio_track();
    assert_eq!(t.add_region(phrase("p", 0, 960)), Err(TrackError::WrongRegionType));
    assert!(t.regions().is_empty());
    let mut n = Track::new(1, "keys".to_string(), 1, TrackType::NoteTrack, 4, 5).unwrap();
    assert_eq!(n.add_region(clip("c", 0, 960)), Err(TrackError::WrongRegionType));
    assert_eq!(n.add_region(phrase("p", 0, 960)), Ok(0));
    assert!(n.get_region(0).unwrap().is_notes());
}

#[test]
fn removing_a_missing_region_changes_nothing() {
    let mut t = audio_track();
    assert_eq!(t.add_region(clip("a", 0, 960)), Ok(0));
    assert!(!t.remove_region(5));
    assert_eq!(t.regions().len(), 1);
    assert!(t.remove_region(0));
    assert!(!t.remove_region(0));
    assert!(!t.remove_region(0));
    assert!(t.regions().is_empty());
}

#[test]
fn operations_reach_the_named_region_only() {
    let mut t = audio_track();
    assert_eq!(t.add_region(clip("a", 0, 960)), Ok(0));
    assert_eq!(t.add_region(clip("b", 0, 960)), Ok(1));
    assert_eq!(t.apply_region_op(1, &RegionOperation::SetStartTime(beats(77))), Ok(()));
    assert_eq!(t.get_region(0).unwrap().start_time(), beats(0));
    assert_eq!(t.get_region(1).unwrap().start_time(), beats(77));
    assert_eq!(
        t.apply_region_op(9, &RegionOperation::SetStartTime(beats(1))),
        Err(TrackError::UnknownRegion)
    );
    assert_eq!(
        t.apply_region_op(0, &RegionOperation::RemoveNote { id: 0 }),
        Err(TrackError::Region(RegionError::NotANoteRegion))
    );
}

#[test]
fn a_buffer_is_bound_to_the_named_clip() {
    let mut t = audio_track();
    assert_eq!(t.add_region(clip("a", 0, 960)), Ok(0));
    let source = BufferSource { handle: 1, channels: 2, sample_rate: 48_000, frames: 24_000 };
    assert_eq!(t.set_audio_source(0, Some(source), 120_000), Ok(()));
    assert_eq!(t.get_region(0).unwrap().source(), Some(source));
    assert_eq!(t.set_audio_source(4, Some(source), 120_000), Err(TrackError::UnknownRegion));
    let mut n = Track::new(1, "keys".to_string(), 1, TrackType::NoteTrack, 4, 5).unwrap();
    assert_eq!(n.add_region(phrase("p", 0, 960)), Ok(0));
    assert_eq!(
        n.set_audio_source(0, Some(source), 120_000),
        Err(TrackError::Region(RegionError::NotABufferRegion))
    );
}

#[test]
fn regions_at_a_time_are_those_that_cover_it() {
    let mut t = audio_track();
    assert_eq!(t.add_region(clip("a", 0, 960)), Ok(0));
    assert_eq!(t.add_region(clip("b", 480, 960)), Ok(1));
    assert_eq!(t.add_region(clip("c", 2000, 10)), Ok(2));
    assert_eq!(t.regions_at(beats(-1)), Vec::<u32>::new());
    assert_eq!(t.regions_at(beats(0)), vec![0]);
    assert_eq!(t.regions_at(beats(480)), vec![0, 1]);
    assert_eq!(t.regions_at(beats(959)), vec![0, 1]);
    assert_eq!(t.regions_at(beats(960)), vec![1]);
    assert_eq!(t.regions_at(beats(1440)), Vec::<u32>::new());
    assert_eq!(t.regions_at(beats(2009)), vec![2]);
    assert_eq!(t.end(), Some(beats(2010)));
    assert_eq!(audio_track().end(), None);
    let mut early = audio_track();
    assert_eq!(early.add_region(clip("z", -5000, 1000)), Ok(0));
    assert_eq!(early.add_region(clip("y", -9000, 10)), Ok(1));
    assert_eq!(early.end(), Some(beats(-4000)));
}

#[test]
fn graph_commands_reach_the_tracks_graph() {
    let mut t = audio_track();
    assert_eq!(t.apply_graph(GraphCommand::AddNode(12, NodeType::EmptyNode)), Ok(()));
    assert_eq!(t.apply_graph(GraphCommand::RemoveNode(10)), Err(GraphError::FixedNode));
    assert_eq!(t.graph().get_nodes().len(), 3);
    let copy = t.clone();
    assert_eq!(t.apply_graph(GraphCommand::RemoveNode(12)), Ok(()));
    assert_eq!(t.graph().get_nodes().len(), 2);
    assert_eq!(copy.graph().get_nodes().len(), 3);
    assert_eq!(copy.get_name(), "drums");
}
