use knodiq_mixer::region::{BufferSource, Note, Region, RegionError, RegionOperation};
use knodiq_mixer::time::{Beats, Ratio};

fn beats(ticks: i64) -> Beats {
    Beats::from_ticks(ticks)
}

fn clip() -> Region {
    Region::new(3, "clip".to_string(), beats(960), beats(1920), 24_000, false)
}

fn phrase() -> Region {
    let mut r = Region::new(4, "phrase".to_string(), beats(0), beats(3840), 24_000, true);
    let add = |pitch, velocity, start, len| RegionOperation::AddNote {
        pitch,
        velocity,
        start_beat: beats(start),
        duration: beats(len),
    };
    assert_eq!(add(60, 100, 0, 960).apply(&mut r), Ok(()));
    assert_eq!(add(64, 90, 960, 960).apply(&mut r), Ok(()));
    assert_eq!(add(67, 80, 960, 1920).apply(&mut r), Ok(()));
    r
}

#[test]
fn a_new_region_holds_what_it_was_given() {
    let r = clip();
    assert_eq!(r.get_id(), 3);
    assert_eq!(r.get_name(), "clip");
    assert_eq!(r.start_time(), beats(960));
    assert_eq!(r.duration(), beats(1920));
    assert_eq!(r.samples_per_beat(), 24_000);
    assert!(!r.is_notes());
    assert!(r.source().is_none());
    assert!(r.notes().is_empty());
    let p = Region::new(0, String::new(), beats(0), beats(0), 0, true);
    assert!(p.is_notes());
    assert!(p.notes().is_empty());
}

#[test]
fn notes_get_ascending_ids_from_zero() {
    let r = phrase();
    let notes = r.notes();
    assert_eq!(notes.iter().map(|n| n.id).collect::<Vec<_>>(), vec![0, 1, 2]);
    assert_eq!(
        notes[1],
        Note { id: 1, pitch: 64, velocity: 90, start_beat: beats(960), duration: beats(960) }
    );
    assert_eq!(r.get_note(2).map(|n| n.pitch), Some(67));
    assert!(r.get_note(3).is_none());
}

#[test]
fn removed_note_ids_are_not_given_again() {
    let mut r = phrase();
    assert_eq!(RegionOperation::RemoveNote { id: 2 }.apply(&mut r), Ok(()));
    let op = RegionOperation::AddNote {
        pitch: 1,
        velocity: 1,
        start_beat: beats(0),
        duration: beats(1),
    };
    assert_eq!(op.apply(&mut r), Ok(()));
    assert_eq!(r.notes().iter().map(|n| n.id).collect::<Vec<_>>(), vec![0, 1, 3]);
}

#[test]
fn plain_operations_set_one_field() {
    let mut r = clip();
    assert_eq!(RegionOperation::SetStartTime(beats(-5)).apply(&mut r), Ok(()));
    assert_eq!(r.start_time(), beats(-5));
    assert_eq!(r.duration(), beats(1920));
    assert_eq!(RegionOperation::SetDuration(beats(7)).apply(&mut r), Ok(()));
    assert_eq!(r.duration(), beats(7));
    assert_eq!(r.start_time(), beats(-5));
    assert_eq!(RegionOperation::SetName("new".to_string()).apply(&mut r), Ok(()));
    assert_eq!(r.get_name(), "new");
    assert_eq!(r.get_id(), 3);
}

#[test]
fn scale_stretches_duration_and_notes() {
    let mut r = phrase();
    assert_eq!(RegionOperation::Scale(Ratio { num: 3, den: 2 }).apply(&mut r), Ok(()));
    assert_eq!(r.duration(), beats(5760));
    assert_eq!(r.start_time(), beats(0));
    let notes = r.notes();
    assert_eq!(
        notes.iter().map(|n| (n.start_beat.ticks, n.duration.ticks)).collect::<Vec<_>>(),
        vec![(0, 1440), (1440, 1440), (1440, 2880)]
    );
    assert_eq!(notes.iter().map(|n| (n.id, n.pitch)).collect::<Vec<_>>(), vec![(0, 60), (1, 64), (2, 67)]);
    let mut c = clip();
    assert_eq!(RegionOperation::Scale(Ratio { num: 1, den: 4 }).apply(&mut c), Ok(()));
    assert_eq!(c.duration(), beats(480));
    assert_eq!(c.start_time(), beats(960));
}

#[test]
fn scale_by_one_is_the_identity() {
    for factor in [Ratio { num: 1, den: 1 }, Ratio { num: 65_536, den: 65_536 }] {
        let mut r = phrase();
        let before = r.notes();
        assert_eq!(RegionOperation::Scale(factor).apply(&mut r), Ok(()));
        assert_eq!(r.notes(), before);
        assert_eq!(r.duration(), beats(3840));
        assert_eq!(r.start_time(), beats(0));
        assert_eq!(r.get_name(), "phrase");
        let mut c = clip();
        assert_eq!(RegionOperation::Scale(factor).apply(&mut c), Ok(()));
        assert_eq!(c.duration(), beats(1920));
    }
}

#[test]
fn each_region_error_has_an_input_that_gives_it() {
    let mut c = clip();
    let note = |pitch, velocity| RegionOperation::AddNote {
        pitch,
        velocity,
        start_beat: beats(0),
        duration: beats(1),
    };
    assert_eq!(note(60, 60).apply(&mut c), Err(RegionError::NotANoteRegion));
    assert_eq!(
        RegionOperation::RemoveNote { id: 0 }.apply(&mut c),
        Err(RegionError::NotANoteRegion)
    );
    let modify = |id, pitch, velocity| RegionOperation::ModifyNote {
        id,
        pitch,
        velocity,
        start_beat: beats(5),
        duration: beats(6),
    };
    assert_eq!(modify(0, 1, 1).apply(&mut c), Err(RegionError::NotANoteRegion));
    assert_eq!(
        RegionOperation::Scale(Ratio { num: 1, den: 0 }).apply(&mut c),
        Err(RegionError::InvalidScale)
    );
    assert_eq!(c.duration(), beats(1920));

    let mut p = phrase();
    assert_eq!(note(128, 0).apply(&mut p), Err(RegionError::InvalidNote));
    assert_eq!(note(0, 128).apply(&mut p), Err(RegionError::InvalidNote));
    assert_eq!(note(127, 127).apply(&mut p), Ok(()));
    assert_eq!(
        RegionOperation::RemoveNote { id: 17 }.apply(&mut p),
        Err(RegionError::UnknownNote)
    );
    assert_eq!(modify(17, 1, 1).apply(&mut p), Err(RegionError::UnknownNote));
    assert_eq!(modify(17, 200, 1).apply(&mut p), Err(RegionError::UnknownNote));
    assert_eq!(modify(1, 200, 1).apply(&mut p), Err(RegionError::InvalidNote));
    assert_eq!(p.get_note(1).unwrap().pitch, 64);
    assert_eq!(
        p.set_audio_source(None, 120_000),
        Err(RegionError::NotABufferRegion)
    );
    assert_eq!(p.notes().len(), 4);
}

#[test]
fn modify_replaces_what_a_note_holds() {
    let mut p = phrase();
    let op = RegionOperation::ModifyNote {
        id: 1,
        pitch: 10,
        velocity: 20,
        start_beat: beats(30),
        duration: beats(40),
    };
    assert_eq!(op.apply(&mut p), Ok(()));
    assert_eq!(
        p.notes()[1],
        Note { id: 1, pitch: 10, velocity: 20, start_beat: beats(30), duration: beats(40) }
    );
    assert_eq!(p.notes()[0].pitch, 60);
    assert_eq!(p.notes()[2].pitch, 67);
}

#[test]
fn an_audio_clip_binds_and_unbinds_its_buffer() {
    let mut c = clip();
    let source = BufferSource { handle: 7, channels: 2, sample_rate: 44_100, frames: 88_200 };
    assert_eq!(c.span(), Some(beats(0)));
    assert_eq!(c.set_audio_source(Some(source), 120_000), Ok(()));
    assert_eq!(c.source(), Some(source));
    // two seconds at 120 beats per minute are four beats
    assert_eq!(c.span(), Some(beats(3840)));
    assert_eq!(c.set_audio_source(None, 90_000), Ok(()));
    assert_eq!(c.source(), None);
    assert_eq!(c.span(), Some(beats(0)));
    assert_eq!(phrase().span(), None);
}

#[test]
fn stretching_a_clip_stretches_the_time_its_buffer_plays_over() {
    let mut c = clip();
    let source = BufferSource { handle: 7, channels: 2, sample_rate: 48_000, frames: 48_000 };
    assert_eq!(c.set_audio_source(Some(source), 60_000), Ok(()));
    assert_eq!(c.span(), Some(beats(960)));
    assert_eq!(RegionOperation::Scale(Ratio { num: 2, den: 1 }).apply(&mut c), Ok(()));
    assert_eq!(c.span(), Some(beats(1920)));
    assert_eq!(c.duration(), beats(3840));
    // a new duration crops or extends; the buffer plays as fast as before
    assert_eq!(RegionOperation::SetDuration(beats(100)).apply(&mut c), Ok(()));
    assert_eq!(c.span(), Some(beats(1920)));
    assert_eq!(RegionOperation::Scale(Ratio { num: 1, den: 1 }).apply(&mut c), Ok(()));
    assert_eq!(c.span(), Some(beats(1920)));
    assert_eq!(c.duration(), beats(100));
}

#[test]
fn a_region_covers_from_its_start_to_just_before_its_end() {
    let r = clip();
    assert!(!r.covers(beats(959)));
    assert!(r.covers(beats(960)));
    assert!(r.covers(beats(2879)));
    assert!(!r.covers(beats(2880)));
    assert_eq!(r.end(), beats(2880));
    assert_eq!(r.local_beats(beats(960)), beats(0));
    assert_eq!(r.local_beats(beats(1000)), beats(40));
    assert_eq!(r.local_beats(beats(0)), beats(-960));
    let empty = Region::new(0, String::new(), beats(5), beats(0), 1, false);
    assert!(!empty.covers(beats(5)));
    let backwards = Region::new(0, String::new(), beats(5), beats(-3), 1, false);
    assert!(!backwards.covers(beats(4)));
    assert_eq!(backwards.end(), beats(2));
}

#[test]
fn notes_beginning_in_a_span_are_found_by_absolute_time() {
    let mut p = phrase();
    assert_eq!(RegionOperation::SetStartTime(beats(100)).apply(&mut p), Ok(()));
    // notes begin at 100, 1060, 1060
    assert_eq!(p.notes_beginning(beats(0), beats(100)), Vec::<u32>::new());
    assert_eq!(p.notes_beginning(beats(100), beats(101)), vec![0]);
    assert_eq!(p.notes_beginning(beats(101), beats(1060)), Vec::<u32>::new());
    assert_eq!(p.notes_beginning(beats(1060), beats(1061)), vec![1, 2]);
    assert_eq!(p.notes_beginning(beats(0), beats(5000)), vec![0, 1, 2]);
    assert_eq!(clip().notes_beginning(beats(0), beats(5000)), Vec::<u32>::new());
}

#[test]
fn a_cloned_region_is_a_copy() {
    let p = phrase();
    let mut q = p.clone();
    assert_eq!(q.notes(), p.notes());
    assert_eq!(q.get_name(), p.get_name());
    assert_eq!(RegionOperation::RemoveNote { id: 0 }.apply(&mut q), Ok(()));
    assert_eq!(p.notes().len(), 3);
    assert_eq!(q.notes().len(), 2);
}
