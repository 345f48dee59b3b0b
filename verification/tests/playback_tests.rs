use knodiq_mixer::actor::{MixerCommand, MixerResult};
use knodiq_mixer::mixer::{Mixer, MixerError};
use knodiq_mixer::playback::{
    interleave, mix_query, pause_audio, play_audio, PlaybackPlan, PLAYER_CHANNELS,
    PLAYER_SAMPLE_RATE,
};
use knodiq_mixer::region::{RegionData, RegionType};
use knodiq_mixer::time::Beats;
use knodiq_mixer::track::{TrackData, TrackType};
use knodiq_mixer::worker::{
    continue_mixing, may_deliver, sample_delivered, MixCursor, MixingThread, MixingThreadCommand,
    WorkerAction,
};

fn mixes(plan: PlaybackPlan, at: Beats) -> bool {
    match plan {
        PlaybackPlan::Mix(MixerCommand::Mix(b)) => b == at,
        _ => false,
    }
}

#[test]
fn the_player_is_opened_at_48_khz_stereo() {
    assert_eq!(PLAYER_SAMPLE_RATE, 48_000);
    assert_eq!(PLAYER_CHANNELS, 2);
}

#[test]
fn without_a_cache_playing_always_mixes() {
    let at = Beats::from_beats(3);
    assert!(mix_query(false).is_none());
    assert!(mixes(play_audio(at, false, None), at));
    assert!(mixes(play_audio(at, false, Some(MixerResult::NeedsMix(false))), at));
}

#[test]
fn with_a_cache_playing_goes_by_the_actors_answer() {
    let at = Beats::from_beats(1);
    assert!(matches!(mix_query(true), Some(MixerCommand::DoesNeedMix)));
    assert!(mixes(play_audio(at, true, Some(MixerResult::NeedsMix(true))), at));
    assert!(matches!(
        play_audio(at, true, Some(MixerResult::NeedsMix(false))),
        PlaybackPlan::ReplayCache
    ));
    // an answer to something else: mix to be safe
    assert!(mixes(play_audio(at, true, Some(MixerResult::InputNode(1))), at));
    assert!(mixes(
        play_audio(at, true, Some(MixerResult::Failed(MixerError::UnknownTrack))),
        at
    ));
    // no answer at all: play what is cached
    assert!(matches!(play_audio(at, true, None), PlaybackPlan::ReplayCache));
}

#[test]
fn pausing_stops_the_mix() {
    assert!(matches!(pause_audio(), MixerCommand::StopMixing));
}

#[test]
fn cached_samples_go_out_frame_by_frame() {
    let data = vec![vec![1.0f32, 2.0, 3.0], vec![10.0, 20.0, 30.0]];
    assert_eq!(interleave(&data, 3), vec![1.0, 10.0, 2.0, 20.0, 3.0, 30.0]);
    assert_eq!(interleave(&data, 2), vec![1.0, 10.0, 2.0, 20.0]);
    assert_eq!(interleave(&data, 0), Vec::<f32>::new());
    let none: Vec<Vec<f32>> = Vec::new();
    assert_eq!(interleave(&none, 5), Vec::<f32>::new());
    let mono = vec![vec![7u8, 8, 9]];
    assert_eq!(interleave(&mono, 3), vec![7, 8, 9]);
}

#[test]
fn the_worker_renders_on_start_and_waits_on_stop() {
    let mut w = MixingThread::new();
    assert!(!w.stop_requested);
    assert_eq!(w.receive(MixingThreadCommand::StopMixing), WorkerAction::Wait);
    assert!(w.stop_requested);
    let at = Beats::from_beats(4);
    assert_eq!(w.receive(MixingThreadCommand::StartMixing(at)), WorkerAction::Render(at));
    assert!(!w.stop_requested);
}

#[test]
fn a_sample_is_delivered_unless_a_stop_was_requested() {
    assert!(may_deliver(false));
    assert!(!may_deliver(true));
    assert!(continue_mixing(false, Some(true)));
    assert!(!continue_mixing(false, Some(false)));
    assert!(!continue_mixing(false, None));
    assert!(!continue_mixing(true, Some(true)));
    assert!(!continue_mixing(true, None));
    assert!(sample_delivered(true));
    assert!(!sample_delivered(false));
}

#[test]
fn after_a_stop_the_callback_receives_no_further_sample() {
    // the pass as the worker runs it, with the stop arriving after 5 samples
    let mut w = MixingThread::new();
    let _ = w.receive(MixingThreadCommand::StartMixing(Beats::zero()));
    let mut cursor = MixCursor::new(Beats::zero(), 2, 24_000).unwrap();
    let mut calls_before = 0;
    let mut calls_after = 0;
    let mut produced = 0;
    loop {
        if produced == 5 {
            let _ = w.receive(MixingThreadCommand::StopMixing);
        }
        let accepted = if may_deliver(w.stop_requested) {
            if produced < 5 {
                calls_before += 1;
            } else {
                calls_after += 1;
            }
            Some(sample_delivered(true))
        } else {
            None
        };
        produced += 1;
        if !continue_mixing(w.stop_requested, accepted) {
            break;
        }
        assert!(cursor.advance());
    }
    assert_eq!(calls_before, 5);
    assert!(calls_after <= 2);
    assert_eq!(calls_after, 0);
    assert_eq!(produced, 6);
}

#[test]
fn a_closed_player_ends_the_pass() {
    let w = MixingThread::new();
    let accepted = Some(sample_delivered(false));
    assert!(!continue_mixing(w.stop_requested, accepted));
}

#[test]
fn the_cursor_walks_channels_then_frames() {
    assert!(MixCursor::new(Beats::zero(), 0, 1).is_none());
    assert!(MixCursor::new(Beats::zero(), 1, 0).is_none());
    let mut c = MixCursor::new(Beats::from_beats(1), 3, 24_000).unwrap();
    let mut seen = Vec::new();
    for _ in 0..7 {
        seen.push((c.frame, c.channel, c.at_frame_start()));
        assert!(c.advance());
    }
    assert_eq!(
        seen,
        vec![
            (0, 0, true),
            (0, 1, false),
            (0, 2, false),
            (1, 0, true),
            (1, 1, false),
            (1, 2, false),
            (2, 0, true),
        ]
    );
    assert_eq!(c.start, Beats::from_beats(1));
}

#[test]
fn the_cursor_tells_the_time_of_its_frame() {
    let mut c = MixCursor::new(Beats::from_beats(2), 1, 24_000).unwrap();
    assert_eq!(c.current_beats(), Beats::from_beats(2));
    c.frame = 24_000;
    assert_eq!(c.current_beats(), Beats::from_beats(3));
    c.frame = 12_000;
    assert_eq!(c.current_beats().ticks, 1920 + 480);
    c.frame = 24;
    assert_eq!(c.current_beats().ticks, 1920);
    c.frame = 25;
    assert_eq!(c.current_beats().ticks, 1921);
}

#[test]
fn the_cursor_stops_at_the_last_frame() {
    let mut c = MixCursor::new(Beats::zero(), 2, 1).unwrap();
    c.frame = u64::MAX;
    assert!(c.advance());
    assert_eq!((c.frame, c.channel), (u64::MAX, 1));
    assert!(!c.advance());
    assert_eq!((c.frame, c.channel), (u64::MAX, 1));
    assert_eq!(c.current_beats().ticks, i64::MAX);
}

#[test]
fn a_one_beat_silent_clip_yields_24000_zero_samples_per_channel() {
    let mut m = Mixer::with_defaults();
    assert_eq!(
        m.add_track(TrackData { name: "A".to_string(), channels: 2, track_type: TrackType::BufferTrack }),
        Ok(0)
    );
    let clip = RegionData {
        name: "silence".to_string(),
        start_time: Beats::zero(),
        duration: Beats::from_beats(1),
        samples_per_beat: 24_000,
        region_type: RegionType::BufferRegion("silence.wav".to_string(), 0),
    };
    assert_eq!(m.add_region(0, clip), Ok(0));
    let spb = m.samples_per_beat();
    assert_eq!(spb, 24_000);
    assert_eq!(m.duration().to_samples(spb), 24_000);

    // walk the pass as the worker would and collect what the clip contributes
    let buffer = vec![vec![0.0f32; 24_000]; 2];
    let track = m.get_track_by_id(0).unwrap();
    let mut cursor = MixCursor::new(Beats::zero(), m.channels(), spb).unwrap();
    let mut out: Vec<Vec<f32>> = vec![Vec::new(), Vec::new()];
    loop {
        let now = cursor.current_beats();
        let active = track.regions_at(now);
        if active.is_empty() {
            break;
        }
        assert_eq!(active, vec![0]);
        let region = track.get_region(0).unwrap();
        let frame = region.local_beats(now).to_samples(spb);
        assert!(frame <= cursor.frame);
        out[cursor.channel].push(buffer[cursor.channel][cursor.frame as usize]);
        assert!(cursor.advance());
    }
    assert_eq!(cursor.frame, 24_000);
    assert_eq!(cursor.channel, 0);
    for channel in &out {
        assert_eq!(channel.len(), 24_000);
        assert!(channel.iter().all(|x| *x == 0.0));
    }
    let stream = interleave(&out, 24_000);
    assert_eq!(stream.len(), 48_000);
    assert!(stream.iter().all(|x| *x == 0.0));
}
