use knodiq_mixer::time::{samples_per_beat, Beats, Ratio, MAX_TICKS, MIN_TICKS, TICKS_PER_BEAT};

#[test]
fn one_beat_is_960_ticks() {
    assert_eq!(TICKS_PER_BEAT, 960);
    assert_eq!(Beats::from_beats(1).ticks, 960);
    assert_eq!(Beats::from_beats(-3).ticks, -2880);
    assert_eq!(Beats::from_beats(0), Beats::zero());
    assert_eq!(Beats::from_ticks(17).ticks, 17);
}

#[test]
fn samples_per_beat_at_120_bpm_and_48_khz_is_24000() {
    assert_eq!(samples_per_beat(48_000, 120_000), 24_000);
}

#[test]
fn samples_per_beat_rounds_down() {
    // 44100 * 60 / 7 = 378000 exactly; 48000 * 60 / 7 = 411428.57...
    assert_eq!(samples_per_beat(44_100, 7_000), 378_000);
    assert_eq!(samples_per_beat(48_000, 7_000), 411_428);
    assert_eq!(samples_per_beat(0, 120_000), 0);
    assert_eq!(samples_per_beat(u32::MAX, 1), 4_294_967_295u64 * 60_000);
}

#[test]
fn beats_convert_to_samples() {
    assert_eq!(Beats::from_beats(1).to_samples(24_000), 24_000);
    assert_eq!(Beats::from_ticks(480).to_samples(24_000), 12_000);
    assert_eq!(Beats::from_ticks(1).to_samples(24_000), 25);
    assert_eq!(Beats::from_ticks(1).to_samples(100), 0);
    assert_eq!(Beats::zero().to_samples(24_000), 0);
    assert_eq!(Beats::from_beats(-1).to_samples(24_000), 0);
    assert_eq!(Beats::from_ticks(MAX_TICKS).to_samples(u64::MAX), u64::MAX);
}

#[test]
fn samples_convert_to_beats() {
    assert_eq!(Beats::from_samples(24_000, 24_000).ticks, 960);
    assert_eq!(Beats::from_samples(12_000, 24_000).ticks, 480);
    assert_eq!(Beats::from_samples(1, 24_000).ticks, 0);
    assert_eq!(Beats::from_samples(25, 24_000).ticks, 1);
    assert_eq!(Beats::from_samples(u64::MAX, 1).ticks, MAX_TICKS);
}

#[test]
fn frames_last_their_length_at_the_tempo() {
    assert_eq!(Beats::of_frames(24_000, 48_000, 120_000).ticks, 960);
    assert_eq!(Beats::of_frames(48_000, 48_000, 60_000).ticks, 960);
    assert_eq!(Beats::of_frames(44_100, 44_100, 120_000).ticks, 1920);
    assert_eq!(Beats::of_frames(1, 48_000, 120_000).ticks, 0);
    assert_eq!(Beats::of_frames(25, 48_000, 120_000).ticks, 1);
    assert_eq!(Beats::of_frames(0, 48_000, 120_000).ticks, 0);
    assert_eq!(Beats::of_frames(5, 0, 120_000).ticks, 0);
    assert_eq!(Beats::of_frames(5, 48_000, 0).ticks, 0);
    assert_eq!(Beats::of_frames(u64::MAX, 1, u32::MAX).ticks, MAX_TICKS);
}

#[test]
fn addition_saturates_at_both_ends() {
    let a = Beats::from_ticks(MAX_TICKS - 1);
    assert_eq!(a.saturating_add(Beats::from_ticks(1)).ticks, MAX_TICKS);
    assert_eq!(a.saturating_add(Beats::from_ticks(5)).ticks, MAX_TICKS);
    let b = Beats::from_ticks(MIN_TICKS + 1);
    assert_eq!(b.saturating_add(Beats::from_ticks(-7)).ticks, MIN_TICKS);
    assert_eq!(Beats::from_ticks(5).saturating_add(Beats::from_ticks(-7)).ticks, -2);
}

#[test]
fn comparison_and_max() {
    let a = Beats::from_ticks(-1);
    let b = Beats::from_ticks(3);
    assert!(a.lt(b));
    assert!(!b.lt(a));
    assert!(!a.lt(a));
    assert!(a.le(a));
    assert!(a.le(b));
    assert!(!b.le(a));
    assert_eq!(a.max(b), b);
    assert_eq!(b.max(a), b);
}

#[test]
fn scaling_rounds_toward_zero() {
    let half = Ratio { num: 1, den: 2 };
    assert_eq!(Beats::from_ticks(960).scaled(half).ticks, 480);
    assert_eq!(Beats::from_ticks(3).scaled(half).ticks, 1);
    assert_eq!(Beats::from_ticks(-3).scaled(half).ticks, -1);
    assert_eq!(Beats::from_ticks(7).scaled(Ratio { num: 3, den: 2 }).ticks, 10);
    assert_eq!(Beats::from_ticks(-7).scaled(Ratio { num: 3, den: 2 }).ticks, -10);
    assert_eq!(Beats::from_ticks(960).scaled(Ratio { num: 0, den: 5 }).ticks, 0);
}

#[test]
fn scaling_saturates() {
    let big = Ratio { num: u32::MAX, den: 1 };
    assert_eq!(Beats::from_ticks(MAX_TICKS).scaled(big).ticks, MAX_TICKS);
    assert_eq!(Beats::from_ticks(MIN_TICKS).scaled(big).ticks, MIN_TICKS);
    assert_eq!(Beats::from_ticks(MIN_TICKS).scaled(Ratio { num: 1, den: 1 }).ticks, MIN_TICKS);
}

#[test]
fn scaling_by_one_is_the_identity_on_times() {
    for ticks in [0i64, 1, -1, 959, 960, -123_456_789, MAX_TICKS, MIN_TICKS] {
        for n in [1u32, 2, 65_536, u32::MAX] {
            let r = Ratio { num: n, den: n };
            assert_eq!(Beats::from_ticks(ticks).scaled(r).ticks, ticks);
        }
    }
    let one = Ratio::one();
    assert_eq!((one.num, one.den), (1, 1));
}
