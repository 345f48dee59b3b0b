//! Musical time in ticks, and the ratios that stretch it.

use vstd::prelude::*;

verus! {

/// Ticks in one beat.
pub const TICKS_PER_BEAT: i64 = 960;

/// Largest tick count a `Beats` holds.
pub const MAX_TICKS: i64 = 0x7fff_ffff_ffff_ffff;

/// Smallest tick count a `Beats` holds.
pub const MIN_TICKS: i64 = -0x8000_0000_0000_0000;

/// The tick count nearest to `t` that a `Beats` can hold.
pub open spec fn clamp_ticks(t: int) -> int {
    if t > MAX_TICKS as int {
        MAX_TICKS as int
    } else if t < MIN_TICKS as int {
        MIN_TICKS as int
    } else {
        t
    }
}

/// `a * num / den`, rounded toward zero.
pub open spec fn scale_ticks(a: int, num: int, den: int) -> int {
    if a >= 0 {
        (a * num) / den
    } else {
        -(((-a) * num) / den)
    }
}

/// A signed musical time, counted in ticks of 1/960 beat.
#[derive(Clone, Copy, Debug, PartialEq, Eq, Structural)]
pub struct Beats {
    pub ticks: i64,
}

impl View for Beats {
    type V = int;

    open spec fn view(&self) -> int {
        self.ticks as int
    }
}

/// A non-negative factor `num / den`.
#[derive(Clone, Copy, Debug, PartialEq, Eq, Structural)]
pub struct Ratio {
    pub num: u32,
    pub den: u32,
}

impl Ratio {
    /// A ratio is usable when its denominator is not zero.
    pub open spec fn valid(self) -> bool {
        self.den > 0
    }

    /// The factor one.
    pub fn one() -> (r: Ratio)
        ensures
            r.num == 1,
            r.den == 1,
            r.valid(),
    {
        Ratio { num: 1, den: 1 }
    }

    /// True when the ratio stands for exactly one.
    pub open spec fn is_one(self) -> bool {
        self.den > 0 && self.num == self.den
    }
}

impl Beats {
    /// The time zero.
    pub fn zero() -> (b: Beats)
        ensures
            b@ == 0,
    {
        Beats { ticks: 0 }
    }

    /// The time of `ticks` ticks.
    pub fn from_ticks(ticks: i64) -> (b: Beats)
        ensures
            b@ == ticks,
    {
        Beats { ticks }
    }

    /// The time of `beats` whole beats.
    pub fn from_beats(beats: i32) -> (b: Beats)
        ensures
            b@ == beats as int * TICKS_PER_BEAT as int,
    {
        let wide: i64 = beats as i64;
        assert(-0x8000_0000 * 960 <= wide * 960 <= 0x7fff_ffff * 960) by (nonlinear_arith)
            requires
                -0x8000_0000 <= wide <= 0x7fff_ffff,
        ;
        Beats { ticks: wide * TICKS_PER_BEAT }
    }

    /// The sum of two times, held at the ends of the range.
    pub fn saturating_add(self, rhs: Beats) -> (b: Beats)
        ensures
            b@ == clamp_ticks(self@ + rhs@),
    {
        let sum: i128 = self.ticks as i128 + rhs.ticks as i128;
        if sum > MAX_TICKS as i128 {
            Beats { ticks: MAX_TICKS }
        } else if sum < MIN_TICKS as i128 {
            Beats { ticks: MIN_TICKS }
        } else {
            Beats { ticks: sum as i64 }
        }
    }

    /// True when this time is before `rhs`.
    pub fn lt(self, rhs: Beats) -> (r: bool)
        ensures
            r == (self@ < rhs@),
    {
        self.ticks < rhs.ticks
    }

    /// True when this time is not after `rhs`.
    pub fn le(self, rhs: Beats) -> (r: bool)
        ensures
            r == (self@ <= rhs@),
    {
        self.ticks <= rhs.ticks
    }

    /// The later of two times.
    pub fn max(self, rhs: Beats) -> (b: Beats)
        ensures
            b@ == if self@ >= rhs@ { self@ } else { rhs@ },
    {
        if self.ticks >= rhs.ticks {
            self
        } else {
            rhs
        }
    }

    /// This time stretched by `factor`, rounded toward zero and held at the
    /// ends of the range.
    pub fn scaled(self, factor: Ratio) -> (b: Beats)
        requires
            factor.valid(),
        ensures
            b@ == clamp_ticks(scale_ticks(self@, factor.num as int, factor.den as int)),
    {
        let negative = self.ticks < 0;
        let magnitude: u128 = if negative {
            (-(self.ticks as i128)) as u128
        } else {
            self.ticks as u128
        };
        assert(magnitude * factor.num as u128 <= 0x8000_0000_0000_0000 * 0xffff_ffff)
            by (nonlinear_arith)
            requires
                magnitude <= 0x8000_0000_0000_0000,
                factor.num <= 0xffff_ffff,
        ;
        let product: u128 = magnitude * (factor.num as u128);
        let quotient: u128 = product / (factor.den as u128);
        if negative && quotient >= 0x8000_0000_0000_0000 {
            Beats { ticks: MIN_TICKS }
        } else if quotient > MAX_TICKS as u128 {
            Beats { ticks: MAX_TICKS }
        } else if negative {
            Beats { ticks: -(quotient as i64) }
        } else {
            Beats { ticks: quotient as i64 }
        }
    }
}

/// The samples that `ticks` ticks last at `samples_per_beat` samples in a
/// beat, rounded down; none for a time that is not after zero.
pub open spec fn samples_of(ticks: int, samples_per_beat: int) -> int {
    if ticks <= 0 {
        0
    } else {
        (ticks * samples_per_beat) / (TICKS_PER_BEAT as int)
    }
}

/// The time that `frame` samples last at `samples_per_beat` samples in a
/// beat, in ticks, rounded down.
pub open spec fn ticks_of(frame: int, samples_per_beat: int) -> int {
    (frame * (TICKS_PER_BEAT as int)) / samples_per_beat
}

/// The time that `frames` samples at `sample_rate` hertz last at a tempo of
/// `tempo_milli` thousandths of a beat per minute, in ticks, rounded down;
/// zero at a sample rate of zero.
pub open spec fn ticks_of_frames(frames: int, sample_rate: int, tempo_milli: int) -> int {
    if sample_rate == 0 {
        0
    } else {
        (frames * tempo_milli * (TICKS_PER_BEAT as int)) / (sample_rate * 60_000)
    }
}

impl Beats {
    /// The time that `frames` samples at `sample_rate` hertz last at a tempo
    /// of `tempo_milli` thousandths of a beat per minute, rounded down and
    /// held at the end of the range; zero at a sample rate of zero.
    pub fn of_frames(frames: u64, sample_rate: u32, tempo_milli: u32) -> (b: Beats)
        ensures
            b@ == clamp_ticks(
                ticks_of_frames(frames as int, sample_rate as int, tempo_milli as int),
            ),
    {
        if sample_rate == 0 {
            return Beats { ticks: 0 };
        }
        let f: u128 = frames as u128;
        let t: u128 = tempo_milli as u128;
        let r: u128 = sample_rate as u128;
        assert(f * t <= 0xffff_ffff_ffff_ffff * 0xffff_ffff) by (nonlinear_arith)
            requires
                f <= 0xffff_ffff_ffff_ffff,
                t <= 0xffff_ffff,
        ;
        let ft: u128 = f * t;
        assert(ft * 960 <= 0xffff_ffff_ffff_ffff * 0xffff_ffff * 960) by (nonlinear_arith)
            requires
                ft <= 0xffff_ffff_ffff_ffff * 0xffff_ffff,
        ;
        assert(0 < r * 60_000 <= 0xffff_ffff * 60_000) by (nonlinear_arith)
            requires
                0 < r <= 0xffff_ffff,
        ;
        let ticks: u128 = (ft * 960) / (r * 60_000);
        if ticks > MAX_TICKS as u128 {
            Beats { ticks: MAX_TICKS }
        } else {
            Beats { ticks: ticks as i64 }
        }
    }

    /// The samples that this time lasts at `samples_per_beat` samples in a
    /// beat, rounded down and held at the end of the range; none for a time
    /// that is not after zero.
    pub fn to_samples(self, samples_per_beat: u64) -> (n: u64)
        ensures
            n == if samples_of(self@, samples_per_beat as int) > u64::MAX {
                u64::MAX as int
            } else {
                samples_of(self@, samples_per_beat as int)
            },
    {
        if self.ticks <= 0 {
            return 0;
        }
        let ticks: u128 = self.ticks as u128;
        assert(ticks * samples_per_beat as u128 <= 0x7fff_ffff_ffff_ffff * 0xffff_ffff_ffff_ffff)
            by (nonlinear_arith)
            requires
                ticks <= 0x7fff_ffff_ffff_ffff,
                samples_per_beat <= 0xffff_ffff_ffff_ffff,
        ;
        let samples: u128 = (ticks * (samples_per_beat as u128)) / 960;
        if samples > u64::MAX as u128 {
            u64::MAX
        } else {
            samples as u64
        }
    }

    /// The time that `frame` samples last at `samples_per_beat` samples in a
    /// beat, rounded down and held at the end of the range.
    pub fn from_samples(frame: u64, samples_per_beat: u64) -> (b: Beats)
        requires
            samples_per_beat > 0,
        ensures
            b@ == clamp_ticks(ticks_of(frame as int, samples_per_beat as int)),
    {
        let wide: u128 = frame as u128;
        assert(wide * 960 <= 0xffff_ffff_ffff_ffff * 960) by (nonlinear_arith)
            requires
                wide <= 0xffff_ffff_ffff_ffff,
        ;
        let ticks: u128 = (wide * 960) / (samples_per_beat as u128);
        if ticks > MAX_TICKS as u128 {
            Beats { ticks: MAX_TICKS }
        } else {
            Beats { ticks: ticks as i64 }
        }
    }
}

/// Stretching by one changes nothing.
pub proof fn lemma_scale_by_one(a: int, n: int)
    requires
        n > 0,
    ensures
        scale_ticks(a, n, n) == a,
        MIN_TICKS <= a <= MAX_TICKS ==> clamp_ticks(scale_ticks(a, n, n)) == a,
{
    if a >= 0 {
        assert((a * n) / n == a) by (nonlinear_arith)
            requires
                n > 0,
        ;
    } else {
        assert(((-a) * n) / n == -a) by (nonlinear_arith)
            requires
                n > 0,
        ;
    }
}

/// Whole samples in one beat at `sample_rate` hertz and `tempo_milli`
/// thousandths of a beat per minute.
pub open spec fn samples_per_beat_of(sample_rate: int, tempo_milli: int) -> int {
    (sample_rate * 60_000) / tempo_milli
}

/// Whole samples in one beat.
pub fn samples_per_beat(sample_rate: u32, tempo_milli: u32) -> (n: u64)
    requires
        tempo_milli > 0,
    ensures
        n == samples_per_beat_of(sample_rate as int, tempo_milli as int),
{
    let wide: u64 = sample_rate as u64;
    assert(wide * 60_000 <= 0xffff_ffff * 60_000) by (nonlinear_arith)
        requires
            wide <= 0xffff_ffff,
    ;
    (wide * 60_000) / (tempo_milli as u64)
}

} // verus!
