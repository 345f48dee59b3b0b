//! The mix worker: what it is told, when it may hand a sample on, and where
//! in the stream of samples it stands.

use vstd::prelude::*;
use crate::time::{clamp_ticks, ticks_of, Beats, MAX_TICKS};

verus! {

/// What the mix worker is told.
#[derive(Clone, Copy, Debug, PartialEq, Eq, Structural)]
pub enum MixingThreadCommand {
    /// Render from the given time on.
    StartMixing(Beats),
    /// Stop rendering.
    StopMixing,
}

/// What the mix worker does next.
#[derive(Clone, Copy, Debug, PartialEq, Eq, Structural)]
pub enum WorkerAction {
    /// Ready the mixer it was given and render from the given time on.
    Render(Beats),
    /// Nothing: wait for the next command.
    Wait,
}

/// The state of the mix worker between commands: whether it was asked to
/// stop.
#[derive(Clone, Copy, Debug, PartialEq, Eq, Structural)]
pub struct MixingThread {
    pub stop_requested: bool,
}

impl MixingThread {
    /// A worker that was not asked to stop.
    pub fn new() -> (w: MixingThread)
        ensures
            !w.stop_requested,
    {
        MixingThread { stop_requested: false }
    }

    /// Takes a command. A start clears the request to stop and has the
    /// worker render; a stop sets the request.
    pub fn receive(&mut self, command: MixingThreadCommand) -> (action: WorkerAction)
        ensures
            match command {
                MixingThreadCommand::StartMixing(at) => !final(self).stop_requested && action
                    == WorkerAction::Render(at),
                MixingThreadCommand::StopMixing => final(self).stop_requested && action
                    == WorkerAction::Wait,
            },
    {
        match command {
            MixingThreadCommand::StartMixing(at) => {
                self.stop_requested = false;
                WorkerAction::Render(at)
            },
            MixingThreadCommand::StopMixing => {
                self.stop_requested = true;
                WorkerAction::Wait
            },
        }
    }
}

/// Whether the receiver of a sample is to be called at all: not once a stop
/// was requested.
pub fn may_deliver(stop_requested: bool) -> (r: bool)
    ensures
        r == !stop_requested,
{
    !stop_requested
}

/// Whether the mix pass goes on after a sample: not once a stop was
/// requested, and otherwise as the receiver of the sample says. `accepted` is
/// what the receiver said, or `None` where it was not called.
pub fn continue_mixing(stop_requested: bool, accepted: Option<bool>) -> (r: bool)
    ensures
        r == (!stop_requested && accepted == Some(true)),
{
    if stop_requested {
        false
    } else {
        match accepted {
            Some(true) => true,
            _ => false,
        }
    }
}

/// Whether the mix pass goes on after a sample was handed to the player: it
/// does while the player takes samples, and ends when the player is gone.
pub fn sample_delivered(sent: bool) -> (r: bool)
    ensures
        r == sent,
{
    sent
}

/// Where a mix pass stands in its stream of interleaved samples.
#[derive(Clone, Copy, Debug, PartialEq, Eq, Structural)]
pub struct MixCursor {
    /// The time at which the pass began.
    pub start: Beats,
    /// The frames that are complete.
    pub frame: u64,
    /// The channel of the next sample within the current frame.
    pub channel: usize,
    pub channels: usize,
    pub samples_per_beat: u64,
}

/// The frame and the channel of the sample that follows `count` samples of
/// a stream of `channels` channels.
pub open spec fn place_after(channels: int, count: int) -> (int, int) {
    (count / channels, count % channels)
}

impl MixCursor {
    /// The cursor has a channel to stand on and a tempo to go by.
    pub open spec fn wf(self) -> bool {
        &&& self.channels >= 1
        &&& self.samples_per_beat >= 1
        &&& self.channel < self.channels
    }

    /// The time at which the current frame sounds.
    pub open spec fn beats(self) -> int {
        clamp_ticks(self.start@ + ticks_of(self.frame as int, self.samples_per_beat as int))
    }

    /// The samples handed out so far.
    pub open spec fn count(self) -> int {
        self.frame * self.channels + self.channel
    }

    /// A cursor at the first sample of a pass that begins at `start`, or
    /// `None` where there is no channel or no sample in a beat.
    pub fn new(start: Beats, channels: usize, samples_per_beat: u64) -> (c: Option<MixCursor>)
        ensures
            c.is_some() == (channels >= 1 && samples_per_beat >= 1),
            c matches Some(cursor) ==> cursor.wf() && cursor == (MixCursor {
                start,
                frame: 0,
                channel: 0,
                channels,
                samples_per_beat,
            }),
    {
        if channels == 0 || samples_per_beat == 0 {
            None
        } else {
            Some(MixCursor { start, frame: 0, channel: 0, channels, samples_per_beat })
        }
    }

    /// The time at which the current frame sounds.
    pub fn current_beats(&self) -> (b: Beats)
        requires
            self.wf(),
        ensures
            b@ == self.beats(),
    {
        let wide: i128 = self.frame as i128;
        assert(0 <= wide * 960 <= 0xffff_ffff_ffff_ffff * 960) by (nonlinear_arith)
            requires
                0 <= wide <= 0xffff_ffff_ffff_ffff,
        ;
        let ticks: i128 = (wide * 960) / (self.samples_per_beat as i128);
        let at: i128 = self.start.ticks as i128 + ticks;
        if at > MAX_TICKS as i128 {
            Beats::from_ticks(MAX_TICKS)
        } else {
            Beats::from_ticks(at as i64)
        }
    }

    /// True at the first sample of a frame, when every track is to be
    /// evaluated anew.
    pub fn at_frame_start(&self) -> (r: bool)
        ensures
            r == (self.channel == 0),
    {
        self.channel == 0
    }

    /// Moves to the next sample: the next channel of the frame, or the first
    /// channel of the next frame. Returns `false`, and stays, where the
    /// count of frames is exhausted.
    pub fn advance(&mut self) -> (moved: bool)
        requires
            old(self).wf(),
        ensures
            final(self).wf(),
            moved == !(old(self).channel + 1 == old(self).channels && old(self).frame == u64::MAX),
            !moved ==> *final(self) == *old(self),
            moved ==> final(self).start == old(self).start && final(self).channels == old(self).channels && final(self).samples_per_beat == old(self).samples_per_beat
                && final(self).count() == old(self).count() + 1,
            moved && old(self).channel + 1 < old(self).channels ==> final(self).frame == old(self).frame && final(self).channel == old(self).channel + 1,
            moved && old(self).channel + 1 == old(self).channels ==> final(self).frame == old(self).frame + 1 && final(self).channel == 0,
    {
        if self.channel + 1 < self.channels {
            self.channel = self.channel + 1;
            true
        } else if self.frame == u64::MAX {
            false
        } else {
            assert((self.frame + 1) * self.channels == self.frame * self.channels + self.channels)
                by (nonlinear_arith);
            self.frame = self.frame + 1;
            self.channel = 0;
            true
        }
    }
}

/// A cursor that counts `count` samples stands at frame `count / channels`
/// on channel `count % channels`: samples come frame by frame, and within a
/// frame channel by channel.
pub proof fn lemma_cursor_place(c: MixCursor)
    requires
        c.wf(),
    ensures
        place_after(c.channels as int, c.count()) == (c.frame as int, c.channel as int),
{
    let n = c.channels as int;
    let f = c.frame as int;
    let k = c.channel as int;
    assert((f * n + k) / n == f && (f * n + k) % n == k) by (nonlinear_arith)
        requires
            n >= 1,
            0 <= k < n,
            f >= 0,
    ;
}

} // verus!
