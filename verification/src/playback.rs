//! Playback: whether a new mix pass is due or the last one can be played
//! again, and the order in which cached samples go to the player.

use vstd::prelude::*;
use crate::actor::{MixerCommand, MixerResult};
use crate::time::Beats;

verus! {

/// The sample rate at which the player is opened, in hertz.
pub const PLAYER_SAMPLE_RATE: u32 = 48_000;

/// The number of channels with which the player is opened.
pub const PLAYER_CHANNELS: usize = 2;

/// How a request to play is carried out.
pub enum PlaybackPlan {
    /// Send the command to the mixer actor, which starts a mix pass.
    Mix(MixerCommand),
    /// Send the samples of the last mix pass to the player again.
    ReplayCache,
}

/// The question to put to the mixer actor before playing: whether the
/// project changed, where a mix pass is cached; none where none is.
pub fn mix_query(has_cache: bool) -> (c: Option<MixerCommand>)
    ensures
        c == if has_cache {
            Some(MixerCommand::DoesNeedMix)
        } else {
            None
        },
{
    if has_cache {
        Some(MixerCommand::DoesNeedMix)
    } else {
        None
    }
}

/// What the actor's answer to `DoesNeedMix` means: a mix is needed where the
/// answer says so, and where it is an answer to something else; none where
/// no answer came.
pub open spec fn answer_needs_mix(reply: Option<MixerResult>) -> bool {
    match reply {
        None => false,
        Some(MixerResult::NeedsMix(need)) => need,
        Some(_) => true,
    }
}

/// Whether a new mix pass is due: always where none is cached, otherwise as
/// the actor's answer says.
pub open spec fn mix_is_due(has_cache: bool, reply: Option<MixerResult>) -> bool {
    !has_cache || answer_needs_mix(reply)
}

/// How to play from `at` on. `has_cache` says whether the samples of a mix
/// pass are cached; `reply` is the actor's answer to the question of
/// `mix_query`, or `None` where none was put or no answer came.
pub fn play_audio(at: Beats, has_cache: bool, reply: Option<MixerResult>) -> (plan: PlaybackPlan)
    ensures
        mix_is_due(has_cache, reply) ==> (plan matches PlaybackPlan::Mix(c) && c
            == MixerCommand::Mix(at)),
        !mix_is_due(has_cache, reply) ==> plan is ReplayCache,
{
    let needs_mix = if has_cache {
        match reply {
            None => false,
            Some(MixerResult::NeedsMix(need)) => need,
            Some(_) => true,
        }
    } else {
        true
    };
    if needs_mix {
        PlaybackPlan::Mix(MixerCommand::Mix(at))
    } else {
        PlaybackPlan::ReplayCache
    }
}

/// The command that ends the mix pass under way.
pub fn pause_audio() -> (c: MixerCommand)
    ensures
        c == MixerCommand::StopMixing,
{
    MixerCommand::StopMixing
}

/// Each of the first `channels` rows of `data` holds at least `samples`
/// items.
pub open spec fn holds_frames<T>(data: Seq<Vec<T>>, samples: int) -> bool {
    forall|c: int| 0 <= c < data.len() ==> (#[trigger] data[c])@.len() >= samples
}

/// The first `samples` samples of each channel of `data` in the order in
/// which the player takes them: frame by frame, and within a frame channel by
/// channel.
pub fn interleave<T: Copy>(data: &Vec<Vec<T>>, samples: usize) -> (out: Vec<T>)
    requires
        holds_frames(data@, samples as int),
    ensures
        out@.len() == samples * data@.len(),
        forall|f: int, c: int|
            0 <= f < samples && 0 <= c < data@.len() ==> out@[f * data@.len() + c] == data@[c]@[f],
{
    let channels = data.len();
    let mut out: Vec<T> = Vec::new();
    let mut f: usize = 0;
    while f < samples
        invariant
            f <= samples,
            channels == data@.len(),
            holds_frames(data@, samples as int),
            out@.len() == f * channels,
            forall|g: int, c: int|
                0 <= g < f && 0 <= c < channels ==> out@[g * channels + c] == data@[c]@[g],
        decreases samples - f,
    {
        let mut c: usize = 0;
        while c < channels
            invariant
                f < samples,
                c <= channels,
                channels == data@.len(),
                holds_frames(data@, samples as int),
                out@.len() == f * channels + c,
                forall|g: int, d: int|
                    0 <= g < f && 0 <= d < channels ==> out@[g * channels + d] == data@[d]@[g],
                forall|d: int| 0 <= d < c ==> out@[f * channels + d] == data@[d]@[f as int],
            decreases channels - c,
        {
            let ghost before = out@;
            assert(data@[c as int]@.len() >= samples);
            out.push(data[c][f]);
            proof {
                assert forall|g: int, d: int| 0 <= g < f && 0 <= d < channels implies out@[g
                    * channels + d] == data@[d]@[g] by {
                    assert(g * channels + d < f * channels) by (nonlinear_arith)
                        requires
                            0 <= g < f,
                            0 <= d < channels,
                    ;
                    assert(before[g * channels + d] == data@[d]@[g]);
                }
                assert forall|d: int| 0 <= d < c + 1 implies out@[f * channels + d] == data@[d]@[f as int] by {
                    if d < c {
                        assert(before[f * channels + d] == data@[d]@[f as int]);
                    }
                }
            }
            c += 1;
        }
        proof {
            assert((f + 1) * channels == f * channels + channels) by (nonlinear_arith);
            assert forall|g: int, d: int| 0 <= g < f + 1 && 0 <= d < channels implies out@[g
                * channels + d] == data@[d]@[g] by {
                if g == f {
                }
            }
        }
        f += 1;
    }
    out
}

} // verus!
