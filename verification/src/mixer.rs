//! The audio timeline mixer: one buffer at a fixed sampling rate, into which
//! clips are added at their places in time.

use crate::audio::{
    frame_or_silence, overlaid, overlay, resize, resized, saturate, saturated, Audio, StereoFrame,
};
use crate::time::{round_units, units_round};
use vstd::prelude::*;

verus! {

/// Mixes clips into one buffer.
///
/// A mixer starts empty, takes any number of clips through `mix_audio`, and
/// ends when `mix` hands out the buffer.
pub struct MixerImpl {
    audio: Audio,
}

/// Makes mixers.
pub struct MixingContextImpl {}

/// How a clip is to sound. The mixing context has no effect to apply, so a
/// style says nothing yet.
pub struct AudioEffectStyle {}

/// A stereo frame with room above and below the range of a sample.
pub struct WideFrame {
    pub left: i64,
    pub right: i64,
}

/// The number of frames that the sinc interpolator looks at, half of them
/// before and half of them after the instant that it computes.
pub const SINC_HISTORY: usize = 100;

/// The number of frames that `dasp`'s rate converter gives for `frames`
/// frames when it goes from `source_rate` to `target_rate` frames per
/// second. The converter steps through the input by the quotient of the two
/// rates and stops when the input is used up, so the number hangs on these
/// three alone.
pub uninterp spec fn resampled_len(frames: nat, source_rate: u32, target_rate: u32) -> nat;

/// The number of frames of a clip of `frames` frames once it is at
/// `target_rate`: its own where it is at that rate already, else what the
/// converter gives.
pub open spec fn len_at_rate(frames: nat, source_rate: u32, target_rate: u32) -> nat {
    if source_rate == target_rate {
        frames
    } else {
        resampled_len(frames, source_rate, target_rate)
    }
}

/// Converts `samples` from `source_rate` to `target_rate` frames per second
/// with `dasp`: the frames become a signal (`signal::from_iter`), a sinc
/// interpolator is set up over a ring buffer of `history` frames of silence
/// (`ring_buffer::Fixed::from`, `interpolate::sinc::Sinc::new`), and the
/// converted signal (`Signal::from_hz_to_hz`) is read to its end
/// (`Signal::until_exhausted`).
///
/// Claimed is that the call returns, and how many frames come out: the
/// converter decides when to take the next input frame and when to stop by
/// adding the quotient of the rates, subtracting 1 and comparing with 1, so
/// the number is the same for the same input length and rates. Nothing is
/// claimed of the frames themselves: the interpolator goes through the sine
/// and cosine of the platform, whose last bits are not fixed.
///
/// A rate of 0 is left out, with which the converter panics or does not
/// end; the ring buffer has an even length, as the interpolator asks. The
/// frames are handed over as 64-bit samples, because `dasp` adds samples
/// without looking for overflow: each sample that comes out is a sum of at
/// most `history` samples that went in, each weighted by no more than 1,
/// which 64 bits hold.
#[verifier::external_body]
fn sinc_resample(samples: &Vec<StereoFrame>, history: usize, source_rate: u32, target_rate: u32) -> (out:
    Vec<WideFrame>)
    requires
        history == SINC_HISTORY,
        source_rate > 0,
        target_rate > 0,
    ensures
        out@.len() == resampled_len(samples@.len(), source_rate, target_rate),
{
    let source = dasp::signal::from_iter(
        samples.iter().map(|f| [i64::from(f.left), i64::from(f.right)]),
    );
    let silence = dasp::ring_buffer::Fixed::from(vec![[0i64; 2]; history]);
    let sinc = dasp::interpolate::sinc::Sinc::new(silence);
    let converted = dasp::Signal::from_hz_to_hz(
        source,
        sinc,
        source_rate.into(),
        target_rate.into(),
    );
    dasp::Signal::until_exhausted(converted).map(|f| WideFrame { left: f[0], right: f[1] }).collect()
}

/// The frames of `wide`, each channel limited to the range of a sample.
pub open spec fn narrowed(wide: Seq<WideFrame>) -> Seq<StereoFrame> {
    wide.map_values(
        |w: WideFrame|
            StereoFrame { left: saturated(w.left as int), right: saturated(w.right as int) },
    )
}

/// Limits each channel of each frame to the range of a sample.
pub fn narrow(wide: &Vec<WideFrame>) -> (frames: Vec<StereoFrame>)
    ensures
        frames@ == narrowed(wide@),
{
    let mut frames: Vec<StereoFrame> = Vec::new();
    let mut i: usize = 0;
    while i < wide.len()
        invariant
            i <= wide.len(),
            frames@ == narrowed(wide@.subrange(0, i as int)),
        decreases wide.len() - i,
    {
        frames.push(StereoFrame { left: saturate(wide[i].left), right: saturate(wide[i].right) });
        assert(frames@ =~= narrowed(wide@.subrange(0, i + 1)));
        i += 1;
    }
    assert(wide@.subrange(0, wide.len() as int) =~= wide@);
    frames
}

/// The frames of `audio` at `target_rate` frames per second.
///
/// Audio that is at the target rate already is handed back as it is: no
/// interpolation takes place. Other audio is converted by sinc
/// interpolation from its own rate to the target rate, which gives as many
/// frames as the converter makes of that many frames at these rates.
pub fn at_rate(audio: Audio, target_rate: u32) -> (frames: Vec<StereoFrame>)
    requires
        audio.sampling_rate != target_rate ==> audio.sampling_rate > 0 && target_rate > 0,
    ensures
        audio.sampling_rate == target_rate ==> frames@ == audio.samples@,
        audio.sampling_rate != target_rate ==> frames@.len() == resampled_len(
            audio.samples@.len(),
            audio.sampling_rate,
            target_rate,
        ),
        frames@.len() == len_at_rate(audio.samples@.len(), audio.sampling_rate, target_rate),
{
    if audio.sampling_rate == target_rate {
        audio.samples
    } else {
        let wide = sinc_resample(&audio.samples, SINC_HISTORY, audio.sampling_rate, target_rate);
        narrow(&wide)
    }
}

impl MixerImpl {
    /// The frames mixed so far.
    pub closed spec fn samples(&self) -> Seq<StereoFrame> {
        self.audio.samples@
    }

    /// The sampling rate of the buffer, in frames per second.
    pub closed spec fn sampling_rate(&self) -> u32 {
        self.audio.sampling_rate
    }

    /// The sampling rate of the buffer, in frames per second.
    pub fn rate(&self) -> (rate: u32)
        ensures
            rate == self.sampling_rate(),
    {
        self.audio.sampling_rate
    }

    /// The frames mixed so far.
    pub fn frames(&self) -> (frames: &Vec<StereoFrame>)
        ensures
            frames@ == self.samples(),
    {
        &self.audio.samples
    }

    /// The frame of the buffer nearest to the instant `ticks`.
    pub open spec fn frame_at(&self, ticks: u64) -> int {
        units_round(ticks as int, self.sampling_rate() as int)
    }

    /// Whether a clip of `duration` ticks at `offset_time` ticks ends at a
    /// frame that a `usize` can count.
    pub fn has_room(&self, offset_time: u64, duration: u64) -> (room: bool)
        ensures
            room == (self.frame_at(offset_time) + self.frame_at(duration) <= usize::MAX),
    {
        let first = round_units(offset_time, self.audio.sampling_rate);
        let length = round_units(duration, self.audio.sampling_rate);
        proof {
            crate::time::lemma_round_bound(offset_time, self.audio.sampling_rate);
            crate::time::lemma_round_bound(duration, self.audio.sampling_rate);
        }
        first + length <= usize::MAX as u128
    }

    /// Adds frames at the rate of the buffer to it, to sound from
    /// `offset_time` ticks on for `duration` ticks.
    ///
    /// Both times are rounded to the nearest frame. The buffer is lengthened
    /// with silence to the end of that time if it is shorter; then the
    /// frames, as far as they fall into that time, are added to what the
    /// buffer holds there.
    pub fn overlay(&mut self, frames: &Vec<StereoFrame>, offset_time: u64, duration: u64)
        requires
            old(self).frame_at(offset_time) + old(self).frame_at(duration) <= usize::MAX,
        ensures
            final(self).sampling_rate() == old(self).sampling_rate(),
            final(self).samples() == overlaid(
                old(self).samples(),
                frames@,
                old(self).frame_at(offset_time),
                old(self).frame_at(duration),
            ),
    {
        let rate = self.audio.sampling_rate;
        let first = round_units(offset_time, rate) as usize;
        let length = round_units(duration, rate) as usize;
        overlay(&mut self.audio.samples, frames, first, length);
    }

    /// Adds a clip to the buffer, to sound from `offset_time` ticks on for
    /// `duration` ticks.
    ///
    /// The clip is first brought to the sampling rate of the buffer, and
    /// then added as `overlay` says.
    ///
    /// Of a clip at another rate, what is added is what the conversion made
    /// of it: a clip of as many frames as the converter gives. Of its frames
    /// nothing is known, so the buffer is then known outside the clip's time
    /// only.
    pub fn mix_audio(&mut self, audio: Audio, offset_time: u64, duration: u64)
        requires
            audio.sampling_rate != old(self).sampling_rate() ==> audio.sampling_rate > 0 && old(
                self,
            ).sampling_rate() > 0,
            old(self).frame_at(offset_time) + old(self).frame_at(duration) <= usize::MAX,
        ensures
            final(self).sampling_rate() == old(self).sampling_rate(),
            audio.sampling_rate == old(self).sampling_rate() ==> final(self).samples() == overlaid(
                old(self).samples(),
                audio.samples@,
                old(self).frame_at(offset_time),
                old(self).frame_at(duration),
            ),
            exists|clip: Seq<StereoFrame>|
                clip.len() == len_at_rate(
                    audio.samples@.len(),
                    audio.sampling_rate,
                    old(self).sampling_rate(),
                ) && final(self).samples() == #[trigger] overlaid(
                    old(self).samples(),
                    clip,
                    old(self).frame_at(offset_time),
                    old(self).frame_at(duration),
                ),
            final(self).samples().len() == if old(self).frame_at(offset_time) + old(self).frame_at(
                duration,
            ) > old(self).samples().len() {
                old(self).frame_at(offset_time) + old(self).frame_at(duration)
            } else {
                old(self).samples().len() as int
            },
            forall|i: int|
                0 <= i < final(self).samples().len() && !(old(self).frame_at(offset_time) <= i
                    < old(self).frame_at(offset_time) + old(self).frame_at(duration))
                    ==> #[trigger] final(self).samples()[i] == frame_or_silence(
                    old(self).samples(),
                    i,
                ),
    {
        let clip = at_rate(audio, self.audio.sampling_rate);
        self.overlay(&clip, offset_time, duration);
        assert(self.samples() == overlaid(
            old(self).samples(),
            clip@,
            old(self).frame_at(offset_time),
            old(self).frame_at(duration),
        ));
    }

    /// Ends the mixing: the buffer, cut or lengthened with silence to the
    /// `duration` ticks of the program, rounded to the nearest frame.
    pub fn mix(self, duration: u64) -> (audio: Audio)
        requires
            self.frame_at(duration) <= usize::MAX,
        ensures
            audio.sampling_rate == self.sampling_rate(),
            audio.samples@ == resized(self.samples(), self.frame_at(duration) as nat),
            audio.samples@.len() == self.frame_at(duration),
    {
        let mut audio = self.audio;
        let length = round_units(duration, audio.sampling_rate) as usize;
        resize(&mut audio.samples, length);
        audio
    }
}

impl MixingContextImpl {
    /// A mixing context.
    pub fn new() -> (context: MixingContextImpl)
        ensures
            context == (MixingContextImpl {  }),
    {
        MixingContextImpl {  }
    }

    /// An empty mixer whose buffer has `sampling_rate` frames per second.
    pub fn create_mixer(&mut self, sampling_rate: u32) -> (mixer: MixerImpl)
        ensures
            mixer.samples() == Seq::<StereoFrame>::empty(),
            mixer.sampling_rate() == sampling_rate,
            *final(self) == *old(self),
    {
        MixerImpl { audio: Audio { samples: Vec::new(), sampling_rate } }
    }

    /// Applies a style to a clip. No style has an effect: the clip comes
    /// back as it was.
    pub fn apply_style(&mut self, audio: Audio, style: AudioEffectStyle) -> (styled: Audio)
        ensures
            styled == audio,
            *final(self) == *old(self),
    {
        audio
    }
}

impl Default for MixingContextImpl {
    fn default() -> (context: MixingContextImpl)
        ensures
            context == (MixingContextImpl {  }),
    {
        MixingContextImpl::new()
    }
}

} // verus!
