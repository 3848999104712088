//! The audio processor: what an audio element of the scene contributes, once
//! its sound file has been read.

use crate::audio::{saturate, saturated, Audio, StereoFrame, ONE};
use vstd::arithmetic::power2::{lemma2_to64, lemma_pow2_strictly_increases, lemma_pow2_unfold, pow2};
use vstd::prelude::*;

verus! {

/// The processor for audio elements.
pub struct AudioProcessor;

/// The header of a sound file.
#[derive(Clone, Copy, Debug)]
pub struct WavInfo {
    /// Samples per frame.
    pub channels: u16,
    /// Frames per second.
    pub sample_rate: u32,
    /// Bits of each sample, from 1 to 64.
    pub bits_per_sample: u16,
    /// Frames in the file.
    pub frames: u32,
}

/// The size of a picture in pixels.
#[derive(Debug, PartialEq, Eq, Structural)]
pub struct RectSize {
    pub width: u32,
    pub height: u32,
}

/// Ticks of sound that are read when nothing says how much is needed: ten
/// seconds.
pub const DEFAULT_EFFECTIVE_DURATION: u64 = 10_000_000;

/// Ticks that are read beyond what is needed: one second.
pub const READ_MARGIN: u64 = 1_000_000;

/// The length in ticks of `frames` frames at `rate` frames per second, to
/// the nearest tick, a tie going to the longer.
pub open spec fn ticks_of_frames(frames: int, rate: int) -> int {
    (2 * (frames * 1_000_000) + rate) / (2 * rate)
}

/// How many samples of a sound file are decoded: those that `needed` ticks
/// and the margin hold, over all channels, but no more than a `u32` can
/// count, nor more than the file has, which is its frames times its
/// channels.
pub open spec fn samples_wanted(info: WavInfo, needed: Option<u64>) -> int {
    let ticks = match needed {
        Some(ticks) => ticks as int,
        None => DEFAULT_EFFECTIVE_DURATION as int,
    } + READ_MARGIN;
    let held = (ticks * (info.sample_rate * info.channels)) / 1_000_000;
    let capped = if held > u32::MAX {
        u32::MAX as int
    } else {
        held
    };
    if info.frames * info.channels < capped {
        info.frames * info.channels
    } else {
        capped
    }
}

/// A sample of a file with `bits` bits to the sample, as a fixed-point
/// sample. Half the range of the file's samples stands for the amplitude 1,
/// so the sample is `sample * ONE / 2^(bits - 1)`. Where more bits come in
/// than the fixed point keeps, the sample is rounded down.
pub open spec fn fixed_point(sample: i32, bits: int) -> i32 {
    saturated((sample * (2 * ONE)) / (pow2(bits as nat) as int))
}

/// The stereo frames of interleaved samples with `channels` samples to the
/// frame.
///
/// The left channel of a frame is its first sample. The right channel is its
/// second sample, or its first again where the frame has only one: in a file
/// of one channel, and at the end of a file that stops within a frame.
pub open spec fn stereo_frames(samples: Seq<i32>, channels: int) -> Seq<StereoFrame> {
    Seq::new(
        ((samples.len() + channels - 1) / channels) as nat,
        |i: int|
            StereoFrame {
                left: samples[i * channels],
                right: if channels >= 2 && i * channels + 1 < samples.len() {
                    samples[i * channels + 1]
                } else {
                    samples[i * channels]
                },
            },
    )
}

/// One stereo frame for each of the `frames` frames of a file with
/// `channels` samples to the frame: its first sample on the left, its second
/// on the right, or its first again where it has no second, each as a
/// fixed-point sample.
pub open spec fn whole_frames(samples: Seq<i32>, frames: nat, channels: int, bits: int) -> Seq<
    StereoFrame,
> {
    Seq::new(
        frames,
        |i: int|
            StereoFrame {
                left: fixed_point(samples[i * channels], bits),
                right: fixed_point(
                    samples[i * channels + if channels >= 2 {
                        1int
                    } else {
                        0int
                    }],
                    bits,
                ),
            },
    )
}

/// A file that is decoded whole gives one stereo frame for each of its
/// frames, made of the first two channels of that frame.
pub proof fn lemma_whole_file(samples: Seq<i32>, frames: nat, channels: int, bits: int)
    requires
        channels >= 1,
        samples.len() == frames * channels,
    ensures
        stereo_frames(decoded(samples, samples.len() as int, bits), channels) == whole_frames(
            samples,
            frames,
            channels,
            bits,
        ),
{
    let all = decoded(samples, samples.len() as int, bits);
    let made = stereo_frames(all, channels);
    assert(all.len() == samples.len());
    assert((frames * channels + channels - 1) / channels == frames) by (nonlinear_arith)
        requires
            channels >= 1,
            frames >= 0,
    ;
    assert(made.len() == frames);
    assert forall|i: int| 0 <= i < frames implies made[i] == whole_frames(
        samples,
        frames,
        channels,
        bits,
    )[i] by {
        assert(0 <= i * channels && i * channels + channels <= frames * channels)
            by (nonlinear_arith)
            requires
                0 <= i < frames,
                channels >= 1,
        ;
    }
    assert(made =~= whole_frames(samples, frames, channels, bits));
}

/// The first `limit` samples, each as a fixed-point sample.
pub open spec fn decoded(samples: Seq<i32>, limit: int, bits: int) -> Seq<i32> {
    Seq::new(
        if limit < samples.len() {
            limit as nat
        } else {
            samples.len()
        },
        |i: int| fixed_point(samples[i], bits),
    )
}

impl AudioProcessor {
    /// The kind of element that this processor serves.
    pub fn name(&self) -> (name: &'static str)
        ensures
            name@ == "audio"@,
    {
        "audio"
    }

    /// The length in ticks of the sound in a file, which is the length of
    /// an audio element that states none.
    pub fn default_duration(&self, info: &WavInfo) -> (ticks: u64)
        requires
            info.sample_rate > 0,
        ensures
            ticks == ticks_of_frames(info.frames as int, info.sample_rate as int),
    {
        let scaled: u64 = info.frames as u64 * 1_000_000;
        let rate: u64 = info.sample_rate as u64;
        (2 * scaled + rate) / (2 * rate)
    }

    /// The size of the picture of an audio element: it has none.
    pub fn default_image_size(&self) -> (size: RectSize)
        ensures
            size == (RectSize { width: 0, height: 0 }),
    {
        RectSize { width: 0, height: 0 }
    }

    /// The picture of an audio element: it has none, whatever picture it is
    /// handed.
    pub fn process_image<I>(&self, image: Option<I>) -> (picture: Option<I>)
        ensures
            picture is None,
    {
        None
    }

    /// How many samples of a sound file are to be decoded when `needed`
    /// ticks of its sound are needed.
    pub fn sample_limit(&self, info: &WavInfo, needed: Option<u64>) -> (limit: u32)
        ensures
            limit == samples_wanted(*info, needed),
    {
        let ticks: u64 = match needed {
            Some(ticks) => ticks,
            None => DEFAULT_EFFECTIVE_DURATION,
        };
        assert(info.sample_rate * info.channels <= 0xffff_ffff * 0xffff) by (nonlinear_arith)
            requires
                0 <= info.sample_rate <= 0xffff_ffff,
                0 <= info.channels <= 0xffff,
        ;
        let per_second: u64 = info.sample_rate as u64 * info.channels as u64;
        let total: u128 = ticks as u128 + READ_MARGIN as u128;
        assert(total * per_second <= (0xffff_ffff_ffff_ffff + 1_000_000) * (0xffff_ffff * 0xffff))
            by (nonlinear_arith)
            requires
                0 <= total <= 0xffff_ffff_ffff_ffff + 1_000_000,
                0 <= per_second <= 0xffff_ffff * 0xffff,
        ;
        let held: u128 = (total * per_second as u128) / 1_000_000;
        let capped: u32 = if held > u32::MAX as u128 {
            u32::MAX
        } else {
            held as u32
        };
        assert(info.frames * info.channels <= 0xffff_ffff * 0xffff) by (nonlinear_arith)
            requires
                0 <= info.frames <= 0xffff_ffff,
                0 <= info.channels <= 0xffff,
        ;
        let in_file: u64 = info.frames as u64 * info.channels as u64;
        if in_file < capped as u64 {
            in_file as u32
        } else {
            capped
        }
    }

    /// The sound of an audio element, from the samples of its file.
    ///
    /// `samples` holds the samples as the file has them, frame after frame
    /// and channel after channel within a frame. As many of them as
    /// `sample_limit` says are taken, turned into fixed-point samples, and
    /// put into stereo frames.
    ///
    /// Of a file that is handed in whole and lies within what is wanted,
    /// every frame gives one stereo frame: none is lost.
    pub fn process_audio(&self, info: &WavInfo, samples: &Vec<i32>, needed: Option<u64>) -> (sound:
        Option<Audio>)
        requires
            info.channels > 0,
            1 <= info.bits_per_sample <= 64,
        ensures
            sound matches Some(audio) && audio.sampling_rate == info.sample_rate && audio.samples@
                == stereo_frames(
                decoded(samples@, samples_wanted(*info, needed), info.bits_per_sample as int),
                info.channels as int,
            ),
            samples@.len() == info.frames * info.channels && samples@.len() == samples_wanted(
                *info,
                needed,
            ) ==> (sound matches Some(audio) && audio.samples@ == whole_frames(
                samples@,
                info.frames as nat,
                info.channels as int,
                info.bits_per_sample as int,
            )),
    {
        proof {
            if samples@.len() == info.frames * info.channels && samples@.len() == samples_wanted(
                *info,
                needed,
            ) {
                lemma_whole_file(
                    samples@,
                    info.frames as nat,
                    info.channels as int,
                    info.bits_per_sample as int,
                );
            }
        }
        let limit = self.sample_limit(info, needed) as usize;
        let taken: usize = if limit < samples.len() {
            limit
        } else {
            samples.len()
        };
        let bits = info.bits_per_sample;
        let mut scaled: Vec<i32> = Vec::new();
        let mut i: usize = 0;
        while i < taken
            invariant
                i <= taken <= samples.len(),
                1 <= bits <= 64,
                bits == info.bits_per_sample,
                scaled.len() == i,
                forall|k: int|
                    0 <= k < i ==> #[trigger] scaled@[k] == fixed_point(samples@[k], bits as int),
            decreases taken - i,
        {
            scaled.push(to_fixed_point(samples[i], bits));
            i += 1;
        }
        assert(scaled@ =~= decoded(
            samples@,
            samples_wanted(*info, needed),
            info.bits_per_sample as int,
        ));
        Some(Audio { samples: to_stereo(&scaled, info.channels), sampling_rate: info.sample_rate })
    }
}

/// Two to the power of `e`.
fn power_of_two(e: u16) -> (power: i128)
    requires
        e <= 64,
    ensures
        power == pow2(e as nat),
        0 < power <= 0x1_0000_0000_0000_0000,
{
    let mut power: i128 = 1;
    let mut done: u16 = 0;
    proof {
        lemma2_to64();
    }
    while done < e
        invariant
            done <= e <= 64,
            power == pow2(done as nat),
            0 < power <= 0x1_0000_0000_0000_0000,
        decreases e - done,
    {
        proof {
            lemma_pow2_unfold((done + 1) as nat);
            lemma2_to64();
            if done + 1 < 64 {
                lemma_pow2_strictly_increases((done + 1) as nat, 64);
            }
        }
        power = power * 2;
        done += 1;
    }
    power
}

/// A sample of a file with `bits` bits to the sample, as a fixed-point
/// sample.
pub fn to_fixed_point(sample: i32, bits: u16) -> (fixed: i32)
    requires
        1 <= bits <= 64,
    ensures
        fixed == fixed_point(sample, bits as int),
{
    let divisor = power_of_two(bits);
    let scale: i128 = 2 * (ONE as i128);
    assert(-0x8000_0000 * 0x1000_0000 <= sample * scale <= 0x8000_0000 * 0x1000_0000) by (nonlinear_arith)
        requires
            -0x8000_0000 <= sample <= 0x8000_0000,
            scale == 0x1000_0000,
    ;
    let scaled: i128 = sample as i128 * scale;
    let quotient: i128 = if scaled >= 0 {
        scaled / divisor
    } else {
        let up: i128 = -scaled;
        let whole: i128 = (up + divisor - 1) / divisor;
        assert(-whole == (scaled as int) / (divisor as int)) by (nonlinear_arith)
            requires
                divisor > 0,
                up == -scaled,
                up > 0,
                whole == (up + divisor - 1) / (divisor as int),
        ;
        -whole
    };
    assert(-0x8000_0000 * 0x1000_0000 <= quotient <= 0x8000_0000 * 0x1000_0000) by (nonlinear_arith)
        requires
            divisor >= 1,
            -0x8000_0000 * 0x1000_0000 <= scaled <= 0x8000_0000 * 0x1000_0000,
            quotient == (scaled as int) / (divisor as int),
    ;
    saturate(quotient as i64)
}

/// The stereo frames of interleaved samples with `channels` samples to the
/// frame.
pub fn to_stereo(samples: &Vec<i32>, channels: u16) -> (frames: Vec<StereoFrame>)
    requires
        channels > 0,
    ensures
        frames@ == stereo_frames(samples@, channels as int),
{
    let width: usize = channels as usize;
    let whole: usize = samples.len() / width;
    let count: usize = if samples.len() % width == 0 {
        whole
    } else {
        assert(whole < samples.len()) by (nonlinear_arith)
            requires
                width >= 2,
                samples.len() % width != 0,
                whole == samples.len() / width,
        ;
        whole + 1
    };
    proof {
        lemma_frame_count(samples.len() as int, width as int, count as int);
    }
    let mut frames: Vec<StereoFrame> = Vec::new();
    let mut i: usize = 0;
    while i < count
        invariant
            width == channels,
            width > 0,
            i <= count,
            count == (samples.len() + width - 1) / (width as int),
            forall|k: int| 0 <= k < count ==> 0 <= #[trigger] (k * width) < samples.len(),
            frames.len() == i,
            forall|k: int|
                0 <= k < i ==> #[trigger] frames@[k] == stereo_frames(
                    samples@,
                    channels as int,
                )[k],
        decreases count - i,
    {
        assert(0 <= i * width < samples.len());
        let at: usize = i * width;
        let left = samples[at];
        let right = if width >= 2 && at + 1 < samples.len() {
            samples[at + 1]
        } else {
            left
        };
        frames.push(StereoFrame { left, right });
        i += 1;
    }
    assert(frames@ =~= stereo_frames(samples@, channels as int));
    frames
}

/// The number of frames, from the whole frames and what is left over, and
/// where each frame starts.
proof fn lemma_frame_count(len: int, width: int, count: int)
    requires
        width > 0,
        0 <= len,
        count == len / width + if len % width == 0 {
            0int
        } else {
            1int
        },
    ensures
        count == (len + width - 1) / width,
        forall|k: int| 0 <= k < count ==> 0 <= #[trigger] (k * width) < len,
{
    assert(count == (len + width - 1) / width) by (nonlinear_arith)
        requires
            width > 0,
            0 <= len,
            count == len / width + if len % width == 0 {
                0int
            } else {
                1int
            },
    ;
    assert forall|k: int| 0 <= k < count implies 0 <= #[trigger] (k * width) < len by {
        assert(0 <= k * width < len) by (nonlinear_arith)
            requires
                width > 0,
                0 <= len,
                0 <= k < count,
                count == len / width + if len % width == 0 {
                    0int
                } else {
                    1int
                },
        ;
    }
}

} // verus!
