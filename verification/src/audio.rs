//! Stereo audio in fixed-point samples, and the sum of a clip and a buffer.
//!
//! A sample is a signed 32-bit number with 27 bits after the point: `ONE`
//! stands for the amplitude 1, and the type has room for amplitudes up to
//! 16. Sound is expected to stay within -1 and 1, but nothing here holds it
//! there: sums are formed as they come, and only a sum that leaves the range
//! of the type stays at the end of the range that it left.

use vstd::prelude::*;

verus! {

/// The sample that stands for the amplitude 1.
pub const ONE: i32 = 0x0800_0000;

/// One sample for each of the two channels.
#[derive(Clone, Copy, Debug, PartialEq, Eq, Structural)]
pub struct StereoFrame {
    pub left: i32,
    pub right: i32,
}

/// A run of stereo frames at `sampling_rate` frames per second.
#[derive(Debug)]
pub struct Audio {
    pub samples: Vec<StereoFrame>,
    pub sampling_rate: u32,
}

/// The frame in which both channels are at rest.
pub open spec fn silence() -> StereoFrame {
    StereoFrame { left: 0, right: 0 }
}

/// `x` limited to the range of a sample.
pub open spec fn saturated(x: int) -> i32 {
    if x < i32::MIN {
        i32::MIN
    } else if x > i32::MAX {
        i32::MAX
    } else {
        x as i32
    }
}

/// The sum of two frames, channel by channel.
pub open spec fn mixed(a: StereoFrame, b: StereoFrame) -> StereoFrame {
    StereoFrame { left: saturated(a.left + b.left), right: saturated(a.right + b.right) }
}

/// `buffer` after the first `length` frames of `clip` were added to it from
/// frame `offset` on.
///
/// The buffer is first lengthened with silence to hold `offset + length`
/// frames, if it is shorter. A clip shorter than `length` is added whole.
pub open spec fn overlaid(
    buffer: Seq<StereoFrame>,
    clip: Seq<StereoFrame>,
    offset: int,
    length: int,
) -> Seq<StereoFrame> {
    let grown = if offset + length > buffer.len() {
        offset + length
    } else {
        buffer.len() as int
    };
    let copied = if length < clip.len() {
        length
    } else {
        clip.len() as int
    };
    Seq::new(
        grown as nat,
        |i: int|
            {
                let base = if i < buffer.len() {
                    buffer[i]
                } else {
                    silence()
                };
                if offset <= i < offset + copied {
                    mixed(base, clip[i - offset])
                } else {
                    base
                }
            },
    )
}

/// `buffer` cut or lengthened with silence to `length` frames.
pub open spec fn resized(buffer: Seq<StereoFrame>, length: nat) -> Seq<StereoFrame> {
    Seq::new(
        length,
        |i: int|
            if i < buffer.len() {
                buffer[i]
            } else {
                silence()
            },
    )
}

impl StereoFrame {
    /// The frame in which both channels are at rest.
    pub fn silent() -> (frame: StereoFrame)
        ensures
            frame == silence(),
    {
        StereoFrame { left: 0, right: 0 }
    }

    /// The sum of this frame and `other`, channel by channel.
    pub fn mix(self, other: StereoFrame) -> (sum: StereoFrame)
        ensures
            sum == mixed(self, other),
    {
        StereoFrame {
            left: saturate(self.left as i64 + other.left as i64),
            right: saturate(self.right as i64 + other.right as i64),
        }
    }
}

/// `x` limited to the range of a sample.
pub fn saturate(x: i64) -> (sample: i32)
    ensures
        sample == saturated(x as int),
{
    if x < i32::MIN as i64 {
        i32::MIN
    } else if x > i32::MAX as i64 {
        i32::MAX
    } else {
        x as i32
    }
}

/// Cuts `samples` or lengthens it with silence to `length` frames.
pub fn resize(samples: &mut Vec<StereoFrame>, length: usize)
    ensures
        final(samples)@ == resized(old(samples)@, length as nat),
{
    samples.resize(length, StereoFrame::silent());
    assert(samples@ =~= resized(old(samples)@, length as nat)) by {
        if length > old(samples).len() {
            assert forall|i: int| 0 <= i < length implies samples@[i] == resized(
                old(samples)@,
                length as nat,
            )[i] by {
                if i < old(samples).len() {
                    assert(samples@.subrange(0, old(samples).len() as int)[i] == old(samples)@[i]);
                }
            }
        }
    }
}

/// Adds the first `length` frames of `clip` to `samples` from frame `offset`
/// on, lengthening `samples` with silence where it is too short.
pub fn overlay(samples: &mut Vec<StereoFrame>, clip: &Vec<StereoFrame>, offset: usize, length: usize)
    requires
        offset + length <= usize::MAX,
    ensures
        final(samples)@ == overlaid(old(samples)@, clip@, offset as int, length as int),
{
    let end: usize = offset + length;
    if end > samples.len() {
        resize(samples, end);
    }
    let copied: usize = if length < clip.len() {
        length
    } else {
        clip.len()
    };
    let ghost grown = samples@;
    let mut i: usize = 0;
    while i < copied
        invariant
            i <= copied,
            copied <= length,
            copied <= clip.len(),
            offset + length <= samples.len(),
            samples.len() == grown.len(),
            forall|k: int|
                0 <= k < samples.len() ==> #[trigger] samples@[k] == if offset <= k < offset + i {
                    mixed(grown[k], clip@[k - offset])
                } else {
                    grown[k]
                },
        decreases copied - i,
    {
        let sum = samples[offset + i].mix(clip[i]);
        samples.set(offset + i, sum);
        i += 1;
    }
    assert(samples@ =~= overlaid(old(samples)@, clip@, offset as int, length as int));
}

/// What a clip placed at `offset` for `length` frames adds to frame `i` of
/// the buffer: its own frame where it sounds, silence elsewhere.
pub open spec fn clip_at(clip: Seq<StereoFrame>, offset: int, length: int, i: int) -> StereoFrame {
    if offset <= i < offset + length && i - offset < clip.len() {
        clip[i - offset]
    } else {
        silence()
    }
}

/// Frame `i` of the buffer, or silence beyond its end.
pub open spec fn frame_or_silence(buffer: Seq<StereoFrame>, i: int) -> StereoFrame {
    if 0 <= i < buffer.len() {
        buffer[i]
    } else {
        silence()
    }
}

/// Whether adding `a` and then `b` to the sample `x` gives what adding `b`
/// and then `a` gives: the two push the same way, or neither sum with `x`
/// leaves the range of a sample.
pub open spec fn order_free(x: i32, a: i32, b: i32) -> bool {
    ||| a >= 0 && b >= 0
    ||| a <= 0 && b <= 0
    ||| i32::MIN <= x + a <= i32::MAX && i32::MIN <= x + b <= i32::MAX
}

/// For one sample, `order_free` says exactly when the order of two additions
/// does not matter.
pub proof fn lemma_order_free(x: i32, a: i32, b: i32)
    ensures
        order_free(x, a, b) <==> saturated(saturated(x + a) + b) == saturated(
            saturated(x + b) + a,
        ),
{
}

/// A placed clip adds `clip_at` to every frame of the lengthened buffer.
pub proof fn lemma_overlaid_frames(
    buffer: Seq<StereoFrame>,
    clip: Seq<StereoFrame>,
    offset: int,
    length: int,
)
    requires
        0 <= offset,
        0 <= length,
    ensures
        overlaid(buffer, clip, offset, length).len() == if offset + length > buffer.len() {
            offset + length
        } else {
            buffer.len() as int
        },
        forall|i: int|
            0 <= i < overlaid(buffer, clip, offset, length).len() ==> #[trigger] overlaid(
                buffer,
                clip,
                offset,
                length,
            )[i] == mixed(frame_or_silence(buffer, i), clip_at(clip, offset, length, i)),
{
}

/// Where neither the first sum nor the second leaves the range of a sample,
/// two clips add up: every sample of the buffer is the plain sum of what the
/// buffer held and what each clip adds, however the three are grouped.
pub proof fn lemma_overlay_adds(
    buffer: Seq<StereoFrame>,
    first: Seq<StereoFrame>,
    first_offset: int,
    first_length: int,
    second: Seq<StereoFrame>,
    second_offset: int,
    second_length: int,
    i: int,
)
    requires
        0 <= first_offset,
        0 <= first_length,
        0 <= second_offset,
        0 <= second_length,
        0 <= i < overlaid(
            overlaid(buffer, first, first_offset, first_length),
            second,
            second_offset,
            second_length,
        ).len(),
        i32::MIN <= frame_or_silence(buffer, i).left + clip_at(
            first,
            first_offset,
            first_length,
            i,
        ).left <= i32::MAX,
        i32::MIN <= frame_or_silence(buffer, i).right + clip_at(
            first,
            first_offset,
            first_length,
            i,
        ).right <= i32::MAX,
        i32::MIN <= frame_or_silence(buffer, i).left + clip_at(
            first,
            first_offset,
            first_length,
            i,
        ).left + clip_at(second, second_offset, second_length, i).left <= i32::MAX,
        i32::MIN <= frame_or_silence(buffer, i).right + clip_at(
            first,
            first_offset,
            first_length,
            i,
        ).right + clip_at(second, second_offset, second_length, i).right <= i32::MAX,
    ensures
        overlaid(
            overlaid(buffer, first, first_offset, first_length),
            second,
            second_offset,
            second_length,
        )[i].left == frame_or_silence(buffer, i).left + (clip_at(
            first,
            first_offset,
            first_length,
            i,
        ).left + clip_at(second, second_offset, second_length, i).left),
        overlaid(
            overlaid(buffer, first, first_offset, first_length),
            second,
            second_offset,
            second_length,
        )[i].right == frame_or_silence(buffer, i).right + (clip_at(
            first,
            first_offset,
            first_length,
            i,
        ).right + clip_at(second, second_offset, second_length, i).right),
{
    let one = overlaid(buffer, first, first_offset, first_length);
    lemma_overlaid_frames(buffer, first, first_offset, first_length);
    lemma_overlaid_frames(one, second, second_offset, second_length);
    assert(frame_or_silence(one, i) == mixed(
        frame_or_silence(buffer, i),
        clip_at(first, first_offset, first_length, i),
    ));
}

/// Two clips can be mixed in either order: the buffer is the same after
/// both, wherever the two clips push a sample the same way or neither
/// drives it out of range on its own.
pub proof fn lemma_overlay_order(
    buffer: Seq<StereoFrame>,
    first: Seq<StereoFrame>,
    first_offset: int,
    first_length: int,
    second: Seq<StereoFrame>,
    second_offset: int,
    second_length: int,
)
    requires
        0 <= first_offset,
        0 <= first_length,
        0 <= second_offset,
        0 <= second_length,
        forall|i: int|
            0 <= i ==> order_free(
                frame_or_silence(buffer, i).left,
                #[trigger] clip_at(first, first_offset, first_length, i).left,
                clip_at(second, second_offset, second_length, i).left,
            ),
        forall|i: int|
            0 <= i ==> order_free(
                frame_or_silence(buffer, i).right,
                #[trigger] clip_at(first, first_offset, first_length, i).right,
                clip_at(second, second_offset, second_length, i).right,
            ),
    ensures
        overlaid(
            overlaid(buffer, first, first_offset, first_length),
            second,
            second_offset,
            second_length,
        ) == overlaid(
            overlaid(buffer, second, second_offset, second_length),
            first,
            first_offset,
            first_length,
        ),
{
    let one = overlaid(buffer, first, first_offset, first_length);
    let other = overlaid(buffer, second, second_offset, second_length);
    let one_two = overlaid(one, second, second_offset, second_length);
    let two_one = overlaid(other, first, first_offset, first_length);
    lemma_overlaid_frames(buffer, first, first_offset, first_length);
    lemma_overlaid_frames(buffer, second, second_offset, second_length);
    lemma_overlaid_frames(one, second, second_offset, second_length);
    lemma_overlaid_frames(other, first, first_offset, first_length);
    assert(one_two.len() == two_one.len());
    assert forall|i: int| 0 <= i < one_two.len() implies one_two[i] == two_one[i] by {
        let x = frame_or_silence(buffer, i);
        let a = clip_at(first, first_offset, first_length, i);
        let b = clip_at(second, second_offset, second_length, i);
        assert(order_free(x.left, a.left, b.left));
        assert(order_free(x.right, a.right, b.right));
        assert(frame_or_silence(one, i) == mixed(x, a));
        assert(frame_or_silence(other, i) == mixed(x, b));
        assert(one_two[i] == mixed(mixed(x, a), b));
        assert(two_one[i] == mixed(mixed(x, b), a));
        lemma_order_free(x.left, a.left, b.left);
        lemma_order_free(x.right, a.right, b.right);
    }
    assert(one_two =~= two_one);
}

} // verus!
