//! The encoder's plan: how each video frame gets its image, what the audio
//! track holds, and how the muxer is called.
//!
//! Nothing here draws, reads or writes. The caller decodes the clips, hands
//! them in, and carries out what the plan says.

use crate::activity::{active_set, calculate_frame_changes};
use crate::audio::{overlaid, resized, Audio, StereoFrame};
use crate::cache::{plan_frames, planned_action, sets_of, FrameAction};
use crate::mixer::{len_at_rate, MixingContextImpl};
use crate::scene::{spans_of, ElementSpan, Scene, Span};
use crate::text::{append_decimal, decimal, decimal_text};
use crate::time::{lemma_round_bound, round_units, units_round};
use vstd::prelude::*;
use vstd::string::StringExecFns;

verus! {

/// The tick from which the clip of an element sounds: the start of the
/// element, or the start of the program for an element that starts before
/// it.
pub open spec fn clip_offset(span: Span) -> int {
    if span.start < 0 {
        0
    } else {
        span.start
    }
}

/// The first frame of the audio track in which the clip of an element
/// sounds.
pub open spec fn clip_first(span: Span, rate: u32) -> int {
    units_round(clip_offset(span), rate as int)
}

/// The number of frames of the audio track for which the clip of an element
/// sounds.
pub open spec fn clip_length(span: Span, rate: u32) -> int {
    units_round(span.duration, rate as int)
}

/// The frames of each clip, where there is one.
pub open spec fn clip_frames(clips: Seq<Option<Audio>>) -> Seq<Option<Seq<StereoFrame>>> {
    clips.map_values(
        |clip: Option<Audio>|
            match clip {
                Some(audio) => Some(audio.samples@),
                None => None,
            },
    )
}

/// The audio track after the clips of the first `n` elements were mixed
/// into it, in document order. `heard` holds each clip at the rate of the
/// track.
pub open spec fn timeline(
    spans: Seq<Span>,
    heard: Seq<Option<Seq<StereoFrame>>>,
    rate: u32,
    n: nat,
) -> Seq<StereoFrame>
    decreases n,
{
    if n == 0 {
        Seq::empty()
    } else {
        let before = timeline(spans, heard, rate, (n - 1) as nat);
        match heard[n - 1] {
            Some(clip) => overlaid(
                before,
                clip,
                clip_first(spans[n - 1], rate),
                clip_length(spans[n - 1], rate),
            ),
            None => before,
        }
    }
}

/// Whether the clips can be mixed into the audio track of the scene: there
/// is one entry for each element; where a clip has to be converted to the
/// rate of the track, neither rate is 0; and a `usize` can count the frames
/// up to the end of each clip and of the program.
pub open spec fn mixable(scene: Scene, clips: Seq<Option<Audio>>) -> bool {
    &&& clips.len() == scene.spans().len()
    &&& units_round(scene.duration(), scene.sampling_rate as int) <= usize::MAX
    &&& forall|i: int|
        0 <= i < clips.len() ==> (#[trigger] clips[i] matches Some(audio) ==> {
            &&& clip_first(scene.spans()[i], scene.sampling_rate) + clip_length(
                scene.spans()[i],
                scene.sampling_rate,
            ) <= usize::MAX
            &&& audio.sampling_rate != scene.sampling_rate ==> audio.sampling_rate > 0
                && scene.sampling_rate > 0
        })
}

/// Whether `heard` is what is heard at `rate` of a clip, if there is one. A
/// clip at that rate is heard as it is. What is heard of a clip at another
/// rate is what the conversion made of it: as many frames as the converter
/// gives for the clip's frames and the two rates, of which no more is
/// known.
pub open spec fn heard_clip(clip: Option<Audio>, heard: Option<Seq<StereoFrame>>, rate: u32) -> bool {
    match clip {
        None => heard is None,
        Some(audio) => {
            &&& heard matches Some(frames)
            &&& frames.len() == len_at_rate(audio.samples@.len(), audio.sampling_rate, rate)
            &&& audio.sampling_rate == rate ==> frames == audio.samples@
        },
    }
}

/// Whether `heard` holds what is heard at `rate` of each of `clips`.
pub open spec fn heard_as(
    clips: Seq<Option<Audio>>,
    heard: Seq<Option<Seq<StereoFrame>>>,
    rate: u32,
) -> bool {
    &&& heard.len() == clips.len()
    &&& forall|i: int| 0 <= i < clips.len() ==> heard_clip(clips[i], #[trigger] heard[i], rate)
}

/// Whether `track` is the audio track of the scene with these clips: it
/// has the rate of the scene and the length of the program, and holds the
/// timeline of the clips as they are heard at the rate of the scene.
pub open spec fn is_track(scene: Scene, clips: Seq<Option<Audio>>, track: Audio) -> bool {
    &&& track.sampling_rate == scene.sampling_rate
    &&& track.samples@.len() == units_round(scene.duration(), scene.sampling_rate as int)
    &&& exists|heard: Seq<Option<Seq<StereoFrame>>>|
        {
            &&& heard_as(clips, heard, scene.sampling_rate)
            &&& track.samples@ == resized(
                #[trigger] timeline(scene.spans(), heard, scene.sampling_rate, clips.len() as nat),
                units_round(scene.duration(), scene.sampling_rate as int) as nat,
            )
        }
}

/// Where every clip is at the rate of the track, the track is the timeline
/// of the clips as they are, at the length of the program.
pub proof fn lemma_track_of_clips_at_rate(scene: Scene, clips: Seq<Option<Audio>>, track: Audio)
    requires
        is_track(scene, clips, track),
        forall|i: int|
            0 <= i < clips.len() ==> (#[trigger] clips[i] matches Some(audio)
                ==> audio.sampling_rate == scene.sampling_rate),
    ensures
        track.samples@ == resized(
            timeline(scene.spans(), clip_frames(clips), scene.sampling_rate, clips.len() as nat),
            units_round(scene.duration(), scene.sampling_rate as int) as nat,
        ),
{
    let heard = choose|heard: Seq<Option<Seq<StereoFrame>>>|
        {
            &&& heard_as(clips, heard, scene.sampling_rate)
            &&& track.samples@ == resized(
                #[trigger] timeline(scene.spans(), heard, scene.sampling_rate, clips.len() as nat),
                units_round(scene.duration(), scene.sampling_rate as int) as nat,
            )
        };
    assert forall|i: int| 0 <= i < clips.len() implies heard[i] == clip_frames(clips)[i] by {
        assert(heard_clip(clips[i], heard[i], scene.sampling_rate));
    }
    assert(heard =~= clip_frames(clips));
}

/// The activity sets of the frames of the scene.
pub open spec fn scene_activity(scene: Scene) -> Seq<Set<usize>> {
    Seq::new(
        scene.frame_count() as nat,
        |frame: int| active_set(scene.spans(), scene.fps as int, frame),
    )
}

/// The tick from which the clip of an element sounds.
fn offset_of(element: &ElementSpan) -> (ticks: u64)
    ensures
        ticks == clip_offset(element@),
{
    if element.start < 0 {
        0
    } else {
        element.start as u64
    }
}

/// Whether the clips can be mixed into the audio track of the scene.
pub fn check_mixable(scene: &Scene, clips: &Vec<Option<Audio>>) -> (ok: bool)
    requires
        scene.wf(),
    ensures
        ok == mixable(*scene, clips@),
{
    let elements = scene.elements();
    let rate = scene.sampling_rate;
    let ghost spans = scene.spans();
    assert(spans.len() == elements.len());
    if clips.len() != elements.len() {
        return false;
    }
    if round_units(scene.length(), rate) > usize::MAX as u128 {
        return false;
    }
    let mut i: usize = 0;
    while i < clips.len()
        invariant
            i <= clips.len(),
            clips.len() == elements.len(),
            spans == spans_of(elements@),
            spans == scene.spans(),
            rate == scene.sampling_rate,
            spans.len() == elements.len(),
            forall|k: int|
                0 <= k < i ==> (#[trigger] clips@[k] matches Some(audio) ==> {
                    &&& clip_first(spans[k], rate) + clip_length(spans[k], rate) <= usize::MAX
                    &&& audio.sampling_rate != rate ==> audio.sampling_rate > 0 && rate > 0
                }),
        decreases clips.len() - i,
    {
        assert(spans[i as int] == elements@[i as int]@);
        match &clips[i] {
            Some(audio) => {
                let offset = offset_of(&elements[i]);
                let duration = elements[i].duration;
                let first = round_units(offset, rate);
                let length = round_units(duration, rate);
                proof {
                    lemma_round_bound(offset, rate);
                    lemma_round_bound(duration, rate);
                }
                if first + length > usize::MAX as u128 {
                    assert(clips@[i as int] == Some(*audio));
                    return false;
                }
                if audio.sampling_rate != rate && (audio.sampling_rate == 0 || rate == 0) {
                    assert(clips@[i as int] == Some(*audio));
                    return false;
                }
            },
            None => {},
        }
        i += 1;
    }
    true
}

/// The audio track of the scene: the clips of its elements, mixed in
/// document order at the places of their elements, cut or lengthened with
/// silence to the length of the program.
///
/// `clips` holds, for each element in document order, its sound or `None`.
/// A clip at the rate of the track is mixed as it is; of a clip at another
/// rate, what the conversion made of it.
pub fn mix_timeline(scene: &Scene, clips: Vec<Option<Audio>>) -> (track: Audio)
    requires
        scene.wf(),
        mixable(*scene, clips@),
    ensures
        is_track(*scene, clips@, track),
{
    let elements = scene.elements();
    let rate = scene.sampling_rate;
    let ghost spans = scene.spans();
    let ghost all = clips@;
    assert(spans.len() == elements.len());
    let mut context = MixingContextImpl::new();
    let mut mixer = context.create_mixer(rate);
    let ghost mut heard: Seq<Option<Seq<StereoFrame>>> = Seq::empty();
    let mut k: usize = 0;
    for clip in it: clips
        invariant
            k == it.index(),
            it.seq() == all,
            all.len() == elements.len(),
            spans == spans_of(elements@),
            spans.len() == elements.len(),
            mixable(*scene, all),
            spans == scene.spans(),
            rate == scene.sampling_rate,
            mixer.sampling_rate() == rate,
            heard.len() == it.index(),
            forall|i: int| 0 <= i < it.index() ==> heard_clip(all[i], #[trigger] heard[i], rate),
            mixer.samples() == timeline(spans, heard, rate, it.index() as nat),
    {
        let ghost before = mixer.samples();
        let ghost old_heard = heard;
        assert(all[k as int] == clip);
        assert(spans[k as int] == elements@[k as int]@);
        match clip {
            Some(audio) => {
                let ghost same = audio.sampling_rate == rate;
                let ghost frames = audio.samples@;
                let ghost source_rate = audio.sampling_rate;
                let offset = offset_of(&elements[k]);
                let duration = elements[k].duration;
                mixer.mix_audio(audio, offset, duration);
                proof {
                    let first = clip_first(spans[k as int], rate);
                    let length = clip_length(spans[k as int], rate);
                    let made = if same {
                        frames
                    } else {
                        choose|c: Seq<StereoFrame>|
                            c.len() == len_at_rate(frames.len(), source_rate, rate)
                                && mixer.samples() == #[trigger] overlaid(before, c, first, length)
                    };
                    heard = heard.push(Some(made));
                    assert(heard_clip(all[k as int], heard[k as int], rate));
                }
            },
            None => {
                proof {
                    heard = heard.push(None);
                }
            },
        }
        proof {
            lemma_timeline_prefix(spans, old_heard, heard, rate, k as nat);
        }
        k += 1;
    }
    proof {
        assert(heard_as(all, heard, rate));
    }
    let track = mixer.mix(scene.length());
    assert(track.samples@ == resized(
        timeline(scene.spans(), heard, scene.sampling_rate, all.len() as nat),
        units_round(scene.duration(), scene.sampling_rate as int) as nat,
    ));
    track
}

/// What the encoder is to do: for each video frame, how it gets its image,
/// and the audio track.
#[derive(Debug)]
pub struct EncodePlan {
    pub frames: Vec<FrameAction>,
    pub audio: Audio,
}

/// Plans the encoding of a scene.
///
/// Every frame whose active elements are those of the frame before it
/// reuses that frame's image, and every other frame is rendered. The audio
/// track is the timeline of the clips.
pub fn encode(scene: &Scene, clips: Vec<Option<Audio>>) -> (plan: EncodePlan)
    requires
        scene.renderable(),
        mixable(*scene, clips@),
    ensures
        plan.frames.len() == scene.frame_count(),
        forall|frame: int|
            0 <= frame < plan.frames.len() ==> #[trigger] plan.frames@[frame] == planned_action(
                scene_activity(*scene),
                frame,
            ),
        is_track(*scene, clips@, plan.audio),
{
    let activity = calculate_frame_changes(scene);
    let frames = plan_frames(&activity);
    assert(sets_of(activity@) =~= scene_activity(*scene));
    let audio = mix_timeline(scene, clips);
    EncodePlan { frames, audio }
}

/// The samples of a track in the order in which a sound file holds them:
/// frame after frame, the left channel before the right.
pub open spec fn interleaved(frames: Seq<StereoFrame>) -> Seq<i32> {
    Seq::new(
        2 * frames.len(),
        |i: int|
            if i % 2 == 0 {
                frames[i / 2].left
            } else {
                frames[i / 2].right
            },
    )
}

/// The samples of a track in the order in which a sound file holds them.
pub fn interleave(track: &Audio) -> (samples: Vec<i32>)
    ensures
        samples@ == interleaved(track.samples@),
{
    let mut samples: Vec<i32> = Vec::new();
    let mut i: usize = 0;
    while i < track.samples.len()
        invariant
            i <= track.samples.len(),
            samples.len() == 2 * i,
            forall|k: int|
                0 <= k < 2 * i ==> #[trigger] samples@[k] == interleaved(track.samples@)[k],
        decreases track.samples.len() - i,
    {
        samples.push(track.samples[i].left);
        samples.push(track.samples[i].right);
        i += 1;
    }
    assert(samples@ =~= interleaved(track.samples@));
    samples
}

/// The name of the image file of video frame `index`.
pub open spec fn frame_file(index: u32) -> Seq<char> {
    "frame_"@ + decimal(index as nat) + ".png"@
}

/// The name of the image file of video frame `index`.
pub fn frame_file_name(index: u32) -> (name: String)
    ensures
        name@ == frame_file(index),
{
    let mut name = String::from_str("frame_");
    append_decimal(&mut name, index as u64);
    name.append(".png");
    name
}

/// The pattern by which the muxer finds the image files.
pub fn frame_file_pattern() -> (pattern: &'static str)
    ensures
        pattern@ == "frame_%d.png"@,
{
    "frame_%d.png"
}

/// The name of the file of the audio track.
pub fn audio_file_name() -> (name: &'static str)
    ensures
        name@ == "audio.wav"@,
{
    "audio.wav"
}

/// The name of the output file where the caller names none.
pub fn default_output_name() -> (name: &'static str)
    ensures
        name@ == "output.mp4"@,
{
    "output.mp4"
}

/// The arguments with which the muxer is called.
pub open spec fn mux_command(
    fps: u32,
    frames: Seq<char>,
    audio: Seq<char>,
    output: Seq<char>,
    overwrite: bool,
) -> Seq<Seq<char>> {
    (if overwrite {
        seq!["-y"@]
    } else {
        Seq::<Seq<char>>::empty()
    }) + seq![
        "-r"@,
        decimal(fps as nat),
        "-i"@,
        frames,
        "-i"@,
        audio,
        "-c:v"@,
        "h264_nvenc"@,
        "-c:a"@,
        "aac"@,
        "-shortest"@,
        "-pix_fmt"@,
        "yuv420p"@,
        output,
    ]
}

/// The texts of a list of strings.
pub open spec fn texts_of(strings: Seq<String>) -> Seq<Seq<char>> {
    strings.map_values(|s: String| s@)
}

/// The arguments with which the muxer is called: the overwrite flag if
/// asked for, the frame rate, the image files and the audio file as inputs,
/// the codecs for video and audio, the flag that ends the output with the
/// shorter input, the pixel format, and the output file.
pub fn mux_arguments(fps: u32, frames: &str, audio: &str, output: &str, overwrite: bool) -> (args:
    Vec<String>)
    ensures
        texts_of(args@) == mux_command(fps, frames@, audio@, output@, overwrite),
{
    let mut args: Vec<String> = Vec::new();
    if overwrite {
        args.push(String::from_str("-y"));
    }
    args.push(String::from_str("-r"));
    args.push(decimal_text(fps as u64));
    args.push(String::from_str("-i"));
    args.push(String::from_str(frames));
    args.push(String::from_str("-i"));
    args.push(String::from_str(audio));
    args.push(String::from_str("-c:v"));
    args.push(String::from_str("h264_nvenc"));
    args.push(String::from_str("-c:a"));
    args.push(String::from_str("aac"));
    args.push(String::from_str("-shortest"));
    args.push(String::from_str("-pix_fmt"));
    args.push(String::from_str("yuv420p"));
    args.push(String::from_str(output));
    assert(texts_of(args@) =~= mux_command(fps, frames@, audio@, output@, overwrite));
    args
}

/// The timeline of the first `n` elements looks at their clips only.
pub proof fn lemma_timeline_prefix(
    spans: Seq<Span>,
    heard: Seq<Option<Seq<StereoFrame>>>,
    longer: Seq<Option<Seq<StereoFrame>>>,
    rate: u32,
    n: nat,
)
    requires
        n <= heard.len() <= longer.len(),
        forall|i: int| 0 <= i < heard.len() ==> heard[i] == longer[i],
    ensures
        timeline(spans, heard, rate, n) == timeline(spans, longer, rate, n),
    decreases n,
{
    if n > 0 {
        lemma_timeline_prefix(spans, heard, longer, rate, (n - 1) as nat);
    }
}

} // verus!
