use vsml_pipeline::audio::{Audio, StereoFrame};
use vsml_pipeline::cache::FrameAction::{Render, Reuse};
use vsml_pipeline::encoder::{
    audio_file_name, check_mixable, default_output_name, encode, frame_file_name,
    frame_file_pattern, interleave, mix_timeline, mux_arguments,
};
use vsml_pipeline::scene::{Scene, SceneNode};
use vsml_pipeline::text::{append_decimal, decimal_text};

fn element(start: i64, duration: u64, children: Vec<SceneNode>) -> SceneNode {
    SceneNode::Element { start, duration, children }
}

fn frame(left: i32, right: i32) -> StereoFrame {
    StereoFrame { left, right }
}

fn clip(rate: u32, levels: &[i32]) -> Option<Audio> {
    Some(Audio { samples: levels.iter().map(|l| frame(*l, -*l)).collect(), sampling_rate: rate })
}

const SILENT: StereoFrame = StereoFrame { left: 0, right: 0 };

/// A program of one second at 10 frames and 10 audio frames a second with
/// three elements below the root.
fn small_scene() -> Scene {
    let root = element(
        0,
        1_000_000,
        vec![
            element(200_000, 300_000, vec![element(100_000, 400_000, vec![])]),
            element(-200_000, 400_000, vec![]),
        ],
    );
    Scene::new(root, 10, 10, 64, 48).unwrap()
}

#[test]
fn clips_sound_where_their_elements_are() {
    let scene = small_scene();
    let clips = vec![None, clip(10, &[1, 2, 3, 4, 5]), clip(10, &[10, 20]), clip(10, &[100, 200, 300, 400, 500, 600])];
    assert!(check_mixable(&scene, &clips));
    let track = mix_timeline(&scene, clips);
    assert_eq!(track.sampling_rate, 10);
    // element 1 sounds in frames 2 to 4, element 2 in frames 3 to 6 as far as it has sound,
    // element 3, which starts before the program, from frame 0 for 4 frames
    assert_eq!(
        track.samples,
        vec![
            frame(100, -100),
            frame(200, -200),
            frame(301, -301),
            frame(412, -412),
            frame(23, -23),
            SILENT,
            SILENT,
            SILENT,
            SILENT,
            SILENT
        ]
    );
}

#[test]
fn the_track_has_the_length_of_the_program() {
    let scene = small_scene();
    let track = mix_timeline(&scene, vec![None, None, None, None]);
    assert_eq!(track.samples, vec![SILENT; 10]);
    // a clip that runs beyond the program is cut
    let root = element(0, 500_000, vec![element(300_000, 2_000_000, vec![])]);
    let scene = Scene::new(root, 10, 10, 64, 48).unwrap();
    let track = mix_timeline(&scene, vec![None, clip(10, &[1, 2, 3, 4, 5, 6, 7])]);
    assert_eq!(track.samples, vec![SILENT, SILENT, SILENT, frame(1, -1), frame(2, -2)]);
}

#[test]
fn the_root_can_have_a_clip_too() {
    let scene = small_scene();
    let track = mix_timeline(&scene, vec![clip(10, &[7; 20]), None, None, None]);
    assert_eq!(track.samples, vec![frame(7, -7); 10]);
}

#[test]
fn a_clip_at_another_rate_is_converted_for_the_track() {
    let root = element(0, 2_000_000, vec![element(500_000, 1_000_000, vec![])]);
    let scene = Scene::new(root, 10, 2_000, 64, 48).unwrap();
    let clips = vec![None, clip(1_000, &[50_000_000; 1_000])];
    assert!(check_mixable(&scene, &clips));
    let track = mix_timeline(&scene, clips);
    assert_eq!(track.samples.len(), 4_000);
    assert!(track.samples[..1_000].iter().all(|f| *f == SILENT));
    assert!(track.samples[3_000..].iter().all(|f| *f == SILENT));
    assert!(track.samples[1_500..2_900].iter().all(|f| (f.left - 50_000_000).abs() < 5_000_000));
}

#[test]
fn clips_must_match_the_elements() {
    let scene = small_scene();
    assert!(!check_mixable(&scene, &vec![None, None, None]));
    assert!(!check_mixable(&scene, &vec![None, None, None, None, None]));
    assert!(!check_mixable(&scene, &Vec::new()));
    assert!(check_mixable(&scene, &vec![None, None, None, None]));
}

#[test]
fn a_clip_without_a_rate_cannot_be_converted() {
    let scene = small_scene();
    assert!(!check_mixable(&scene, &vec![None, clip(0, &[1]), None, None]));
    assert!(check_mixable(&scene, &vec![None, clip(11, &[1]), None, None]));
    let silent_track = Scene::new(element(0, 1_000_000, vec![]), 10, 0, 64, 48).unwrap();
    assert!(!check_mixable(&silent_track, &vec![clip(10, &[1])]));
    // at the same rate nothing is converted, so even no rate at all will do
    assert!(check_mixable(&silent_track, &vec![clip(0, &[1])]));
    assert!(mix_timeline(&silent_track, vec![clip(0, &[1])]).samples.is_empty());
}

#[test]
fn the_plan_has_an_action_for_each_frame_and_the_track() {
    let scene = small_scene();
    let plan = encode(&scene, vec![None, clip(10, &[1, 2, 3, 4, 5]), None, None]);
    // active: frames 0, 1: root and element 3; frame 2: root, 1 and 3; frame 3: root, 1, 2;
    // frame 4: root, 1, 2; frames 5, 6: root and 2; frames 7 to 9: root
    assert_eq!(plan.frames, vec![Render, Reuse, Render, Render, Reuse, Render, Reuse, Render, Reuse, Reuse]);
    assert_eq!(plan.audio.sampling_rate, 10);
    assert_eq!(plan.audio.samples.len(), 10);
    assert_eq!(plan.audio.samples[2], frame(1, -1));
    assert_eq!(plan.audio.samples[4], frame(3, -3));
    assert_eq!(plan.audio.samples[5], SILENT);
}

#[test]
fn samples_are_written_left_before_right() {
    let track = Audio { samples: vec![frame(1, 2), frame(3, 4), frame(5, 6)], sampling_rate: 8_000 };
    assert_eq!(interleave(&track), vec![1, 2, 3, 4, 5, 6]);
    assert!(interleave(&Audio { samples: Vec::new(), sampling_rate: 1 }).is_empty());
}

#[test]
fn image_files_are_numbered_from_zero() {
    assert_eq!(frame_file_name(0), "frame_0.png");
    assert_eq!(frame_file_name(7), "frame_7.png");
    assert_eq!(frame_file_name(10), "frame_10.png");
    assert_eq!(frame_file_name(1_234), "frame_1234.png");
    assert_eq!(frame_file_name(u32::MAX), "frame_4294967295.png");
    assert_eq!(frame_file_pattern(), "frame_%d.png");
    assert_eq!(audio_file_name(), "audio.wav");
    assert_eq!(default_output_name(), "output.mp4");
}

#[test]
fn numbers_are_written_in_decimal() {
    assert_eq!(decimal_text(0), "0");
    assert_eq!(decimal_text(9), "9");
    assert_eq!(decimal_text(10), "10");
    assert_eq!(decimal_text(1_000_000), "1000000");
    assert_eq!(decimal_text(9_876_543_210), "9876543210");
    assert_eq!(decimal_text(u64::MAX), "18446744073709551615");
    let mut text = String::from("n=");
    append_decimal(&mut text, 305);
    assert_eq!(text, "n=305");
}

#[test]
fn the_muxer_is_called_with_rate_inputs_codecs_and_output() {
    let args = mux_arguments(30, "/tmp/x/frame_%d.png", "/tmp/x/audio.wav", "out.mp4", false);
    assert_eq!(
        args,
        vec![
            "-r",
            "30",
            "-i",
            "/tmp/x/frame_%d.png",
            "-i",
            "/tmp/x/audio.wav",
            "-c:v",
            "h264_nvenc",
            "-c:a",
            "aac",
            "-shortest",
            "-pix_fmt",
            "yuv420p",
            "out.mp4"
        ]
    );
}

#[test]
fn the_overwrite_flag_comes_first() {
    let args = mux_arguments(4_294_967_295, "f", "a", "o", true);
    assert_eq!(
        args,
        vec![
            "-y",
            "-r",
            "4294967295",
            "-i",
            "f",
            "-i",
            "a",
            "-c:v",
            "h264_nvenc",
            "-c:a",
            "aac",
            "-shortest",
            "-pix_fmt",
            "yuv420p",
            "o"
        ]
    );
}
