use vsml_pipeline::activity::{calculate_frame_changes, FrameActivity};
use vsml_pipeline::scene::{copy_path, Scene, SceneError, SceneNode};

fn element(start: i64, duration: u64, children: Vec<SceneNode>) -> SceneNode {
    SceneNode::Element { start, duration, children }
}

fn scene(root: SceneNode, fps: u32) -> Scene {
    Scene::new(root, fps, 44_100, 640, 480).unwrap()
}

/// The frames in which an element is active, found by asking of every frame
/// whether the element's time touches it.
fn frames_touched(start: i64, duration: u64, fps: u32, total: usize) -> Vec<usize> {
    let mut touched = Vec::new();
    for frame in 0..total {
        // frame begins at frame / fps seconds and ends at (frame + 1) / fps seconds
        let begins = frame as i128 * 1_000_000;
        let ends = (frame as i128 + 1) * 1_000_000;
        let from = start as i128 * fps as i128;
        let to = (start as i128 + duration as i128) * fps as i128;
        // floor(from / 1e6) <= frame  <=>  from < ends ;  frame < ceil(to / 1e6)  <=>  begins < to
        if from < ends && begins < to {
            touched.push(frame);
        }
    }
    touched
}

#[test]
fn one_element_for_two_seconds_at_ten_frames_a_second() {
    let root = element(0, 2_000_000, vec![element(0, 2_000_000, vec![])]);
    let scene = scene(root, 10);
    let frames = calculate_frame_changes(&scene);
    assert_eq!(frames.len(), 20);
    let elements = scene.elements();
    assert_eq!(elements.len(), 2);
    assert_eq!(elements[0].label(), "root");
    assert_eq!(elements[1].label(), "root/0");
    for frame in &frames {
        assert_eq!(frame.ids(), &vec![0, 1]);
        assert!(frame.contains(1));
        assert_eq!(frame.len(), 2);
    }
}

#[test]
fn the_frame_count_is_the_duration_rounded_to_frames() {
    assert_eq!(scene(element(0, 2_000_000, vec![]), 10).total_frames(), 20);
    assert_eq!(scene(element(0, 1_040_000, vec![]), 10).total_frames(), 10);
    assert_eq!(scene(element(0, 1_050_000, vec![]), 10).total_frames(), 11);
    assert_eq!(scene(element(0, 1_000_000, vec![]), 0).total_frames(), 0);
    assert_eq!(scene(element(0, 1, vec![]), 30).total_frames(), 0);
}

#[test]
fn elements_come_in_document_order_with_paths_and_global_starts() {
    let root = element(
        0,
        10_000_000,
        vec![
            element(1_000_000, 2_000_000, vec![SceneNode::Text, element(500_000, 250_000, vec![])]),
            SceneNode::Text,
            element(-3_000_000, 4_000_000, vec![element(2_500_000, 1, vec![])]),
        ],
    );
    let scene = scene(root, 10);
    let elements = scene.elements();
    let listed: Vec<(Vec<usize>, i64, u64)> =
        elements.iter().map(|e| (copy_path(&e.path), e.start, e.duration)).collect();
    assert_eq!(
        listed,
        vec![
            (vec![], 0, 10_000_000),
            (vec![0], 1_000_000, 2_000_000),
            (vec![0, 1], 1_500_000, 250_000),
            (vec![2], -3_000_000, 4_000_000),
            (vec![2, 0], -500_000, 1),
        ]
    );
    let labels: Vec<String> = elements.iter().map(|e| e.label()).collect();
    assert_eq!(labels, vec!["root", "root/0", "root/0/1", "root/2", "root/2/0"]);
}

#[test]
fn labels_write_child_indices_in_decimal() {
    let mut children = Vec::new();
    for _ in 0..12 {
        children.push(SceneNode::Text);
    }
    children.push(element(0, 1, vec![]));
    let scene = scene(element(0, 1_000_000, children), 10);
    let elements = scene.elements();
    assert_eq!(elements[1].label(), "root/12");
}

#[test]
fn a_child_starts_where_its_parent_starts_plus_its_own_start() {
    let root = element(
        0,
        3_000_000,
        vec![element(1_000_000, 1_500_000, vec![element(500_000, 500_000, vec![])])],
    );
    let scene = scene(root, 10);
    let frames = calculate_frame_changes(&scene);
    assert_eq!(frames.len(), 30);
    for (f, frame) in frames.iter().enumerate() {
        let mut expected = vec![0];
        if (10..25).contains(&f) {
            expected.push(1);
        }
        if (15..20).contains(&f) {
            expected.push(2);
        }
        assert_eq!(frame.ids(), &expected, "frame {}", f);
    }
}

#[test]
fn an_element_is_clipped_to_the_frames_of_the_program() {
    let root = element(
        0,
        1_000_000,
        vec![element(-500_000, 700_000, vec![]), element(800_000, 5_000_000, vec![])],
    );
    let scene = scene(root, 10);
    let frames = calculate_frame_changes(&scene);
    assert_eq!(frames.len(), 10);
    for (f, frame) in frames.iter().enumerate() {
        assert_eq!(frame.contains(1), f < 2, "frame {}", f);
        assert_eq!(frame.contains(2), f >= 8, "frame {}", f);
    }
}

#[test]
fn an_element_that_starts_and_ends_within_frames_is_active_in_both() {
    // From 0.25 s to 0.55 s at 10 frames a second: frames 2, 3, 4 and 5.
    let root = element(0, 1_000_000, vec![element(250_000, 300_000, vec![])]);
    let frames = calculate_frame_changes(&scene(root, 10));
    let active: Vec<usize> = (0..frames.len()).filter(|f| frames[*f].contains(1)).collect();
    assert_eq!(active, vec![2, 3, 4, 5]);
}

#[test]
fn an_element_of_no_length_still_has_its_children_visited() {
    let root = element(
        0,
        1_000_000,
        vec![
            element(200_000, 0, vec![element(100_000, 200_000, vec![])]),
            element(250_000, 0, vec![]),
        ],
    );
    let scene = scene(root, 10);
    let frames = calculate_frame_changes(&scene);
    for (f, frame) in frames.iter().enumerate() {
        // on a frame boundary, no length means no frame
        assert!(!frame.contains(1), "frame {}", f);
        // the child runs from 0.3 s to 0.5 s
        assert_eq!(frame.contains(2), f == 3 || f == 4, "frame {}", f);
        // within frame 2, no length still touches frame 2
        assert_eq!(frame.contains(3), f == 2, "frame {}", f);
    }
}

#[test]
fn text_nodes_are_active_nowhere() {
    let root = element(0, 1_000_000, vec![SceneNode::Text, SceneNode::Text]);
    let scene = scene(root, 5);
    assert_eq!(scene.elements().len(), 1);
    for frame in &calculate_frame_changes(&scene) {
        assert_eq!(frame.ids(), &vec![0]);
    }
}

#[test]
fn the_sizes_of_the_sets_add_up_to_the_overlaps_found_frame_by_frame() {
    let root = element(
        0,
        4_000_000,
        vec![
            element(-1_000_000, 1_500_000, vec![element(700_000, 900_000, vec![])]),
            SceneNode::Text,
            element(333_333, 1_234_567, vec![element(0, 0, vec![]), element(-5_000_000, 1, vec![])]),
            element(3_900_000, 7_000_000, vec![]),
            element(9_000_000, 1_000_000, vec![]),
        ],
    );
    let scene = scene(root, 7);
    let frames = calculate_frame_changes(&scene);
    let elements = scene.elements();
    let total = frames.len();
    assert_eq!(total, 28);
    let mut by_elements = 0;
    for (id, e) in elements.iter().enumerate() {
        let touched = frames_touched(e.start, e.duration, 7, total);
        by_elements += touched.len();
        for f in 0..total {
            assert_eq!(frames[f].contains(id), touched.contains(&f), "element {} frame {}", id, f);
        }
    }
    let by_frames: usize = frames.iter().map(|f| f.len()).sum();
    assert_eq!(by_frames, by_elements);
    assert_eq!(by_frames, 28 + 4 + 5 + 9 + 1 + 0 + 1 + 0);
}

#[test]
fn a_root_that_is_no_element_is_refused() {
    assert_eq!(Scene::new(SceneNode::Text, 10, 44_100, 1, 1).unwrap_err(), SceneError::RootNotElement);
}

#[test]
fn a_program_of_no_length_is_refused() {
    let root = element(5, 0, vec![element(0, 10, vec![])]);
    assert_eq!(Scene::new(root, 10, 44_100, 1, 1).unwrap_err(), SceneError::ZeroDuration);
}

#[test]
fn a_start_beyond_the_clock_is_refused() {
    let root = element(i64::MAX, 10, vec![element(1, 10, vec![])]);
    assert_eq!(Scene::new(root, 10, 44_100, 1, 1).unwrap_err(), SceneError::TimeOutOfRange);
    let root = element(-2, 10, vec![SceneNode::Text, element(i64::MIN, 10, vec![element(5, 1, vec![])])]);
    assert_eq!(Scene::new(root, 10, 44_100, 1, 1).unwrap_err(), SceneError::TimeOutOfRange);
    let root = element(i64::MAX, 10, vec![element(-1, 10, vec![])]);
    assert!(Scene::new(root, 10, 44_100, 1, 1).is_ok());
}

#[test]
fn more_frames_than_can_be_counted_are_refused() {
    let root = element(0, u64::MAX, vec![]);
    assert_eq!(Scene::new(root, 1000, 44_100, 1, 1).unwrap_err(), SceneError::TooManyFrames);
    // 4294967295 frames at one frame a second are the most
    let root = element(0, 4_294_967_295_499_999, vec![]);
    assert_eq!(Scene::new(root, 1, 44_100, 1, 1).unwrap().total_frames(), u32::MAX);
    let root = element(0, 4_294_967_295_500_000, vec![]);
    assert_eq!(Scene::new(root, 1, 44_100, 1, 1).unwrap_err(), SceneError::TooManyFrames);
}

#[test]
fn the_checks_of_a_scene_come_in_order() {
    // no length is found before a start beyond the clock
    let root = element(i64::MAX, 0, vec![element(1, 10, vec![])]);
    assert_eq!(Scene::new(root, 10, 44_100, 1, 1).unwrap_err(), SceneError::ZeroDuration);
    // a start beyond the clock is found before the frame count
    let root = element(0, u64::MAX, vec![element(i64::MAX, 1, vec![element(1, 1, vec![])])]);
    assert_eq!(Scene::new(root, 1000, 44_100, 1, 1).unwrap_err(), SceneError::TimeOutOfRange);
}

#[test]
fn a_scene_keeps_what_it_was_made_of() {
    let scene = Scene::new(element(0, 1_000_000, vec![]), 24, 48_000, 1920, 1080).unwrap();
    assert_eq!(scene.fps, 24);
    assert_eq!(scene.sampling_rate, 48_000);
    assert_eq!(scene.resolution_x, 1920);
    assert_eq!(scene.resolution_y, 1080);
    assert!(matches!(scene.root, SceneNode::Element { start: 0, duration: 1_000_000, .. }));
}

#[test]
fn fits_tells_whether_all_starts_can_be_held() {
    let node = element(10, 1, vec![element(i64::MAX - 10, 1, vec![])]);
    assert!(node.fits(0));
    assert!(!node.fits(1));
    assert!(SceneNode::Text.fits(i64::MAX));
}

#[test]
fn an_activity_set_is_made_of_ascending_ids_only() {
    let set = FrameActivity::from_ascending(vec![1, 4, 9]).unwrap();
    assert_eq!(set.len(), 3);
    assert!(set.contains(4));
    assert!(!set.contains(5));
    assert_eq!(set.ids(), &vec![1, 4, 9]);
    assert!(FrameActivity::from_ascending(vec![1, 1]).is_none());
    assert!(FrameActivity::from_ascending(vec![2, 1]).is_none());
    assert!(FrameActivity::from_ascending(vec![]).is_some());
    assert_eq!(FrameActivity::new().len(), 0);
}

#[test]
fn activity_sets_are_compared_by_their_members() {
    let a = FrameActivity::from_ascending(vec![0, 2]).unwrap();
    let b = FrameActivity::from_ascending(vec![0, 2]).unwrap();
    let c = FrameActivity::from_ascending(vec![0, 3]).unwrap();
    let d = FrameActivity::from_ascending(vec![0]).unwrap();
    assert!(a.same_as(&b));
    assert!(!a.same_as(&c));
    assert!(!a.same_as(&d));
    assert!(a.duplicate().same_as(&a));
    assert!(FrameActivity::new().same_as(&FrameActivity::from_ascending(vec![]).unwrap()));
}

#[test]
fn no_two_elements_have_the_same_path() {
    let leaf = || element(0, 1, vec![]);
    let root = element(
        0,
        1_000_000,
        vec![
            element(0, 1, vec![leaf(), SceneNode::Text, leaf()]),
            SceneNode::Text,
            element(0, 1, vec![leaf(), element(0, 1, vec![leaf(), leaf()])]),
            leaf(),
        ],
    );
    let elements = scene(root, 10).elements();
    assert_eq!(elements.len(), 10);
    for i in 0..elements.len() {
        for j in 0..i {
            assert_ne!(elements[i].path, elements[j].path);
            assert_ne!(elements[i].label(), elements[j].label());
        }
    }
    assert_eq!(elements[7].label(), "root/2/1/0");
}
