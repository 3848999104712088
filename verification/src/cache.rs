//! Which video frames are rendered and which reuse the picture before them.
//!
//! A frame whose set of active elements equals that of the frame before it
//! shows the same picture, so its image is a copy of the previous frame's
//! image. Every other frame is rendered.

use crate::activity::FrameActivity;
use vstd::prelude::*;

verus! {

/// How a video frame gets its image.
#[derive(Clone, Copy, Debug, PartialEq, Eq, Structural)]
pub enum FrameAction {
    /// The renderer draws the frame.
    Render,
    /// The image of the frame before is copied.
    Reuse,
}

/// The activity sets of a list of frames.
pub open spec fn sets_of(frames: Seq<FrameActivity>) -> Seq<Set<usize>> {
    frames.map_values(|a: FrameActivity| a@)
}

/// How frame `frame` gets its image, given the activity sets of all frames.
pub open spec fn planned_action(sets: Seq<Set<usize>>, frame: int) -> FrameAction {
    if 0 < frame < sets.len() && sets[frame] == sets[frame - 1] {
        FrameAction::Reuse
    } else {
        FrameAction::Render
    }
}

/// The frame whose rendering is the image of frame `frame`: the frame itself
/// if it is rendered, else what the frame before shows.
pub open spec fn shown(sets: Seq<Set<usize>>, frame: nat) -> nat
    decreases frame,
{
    if planned_action(sets, frame as int) == FrameAction::Reuse {
        shown(sets, (frame - 1) as nat)
    } else {
        frame
    }
}

/// The number of rendered frames among the first `n`.
pub open spec fn renders(sets: Seq<Set<usize>>, n: nat) -> nat
    decreases n,
{
    if n == 0 {
        0
    } else {
        renders(sets, (n - 1) as nat) + if planned_action(sets, n - 1) == FrameAction::Render {
            1nat
        } else {
            0nat
        }
    }
}

/// A frame with the same active elements as the frame before it is not
/// rendered, and shows the image that the frame before it shows.
pub proof fn lemma_unchanged_frame_reuses(sets: Seq<Set<usize>>, frame: nat)
    requires
        0 < frame < sets.len(),
        sets[frame as int] == sets[frame - 1],
    ensures
        planned_action(sets, frame as int) == FrameAction::Reuse,
        shown(sets, frame) == shown(sets, (frame - 1) as nat),
        renders(sets, frame + 1) == renders(sets, frame),
{
}

/// The first frame, and every frame whose active elements differ from those
/// of the frame before it, is rendered, once, and shows its own rendering.
pub proof fn lemma_changed_frame_renders(sets: Seq<Set<usize>>, frame: nat)
    requires
        frame < sets.len(),
        frame == 0 || sets[frame as int] != sets[frame - 1],
    ensures
        planned_action(sets, frame as int) == FrameAction::Render,
        shown(sets, frame) == frame,
        renders(sets, frame + 1) == renders(sets, frame) + 1,
{
}

/// The image of a frame is the rendering of a frame at or before it with the
/// same active elements, and that frame is rendered.
pub proof fn lemma_shown_is_same_picture(sets: Seq<Set<usize>>, frame: nat)
    requires
        frame < sets.len(),
    ensures
        shown(sets, frame) <= frame,
        sets[shown(sets, frame) as int] == sets[frame as int],
        planned_action(sets, shown(sets, frame) as int) == FrameAction::Render,
    decreases frame,
{
    if planned_action(sets, frame as int) == FrameAction::Reuse {
        lemma_shown_is_same_picture(sets, (frame - 1) as nat);
    }
}

/// What the rendering loop remembers from one frame to the next: the active
/// elements of the frame before.
pub struct FrameCache {
    previous: Option<FrameActivity>,
}

impl FrameCache {
    /// The active elements of the frame before, if there was one.
    pub closed spec fn previous(&self) -> Option<Set<usize>> {
        match self.previous {
            Some(set) => Some(set@),
            None => None,
        }
    }

    /// The state before the first frame.
    pub fn new() -> (cache: FrameCache)
        ensures
            cache.previous() is None,
    {
        FrameCache { previous: None }
    }

    /// Decides how the next frame gets its image, and remembers its active
    /// elements for the frame after it.
    pub fn step(&mut self, current: &FrameActivity) -> (action: FrameAction)
        ensures
            action == if old(self).previous() == Some(current@) {
                FrameAction::Reuse
            } else {
                FrameAction::Render
            },
            final(self).previous() == Some(current@),
    {
        let action = match &self.previous {
            Some(before) => {
                if before.same_as(current) {
                    FrameAction::Reuse
                } else {
                    FrameAction::Render
                }
            },
            None => FrameAction::Render,
        };
        self.previous = Some(current.duplicate());
        action
    }
}

/// For each frame, how it gets its image.
pub fn plan_frames(activity: &Vec<FrameActivity>) -> (plan: Vec<FrameAction>)
    ensures
        plan.len() == activity.len(),
        forall|frame: int|
            0 <= frame < plan.len() ==> #[trigger] plan@[frame] == planned_action(
                sets_of(activity@),
                frame,
            ),
{
    let mut cache = FrameCache::new();
    let mut plan: Vec<FrameAction> = Vec::new();
    let mut frame: usize = 0;
    while frame < activity.len()
        invariant
            frame <= activity.len(),
            plan.len() == frame,
            frame == 0 ==> cache.previous() is None,
            frame > 0 ==> cache.previous() == Some(activity@[frame - 1]@),
            forall|f: int|
                0 <= f < frame ==> #[trigger] plan@[f] == planned_action(sets_of(activity@), f),
        decreases activity.len() - frame,
    {
        let action = cache.step(&activity[frame]);
        plan.push(action);
        frame += 1;
    }
    plan
}

/// The numbers of rendered and of reused frames in a plan.
pub fn count_actions(plan: &Vec<FrameAction>) -> (counts: (usize, usize))
    ensures
        counts.0 == plan@.filter(|a: FrameAction| a == FrameAction::Render).len(),
        counts.1 == plan@.filter(|a: FrameAction| a == FrameAction::Reuse).len(),
        counts.0 + counts.1 == plan.len(),
{
    let mut rendered: usize = 0;
    let mut reused: usize = 0;
    let mut i: usize = 0;
    let ghost is_render = |a: FrameAction| a == FrameAction::Render;
    let ghost is_reuse = |a: FrameAction| a == FrameAction::Reuse;
    proof {
        assert(plan@.subrange(0, 0) =~= Seq::<FrameAction>::empty());
    }
    while i < plan.len()
        invariant
            i <= plan.len(),
            rendered == plan@.subrange(0, i as int).filter(is_render).len(),
            reused == plan@.subrange(0, i as int).filter(is_reuse).len(),
            rendered + reused == i,
            is_render == |a: FrameAction| a == FrameAction::Render,
            is_reuse == |a: FrameAction| a == FrameAction::Reuse,
        decreases plan.len() - i,
    {
        proof {
            let front = plan@.subrange(0, i as int);
            let next = plan@.subrange(0, i + 1);
            assert(next.drop_last() =~= front);
            assert(next.last() == plan@[i as int]);
            reveal(Seq::filter);
        }
        match plan[i] {
            FrameAction::Render => {
                rendered += 1;
            },
            FrameAction::Reuse => {
                reused += 1;
            },
        }
        i += 1;
    }
    assert(plan@.subrange(0, plan.len() as int) =~= plan@);
    (rendered, reused)
}

} // verus!
