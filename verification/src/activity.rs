//! Which elements are active in which video frame.
//!
//! An element is active in every frame that its time on the program's clock
//! touches: from the frame in which it starts to the frame in which it ends.
//! Elements are known by their place in document order.

use crate::scene::{spans_of, ElementSpan, Scene, Span};
use crate::time::{ceil_units_clipped, clipped, floor_units_clipped, units_ceil, units_floor};
use vstd::prelude::*;

verus! {

/// Whether an element is active in video frame `frame` at `fps` frames per
/// second.
pub open spec fn covers(span: Span, fps: int, frame: int) -> bool {
    units_floor(span.start, fps) <= frame < units_ceil(span.start + span.duration, fps)
}

/// The elements that are active in `frame`, by their places in `spans`.
pub open spec fn active_set(spans: Seq<Span>, fps: int, frame: int) -> Set<usize> {
    Set::new(|id: usize| id < spans.len() && covers(spans[id as int], fps, frame))
}

/// Those of the first `n` elements that are active in `frame`, in ascending
/// order of their places.
pub open spec fn active_among(spans: Seq<Span>, fps: int, frame: int, n: nat) -> Seq<usize>
    decreases n,
{
    if n == 0 {
        Seq::empty()
    } else {
        let before = active_among(spans, fps, frame, (n - 1) as nat);
        if n <= spans.len() && n - 1 <= usize::MAX && covers(spans[n - 1], fps, frame) {
            before.push((n - 1) as usize)
        } else {
            before
        }
    }
}

/// Whether each item of `ids` is less than the next.
pub open spec fn ascending(ids: Seq<usize>) -> bool {
    forall|i: int, j: int| 0 <= i < j < ids.len() ==> ids[i] < ids[j]
}

/// `active_among` lists exactly the active ones of the first `n` elements,
/// each once and in ascending order.
pub proof fn lemma_active_among(spans: Seq<Span>, fps: int, frame: int, n: nat)
    requires
        n <= spans.len(),
    ensures
        ascending(active_among(spans, fps, frame, n)),
        forall|id: usize|
            active_among(spans, fps, frame, n).contains(id) <==> id < n && covers(
                spans[id as int],
                fps,
                frame,
            ),
        active_among(spans, fps, frame, n).len() <= n,
    decreases n,
{
    if n > 0 {
        let before = active_among(spans, fps, frame, (n - 1) as nat);
        lemma_active_among(spans, fps, frame, (n - 1) as nat);
        let now = active_among(spans, fps, frame, n);
        if n - 1 <= usize::MAX && covers(spans[n - 1], fps, frame) {
            let last = (n - 1) as usize;
            assert(now == before.push(last));
            assert forall|i: int, j: int| 0 <= i < j < now.len() implies now[i] < now[j] by {
                if j == before.len() {
                    assert(before.contains(before[i]));
                }
            }
            assert forall|id: usize| now.contains(id) <==> id < n && covers(
                spans[id as int],
                fps,
                frame,
            ) by {
                if now.contains(id) {
                    let k = choose|k: int| 0 <= k < now.len() && now[k] == id;
                    if k < before.len() {
                        assert(before.contains(before[k]));
                    }
                }
                if id < n && covers(spans[id as int], fps, frame) {
                    if id == last {
                        assert(now[before.len() as int] == id);
                    } else {
                        assert(before.contains(id));
                        let k = choose|k: int| 0 <= k < before.len() && before[k] == id;
                        assert(now[k] == id);
                    }
                }
            }
        } else {
            assert(now == before);
            assert forall|id: usize| now.contains(id) <==> id < n && covers(
                spans[id as int],
                fps,
                frame,
            ) by {
                if id < n && covers(spans[id as int], fps, frame) {
                    assert(id != n - 1);
                }
            }
        }
    }
}

/// The set of elements that are active in one video frame.
#[derive(Debug)]
pub struct FrameActivity {
    ids: Vec<usize>,
}

impl View for FrameActivity {
    type V = Set<usize>;

    closed spec fn view(&self) -> Set<usize> {
        self.ids@.to_set()
    }
}

impl FrameActivity {
    #[verifier::type_invariant]
    spec fn ordered(&self) -> bool {
        ascending(self.ids@)
    }

    /// The members in ascending order.
    pub closed spec fn listed(&self) -> Seq<usize> {
        self.ids@
    }

    /// The empty set.
    pub fn new() -> (empty: FrameActivity)
        ensures
            empty@ == Set::<usize>::empty(),
            empty.listed() == Seq::<usize>::empty(),
    {
        let empty = FrameActivity { ids: Vec::new() };
        assert(empty.ids@.to_set() =~= Set::<usize>::empty());
        empty
    }

    /// The number of members.
    pub fn len(&self) -> (n: usize)
        ensures
            n == self@.len(),
            n == self.listed().len(),
    {
        proof {
            use_type_invariant(self);
            self.ids@.unique_seq_to_set();
        }
        self.ids.len()
    }

    /// Whether `id` is a member.
    pub fn contains(&self, id: usize) -> (found: bool)
        ensures
            found == self@.contains(id),
    {
        let mut i: usize = 0;
        while i < self.ids.len()
            invariant
                i <= self.ids.len(),
                forall|k: int| 0 <= k < i ==> self.ids@[k] != id,
            decreases self.ids.len() - i,
        {
            if self.ids[i] == id {
                assert(self.ids@.contains(id));
                return true;
            }
            i += 1;
        }
        false
    }

    /// The members in ascending order.
    pub fn ids(&self) -> (ids: &Vec<usize>)
        ensures
            ids@ == self.listed(),
            ascending(ids@),
            ids@.to_set() == self@,
    {
        proof {
            use_type_invariant(self);
        }
        &self.ids
    }

    /// Whether two sets have the same members.
    pub fn same_as(&self, other: &FrameActivity) -> (same: bool)
        ensures
            same == (self@ == other@),
    {
        proof {
            use_type_invariant(self);
            use_type_invariant(other);
            if self@ == other@ {
                lemma_ascending_same_set(self.ids@, other.ids@);
            }
        }
        if self.ids.len() != other.ids.len() {
            return false;
        }
        let mut i: usize = 0;
        while i < self.ids.len()
            invariant
                i <= self.ids.len(),
                self.ids.len() == other.ids.len(),
                self@ == other@ ==> self.ids@ == other.ids@,
                forall|k: int| 0 <= k < i ==> self.ids@[k] == other.ids@[k],
            decreases self.ids.len() - i,
        {
            if self.ids[i] != other.ids[i] {
                return false;
            }
            i += 1;
        }
        assert(self.ids@ =~= other.ids@);
        true
    }

    /// A copy of the set.
    pub fn duplicate(&self) -> (copy: FrameActivity)
        ensures
            copy@ == self@,
            copy.listed() == self.listed(),
    {
        proof {
            use_type_invariant(self);
        }
        FrameActivity { ids: crate::scene::copy_path(&self.ids) }
    }

    /// The set of the items of `ids`, if they are in ascending order.
    pub fn from_ascending(ids: Vec<usize>) -> (made: Option<FrameActivity>)
        ensures
            made is Some <==> ascending(ids@),
            made matches Some(set) ==> set.listed() == ids@ && set@ == ids@.to_set(),
    {
        let mut i: usize = 1;
        while i < ids.len()
            invariant
                1 <= i,
                forall|k: int| 0 <= k && k + 1 < i && k + 1 < ids.len() ==> #[trigger] ids@[k] < ids@[k + 1],
            decreases ids.len() - i,
        {
            if ids[i - 1] >= ids[i] {
                return None;
            }
            i += 1;
        }
        proof {
            lemma_stepwise_ascending(ids@);
        }
        Some(FrameActivity { ids })
    }
}

/// A list in which each item is less than its successor is ascending.
pub proof fn lemma_stepwise_ascending(ids: Seq<usize>)
    requires
        forall|k: int| 0 <= k && k + 1 < ids.len() ==> #[trigger] ids[k] < ids[k + 1],
    ensures
        ascending(ids),
    decreases ids.len(),
{
    if ids.len() > 1 {
        let front = ids.drop_last();
        assert forall|k: int| 0 <= k && k + 1 < front.len() implies #[trigger] front[k] < front[k
            + 1] by {
            assert(ids[k] < ids[k + 1]);
        }
        lemma_stepwise_ascending(front);
        let n = ids.len() - 1;
        assert forall|i: int, j: int| 0 <= i < j < ids.len() implies ids[i] < ids[j] by {
            if j < n {
                assert(front[i] < front[j]);
            } else if i < n - 1 {
                assert(front[i] < front[n - 1]);
                assert(ids[n - 1] < ids[n]);
            } else {
                assert(ids[n - 1] < ids[n]);
            }
        }
    }
}

/// Two ascending lists with the same items are the same list.
pub proof fn lemma_ascending_same_set(a: Seq<usize>, b: Seq<usize>)
    requires
        ascending(a),
        ascending(b),
        a.to_set() == b.to_set(),
    ensures
        a == b,
    decreases a.len(),
{
    a.unique_seq_to_set();
    b.unique_seq_to_set();
    assert(a.len() == b.len());
    if a.len() > 0 {
        let n = a.len() - 1;
        // The last item of each list is the greatest item of the common set.
        assert(a.to_set().contains(a[n]));
        assert(b.contains(a[n]));
        assert(b.to_set().contains(b[n]));
        assert(a.contains(b[n]));
        let ka = choose|k: int| 0 <= k < b.len() && b[k] == a[n];
        let kb = choose|k: int| 0 <= k < a.len() && a[k] == b[n];
        assert(a[n] == b[n]);
        let a0 = a.drop_last();
        let b0 = b.drop_last();
        assert(a0.to_set() =~= b0.to_set()) by {
            assert forall|x: usize| a0.contains(x) <==> b0.contains(x) by {
                if a0.contains(x) {
                    let k = choose|k: int| 0 <= k < a0.len() && a0[k] == x;
                    assert(a[k] == x);
                    assert(a.to_set().contains(x));
                    assert(b.contains(x));
                    let m = choose|m: int| 0 <= m < b.len() && b[m] == x;
                    assert(m != n);
                    assert(b0[m] == x);
                }
                if b0.contains(x) {
                    let k = choose|k: int| 0 <= k < b0.len() && b0[k] == x;
                    assert(b[k] == x);
                    assert(b.to_set().contains(x));
                    assert(a.contains(x));
                    let m = choose|m: int| 0 <= m < a.len() && a[m] == x;
                    assert(m != n);
                    assert(a0[m] == x);
                }
            }
        }
        lemma_ascending_same_set(a0, b0);
        assert(a =~= a0.push(a[n]));
        assert(b =~= b0.push(b[n]));
    } else {
        assert(a =~= b);
    }
}

/// The frames that an element touches, limited to the program's frames:
/// `first .. end`.
fn frame_range(span: &ElementSpan, fps: u32, total: u32) -> (range: (u32, u32))
    ensures
        range.0 <= total,
        range.1 <= total,
        forall|frame: int|
            0 <= frame < total ==> (covers(span@, fps as int, frame) <==> range.0 <= frame
                < range.1),
{
    let first = floor_units_clipped(span.start as i128, fps, total);
    let end = ceil_units_clipped(span.start as i128 + span.duration as i128, fps, total);
    (first, end)
}

/// For every video frame of the program, the set of elements that are
/// active in it.
///
/// Elements are visited in document order; each is entered into the frames
/// from the one in which it starts to the one in which it ends, as far as
/// the program has them. An element of no length is active in no frame
/// unless it starts within one.
pub fn calculate_frame_changes(scene: &Scene) -> (frames: Vec<FrameActivity>)
    requires
        scene.wf(),
    ensures
        frames.len() == scene.frame_count(),
        forall|frame: int|
            0 <= frame < frames.len() ==> (#[trigger] frames@[frame])@ == active_set(
                scene.spans(),
                scene.fps as int,
                frame,
            ),
        forall|frame: int|
            0 <= frame < frames.len() ==> (#[trigger] frames@[frame]).listed() == active_among(
                scene.spans(),
                scene.fps as int,
                frame,
                scene.spans().len(),
            ),
{
    let total = scene.total_frames();
    let fps = scene.fps;
    let elements = scene.elements();
    let ghost spans = scene.spans();
    assert(spans.len() == elements.len());
    let mut lists: Vec<Vec<usize>> = Vec::new();
    let mut made: u32 = 0;
    while made < total
        invariant
            made <= total,
            lists.len() == made,
            forall|f: int| 0 <= f < made ==> (#[trigger] lists@[f])@ == Seq::<usize>::empty(),
        decreases total - made,
    {
        lists.push(Vec::new());
        made += 1;
    }
    let mut k: usize = 0;
    while k < elements.len()
        invariant
            k <= elements.len(),
            spans == spans_of(elements@),
            spans.len() == elements.len(),
            lists.len() == total,
            forall|f: int|
                0 <= f < total ==> (#[trigger] lists@[f])@ == active_among(
                    spans,
                    fps as int,
                    f,
                    k as nat,
                ),
        decreases elements.len() - k,
    {
        let (first, end) = frame_range(&elements[k], fps, total);
        assert(spans[k as int] == elements@[k as int]@);
        let mut f: u32 = first;
        while f < end
            invariant
                first <= f,
                end <= total,
                k < elements.len(),
                spans.len() == elements.len(),
                lists.len() == total,
                forall|g: int|
                    0 <= g < total ==> (covers(spans[k as int], fps as int, g) <==> first <= g
                        < end),
                forall|g: int|
                    0 <= g < total ==> (#[trigger] lists@[g])@ == if first <= g < f {
                        active_among(spans, fps as int, g, (k + 1) as nat)
                    } else {
                        active_among(spans, fps as int, g, k as nat)
                    },
            decreases end - f,
        {
            let ghost before = lists@;
            lists[f as usize].push(k);
            assert forall|g: int| 0 <= g < total implies (#[trigger] lists@[g])@ == if first <= g
                < f + 1 {
                active_among(spans, fps as int, g, (k + 1) as nat)
            } else {
                active_among(spans, fps as int, g, k as nat)
            } by {
                if g != f {
                    assert(lists@[g] == before[g]);
                }
            }
            f += 1;
        }
        k += 1;
    }
    let ghost all = lists@;
    let mut frames: Vec<FrameActivity> = Vec::new();
    for list in it: lists
        invariant
            it.seq() == all,
            all.len() == total,
            forall|f: int|
                0 <= f < total ==> (#[trigger] all[f])@ == active_among(
                    spans,
                    fps as int,
                    f,
                    spans.len(),
                ),
            frames.len() == it.index(),
            forall|f: int|
                0 <= f < it.index() ==> (#[trigger] frames@[f]).listed() == all[f]@ && frames@[f]@
                    == all[f]@.to_set(),
    {
        proof {
            lemma_active_among(spans, fps as int, it.index(), spans.len());
        }
        frames.push(FrameActivity { ids: list });
    }
    assert forall|frame: int| 0 <= frame < frames.len() implies (#[trigger] frames@[frame])@
        == active_set(spans, fps as int, frame) by {
        lemma_active_among(spans, fps as int, frame, spans.len());
        assert(all[frame]@.to_set() =~= active_set(spans, fps as int, frame));
    }
    frames
}

/// The sizes of the activity sets of the first `frames` video frames, added
/// up.
pub open spec fn activity_total(spans: Seq<Span>, fps: int, frames: nat) -> nat
    decreases frames,
{
    if frames == 0 {
        0
    } else {
        activity_total(spans, fps, (frames - 1) as nat) + active_set(spans, fps, frames - 1).len()
    }
}

/// In how many of the first `frames` video frames an element is active,
/// found by asking of each frame in turn.
pub open spec fn overlaps_of(span: Span, fps: int, frames: nat) -> nat
    decreases frames,
{
    if frames == 0 {
        0
    } else {
        overlaps_of(span, fps, (frames - 1) as nat) + if covers(span, fps, frames - 1) {
            1nat
        } else {
            0nat
        }
    }
}

/// `overlaps_of`, added up over the first `n` elements.
pub open spec fn overlap_total(spans: Seq<Span>, fps: int, frames: nat, n: nat) -> nat
    decreases n,
{
    if n == 0 || n > spans.len() {
        0
    } else {
        overlap_total(spans, fps, frames, (n - 1) as nat) + overlaps_of(spans[n - 1], fps, frames)
    }
}

/// How many of the first `n` elements are active, added up over the first
/// `frames` video frames.
pub open spec fn among_total(spans: Seq<Span>, fps: int, frames: nat, n: nat) -> nat
    decreases frames,
{
    if frames == 0 {
        0
    } else {
        among_total(spans, fps, (frames - 1) as nat, n) + active_among(
            spans,
            fps,
            frames - 1,
            n,
        ).len()
    }
}

/// An activity set has as many members as `active_among` lists.
pub proof fn lemma_active_set_len(spans: Seq<Span>, fps: int, frame: int)
    requires
        spans.len() <= usize::MAX,
    ensures
        active_set(spans, fps, frame).finite(),
        active_set(spans, fps, frame).len() == active_among(spans, fps, frame, spans.len()).len(),
        active_set(spans, fps, frame) == active_among(spans, fps, frame, spans.len()).to_set(),
{
    let listed = active_among(spans, fps, frame, spans.len());
    lemma_active_among(spans, fps, frame, spans.len());
    listed.unique_seq_to_set();
    assert(listed.to_set() =~= active_set(spans, fps, frame));
}

/// One more element adds to the sum the number of frames in which it is
/// active.
proof fn lemma_among_total_step(spans: Seq<Span>, fps: int, frames: nat, n: nat)
    requires
        1 <= n <= spans.len(),
        spans.len() <= usize::MAX,
    ensures
        among_total(spans, fps, frames, n) == among_total(spans, fps, frames, (n - 1) as nat)
            + overlaps_of(spans[n - 1], fps, frames),
    decreases frames,
{
    if frames > 0 {
        lemma_among_total_step(spans, fps, (frames - 1) as nat, n);
    }
}

/// Counting by frames and counting by elements give the same sum.
proof fn lemma_among_total(spans: Seq<Span>, fps: int, frames: nat, n: nat)
    requires
        n <= spans.len(),
        spans.len() <= usize::MAX,
    ensures
        among_total(spans, fps, frames, n) == overlap_total(spans, fps, frames, n),
    decreases n,
{
    if n == 0 {
        lemma_among_total_none(spans, fps, frames);
    } else {
        lemma_among_total(spans, fps, frames, (n - 1) as nat);
        lemma_among_total_step(spans, fps, frames, n);
    }
}

/// With no element there is nothing to count.
proof fn lemma_among_total_none(spans: Seq<Span>, fps: int, frames: nat)
    ensures
        among_total(spans, fps, frames, 0) == 0,
    decreases frames,
{
    if frames > 0 {
        lemma_among_total_none(spans, fps, (frames - 1) as nat);
    }
}

/// The sizes of the activity sets of all frames add up to the number of
/// pairs of an element and a frame in which that element is active, as found
/// by checking every element against every frame.
pub proof fn lemma_activity_total_counts_overlaps(spans: Seq<Span>, fps: int, frames: nat)
    requires
        spans.len() <= usize::MAX,
    ensures
        activity_total(spans, fps, frames) == overlap_total(spans, fps, frames, spans.len()),
{
    lemma_activity_total_among(spans, fps, frames);
    lemma_among_total(spans, fps, frames, spans.len());
}

/// `activity_total` is `among_total` over all elements.
proof fn lemma_activity_total_among(spans: Seq<Span>, fps: int, frames: nat)
    requires
        spans.len() <= usize::MAX,
    ensures
        activity_total(spans, fps, frames) == among_total(spans, fps, frames, spans.len()),
    decreases frames,
{
    if frames > 0 {
        lemma_activity_total_among(spans, fps, (frames - 1) as nat);
        lemma_active_set_len(spans, fps, frames - 1);
    }
}

/// An element is active in the frames from the one in which it starts up to
/// the one in which it ends, so their number is the length of that range
/// within the program.
pub proof fn lemma_overlaps_of_range(span: Span, fps: int, frames: nat)
    ensures
        overlaps_of(span, fps, frames) == if clipped(
            units_floor(span.start, fps),
            frames as int,
        ) < clipped(units_ceil(span.start + span.duration, fps), frames as int) {
            clipped(units_ceil(span.start + span.duration, fps), frames as int) - clipped(
                units_floor(span.start, fps),
                frames as int,
            )
        } else {
            0
        },
    decreases frames,
{
    if frames > 0 {
        lemma_overlaps_of_range(span, fps, (frames - 1) as nat);
    }
}

} // verus!
