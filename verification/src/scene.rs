//! The scene graph: a tree of timed elements, and its elements laid out in
//! document order on the program's clock.

use crate::text::{append_decimal, decimal};
use crate::time::{round_units, units_round};
use vstd::prelude::*;
use vstd::string::StringExecFns;

verus! {

/// A node of the scene graph.
#[derive(Debug)]
pub enum SceneNode {
    /// A timed element. `start` is counted in ticks from the start of the
    /// parent element (from the start of the program, for the root), and
    /// `duration` is the element's length in ticks.
    Element { start: i64, duration: u64, children: Vec<SceneNode> },
    /// A leaf that carries text. It has no place in time of its own.
    Text,
}

/// One element placed on the program's clock, as contracts speak of it.
pub ghost struct Span {
    /// Child indices that lead from the root to the element.
    pub path: Seq<usize>,
    /// The element's start in ticks from the start of the program.
    pub start: int,
    /// The element's length in ticks.
    pub duration: int,
}

/// One element placed on the program's clock.
#[derive(Debug)]
pub struct ElementSpan {
    /// Child indices that lead from the root to the element; empty for the
    /// root itself.
    pub path: Vec<usize>,
    /// The element's start in ticks from the start of the program.
    pub start: i64,
    /// The element's length in ticks.
    pub duration: u64,
}

impl View for ElementSpan {
    type V = Span;

    open spec fn view(&self) -> Span {
        Span { path: self.path@, start: self.start as int, duration: self.duration as int }
    }
}

/// The path of an element as text: `root`, then a slash and the child index
/// for each step down.
pub open spec fn path_label(path: Seq<usize>) -> Seq<char>
    decreases path.len(),
{
    if path.len() == 0 {
        "root"@
    } else {
        path_label(path.drop_last()) + "/"@ + decimal(path.last() as nat)
    }
}

impl ElementSpan {
    /// The path of the element as text.
    pub fn label(&self) -> (label: String)
        ensures
            label@ == path_label(self.path@),
    {
        let mut label = String::from_str("root");
        let mut i: usize = 0;
        assert(self.path@.subrange(0, 0) =~= Seq::<usize>::empty());
        while i < self.path.len()
            invariant
                i <= self.path.len(),
                label@ == path_label(self.path@.subrange(0, i as int)),
            decreases self.path.len() - i,
        {
            let ghost longer = self.path@.subrange(0, i + 1);
            assert(longer.drop_last() =~= self.path@.subrange(0, i as int));
            assert(longer.last() == self.path@[i as int]);
            label.append("/");
            append_decimal(&mut label, self.path[i] as u64);
            i += 1;
        }
        assert(self.path@.subrange(0, self.path.len() as int) =~= self.path@);
        label
    }
}

/// The views of a list of placed elements.
pub open spec fn spans_of(elements: Seq<ElementSpan>) -> Seq<Span> {
    elements.map_values(|e: ElementSpan| e@)
}

/// The elements of the subtree at `node`, each before its descendants and
/// siblings in their order, where `node` sits at `path` and its parent starts
/// at `origin`.
pub open spec fn node_spans(node: SceneNode, path: Seq<usize>, origin: int) -> Seq<Span>
    decreases node, 0nat,
{
    match node {
        SceneNode::Text => Seq::empty(),
        SceneNode::Element { start, duration, children } => seq![
            Span { path, start: origin + start, duration: duration as int },
        ] + children_spans(children@, children@.len(), path, origin + start),
    }
}

/// The elements below the first `n` of `children`, whose parent sits at
/// `path` and starts at `origin`.
pub open spec fn children_spans(
    children: Seq<SceneNode>,
    n: nat,
    path: Seq<usize>,
    origin: int,
) -> Seq<Span>
    decreases children, n,
{
    if n == 0 || n > children.len() {
        Seq::empty()
    } else {
        children_spans(children, (n - 1) as nat, path, origin) + node_spans(
            children[n - 1],
            path.push((n - 1) as usize),
            origin,
        )
    }
}

/// Whether every element of the subtree at `node` starts at a tick that an
/// `i64` can hold, where the parent of `node` starts at `origin`.
pub open spec fn node_fits(node: SceneNode, origin: int) -> bool
    decreases node, 0nat,
{
    match node {
        SceneNode::Text => true,
        SceneNode::Element { start, duration, children } => {
            &&& i64::MIN <= origin + start <= i64::MAX
            &&& children_fit(children@, children@.len(), origin + start)
        },
    }
}

/// `node_fits` for the first `n` of `children`.
pub open spec fn children_fit(children: Seq<SceneNode>, n: nat, origin: int) -> bool
    decreases children, n,
{
    if n == 0 || n > children.len() {
        true
    } else {
        children_fit(children, (n - 1) as nat, origin) && node_fits(children[n - 1], origin)
    }
}

impl SceneNode {
    /// Whether every element of this subtree starts at a tick that an `i64`
    /// can hold, where the parent of this node starts at `origin`.
    pub fn fits(&self, origin: i64) -> (ok: bool)
        ensures
            ok == node_fits(*self, origin as int),
        decreases self,
    {
        match self {
            SceneNode::Text => true,
            SceneNode::Element { start, duration: _, children } => {
                match origin.checked_add(*start) {
                    None => false,
                    Some(here) => {
                        let mut ok = true;
                        let mut i: usize = 0;
                        while i < children.len()
                            invariant
                                i <= children.len(),
                                ok == children_fit(children@, i as nat, here as int),
                                *self matches SceneNode::Element { children: c, .. } && c == children,
                            decreases children.len() - i,
                        {
                            let child_ok = children[i].fits(here);
                            ok = ok && child_ok;
                            i += 1;
                        }
                        ok
                    },
                }
            },
        }
    }

    /// Appends the elements of this subtree to `out` in document order.
    /// `path` leads to this node and is left as it was.
    fn collect(&self, path: &mut Vec<usize>, origin: i64, out: &mut Vec<ElementSpan>)
        requires
            node_fits(*self, origin as int),
        ensures
            final(path)@ == old(path)@,
            spans_of(final(out)@) == spans_of(old(out)@) + node_spans(
                *self,
                old(path)@,
                origin as int,
            ),
        decreases self,
    {
        match self {
            SceneNode::Text => {
                assert(spans_of(out@) + Seq::<Span>::empty() =~= spans_of(out@));
            },
            SceneNode::Element { start, duration, children } => {
                let here: i64 = origin + *start;
                let own = ElementSpan { path: copy_path(path), start: here, duration: *duration };
                let ghost before = out@;
                let ghost own_span = own@;
                out.push(own);
                assert(spans_of(out@) =~= spans_of(before) + seq![own_span]);
                let mut i: usize = 0;
                while i < children.len()
                    invariant
                        i <= children.len(),
                        path@ == old(path)@,
                        children_fit(children@, children@.len(), here as int),
                        *self matches SceneNode::Element { children: c, .. } && c == children,
                        spans_of(out@) == spans_of(before) + seq![own_span] + children_spans(
                            children@,
                            i as nat,
                            old(path)@,
                            here as int,
                        ),
                    decreases children.len() - i,
                {
                    proof {
                        lemma_children_fit_each(children@, children@.len(), here as int, i as int);
                    }
                    let ghost so_far = out@;
                    path.push(i);
                    children[i].collect(path, here, out);
                    path.pop();
                    assert(path@ =~= old(path)@);
                    assert(spans_of(out@) =~= spans_of(before) + seq![own_span] + children_spans(
                        children@,
                        (i + 1) as nat,
                        old(path)@,
                        here as int,
                    ));
                    i += 1;
                }
                assert(spans_of(out@) =~= spans_of(before) + node_spans(
                    *self,
                    old(path)@,
                    origin as int,
                ));
            },
        }
    }
}

/// A copy of `path`.
pub fn copy_path(path: &Vec<usize>) -> (copy: Vec<usize>)
    ensures
        copy@ == path@,
{
    let mut copy: Vec<usize> = Vec::new();
    let mut i: usize = 0;
    while i < path.len()
        invariant
            i <= path.len(),
            copy@ == path@.subrange(0, i as int),
        decreases path.len() - i,
    {
        copy.push(path[i]);
        assert(copy@ =~= path@.subrange(0, i + 1));
        i += 1;
    }
    assert(copy@ =~= path@);
    copy
}

/// If the first `n` children fit, each of them does.
pub proof fn lemma_children_fit_each(children: Seq<SceneNode>, n: nat, origin: int, i: int)
    requires
        children_fit(children, n, origin),
        0 <= i < n <= children.len(),
    ensures
        node_fits(children[i], origin),
    decreases n,
{
    if i < n - 1 {
        lemma_children_fit_each(children, (n - 1) as nat, origin, i);
    }
}

/// Whether `path` leads through `prefix`.
pub open spec fn leads_through(path: Seq<usize>, prefix: Seq<usize>) -> bool {
    path.len() >= prefix.len() && path.subrange(0, prefix.len() as int) == prefix
}

/// Whether no two of `spans` have the same path.
pub open spec fn paths_distinct(spans: Seq<Span>) -> bool {
    forall|i: int, j: int| 0 <= i < j < spans.len() ==> spans[i].path != spans[j].path
}

/// The path of an element tells it from every other element: in the
/// subtree at a node, every path leads through the path of the node, and no
/// two elements have the same path.
pub proof fn lemma_node_paths(node: SceneNode, path: Seq<usize>, origin: int)
    ensures
        forall|i: int|
            0 <= i < node_spans(node, path, origin).len() ==> leads_through(
                #[trigger] node_spans(node, path, origin)[i].path,
                path,
            ),
        paths_distinct(node_spans(node, path, origin)),
    decreases node, 0nat,
{
    match node {
        SceneNode::Text => {},
        SceneNode::Element { start, duration, children } => {
            let below = children_spans(children@, children@.len(), path, origin + start);
            let all = node_spans(node, path, origin);
            assert(children@.len() == children.len());
            lemma_children_paths(children@, children@.len(), path, origin + start);
            assert(all[0].path == path);
            assert(path.subrange(0, path.len() as int) =~= path);
            assert forall|i: int| 0 <= i < all.len() implies leads_through(
                #[trigger] all[i].path,
                path,
            ) by {
                if i > 0 {
                    assert(all[i] == below[i - 1]);
                }
            }
            assert forall|i: int, j: int| 0 <= i < j < all.len() implies all[i].path
                != all[j].path by {
                assert(all[j] == below[j - 1]);
                if i > 0 {
                    assert(all[i] == below[i - 1]);
                }
            }
        },
    }
}

/// The paths below the first `n` children of an element at `path` lead
/// through `path` into one of these children, and no two elements below
/// them have the same path.
pub proof fn lemma_children_paths(
    children: Seq<SceneNode>,
    n: nat,
    path: Seq<usize>,
    origin: int,
)
    requires
        n <= children.len(),
        children.len() <= usize::MAX,
    ensures
        forall|i: int|
            0 <= i < children_spans(children, n, path, origin).len() ==> {
                let found = #[trigger] children_spans(children, n, path, origin)[i].path;
                leads_through(found, path) && found.len() > path.len() && found[path.len() as int]
                    < n
            },
        paths_distinct(children_spans(children, n, path, origin)),
    decreases children, n,
{
    if n > 0 {
        let before = children_spans(children, (n - 1) as nat, path, origin);
        let step = path.push((n - 1) as usize);
        let last = node_spans(children[n - 1], step, origin);
        let all = children_spans(children, n, path, origin);
        assert(all == before + last);
        lemma_children_paths(children, (n - 1) as nat, path, origin);
        lemma_node_paths(children[n - 1], step, origin);
        assert forall|i: int| before.len() <= i < all.len() implies {
            let found = #[trigger] all[i].path;
            leads_through(found, path) && found.len() > path.len() && found[path.len() as int]
                == n - 1
        } by {
            let found = all[i].path;
            assert(all[i] == last[i - before.len()]);
            assert(leads_through(found, step));
            assert(found.subrange(0, step.len() as int)[path.len() as int] == step[path.len() as int]);
            assert(found.subrange(0, path.len() as int) =~= step.subrange(0, path.len() as int));
            assert(step.subrange(0, path.len() as int) =~= path);
        }
        assert forall|i: int| 0 <= i < all.len() implies {
            let found = #[trigger] all[i].path;
            leads_through(found, path) && found.len() > path.len() && found[path.len() as int] < n
        } by {
            if i < before.len() {
                assert(all[i] == before[i]);
            }
        }
        assert forall|i: int, j: int| 0 <= i < j < all.len() implies all[i].path
            != all[j].path by {
            if j < before.len() {
                assert(all[i] == before[i] && all[j] == before[j]);
            } else if i >= before.len() {
                assert(all[i] == last[i - before.len()] && all[j] == last[j - before.len()]);
            } else {
                assert(all[i] == before[i]);
                assert(all[i].path[path.len() as int] < n - 1);
                assert(all[j].path[path.len() as int] == n - 1);
            }
        }
    }
}

/// A program to render: the scene graph and the rates of its output.
#[derive(Debug)]
pub struct Scene {
    /// The root of the scene graph. Its duration is the program's.
    pub root: SceneNode,
    /// Video frames per second.
    pub fps: u32,
    /// Audio sample frames per second.
    pub sampling_rate: u32,
    /// Width of a video frame in pixels.
    pub resolution_x: u32,
    /// Height of a video frame in pixels.
    pub resolution_y: u32,
}

/// Why a scene cannot be rendered.
#[derive(Debug, PartialEq, Eq)]
pub enum SceneError {
    /// The root of the scene graph is not an element.
    RootNotElement,
    /// The program lasts no time at all.
    ZeroDuration,
    /// Some element starts at a tick that an `i64` cannot hold.
    TimeOutOfRange,
    /// The program has more video frames than a `u32` can count.
    TooManyFrames,
}

impl Scene {
    /// The program's length in ticks; 0 if the root is no element.
    pub open spec fn duration(&self) -> int {
        match self.root {
            SceneNode::Element { duration, .. } => duration as int,
            SceneNode::Text => 0,
        }
    }

    /// The number of video frames of the program: its length at `fps` frames
    /// per second, rounded to the nearest frame.
    pub open spec fn frame_count(&self) -> int {
        units_round(self.duration(), self.fps as int)
    }

    /// The elements of the scene in document order, on the program's clock.
    pub open spec fn spans(&self) -> Seq<Span> {
        node_spans(self.root, Seq::empty(), 0)
    }

    /// No two elements of a scene have the same path.
    pub proof fn lemma_paths_distinct(self)
        ensures
            paths_distinct(self.spans()),
    {
        lemma_node_paths(self.root, Seq::empty(), 0);
    }

    /// What a scene must satisfy to be laid out in frames: its root is an
    /// element, every element starts at a tick that an `i64` can hold, and
    /// a `u32` can count its video frames.
    pub open spec fn wf(&self) -> bool {
        &&& self.root is Element
        &&& node_fits(self.root, 0)
        &&& self.frame_count() <= u32::MAX
    }

    /// What a scene must satisfy to be rendered: it can be laid out in
    /// frames, and lasts some time.
    pub open spec fn renderable(&self) -> bool {
        self.wf() && self.duration() != 0
    }

    /// Checks a scene graph and its rates, and makes a scene of them.
    ///
    /// The checks are made in the order of the variants of `SceneError`, and
    /// the first that fails decides the error.
    pub fn new(
        root: SceneNode,
        fps: u32,
        sampling_rate: u32,
        resolution_x: u32,
        resolution_y: u32,
    ) -> (made: Result<Scene, SceneError>)
        ensures
            match made {
                Ok(scene) => {
                    &&& scene.renderable()
                    &&& scene.root == root
                    &&& scene.fps == fps
                    &&& scene.sampling_rate == sampling_rate
                    &&& scene.resolution_x == resolution_x
                    &&& scene.resolution_y == resolution_y
                },
                Err(SceneError::RootNotElement) => root is Text,
                Err(SceneError::ZeroDuration) => root matches SceneNode::Element { duration, .. }
                    && duration == 0,
                Err(SceneError::TimeOutOfRange) => {
                    &&& root matches SceneNode::Element { duration, .. }
                    &&& duration != 0
                    &&& !node_fits(root, 0)
                },
                Err(SceneError::TooManyFrames) => {
                    &&& root matches SceneNode::Element { duration, .. }
                    &&& duration != 0
                    &&& node_fits(root, 0)
                    &&& units_round(duration as int, fps as int) > u32::MAX
                },
            },
    {
        let length: u64 = match &root {
            SceneNode::Text => {
                return Err(SceneError::RootNotElement);
            },
            SceneNode::Element { duration, .. } => *duration,
        };
        if length == 0 {
            return Err(SceneError::ZeroDuration);
        }
        if !root.fits(0) {
            return Err(SceneError::TimeOutOfRange);
        }
        if round_units(length, fps) > u32::MAX as u128 {
            return Err(SceneError::TooManyFrames);
        }
        Ok(Scene { root, fps, sampling_rate, resolution_x, resolution_y })
    }

    /// The program's length in ticks; 0 if the root is no element.
    pub fn length(&self) -> (ticks: u64)
        ensures
            ticks == self.duration(),
    {
        match &self.root {
            SceneNode::Element { duration, .. } => *duration,
            SceneNode::Text => 0,
        }
    }

    /// The number of video frames of the program.
    pub fn total_frames(&self) -> (frames: u32)
        requires
            self.frame_count() <= u32::MAX,
        ensures
            frames == self.frame_count(),
    {
        round_units(self.length(), self.fps) as u32
    }

    /// The elements of the scene in document order, each with the path that
    /// leads to it and its start on the program's clock.
    pub fn elements(&self) -> (elements: Vec<ElementSpan>)
        requires
            node_fits(self.root, 0),
        ensures
            spans_of(elements@) == self.spans(),
    {
        let mut path: Vec<usize> = Vec::new();
        let mut out: Vec<ElementSpan> = Vec::new();
        self.root.collect(&mut path, 0, &mut out);
        assert(spans_of(Seq::<ElementSpan>::empty()) + self.spans() =~= self.spans());
        out
    }
}

} // verus!
