//! Stack traces, the tree of frames that one thread has seen, and the tree that merges the trees
//! of all threads.
use crate::frames;
use crate::frames::Frame;
use std::collections::HashMap;
use vstd::prelude::*;

verus! {

/// A representative for an instruction pointer in the back trace.
#[derive(Debug)]
pub struct TraceEdge {
    /// The instruction pointer, pointing to the current instruction
    instruction_pointer: u64,
    /// Tree-relative index of this edge
    index: usize,
    /// Sorted list of children
    children: Vec<TraceEdge>,
}

impl TraceEdge {
    /// The edge and everything below it represent `tree` from index `self.index` downwards.
    spec fn ok(self, tree: Seq<Frame>) -> bool
        decreases self,
    {
        &&& self.index <= tree.len()
        &&& forall|i: int, j: int|
            0 <= i < j < self.children@.len() ==> (#[trigger] self.children@[i]).instruction_pointer
                < (#[trigger] self.children@[j]).instruction_pointer
        &&& forall|i: int|
            0 <= i < self.children@.len() ==> {
                &&& 0 < (#[trigger] self.children@[i]).index <= tree.len()
                &&& tree[self.children@[i].index - 1] == (Frame {
                    ip: self.children@[i].instruction_pointer,
                    parent: self.index as nat,
                })
                &&& self.children@[i].ok(tree)
            }
        &&& forall|k: int|
            0 <= k < tree.len() && (#[trigger] tree[k]).parent == self.index ==> self.has_child(
                tree[k].ip,
            )
    }

    /// Some child has the instruction pointer `ip`.
    spec fn has_child(self, ip: u64) -> bool {
        exists|i: int|
            0 <= i < self.children@.len() && (#[trigger] self.children@[i]).instruction_pointer == ip
    }
}

/// Frames added elsewhere leave a subtree as it is.
proof fn lemma_ok_extends(edge: TraceEdge, earlier: Seq<Frame>, later: Seq<Frame>)
    requires
        frames::tree_ok(earlier),
        frames::tree_ok(later),
        frames::extends(earlier, later),
        edge.ok(earlier),
        forall|k: int|
            earlier.len() <= k < later.len() ==> !frames::under(
                later,
                edge.index as nat,
                (#[trigger] later[k]).parent,
            ),
    ensures
        edge.ok(later),
    decreases edge,
{
    assert forall|k: int| 0 <= k < earlier.len() implies later[k] == earlier[k] by {
        assert(later[k] == later.take(earlier.len() as int)[k]);
    }
    assert forall|i: int| 0 <= i < edge.children@.len() implies {
        &&& 0 < (#[trigger] edge.children@[i]).index <= later.len()
        &&& later[edge.children@[i].index - 1] == (Frame {
            ip: edge.children@[i].instruction_pointer,
            parent: edge.index as nat,
        })
        &&& edge.children@[i].ok(later)
    } by {
        let child = edge.children@[i];
        assert forall|k: int| earlier.len() <= k < later.len() implies !frames::under(
            later,
            child.index as nat,
            (#[trigger] later[k]).parent,
        ) by {
            if frames::under(later, child.index as nat, later[k].parent) {
                frames::lemma_under_child(later, child.index as nat, later[k].parent);
            }
        }
        lemma_ok_extends(child, earlier, later);
    }
    assert forall|k: int|
        0 <= k < later.len() && (#[trigger] later[k]).parent == edge.index implies edge.has_child(
        later[k].ip,
    ) by {
        if k >= earlier.len() {
            assert(frames::under(later, edge.index as nat, edge.index as nat));
        } else {
            assert(earlier[k].parent == edge.index);
        }
    }
}

/// Search the sorted `children` for `ip`: its position, or where it has to be inserted.
fn find_child(children: &Vec<TraceEdge>, ip: u64) -> (found: Result<usize, usize>)
    requires
        forall|i: int, j: int|
            0 <= i < j < children@.len() ==> (#[trigger] children@[i]).instruction_pointer < (
            #[trigger] children@[j]).instruction_pointer,
    ensures
        match found {
            Ok(position) => position < children@.len()
                && children@[position as int].instruction_pointer == ip,
            Err(position) => {
                &&& position <= children@.len()
                &&& forall|i: int|
                    0 <= i < position ==> (#[trigger] children@[i]).instruction_pointer < ip
                &&& forall|i: int|
                    position <= i < children@.len() ==> (#[trigger] children@[i]).instruction_pointer
                        > ip
            },
        },
{
    let mut low: usize = 0;
    let mut high: usize = children.len();
    while low < high
        invariant
            low <= high <= children@.len(),
            forall|i: int, j: int|
                0 <= i < j < children@.len() ==> (#[trigger] children@[i]).instruction_pointer < (
                #[trigger] children@[j]).instruction_pointer,
            forall|i: int| 0 <= i < low ==> (#[trigger] children@[i]).instruction_pointer < ip,
            forall|i: int|
                high <= i < children@.len() ==> (#[trigger] children@[i]).instruction_pointer > ip,
        decreases high - low,
    {
        let middle: usize = low + (high - low) / 2;
        let candidate: u64 = children[middle].instruction_pointer;
        if candidate == ip {
            return Ok(middle);
        } else if candidate < ip {
            low = middle + 1;
        } else {
            high = middle;
        }
    }
    Err(low)
}

/// What a callback was told of one new frame, and what it answered.
pub struct FrameCall {
    /// Instruction pointer of the new frame.
    pub ip: u64,
    /// Index of its parent frame.
    pub parent: usize,
    /// Index that the new frame was given.
    pub index: usize,
    /// Whether to go on with the rest of the trace.
    pub proceed: bool,
}

/// Receives each newly encountered frame.
pub trait FrameCallback {
    /// The calls made so far.
    spec fn calls(&self) -> Seq<FrameCall>;

    /// Take note of a new frame. Returns `false` to give up on the trace.
    fn call(&mut self, ip: u64, parent: usize, index: usize) -> (proceed: bool)
        ensures
            final(self).calls() == old(self).calls().push(
                (FrameCall { ip, parent, index, proceed }),
            ),
    ;
}

/// `call` announces the frame that stands at position `at` of `tree`.
pub open spec fn announces(call: FrameCall, tree: Seq<Frame>, at: int) -> bool {
    &&& call.ip == tree[at].ip
    &&& call.parent == tree[at].parent
    &&& call.index == at + 1
}

/// How interning `ips` below `parent` ends: every frame that `tree` lacked is announced once, in
/// order, until a call answers `false`. The tree afterwards is `now`, and `index` is the index of
/// the innermost frame, or `None` where a call gave up.
pub open spec fn indexed(
    tree: Seq<Frame>,
    parent: nat,
    ips: Seq<u64>,
    before: Seq<FrameCall>,
    after: Seq<FrameCall>,
    now: Seq<Frame>,
    index: Option<usize>,
) -> bool {
    let (full, innermost) = frames::intern_path(tree, parent, ips);
    let made = after.len() - before.len();
    &&& 0 <= made <= full.len() - tree.len()
    &&& after.take(before.len() as int) == before
    &&& forall|j: int|
        before.len() <= j < after.len() ==> announces(
            #[trigger] after[j],
            full,
            tree.len() + j - before.len(),
        )
    &&& forall|j: int| before.len() <= j < after.len() - 1 ==> (#[trigger] after[j]).proceed
    &&& match index {
        Some(index) => {
            &&& made == full.len() - tree.len()
            &&& made > 0 ==> after.last().proceed
            &&& now == full
            &&& index == innermost
        },
        None => {
            &&& made > 0 && !after.last().proceed
            &&& now == full.take(tree.len() + made)
        },
    }
}

impl TraceEdge {
    /// Find or insert the frames `ips[from..]` below `edge`.
    #[verifier::rlimit(50)]
    fn descend<C: FrameCallback>(
        edge: &mut TraceEdge,
        ips: &Vec<u64>,
        from: usize,
        next: &mut usize,
        callback: &mut C,
        Ghost(tree): Ghost<Seq<Frame>>,
    ) -> (result: (Option<usize>, Ghost<Seq<Frame>>))
        requires
            from <= ips@.len(),
            frames::tree_ok(tree),
            old(edge).ok(tree),
            *old(next) == tree.len() + 1,
            frames::intern_path(tree, old(edge).index as nat, ips@.skip(from as int)).0.len()
                < usize::MAX,
        ensures
            indexed(
                tree,
                old(edge).index as nat,
                ips@.skip(from as int),
                old(callback).calls(),
                final(callback).calls(),
                result.1@,
                result.0,
            ),
            frames::tree_ok(result.1@),
            final(edge).ok(result.1@),
            final(edge).index == old(edge).index,
            final(edge).instruction_pointer == old(edge).instruction_pointer,
            *final(next) == result.1@.len() + 1,
        decreases ips@.len() - from,
    {
        let ghost rest = ips@.skip(from as int);
        let ghost before = callback.calls();
        let ghost parent = edge.index as nat;
        if from == ips.len() {
            proof {
                assert(rest.len() == 0);
                assert(before.take(before.len() as int) =~= before);
            }
            return (Some(edge.index), Ghost(tree));
        }
        let ip: u64 = ips[from];
        let ghost frame = Frame { ip, parent };
        proof {
            frames::lemma_intern(tree, frame);
            frames::lemma_intern_path(tree, parent, rest);
            assert(rest.drop_first() =~= ips@.skip(from + 1));
            assert(rest[0] == ip);
        }
        let ghost (tree1, child_index) = frames::intern(tree, frame);
        let ghost (full, innermost) = frames::intern_path(tree, parent, rest);
        let position: usize = match find_child(&edge.children, ip) {
            Ok(position) => {
                proof {
                    frames::lemma_index_unique(
                        tree,
                        edge.children@[position as int].index as nat,
                    );
                }
                position
            },
            Err(position) => {
                proof {
                    if tree.contains(frame) {
                        let k = tree.index_of(frame);
                        assert(tree[k].parent == edge.index);
                        assert(edge.has_child(ip));
                        assert(false);
                    }
                    frames::lemma_intern_path(tree1, child_index, rest.drop_first());
                }
                let index: usize = *next;
                *next = *next + 1;
                let ghost edge0 = *edge;
                edge.children.insert(
                    position,
                    TraceEdge { instruction_pointer: ip, index, children: Vec::new() },
                );
                proof {
                    lemma_inserted(edge0, *edge, position as int, tree, ip);
                }
                let proceed: bool = callback.call(ip, edge.index, index);
                if !proceed {
                    proof {
                        let after = callback.calls();
                        assert(after.take(before.len() as int) =~= before);
                        assert(full.take(tree1.len() as int) =~= tree1);
                        assert(full[tree.len() as int] == full.take(tree1.len() as int)[tree.len() as int]);
                    }
                    return (None, Ghost(tree1));
                }
                position
            },
        };
        let ghost edge1 = *edge;
        let ghost before1 = callback.calls();
        let result = TraceEdge::descend(
            &mut edge.children[position],
            ips,
            from + 1,
            next,
            callback,
            Ghost(tree1),
        );
        let ghost now = result.1@;
        let ghost after = callback.calls();
        proof {
            frames::lemma_intern_path(tree1, child_index, rest.drop_first());
            assert(frames::extends(tree1, now) && frames::extends(now, full)) by {
                frames::lemma_take_ok(full, now.len());
                assert(now =~= full.take(now.len() as int));
                assert(now.take(tree1.len() as int) =~= full.take(tree1.len() as int));
            }
            assert(before1.take(before.len() as int) =~= before);
            lemma_descended(edge1, *edge, position as int, tree1, now, full);
            assert(after.take(before.len() as int) =~= after.take(before1.len() as int).take(
                before.len() as int,
            ));
            assert forall|j: int| before.len() <= j < after.len() implies announces(
                #[trigger] after[j],
                full,
                tree.len() + j - before.len(),
            ) by {
                if j < before1.len() {
                    assert(after[j] == after.take(before1.len() as int)[j]);
                    assert(full[tree.len() as int] == full.take(tree1.len() as int)[tree.len() as int]);
                }
            }
            assert forall|j: int| before.len() <= j < after.len() - 1 implies (#[trigger] after[j]).proceed by {
                if j < before1.len() {
                    assert(after[j] == after.take(before1.len() as int)[j]);
                }
            }
            if after.len() == before1.len() && before1.len() > before.len() {
                assert(after =~= after.take(before1.len() as int));
            }
        }
        result
    }
}

/// A new childless edge at the place that the search gave keeps the edge well-formed.
proof fn lemma_inserted(old_edge: TraceEdge, edge: TraceEdge, position: int, tree: Seq<Frame>, ip: u64)
    requires
        frames::tree_ok(tree),
        old_edge.ok(tree),
        edge.index == old_edge.index,
        0 <= position <= old_edge.children@.len(),
        edge.children@.len() == old_edge.children@.len() + 1,
        edge.children@ == old_edge.children@.insert(position, edge.children@[position]),
        edge.children@[position].instruction_pointer == ip,
        edge.children@[position].index == tree.len() + 1,
        edge.children@[position].children@.len() == 0,
        forall|i: int|
            0 <= i < position ==> (#[trigger] old_edge.children@[i]).instruction_pointer < ip,
        forall|i: int|
            position <= i < old_edge.children@.len() ==> (
            #[trigger] old_edge.children@[i]).instruction_pointer > ip,
        !tree.contains((Frame { ip, parent: old_edge.index as nat })),
    ensures
        edge.ok(tree.push((Frame { ip, parent: old_edge.index as nat }))),
{
    let frame = Frame { ip, parent: old_edge.index as nat };
    let tree1 = tree.push(frame);
    frames::lemma_intern(tree, frame);
    let old_children = old_edge.children@;
    let children = edge.children@;
    assert forall|i: int| 0 <= i < children.len() && i != position implies #[trigger] children[i]
        == old_children[if i < position { i } else { i - 1 }] by {}
    assert forall|i: int| 0 <= i < children.len() implies {
        &&& 0 < (#[trigger] children[i]).index <= tree1.len()
        &&& tree1[children[i].index - 1] == (Frame {
            ip: children[i].instruction_pointer,
            parent: edge.index as nat,
        })
        &&& children[i].ok(tree1)
    } by {
        if i == position {
            assert forall|k: int| 0 <= k < tree1.len() implies (#[trigger] tree1[k]).parent
                != children[i].index by {}
            assert(children[i].ok(tree1));
        } else {
            let child = children[i];
            let at = if i < position { i } else { i - 1 };
            assert(child == old_children[at]);
            if frames::under(tree1, child.index as nat, edge.index as nat) {
                frames::lemma_under_bound(tree1, child.index as nat, edge.index as nat);
            }
            lemma_ok_extends(child, tree, tree1);
        }
    }
    assert forall|k: int|
        0 <= k < tree1.len() && (#[trigger] tree1[k]).parent == edge.index implies edge.has_child(
        tree1[k].ip,
    ) by {
        if k == tree.len() {
            assert(children[position].instruction_pointer == ip);
        } else {
            assert(tree[k].parent == old_edge.index);
            assert(old_edge.has_child(tree[k].ip));
            let i = choose|i: int|
                0 <= i < old_children.len() && (#[trigger] old_children[i]).instruction_pointer
                    == tree[k].ip;
            if i < position {
                assert(children[i] == old_children[i]);
            } else {
                assert(children[i + 1] == old_children[i]);
            }
        }
    }
    assert(edge.ok(tree1));
}

/// Growing one child keeps the edge well-formed.
proof fn lemma_descended(
    old_edge: TraceEdge,
    edge: TraceEdge,
    position: int,
    tree: Seq<Frame>,
    now: Seq<Frame>,
    full: Seq<Frame>,
)
    requires
        frames::tree_ok(tree),
        frames::tree_ok(now),
        frames::tree_ok(full),
        frames::extends(tree, now),
        frames::extends(now, full),
        old_edge.ok(tree),
        edge.index == old_edge.index,
        0 <= position < old_edge.children@.len(),
        edge.children@ == old_edge.children@.update(position, edge.children@[position]),
        edge.children@[position].index == old_edge.children@[position].index,
        edge.children@[position].instruction_pointer
            == old_edge.children@[position].instruction_pointer,
        edge.children@[position].ok(now),
        forall|k: int|
            tree.len() <= k < full.len() ==> frames::under(
                full,
                old_edge.children@[position].index as nat,
                (#[trigger] full[k]).parent,
            ),
    ensures
        edge.ok(now),
{
    let old_children = old_edge.children@;
    let children = edge.children@;
    let grown = children[position].index as nat;
    assert forall|k: int| 0 <= k < tree.len() implies now[k] == tree[k] by {
        assert(now[k] == now.take(tree.len() as int)[k]);
    }
    assert forall|k: int| tree.len() <= k < now.len() implies frames::under(
        now,
        grown,
        (#[trigger] now[k]).parent,
    ) by {
        assert(full[k] == full.take(now.len() as int)[k]);
        frames::lemma_under_extends(now, full, grown, now[k].parent);
    }
    assert forall|i: int| 0 <= i < children.len() implies {
        &&& 0 < (#[trigger] children[i]).index <= now.len()
        &&& now[children[i].index - 1] == (Frame {
            ip: children[i].instruction_pointer,
            parent: edge.index as nat,
        })
        &&& children[i].ok(now)
    } by {
        assert(old_children[i].ok(tree));
        if i != position {
            let child = old_children[i];
            assert(children[i] == child);
            assert(child.instruction_pointer != old_children[position].instruction_pointer);
            assert(child.index != grown);
            assert forall|k: int| tree.len() <= k < now.len() implies !frames::under(
                now,
                child.index as nat,
                (#[trigger] now[k]).parent,
            ) by {
                frames::lemma_under_disjoint(now, grown, child.index as nat, now[k].parent);
            }
            lemma_ok_extends(child, tree, now);
        }
    }
    assert forall|k: int|
        0 <= k < now.len() && (#[trigger] now[k]).parent == edge.index implies edge.has_child(
        now[k].ip,
    ) by {
        if k >= tree.len() {
            frames::lemma_under_bound(now, grown, now[k].parent);
        } else {
            assert(tree[k].parent == old_edge.index);
            assert(old_edge.has_child(tree[k].ip));
            let i = choose|i: int|
                0 <= i < old_children.len() && (#[trigger] old_children[i]).instruction_pointer
                    == tree[k].ip;
            assert(children[i].instruction_pointer == old_children[i].instruction_pointer);
        }
    }
    assert(edge.ok(now));
}

/// Largest number of frames that a trace holds.
pub const TRACE_MAX_SIZE: usize = 64;

/// A size-limited stack trace composed of instruction pointers
pub struct Trace {
    size: usize,
    skip: usize,
    data: [u64; TRACE_MAX_SIZE],
}

/// `frames` without the null pointers at its end.
pub open spec fn trimmed(frames: Seq<u64>) -> Seq<u64>
    decreases frames.len(),
{
    if frames.len() > 0 && frames.last() == 0 {
        trimmed(frames.drop_last())
    } else {
        frames
    }
}

/// The instruction pointers of a trace that lists the innermost frame first, from the outermost
/// frame to the innermost, without null pointers.
pub open spec fn call_path(frames: Seq<u64>) -> Seq<u64> {
    frames.reverse().filter(|ip: u64| ip != 0)
}

/// The frames of a captured stack that a trace keeps: those that were written, without nulls at
/// the end, less `skip` frames on either side. Nothing where the capture failed.
pub open spec fn kept(data: Seq<u64>, size: int, skip: int) -> Option<Seq<u64>> {
    if size < 0 {
        Some(Seq::empty())
    } else {
        let frames = trimmed(data.take(size));
        if 2 * skip <= frames.len() {
            Some(frames.subrange(skip, frames.len() - skip))
        } else {
            None
        }
    }
}

impl View for Trace {
    type V = Option<Seq<u64>>;

    /// The frames of the trace, innermost first, or `None` where fewer frames were captured than
    /// were to be skipped.
    closed spec fn view(&self) -> Option<Seq<u64>> {
        if self.skip <= self.size {
            Some(self.data@.subrange(self.skip as int, self.size as int))
        } else {
            None
        }
    }
}

impl Trace {
    /// The frames lie within the buffer.
    pub closed spec fn wf(&self) -> bool {
        self.size <= TRACE_MAX_SIZE
    }

    /// A well-formed trace holds no more frames than fit into it.
    pub proof fn lemma_length(&self)
        requires
            self.wf(),
        ensures
            self@ matches Some(frames) ==> frames.len() <= TRACE_MAX_SIZE,
    {
    }

    /// Construct a new trace from a captured call stack: `size` instruction pointers in `data`,
    /// innermost first, or a negative `size` where the capture failed.
    pub fn new(skip: usize, data: [u64; TRACE_MAX_SIZE], size: i32) -> (trace: Self)
        requires
            size <= TRACE_MAX_SIZE,
        ensures
            trace.wf(),
            trace@ == kept(data@, size as int, skip as int),
    {
        let mut trace = Trace { size: 0, skip: 0, data };
        trace.fill(skip, data, size);
        trace
    }

    /// Fill a trace from a captured call stack.
    pub fn fill(&mut self, skip: usize, data: [u64; TRACE_MAX_SIZE], size: i32)
        requires
            size <= TRACE_MAX_SIZE,
        ensures
            final(self).wf(),
            final(self)@ == kept(data@, size as int, skip as int),
    {
        self.data = data;
        if size < 0 {
            self.size = 0;
            self.skip = 0;
            assert(self@ == Some(Seq::<u64>::empty()));
        } else {
            let mut end: usize = size as usize;
            assert(data@.take(end as int).len() == end);
            while end > 0 && self.data[end - 1] == 0
                invariant
                    end <= size <= TRACE_MAX_SIZE,
                    self.data == data,
                    trimmed(data@.take(end as int)) == trimmed(data@.take(size as int)),
                decreases end,
            {
                end -= 1;
                assert(data@.take(end + 1).drop_last() =~= data@.take(end as int));
            }
            let ghost frames = data@.take(end as int);
            assert(trimmed(data@.take(size as int)) == frames);
            self.size = end.saturating_sub(skip);
            self.skip = skip;
            assert(2 * skip <= end ==> self.data@.subrange(skip as int, end - skip)
                =~= frames.subrange(skip as int, end - skip));
        }
    }

    /// Whether the trace has frames to read, be it none.
    pub fn readable(&self) -> (readable: bool)
        ensures
            readable == (self@ is Some),
    {
        self.skip <= self.size
    }

    /// The instruction pointers of the trace, innermost first.
    pub fn deref(&self) -> (frames: &[u64])
        requires
            self.wf(),
            self@ is Some,
        ensures
            frames@ == self@->0,
    {
        vstd::slice::slice_subrange(self.data.as_slice(), self.skip, self.size)
    }
}

/// A tree of trace edges
pub struct TraceTree {
    /// The root of the tree
    root: TraceEdge,
    /// Next index to assign.
    index: usize,
    /// The frames in the order of their indices.
    frames: Ghost<Seq<Frame>>,
}

impl View for TraceTree {
    type V = Seq<Frame>;

    closed spec fn view(&self) -> Seq<Frame> {
        self.frames@
    }
}

impl Default for TraceTree {
    fn default() -> (tree: Self)
        ensures
            tree.wf(),
            tree@ == Seq::<Frame>::empty(),
    {
        TraceTree {
            root: TraceEdge { instruction_pointer: 0, index: 0, children: Vec::new() },
            index: 1,
            frames: Ghost(Seq::empty()),
        }
    }
}

/// The last call among `after` that was not yet among `before` gave up.
pub open spec fn gave_up(before: Seq<FrameCall>, after: Seq<FrameCall>) -> bool {
    after.len() > before.len() && !after.last().proceed
}

impl TraceTree {
    /// The edges below the root represent the frames, and the next index is the one after them.
    pub closed spec fn wf(&self) -> bool {
        &&& frames::tree_ok(self.frames@)
        &&& self.root.index == 0
        &&& self.root.ok(self.frames@)
        &&& self.index == self.frames@.len() + 1
    }

    /// The frames of a well-formed tree are well-formed.
    pub proof fn lemma_wf(&self)
        requires
            self.wf(),
        ensures
            frames::tree_ok(self@),
            self@.len() < usize::MAX,
    {
    }

    /// The index that the next new frame gets.
    pub fn next_index(&self) -> (index: usize)
        requires
            self.wf(),
        ensures
            index == self@.len() + 1,
    {
        self.index
    }

    /// Obtain the index for the current instruction outside of the tracing logic
    ///
    /// Calls the callback for any newly encountered instruction pointer, or a new path. Where a
    /// call answers `false`, the rest of the trace is dropped and the result is 0.
    pub fn index<C: FrameCallback>(&mut self, trace: &Trace, callback: &mut C) -> (index: usize)
        requires
            old(self).wf(),
            trace.wf(),
            trace@ is Some,
            frames::intern_path(old(self)@, 0, call_path(trace@->0)).0.len() < usize::MAX,
        ensures
            final(self).wf(),
            indexed(
                old(self)@,
                0,
                call_path(trace@->0),
                old(callback).calls(),
                final(callback).calls(),
                final(self)@,
                if gave_up(old(callback).calls(), final(callback).calls()) {
                    None
                } else {
                    Some(index)
                },
            ),
            gave_up(old(callback).calls(), final(callback).calls()) ==> index == 0,
    {
        let ips = outermost_first(trace.deref());
        proof {
            trace.lemma_length();
            trace@->0.reverse().lemma_filter_len(|ip: u64| ip != 0);
        }
        self.index_path(&ips, callback)
    }

    /// As [`TraceTree::index`], for the instruction pointers from the outermost frame to the
    /// innermost.
    pub fn index_path<C: FrameCallback>(&mut self, ips: &Vec<u64>, callback: &mut C) -> (index:
        usize)
        requires
            old(self).wf(),
            ips@.len() <= TRACE_MAX_SIZE,
            frames::intern_path(old(self)@, 0, ips@).0.len() < usize::MAX,
        ensures
            final(self).wf(),
            indexed(
                old(self)@,
                0,
                ips@,
                old(callback).calls(),
                final(callback).calls(),
                final(self)@,
                if gave_up(old(callback).calls(), final(callback).calls()) {
                    None
                } else {
                    Some(index)
                },
            ),
            gave_up(old(callback).calls(), final(callback).calls()) ==> index == 0,
    {
        assert(ips@.skip(0) =~= ips@);
        let ghost tree = self.frames@;
        let result = TraceEdge::descend(
            &mut self.root,
            ips,
            0,
            &mut self.index,
            callback,
            Ghost(tree),
        );
        self.frames = result.1;
        match result.0 {
            Some(index) => index,
            None => 0,
        }
    }
}

/// The instruction pointers of a trace from the outermost frame to the innermost, without nulls.
pub fn outermost_first(frames: &[u64]) -> (ips: Vec<u64>)
    ensures
        ips@ == call_path(frames@),
{
    let mut ips: Vec<u64> = Vec::new();
    let mut left: usize = frames.len();
    let ghost reversed = frames@.reverse();
    let ghost non_null = |ip: u64| ip != 0;
    assert(reversed.take(0).filter(non_null) =~= Seq::<u64>::empty()) by {
        reveal(Seq::filter);
    }
    while left > 0
        invariant
            left <= frames@.len(),
            reversed == frames@.reverse(),
            non_null == (|ip: u64| ip != 0),
            ips@ == reversed.take(frames@.len() - left).filter(non_null),
        decreases left,
    {
        left -= 1;
        let ip: u64 = frames[left];
        let ghost seen = frames@.len() - left;
        proof {
            reveal(Seq::filter);
            assert(reversed.take(seen).drop_last() =~= reversed.take(seen - 1));
            assert(reversed.take(seen).last() == ip);
        }
        if ip != 0 {
            ips.push(ip);
        }
    }
    assert(reversed.take(frames@.len() as int) =~= reversed);
    ips
}

/// A node in a tree of stack traces, with a list of children and their instruction pointer
#[derive(Debug)]
pub struct GlobalTraceEdge {
    /// Children, sorted by instruction pointer
    children: Vec<(u64, usize)>,
}

impl GlobalTraceEdge {
    /// The node lists exactly the children that the frame with index `index` has in `tree`.
    spec fn ok(self, tree: Seq<Frame>, index: nat) -> bool {
        &&& sorted(self.children@)
        &&& forall|i: int|
            0 <= i < self.children@.len() ==> {
                &&& 0 < (#[trigger] self.children@[i]).1 <= tree.len()
                &&& tree[self.children@[i].1 - 1] == (Frame {
                    ip: self.children@[i].0,
                    parent: index,
                })
            }
        &&& forall|k: int|
            0 <= k < tree.len() && (#[trigger] tree[k]).parent == index ==> lists(
                self.children@,
                tree[k].ip,
            )
    }
}

/// Sorted by instruction pointer, each of which occurs once.
spec fn sorted(children: Seq<(u64, usize)>) -> bool {
    forall|i: int, j: int|
        0 <= i < j < children.len() ==> (#[trigger] children[i]).0 < (#[trigger] children[j]).0
}

/// Some child has the instruction pointer `ip`.
spec fn lists(children: Seq<(u64, usize)>, ip: u64) -> bool {
    exists|i: int| 0 <= i < children.len() && (#[trigger] children[i]).0 == ip
}

/// Search the sorted `children` for `ip`: its position, or where it has to be inserted.
fn find_pair(children: &Vec<(u64, usize)>, ip: u64) -> (found: Result<usize, usize>)
    requires
        sorted(children@),
    ensures
        match found {
            Ok(position) => position < children@.len() && children@[position as int].0 == ip,
            Err(position) => {
                &&& position <= children@.len()
                &&& forall|i: int| 0 <= i < position ==> (#[trigger] children@[i]).0 < ip
                &&& forall|i: int|
                    position <= i < children@.len() ==> (#[trigger] children@[i]).0 > ip
            },
        },
{
    let mut low: usize = 0;
    let mut high: usize = children.len();
    while low < high
        invariant
            low <= high <= children@.len(),
            sorted(children@),
            forall|i: int| 0 <= i < low ==> (#[trigger] children@[i]).0 < ip,
            forall|i: int| high <= i < children@.len() ==> (#[trigger] children@[i]).0 > ip,
        decreases high - low,
    {
        let middle: usize = low + (high - low) / 2;
        let candidate: u64 = children[middle].0;
        if candidate == ip {
            return Ok(middle);
        } else if candidate < ip {
            low = middle + 1;
        } else {
            high = middle;
        }
    }
    Err(low)
}

/// Tool to translate thread-local trace trees to a global representation.
pub struct GlobalTraceTree {
    /// thread_id -> global_trace_index of each local_trace_index, the first of which is 1
    local_to_global: HashMap<usize, Vec<usize>>,
    /// global_trace_index -> child of global_trace_index
    global_parent: Vec<GlobalTraceEdge>,
    /// The frames in the order of their global indices.
    frames: Ghost<Seq<Frame>>,
}

impl View for GlobalTraceTree {
    type V = Seq<Frame>;

    closed spec fn view(&self) -> Seq<Frame> {
        self.frames@
    }
}

impl Default for GlobalTraceTree {
    fn default() -> (tree: Self)
        ensures
            tree.wf(),
            tree@ == Seq::<Frame>::empty(),
            forall|thread_id: usize| #[trigger] tree.locals(thread_id) == Seq::<usize>::empty(),
    {
        broadcast use vstd::std_specs::hash::group_hash_axioms;

        let mut global_parent: Vec<GlobalTraceEdge> = Vec::new();
        global_parent.push(GlobalTraceEdge { children: Vec::new() });
        GlobalTraceTree { local_to_global: HashMap::new(), global_parent, frames: Ghost(Seq::empty()) }
    }
}

/// The global index of the local frame `local`, of which `locals` lists those from 1 upwards; 0
/// for the root and for a frame that is not known.
pub open spec fn to_global(locals: Seq<usize>, local: nat) -> nat {
    if 0 < local <= locals.len() {
        locals[local - 1] as nat
    } else {
        0
    }
}

impl GlobalTraceTree {
    /// The global indices of the frames that the thread has pushed, in the order of their local
    /// indices.
    pub closed spec fn locals(&self, thread_id: usize) -> Seq<usize> {
        if self.local_to_global@.contains_key(thread_id) {
            self.local_to_global@[thread_id]@
        } else {
            Seq::empty()
        }
    }

    /// The nodes represent the frames, and local frames stand for frames that exist.
    pub closed spec fn wf(&self) -> bool {
        &&& frames::tree_ok(self.frames@)
        &&& self.global_parent@.len() == self.frames@.len() + 1
        &&& forall|p: int|
            0 <= p < self.global_parent@.len() ==> (#[trigger] self.global_parent@[p]).ok(
                self.frames@,
                p as nat,
            )
        &&& forall|thread_id: usize, i: int|
            0 <= i < self.locals(thread_id).len() ==> 0 < #[trigger] self.locals(thread_id)[i]
                <= self.frames@.len()
    }

    /// The frames of a well-formed tree are well-formed, and local frames stand for them.
    pub proof fn lemma_wf(&self)
        requires
            self.wf(),
        ensures
            frames::tree_ok(self@),
            self@.len() < usize::MAX,
            forall|thread_id: usize, i: int|
                0 <= i < self.locals(thread_id).len() ==> 0 < #[trigger] self.locals(thread_id)[i]
                    <= self@.len(),
    {
        assert(self.global_parent.len() == self.frames@.len() + 1);
    }

    /// Push a new thread-local stack frame to the global tree
    ///
    /// The arguments are:
    /// * `thread_id`: The ID of the thread adding the stack frame
    /// * `local_parent`: The thread-local parent stack frame
    /// * `ip`: The instruction pointer for the stack frame we're adding.
    ///
    /// Returns `true` if the stack frame was not encountered before.
    pub fn push(&mut self, thread_id: usize, local_parent: usize, ip: u64) -> (updated: bool)
        requires
            old(self).wf(),
            local_parent <= old(self).locals(thread_id).len(),
        ensures
            final(self).wf(),
            ({
                let parent = to_global(old(self).locals(thread_id), local_parent as nat);
                let (tree, index) = frames::intern(old(self)@, (Frame { ip, parent }));
                &&& final(self)@ == tree
                &&& final(self).locals(thread_id) == old(self).locals(thread_id).push(
                    index as usize,
                )
                &&& index <= usize::MAX
                &&& updated == !old(self)@.contains((Frame { ip, parent }))
            }),
            forall|other: usize|
                other != thread_id ==> #[trigger] final(self).locals(other) == old(self).locals(
                    other,
                ),
    {
        self.push_frame(thread_id, local_parent, ip).0
    }

    /// As [`GlobalTraceTree::push`], and returns the global indices of the parent and of the
    /// frame too.
    #[verifier::rlimit(50)]
    pub fn push_frame(&mut self, thread_id: usize, local_parent: usize, ip: u64) -> (pushed: (
        bool,
        usize,
        usize,
    ))
        requires
            old(self).wf(),
            local_parent <= old(self).locals(thread_id).len(),
        ensures
            final(self).wf(),
            ({
                let parent = to_global(old(self).locals(thread_id), local_parent as nat);
                let (tree, index) = frames::intern(old(self)@, (Frame { ip, parent }));
                &&& final(self)@ == tree
                &&& final(self).locals(thread_id) == old(self).locals(thread_id).push(pushed.2)
                &&& pushed.0 == !old(self)@.contains((Frame { ip, parent }))
                &&& pushed.1 == parent
                &&& pushed.2 == index
            }),
            forall|other: usize|
                other != thread_id ==> #[trigger] final(self).locals(other) == old(self).locals(
                    other,
                ),
    {
        broadcast use vstd::std_specs::hash::group_hash_axioms;

        let ghost before = *self;
        let ghost tree = self.frames@;
        let mut locals: Vec<usize> = match self.local_to_global.remove(&thread_id) {
            Some(locals) => locals,
            None => Vec::new(),
        };
        assert(locals@ == before.locals(thread_id));
        // Determine the global ID of the local parent
        let global_parent: usize = if local_parent == 0 {
            0
        } else {
            locals[local_parent - 1]
        };
        let ghost frame = Frame { ip, parent: global_parent as nat };
        proof {
            if local_parent > 0 {
                assert(before.locals(thread_id)[local_parent - 1] <= tree.len());
            }
            frames::lemma_intern(tree, frame);
            assert(self.global_parent@[global_parent as int].ok(tree, global_parent as nat));
        }
        // Determine the position of the child...
        let (updated, index): (bool, usize) = match find_pair(
            &self.global_parent[global_parent].children,
            ip,
        ) {
            // Found -> not updated, global index
            Ok(position) => {
                let index: usize = self.global_parent[global_parent].children[position].1;
                proof {
                    frames::lemma_index_unique(tree, index as nat);
                }
                (false, index)
            },
            // Not found -> updates, insert new global index
            Err(position) => {
                proof {
                    if tree.contains(frame) {
                        let k = tree.index_of(frame);
                        assert(tree[k].parent == global_parent);
                        assert(lists(self.global_parent@[global_parent as int].children@, ip));
                        assert(false);
                    }
                }
                let index: usize = self.global_parent.len();
                self.global_parent.push(GlobalTraceEdge { children: Vec::new() });
                self.global_parent[global_parent].children.insert(position, (ip, index));
                self.frames = Ghost(tree.push(frame));
                proof {
                    lemma_added(
                        before.global_parent@,
                        self.global_parent@,
                        position as int,
                        tree,
                        frame,
                    );
                }
                (true, index)
            },
        };
        // Remember the mapping for future lookups
        locals.push(index);
        self.local_to_global.insert(thread_id, locals);
        proof {
            assert(self.locals(thread_id) == before.locals(thread_id).push(index));
            assert forall|other: usize| other != thread_id implies #[trigger] self.locals(other)
                == before.locals(other) by {}
            assert forall|t: usize, i: int| 0 <= i < self.locals(t).len() implies 0
                < #[trigger] self.locals(t)[i] <= self.frames@.len() by {
                if t == thread_id {
                    if i < before.locals(t).len() {
                        assert(self.locals(t)[i] == before.locals(t)[i]);
                    }
                } else {
                    assert(self.locals(t)[i] == before.locals(t)[i]);
                }
            }
        }
        (updated, global_parent, index)
    }

    /// Lookup a thread-local parent index and return its global index
    ///
    /// The lookup must be preceeded with a number of `push` operations to populate the tree.
    pub fn lookup(&self, thread_id: usize, local_parent: usize) -> (global: usize)
        requires
            self.wf(),
        ensures
            global == to_global(self.locals(thread_id), local_parent as nat),
    {
        broadcast use vstd::std_specs::hash::group_hash_axioms;

        match self.local_to_global.get(&thread_id) {
            Some(locals) => if 0 < local_parent && local_parent <= locals.len() {
                locals[local_parent - 1]
            } else {
                0
            },
            None => 0,
        }
    }

    /// The number of frames that the thread has pushed.
    pub fn local_count(&self, thread_id: usize) -> (count: usize)
        requires
            self.wf(),
        ensures
            count == self.locals(thread_id).len(),
    {
        broadcast use vstd::std_specs::hash::group_hash_axioms;

        match self.local_to_global.get(&thread_id) {
            Some(locals) => locals.len(),
            None => 0,
        }
    }

    /// Forget the local frames of a thread that has ended. The global frames stay.
    pub fn remove_thread(&mut self, thread_id: usize)
        requires
            old(self).wf(),
        ensures
            final(self).wf(),
            final(self)@ == old(self)@,
            final(self).locals(thread_id) == Seq::<usize>::empty(),
            forall|other: usize|
                other != thread_id ==> #[trigger] final(self).locals(other) == old(self).locals(
                    other,
                ),
    {
        broadcast use vstd::std_specs::hash::group_hash_axioms;

        let ghost before = *self;
        let _ = self.local_to_global.remove(&thread_id);
        proof {
            assert forall|other: usize| other != thread_id implies #[trigger] self.locals(other)
                == before.locals(other) by {}
            assert forall|t: usize, i: int| 0 <= i < self.locals(t).len() implies 0
                < #[trigger] self.locals(t)[i] <= self.frames@.len() by {
                assert(self.locals(t)[i] == before.locals(t)[i]);
            }
        }
    }
}

/// A new node, listed in its parent at the place that the search gave, keeps the nodes well-formed.
proof fn lemma_added(
    before: Seq<GlobalTraceEdge>,
    after: Seq<GlobalTraceEdge>,
    position: int,
    tree: Seq<Frame>,
    frame: Frame,
)
    requires
        frames::tree_ok(tree),
        before.len() == tree.len() + 1,
        after.len() == before.len() + 1,
        frame.parent <= tree.len(),
        !tree.contains(frame),
        forall|p: int| 0 <= p < before.len() ==> (#[trigger] before[p]).ok(tree, p as nat),
        forall|p: int|
            0 <= p < before.len() && p != frame.parent ==> #[trigger] after[p] == before[p],
        after[before.len() as int].children@.len() == 0,
        before.len() <= usize::MAX,
        0 <= position <= before[frame.parent as int].children@.len(),
        after[frame.parent as int].children@ == before[frame.parent as int].children@.insert(
            position,
            (frame.ip, before.len() as usize),
        ),
        forall|i: int|
            0 <= i < position ==> (#[trigger] before[frame.parent as int].children@[i]).0
                < frame.ip,
        forall|i: int|
            position <= i < before[frame.parent as int].children@.len() ==> (
            #[trigger] before[frame.parent as int].children@[i]).0 > frame.ip,
    ensures
        forall|p: int|
            0 <= p < after.len() ==> (#[trigger] after[p]).ok(tree.push(frame), p as nat),
{
    let next = tree.push(frame);
    assert forall|p: int| 0 <= p < after.len() implies (#[trigger] after[p]).ok(next, p as nat) by {
        if p == before.len() {
            assert forall|k: int| 0 <= k < next.len() implies (#[trigger] next[k]).parent != p by {}
        } else {
            assert(before[p].ok(tree, p as nat));
            let old_children = before[p].children@;
            let children = after[p].children@;
            if p == frame.parent {
                assert forall|i: int| 0 <= i < children.len() && i != position implies
                    #[trigger] children[i] == old_children[if i < position { i } else { i - 1 }] by {}
            }
            assert forall|k: int| 0 <= k < next.len() && (#[trigger] next[k]).parent == p implies lists(
                children,
                next[k].ip,
            ) by {
                if k == tree.len() {
                    assert(children[position].0 == frame.ip);
                } else {
                    assert(tree[k].parent == p);
                    assert(lists(old_children, tree[k].ip));
                    let i = choose|i: int|
                        0 <= i < old_children.len() && (#[trigger] old_children[i]).0 == tree[k].ip;
                    if p == frame.parent {
                        if i < position {
                            assert(children[i] == old_children[i]);
                        } else {
                            assert(children[i + 1] == old_children[i]);
                        }
                    } else {
                        assert(children[i] == old_children[i]);
                    }
                }
            }
        }
    }
}

} // verus!
