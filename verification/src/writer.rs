//! What a thread writes down about its allocations.
use crate::buffer;
use crate::frames;
use crate::frames::Frame;
use crate::stacktrace;
use crate::stacktrace::{FrameCall, FrameCallback, Trace, TraceTree};
use crate::types;
use crate::types::{
    InstrAllocation, InstrStack, TimestampedTraceInstruction, Timestamp, TraceIndex,
    TraceInstruction,
};
use vstd::prelude::*;

verus! {

/// Collects each new frame and never gives up.
pub struct NewFrames {
    /// The frames in the order in which they were announced.
    pub frames: Vec<InstrStack>,
}

/// The call that `stack` records.
pub open spec fn recorded_call(stack: InstrStack) -> FrameCall {
    FrameCall { ip: stack.ip, parent: stack.parent, index: stack.index, proceed: true }
}

impl FrameCallback for NewFrames {
    open spec fn calls(&self) -> Seq<FrameCall> {
        self.frames@.map_values(|stack: InstrStack| recorded_call(stack))
    }

    fn call(&mut self, ip: u64, parent: usize, index: usize) -> (proceed: bool) {
        self.frames.push(InstrStack { ip, index, parent });
        assert(self.calls() =~= old(self).calls().push(
            FrameCall { ip, parent, index, proceed: true },
        ));
        true
    }
}

/// The instructions that announce the frames of `tree` from position `from` on.
pub open spec fn announcements(tree: Seq<Frame>, from: nat) -> Seq<TraceInstruction> {
    Seq::new(
        (tree.len() - from) as nat,
        |j: int| announcement(tree, from + j),
    )
}

/// The instruction that announces the frame at position `at` of `tree`.
pub open spec fn announcement(tree: Seq<Frame>, at: int) -> TraceInstruction {
    TraceInstruction::Stack(
        InstrStack {
            ip: tree[at].ip,
            index: (at + 1) as usize,
            parent: tree[at].parent as usize,
        },
    )
}

/// A thread-local tool to write down allocation details.
pub struct AllocationWriter {
    /// Map stack frames to identifiers
    trace_tree: TraceTree,
}

/// The tree in which `trace` has been indexed, and the index of its innermost frame.
pub open spec fn with_trace(tree: Seq<Frame>, trace: Trace) -> (Seq<Frame>, nat) {
    frames::intern_path(tree, 0, stacktrace::call_path(trace@->0))
}

/// `trace` can be indexed in `tree`: it has frames to read, and the indices do not run out.
pub open spec fn indexable(tree: Seq<Frame>, trace: Trace) -> bool {
    &&& trace.wf()
    &&& trace@ is Some
    &&& with_trace(tree, trace).0.len() < usize::MAX
}

impl View for AllocationWriter {
    type V = Seq<Frame>;

    closed spec fn view(&self) -> Seq<Frame> {
        self.trace_tree@
    }
}

impl AllocationWriter {
    /// The tree is well-formed.
    pub closed spec fn wf(&self) -> bool {
        self.trace_tree.wf()
    }

    /// The frames of a well-formed writer are well-formed.
    pub proof fn lemma_wf(&self)
        requires
            self.wf(),
        ensures
            frames::tree_ok(self@),
            self@.len() < usize::MAX,
    {
        self.trace_tree.lemma_wf();
    }

    /// Construct a new [AllocationWriter]
    pub fn new() -> (writer: Self)
        ensures
            writer.wf(),
            writer@ == Seq::<Frame>::empty(),
    {
        AllocationWriter { trace_tree: TraceTree::default() }
    }

    /// Whether `trace` can be indexed whatever frames it holds.
    pub fn has_room(&self, trace: &Trace) -> (room: bool)
        requires
            self.wf(),
            trace.wf(),
        ensures
            room == (trace@ is Some && self@.len() + trace@->0.len() < usize::MAX),
            room ==> indexable(self@, *trace),
    {
        if !trace.readable() {
            return false;
        }
        let length: usize = trace.deref().len();
        proof {
            let ips = stacktrace::call_path(trace@->0);
            self.trace_tree.lemma_wf();
            frames::lemma_intern_path(self@, 0, ips);
            trace@->0.reverse().lemma_filter_len(|ip: u64| ip != 0);
        }
        self.trace_tree.next_index() <= usize::MAX - length
    }

    /// Determine the trace index for the `trace`. Returns the index of the last element of the
    /// trace, i.e, current stack frame. Each new frame is announced at the end of `out`.
    pub fn alloc_index(&mut self, trace: &Trace, out: &mut Vec<TraceInstruction>) -> (index: usize)
        requires
            old(self).wf(),
            indexable(old(self)@, *trace),
        ensures
            final(self).wf(),
            final(self)@ == with_trace(old(self)@, *trace).0,
            index == with_trace(old(self)@, *trace).1,
            final(out)@ == old(out)@ + announcements(final(self)@, old(self)@.len()),
    {
        let ghost tree = self@;
        let mut callback = NewFrames { frames: Vec::new() };
        let index: usize = self.trace_tree.index(trace, &mut callback);
        let ghost full = self@;
        let new_frames = callback.frames;
        proof {
            let ips = stacktrace::call_path(trace@->0);
            let calls = new_frames@.map_values(|stack: InstrStack| recorded_call(stack));
            assert(calls.len() == new_frames@.len());
            if calls.len() > 0 {
                assert(calls.last() == recorded_call(new_frames@.last()));
            }
            assert forall|j: int| 0 <= j < new_frames@.len() implies TraceInstruction::Stack(
                #[trigger] new_frames@[j],
            ) == announcement(full, tree.len() + j) by {
                assert(calls[j] == recorded_call(new_frames@[j]));
                assert(stacktrace::announces(calls[j], full, tree.len() + j));
            }
        }
        let mut done: usize = 0;
        while done < new_frames.len()
            invariant
                done <= new_frames@.len(),
                out@ == old(out)@ + announcements(full, tree.len()).take(done as int),
                forall|j: int|
                    0 <= j < new_frames@.len() ==> TraceInstruction::Stack(
                        #[trigger] new_frames@[j],
                    ) == announcement(full, tree.len() + j),
                announcements(full, tree.len()).len() == new_frames@.len(),
            decreases new_frames.len() - done,
        {
            let stack = InstrStack {
                ip: new_frames[done].ip,
                index: new_frames[done].index,
                parent: new_frames[done].parent,
            };
            assert(TraceInstruction::Stack(stack) == announcement(full, tree.len() + done));
            out.push(TraceInstruction::Stack(stack));
            done += 1;
            assert(announcements(full, tree.len()).take(done as int) =~= announcements(
                full,
                tree.len(),
            ).take(done - 1).push(announcements(full, tree.len())[done - 1]));
            assert(out@ =~= old(out)@ + announcements(full, tree.len()).take(done as int));
        }
        assert(announcements(full, tree.len()).take(new_frames@.len() as int) =~= announcements(
            full,
            tree.len(),
        ));
        index
    }

    /// Handle a memory allocation
    pub fn handle_alloc(&mut self, ptr: u64, size: usize, trace: &Trace) -> (out: Vec<
        TraceInstruction,
    >)
        requires
            old(self).wf(),
            indexable(old(self)@, *trace),
        ensures
            final(self).wf(),
            final(self)@ == with_trace(old(self)@, *trace).0,
            out@ == announcements(final(self)@, old(self)@.len()).push(
                TraceInstruction::Allocate(
                    (InstrAllocation {
                        size,
                        ptr,
                        trace_index: types::trace_index_of(with_trace(old(self)@, *trace).1),
                    }),
                ),
            ),
    {
        let mut out: Vec<TraceInstruction> = Vec::new();
        let index: usize = self.alloc_index(trace, &mut out);
        let trace_index: TraceIndex = TraceIndex::from(index);
        out.push(TraceInstruction::Allocate(InstrAllocation { size, ptr, trace_index }));
        out
    }

    /// Handle the release of memory
    pub fn handle_dealloc(&mut self, ptr: u64, size: usize, trace: &Trace) -> (out: Vec<
        TraceInstruction,
    >)
        requires
            old(self).wf(),
            indexable(old(self)@, *trace),
        ensures
            final(self).wf(),
            final(self)@ == with_trace(old(self)@, *trace).0,
            out@ == announcements(final(self)@, old(self)@.len()).push(
                TraceInstruction::Deallocate(
                    (InstrAllocation {
                        size,
                        ptr,
                        trace_index: types::trace_index_of(with_trace(old(self)@, *trace).1),
                    }),
                ),
            ),
    {
        let mut out: Vec<TraceInstruction> = Vec::new();
        let index: usize = self.alloc_index(trace, &mut out);
        let trace_index: TraceIndex = TraceIndex::from(index);
        out.push(TraceInstruction::Deallocate(InstrAllocation { size, ptr, trace_index }));
        out
    }

    /// Handle the move of an allocation: the old one is released, the new one allocated.
    pub fn handle_realloc(
        &mut self,
        ptr: u64,
        new_ptr: u64,
        size: usize,
        new_size: usize,
        trace: &Trace,
    ) -> (out: Vec<TraceInstruction>)
        requires
            old(self).wf(),
            indexable(old(self)@, *trace),
        ensures
            final(self).wf(),
            final(self)@ == with_trace(old(self)@, *trace).0,
            ({
                let trace_index = types::trace_index_of(with_trace(old(self)@, *trace).1);
                out@ == announcements(final(self)@, old(self)@.len()).push(
                    TraceInstruction::Deallocate((InstrAllocation { size, ptr, trace_index })),
                ).push(
                    TraceInstruction::Allocate(
                        (InstrAllocation { size: new_size, ptr: new_ptr, trace_index }),
                    ),
                )
            }),
    {
        let mut out: Vec<TraceInstruction> = Vec::new();
        let index: usize = self.alloc_index(trace, &mut out);
        let trace_index: TraceIndex = TraceIndex::from(index);
        out.push(TraceInstruction::Deallocate(InstrAllocation { size, ptr, trace_index }));
        out.push(
            TraceInstruction::Allocate(
                InstrAllocation { size: new_size, ptr: new_ptr, trace_index },
            ),
        );
        out
    }
}

/// The part of a thread's state that it shares with the gatherer.
#[derive(Debug)]
pub struct ThreadState {
    /// Instructions that have not been handed over yet.
    pub buffer: Vec<TimestampedTraceInstruction>,
    /// Unique number of the thread.
    pub thread_id: usize,
    /// Whether the thread has ended.
    pub dead: bool,
}

impl ThreadState {
    /// The state of a thread that has just started.
    pub fn new(thread_id: usize) -> (state: Self)
        ensures
            state.buffer@ == Seq::<TimestampedTraceInstruction>::empty(),
            state.thread_id == thread_id,
            !state.dead,
    {
        ThreadState { buffer: Vec::new(), thread_id, dead: false }
    }

    /// Append an instruction that was made at `time`. Once the buffer is full, its contents are
    /// handed out.
    pub fn push(&mut self, instruction: TraceInstruction, time: Timestamp) -> (full: Option<
        Vec<TimestampedTraceInstruction>,
    >)
        ensures
            match full {
                Some(contents) => {
                    &&& contents@ == old(self).buffer@.push((instruction, time))
                    &&& contents@.len() >= buffer::BUFFER_CAPACITY
                    &&& buffer::is_full(contents)
                    &&& final(self).buffer@ == Seq::<TimestampedTraceInstruction>::empty()
                },
                None => {
                    &&& final(self).buffer@ == old(self).buffer@.push((instruction, time))
                    &&& buffer::is_not_full(final(self).buffer)
                },
            },
            final(self).thread_id == old(self).thread_id,
            final(self).dead == old(self).dead,
    {
        buffer::push(&mut self.buffer, (instruction, time))
    }

    /// Take the contents of the buffer, leaving `spare` in its place.
    pub fn swap_buffer(&mut self, spare: &mut Vec<TimestampedTraceInstruction>)
        ensures
            final(self).buffer@ == old(spare)@,
            final(spare)@ == old(self).buffer@,
            final(self).thread_id == old(self).thread_id,
            final(self).dead == old(self).dead,
    {
        std::mem::swap(spare, &mut self.buffer);
    }

    /// The thread has ended: nothing will be appended any more.
    pub fn mark_dead(&mut self)
        ensures
            final(self).dead,
            final(self).buffer == old(self).buffer,
            final(self).thread_id == old(self).thread_id,
    {
        self.dead = true;
    }
}

} // verus!
