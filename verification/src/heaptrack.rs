//! A writer of allocation records that names the functions of new stack frames itself.
use crate::buffer;
use crate::frames;
use crate::frames::Frame;
use crate::stacktrace;
use crate::symbols;
use crate::trace::{Trace, TraceTree};
use crate::types::{InstrStack, InstrStackDetails};
use crate::writer::NewFrames;
use crate::writer;
use vstd::prelude::*;

verus! {

/// A record of the trace.
#[derive(Debug, Clone)]
pub enum TraceInstruction {
    /// A thread begins.
    Init(TraceInstructionInit),
    /// A stack frame is seen for the first time.
    Stack(TraceInstructionStack),
    /// Memory is allocated.
    Allocate(TraceInstructionAllocate),
    /// Memory is freed.
    Free(TraceInstructionFree),
}

/// The beginning of a thread.
#[derive(Debug, Clone)]
pub struct TraceInstructionInit {
    /// Human-readable name of the thread
    pub thread_name: String,
}

/// A new stack frame.
#[derive(Debug, Clone)]
pub struct TraceInstructionStack {
    /// Name of the function.
    pub name: String,
    /// Index of the parent stack frame.
    pub parent: usize,
}

/// An allocation.
#[derive(Debug, Clone)]
pub struct TraceInstructionAllocate {
    /// Size of the allocation
    pub size: usize,
    /// Pointer
    pub ptr: u64,
    /// Stack frame
    pub trace_index: usize,
}

/// The release of an allocation.
#[derive(Debug, Clone)]
pub struct TraceInstructionFree {
    /// Pointer
    pub ptr: u64,
}

/// The contents of a record.
pub enum Entry {
    /// A thread with this name begins.
    Init(Seq<char>),
    /// A stack frame of this name is new.
    Stack { name: Seq<char>, parent: usize },
    /// Memory is allocated.
    Allocate { size: usize, ptr: u64, trace_index: usize },
    /// Memory is freed.
    Free { ptr: u64 },
}

impl View for TraceInstruction {
    type V = Entry;

    open spec fn view(&self) -> Entry {
        match *self {
            TraceInstruction::Init(init) => Entry::Init(init.thread_name@),
            TraceInstruction::Stack(stack) => Entry::Stack {
                name: stack.name@,
                parent: stack.parent,
            },
            TraceInstruction::Allocate(alloc) => Entry::Allocate {
                size: alloc.size,
                ptr: alloc.ptr,
                trace_index: alloc.trace_index,
            },
            TraceInstruction::Free(free) => Entry::Free { ptr: free.ptr },
        }
    }
}

/// The contents of `instructions`, in order.
pub open spec fn entries(instructions: Seq<TraceInstruction>) -> Seq<Entry> {
    instructions.map_values(|instruction: TraceInstruction| instruction@)
}

/// The contents of all `buffers`, one after the other.
pub open spec fn all_entries(buffers: Seq<Vec<TraceInstruction>>) -> Seq<Entry>
    decreases buffers.len(),
{
    if buffers.len() == 0 {
        Seq::empty()
    } else {
        all_entries(buffers.drop_last()) + entries(buffers.last()@)
    }
}

/// Each of `buffers` holds as much as a full buffer does.
pub open spec fn all_full(buffers: Seq<Vec<TraceInstruction>>) -> bool {
    forall|i: int|
        0 <= i < buffers.len() ==> {
            &&& (#[trigger] buffers[i])@.len() >= buffer::BUFFER_CAPACITY
            &&& buffer::is_full(buffers[i])
        }
}

/// A buffer of records.
#[derive(Debug)]
pub struct TraceBuffer {
    buffer: Vec<TraceInstruction>,
}

impl TraceBuffer {
    /// The records in the buffer.
    pub closed spec fn contents(&self) -> Seq<TraceInstruction> {
        self.buffer@
    }

    /// The buffer itself.
    pub closed spec fn held(&self) -> Vec<TraceInstruction> {
        self.buffer
    }

    /// An empty buffer.
    pub fn new() -> (trace_buffer: Self)
        ensures
            trace_buffer.contents() == Seq::<TraceInstruction>::empty(),
    {
        TraceBuffer { buffer: Vec::new() }
    }

    /// Append a record. Once the buffer is full, its contents are handed out.
    pub fn trace(&mut self, instruction: TraceInstruction) -> (full: Option<Vec<TraceInstruction>>)
        ensures
            match full {
                Some(contents) => {
                    &&& contents@ == old(self).contents().push(instruction)
                    &&& contents@.len() >= buffer::BUFFER_CAPACITY
                    &&& buffer::is_full(contents)
                    &&& final(self).contents() == Seq::<TraceInstruction>::empty()
                },
                None => final(self).contents() == old(self).contents().push(instruction),
            },
            final(self).held()@ == final(self).contents(),
            buffer::is_not_full(final(self).held()),
    {
        buffer::push(&mut self.buffer, instruction)
    }

    /// Append a record, and add the contents of a full buffer to `flushed`.
    fn trace_into(
        &mut self,
        instruction: TraceInstruction,
        flushed: &mut Vec<Vec<TraceInstruction>>,
    )
        ensures
            all_entries(final(flushed)@) + entries(final(self).contents()) == (all_entries(
                old(flushed)@,
            ) + entries(old(self).contents())).push(instruction@),
            all_full(old(flushed)@) ==> all_full(final(flushed)@),
            final(self).held()@ == final(self).contents(),
            buffer::is_not_full(final(self).held()),
    {
        let ghost before = self.contents();
        assert(entries(before.push(instruction)) =~= entries(before).push(instruction@));
        match self.trace(instruction) {
            Some(contents) => {
                let ghost earlier = flushed@;
                flushed.push(contents);
                assert(flushed@.drop_last() =~= earlier);
                assert(all_entries(flushed@) + entries(self.contents()) =~= (all_entries(earlier)
                    + entries(before)).push(instruction@));
            },
            None => {
                assert(all_entries(flushed@) + entries(self.contents()) =~= (all_entries(flushed@)
                    + entries(before)).push(instruction@));
            },
        }
    }
}

/// What stands in for the name of a function that has none.
pub open spec fn name_or_default(name: Option<String>) -> Seq<char> {
    match name {
        Some(name) => name@,
        None => "<unresolved>"@,
    }
}

/// The records of new stack frames, with the names of their functions.
pub open spec fn named(frames: Seq<InstrStack>, names: Seq<Option<String>>) -> Seq<Entry> {
    Seq::new(
        names.len(),
        |j: int| Entry::Stack { name: name_or_default(names[j]), parent: frames[j].parent },
    )
}

/// Some lookup of the instruction pointer `ip` gives its function `name`.
pub open spec fn looked_up(ip: u64, name: Option<String>) -> bool {
    exists|symbols: Seq<InstrStackDetails>| #[trigger]
        symbols::found_at(ip, symbols) && name == symbols::reported(symbols).name
}

/// `frames` lists the frames of `tree` from position `from` on.
pub open spec fn lists_frames(frames: Seq<InstrStack>, tree: Seq<Frame>, from: nat) -> bool {
    &&& frames.len() == tree.len() - from
    &&& forall|j: int|
        0 <= j < frames.len() ==> {
            &&& (#[trigger] frames[j]).ip == tree[from + j].ip
            &&& frames[j].parent == tree[from + j].parent
            &&& frames[j].index == from + j + 1
        }
}

/// Writes down allocations.
pub struct HeaptrackWriter {
    trace_tree: TraceTree,
    trace_buffer: TraceBuffer,
}

impl HeaptrackWriter {
    /// The tree of stack frames.
    pub closed spec fn tree(&self) -> Seq<Frame> {
        self.trace_tree@
    }

    /// The records in the buffer.
    pub closed spec fn contents(&self) -> Seq<TraceInstruction> {
        self.trace_buffer.contents()
    }

    /// The buffer itself.
    pub closed spec fn held(&self) -> Vec<TraceInstruction> {
        self.trace_buffer.held()
    }

    /// The tree is well-formed.
    pub closed spec fn wf(&self) -> bool {
        self.trace_tree.wf()
    }

    /// The tree of a well-formed writer is well-formed, and its next index has 32 bits.
    pub proof fn lemma_wf(&self)
        requires
            self.wf(),
        ensures
            frames::tree_ok(self.tree()),
            self.tree().len() < u32::MAX,
    {
        self.trace_tree.lemma_wf();
    }

    /// A writer that has seen nothing yet.
    pub fn new() -> (heaptrack_writer: Self)
        ensures
            heaptrack_writer.wf(),
            heaptrack_writer.tree() == Seq::<Frame>::empty(),
            heaptrack_writer.contents() == Seq::<TraceInstruction>::empty(),
    {
        HeaptrackWriter { trace_tree: TraceTree::default(), trace_buffer: TraceBuffer::new() }
    }

    /// Whether `trace` can be indexed whatever frames it holds.
    pub fn has_room(&self, trace: &Trace) -> (room: bool)
        requires
            self.wf(),
            trace.wf(),
        ensures
            room == (self.tree().len() + trace@.len() < u32::MAX),
            room ==> frames::intern_path(
                self.tree(),
                0,
                stacktrace::call_path(trace@),
            ).0.len() < u32::MAX,
    {
        proof {
            self.trace_tree.lemma_wf();
            frames::lemma_intern_path(self.tree(), 0, stacktrace::call_path(trace@));
            trace@.reverse().lemma_filter_len(|ip: u64| ip != 0);
        }
        self.trace_tree.has_room(trace.deref().len())
    }

    /// Index `trace`: the index of its innermost frame, and the frames that are new, whose names
    /// [`HeaptrackWriter::record_malloc`] is to be told.
    pub fn new_frames(&mut self, trace: &Trace) -> (found: (u32, Vec<InstrStack>))
        requires
            old(self).wf(),
            trace.wf(),
            frames::intern_path(old(self).tree(), 0, stacktrace::call_path(trace@)).0.len()
                < u32::MAX,
        ensures
            final(self).wf(),
            ({
                let (tree, index) = frames::intern_path(
                    old(self).tree(),
                    0,
                    stacktrace::call_path(trace@),
                );
                &&& final(self).tree() == tree
                &&& found.0 == index
                &&& lists_frames(found.1@, tree, old(self).tree().len())
            }),
            final(self).contents() == old(self).contents(),
    {
        let mut callback = NewFrames { frames: Vec::new() };
        let index: u32 = self.trace_tree.index(trace, &mut callback);
        let new_frames = callback.frames;
        proof {
            let calls = new_frames@.map_values(
                |stack: InstrStack| writer::recorded_call(stack),
            );
            if calls.len() > 0 {
                assert(calls.last() == writer::recorded_call(new_frames@.last()));
            }
            assert forall|j: int| 0 <= j < new_frames@.len() implies {
                let frame = self.tree()[old(self).tree().len() + j];
                &&& (#[trigger] new_frames@[j]).ip == frame.ip
                &&& new_frames@[j].parent == frame.parent
                &&& new_frames@[j].index == old(self).tree().len() + j + 1
            } by {
                assert(calls[j] == writer::recorded_call(new_frames@[j]));
                assert(stacktrace::announces(calls[j], self.tree(), old(self).tree().len() + j));
            }
        }
        (index, new_frames)
    }

    /// Write down an allocation that was made at `trace`: the new stack frames with the names of
    /// their functions, then the allocation itself. Returns the buffers that became full, in order.
    pub fn handle_malloc(&mut self, ptr: u64, size: usize, trace: &Trace) -> (flushed: Vec<
        Vec<TraceInstruction>,
    >)
        requires
            old(self).wf(),
            trace.wf(),
            frames::intern_path(old(self).tree(), 0, stacktrace::call_path(trace@)).0.len()
                < u32::MAX,
        ensures
            final(self).wf(),
            ({
                let (tree, index) = frames::intern_path(
                    old(self).tree(),
                    0,
                    stacktrace::call_path(trace@),
                );
                &&& final(self).tree() == tree
                &&& all_full(flushed@)
                &&& final(self).held()@ == final(self).contents()
                &&& buffer::is_not_full(final(self).held())
                &&& exists|frames: Seq<InstrStack>, names: Seq<Option<String>>|
                    {
                        &&& lists_frames(frames, tree, old(self).tree().len())
                        &&& names.len() == frames.len()
                        &&& forall|j: int|
                            0 <= j < frames.len() ==> looked_up(
                                (#[trigger] frames[j]).ip,
                                names[j],
                            )
                        &&& all_entries(flushed@) + entries(final(self).contents()) == (entries(
                            old(self).contents(),
                        ) + #[trigger] named(frames, names)).push(
                            Entry::Allocate { size, ptr, trace_index: index as usize },
                        )
                    }
            }),
    {
        let (index, new_frames) = self.new_frames(trace);
        let mut names: Vec<Option<String>> = Vec::new();
        let mut at: usize = 0;
        while at < new_frames.len()
            invariant
                at <= new_frames@.len(),
                names@.len() == at,
                forall|j: int|
                    0 <= j < at ==> looked_up((#[trigger] new_frames@[j]).ip, names@[j]),
            decreases new_frames@.len() - at,
        {
            names.push(symbols::resolve(new_frames[at].ip).name);
            at += 1;
        }
        let ghost all = names@;
        let flushed = self.record_malloc(ptr, size, index, &new_frames, names);
        assert(all_entries(flushed@) + entries(self.contents()) == (entries(old(self).contents())
            + named(new_frames@, all)).push(
            Entry::Allocate { size, ptr, trace_index: index as usize },
        ));
        flushed
    }

    /// Write down an allocation whose trace has `index`: the new stack `frames` with their
    /// `names`, then the allocation itself. Returns the buffers that became full, in order.
    pub fn record_malloc(
        &mut self,
        ptr: u64,
        size: usize,
        index: u32,
        frames: &Vec<InstrStack>,
        names: Vec<Option<String>>,
    ) -> (flushed: Vec<Vec<TraceInstruction>>)
        requires
            old(self).wf(),
            frames@.len() == names@.len(),
        ensures
            final(self).wf(),
            final(self).tree() == old(self).tree(),
            all_full(flushed@),
            final(self).held()@ == final(self).contents(),
            buffer::is_not_full(final(self).held()),
            all_entries(flushed@) + entries(final(self).contents()) == (entries(
                old(self).contents(),
            ) + named(frames@, names@)).push(
                Entry::Allocate { size, ptr, trace_index: index as usize },
            ),
    {
        let mut flushed: Vec<Vec<TraceInstruction>> = Vec::new();
        let ghost all = names@;
        let ghost before = entries(self.contents());
        assert(all_entries(flushed@) + entries(self.contents()) =~= before + named(
            frames@,
            all,
        ).take(0));
        let mut at: usize = 0;
        for name in resolved: names
            invariant
                resolved.seq() == all,
                at == resolved.index(),
                frames@.len() == all.len(),
                self.wf(),
                self.tree() == old(self).tree(),
                all_full(flushed@),
                all_entries(flushed@) + entries(self.contents()) == before + named(
                    frames@,
                    all,
                ).take(at as int),
        {
            let shown: String = match name {
                Some(name) => name,
                None => "<unresolved>".to_owned(),
            };
            let stack = TraceInstructionStack { name: shown, parent: frames[at].parent };
            assert(TraceInstruction::Stack(stack)@ == named(frames@, all)[at as int]);
            self.trace_buffer.trace_into(TraceInstruction::Stack(stack), &mut flushed);
            assert((before + named(frames@, all).take(at as int)).push(
                named(frames@, all)[at as int],
            ) =~= before + named(frames@, all).take(at + 1));
            assert(at < frames.len());
            at += 1;
        }
        assert(named(frames@, all).take(all.len() as int) =~= named(frames@, all));
        self.trace_buffer.trace_into(
            TraceInstruction::Allocate(
                TraceInstructionAllocate { size, ptr, trace_index: index as usize },
            ),
            &mut flushed,
        );
        flushed
    }

    /// Write down the release of an allocation. Returns the buffer where it became full.
    pub fn handle_free(&mut self, ptr: u64) -> (full: Option<Vec<TraceInstruction>>)
        ensures
            final(self).tree() == old(self).tree(),
            old(self).wf() ==> final(self).wf(),
            ({
                let free = TraceInstruction::Free((TraceInstructionFree { ptr }));
                match full {
                    Some(contents) => {
                        &&& contents@ == old(self).contents().push(free)
                        &&& contents@.len() >= buffer::BUFFER_CAPACITY
                        &&& buffer::is_full(contents)
                        &&& final(self).contents() == Seq::<TraceInstruction>::empty()
                    },
                    None => final(self).contents() == old(self).contents().push(free),
                }
            }),
            final(self).held()@ == final(self).contents(),
            buffer::is_not_full(final(self).held()),
    {
        self.trace_buffer.trace(TraceInstruction::Free(TraceInstructionFree { ptr }))
    }
}

} // verus!
