//! The gatherer, which turns the instructions of all threads into one stream of messages.
use crate::frames;
use crate::frames::Frame;
use crate::stacktrace;
use crate::stacktrace::GlobalTraceTree;
use crate::symbols;
use crate::types;
use crate::types::{
    InstrAllocation, InstrInit, InstrStack, InstrStackDetails, TimestampedTraceInstruction,
    Timestamp, TraceIndex, TraceInstruction, TraceProtocol,
};
use vstd::prelude::*;

verus! {

/// What is asked of the resolver.
#[derive(Debug)]
pub enum ResolverProtocol {
    /// Resolve the instruction pointer of the stack frame with the given index.
    Resolv(usize, u64),
    /// Nothing will be asked any more.
    Shutdown,
}

/// The stack frame to resolve on receipt of `message`, and its instruction pointer. `None` ends
/// the resolver: it was told to, or nobody is left to tell it.
pub fn next_to_resolve(message: Option<ResolverProtocol>) -> (frame: Option<(usize, u64)>)
    ensures
        frame == match message {
            Some(ResolverProtocol::Resolv(index, ip)) => Some((index, ip)),
            _ => None,
        },
{
    match message {
        Some(ResolverProtocol::Resolv(index, ip)) => Some((index, ip)),
        Some(ResolverProtocol::Shutdown) => None,
        None => None,
    }
}

/// Do what `message` asks of the resolver: the index of the stack frame and the details of its
/// instruction pointer, to be sent to the gatherer. `None` ends the resolver.
pub fn resolve_next(message: Option<ResolverProtocol>) -> (resolved: Option<
    (usize, InstrStackDetails),
>)
    ensures
        match message {
            Some(ResolverProtocol::Resolv(index, ip)) => {
                &&& resolved matches Some(found)
                &&& found.0 == index
                &&& exists|symbols: Seq<InstrStackDetails>| #[trigger]
                    symbols::found_at(ip, symbols) && found.1 == symbols::reported(symbols)
            },
            _ => resolved is None,
        },
{
    match next_to_resolve(message) {
        Some((index, ip)) => Some((index, symbols::resolve(ip))),
        None => None,
    }
}

/// Something that the gatherer wants done.
#[derive(Debug)]
pub enum GatherAction {
    /// Write a message to the connection.
    Write(TraceProtocol),
    /// Send a request to the resolver.
    Resolve(ResolverProtocol),
    /// Tell a thread that it has been registered.
    Accept,
    /// Flush the connection.
    Flush,
}

/// The meaning of an action.
pub enum Effect {
    /// A buffer of instructions is written.
    Instructions {
        timestamp: Timestamp,
        thread_id: usize,
        buffer: Seq<TimestampedTraceInstruction>,
    },
    /// A timestamp is written.
    Timestamp(Timestamp),
    /// The announcement of a thread is written.
    Init(InstrInit),
    /// The details of a stack frame are written.
    Stack { index: usize, details: InstrStackDetails },
    /// A stack frame is sent to the resolver.
    Resolve(usize, u64),
    /// The resolver is told to end.
    EndResolver,
    /// A thread is told that it has been registered.
    Accept,
    /// The connection is flushed.
    Flush,
}

impl View for GatherAction {
    type V = Effect;

    open spec fn view(&self) -> Effect {
        match *self {
            GatherAction::Write(
                TraceProtocol::Instructions { timestamp, thread_id, buffer },
            ) => Effect::Instructions { timestamp, thread_id, buffer: buffer@ },
            GatherAction::Write(TraceProtocol::Timestamp(timestamp)) => Effect::Timestamp(
                timestamp,
            ),
            GatherAction::Write(TraceProtocol::Init(info)) => Effect::Init(info),
            GatherAction::Write(TraceProtocol::Stack { index, details }) => Effect::Stack {
                index,
                details: *details,
            },
            GatherAction::Resolve(ResolverProtocol::Resolv(index, ip)) => Effect::Resolve(
                index,
                ip,
            ),
            GatherAction::Resolve(ResolverProtocol::Shutdown) => Effect::EndResolver,
            GatherAction::Accept => Effect::Accept,
            GatherAction::Flush => Effect::Flush,
        }
    }
}

/// The meaning of `actions`, in order.
pub open spec fn effects(actions: Seq<GatherAction>) -> Seq<Effect> {
    actions.map_values(|action: GatherAction| action@)
}

/// The number of stack frames that `buffer` announces.
pub open spec fn stacks(buffer: Seq<TimestampedTraceInstruction>) -> nat
    decreases buffer.len(),
{
    if buffer.len() == 0 {
        0
    } else {
        stacks(buffer.drop_last()) + if buffer.last().0 is Stack {
            1nat
        } else {
            0nat
        }
    }
}

/// Every stack frame in `buffer` has a parent that is the root or was announced before it, by a
/// thread that has announced `count` frames so far.
pub open spec fn parents_known(count: nat, buffer: Seq<TimestampedTraceInstruction>) -> bool
    decreases buffer.len(),
{
    buffer.len() > 0 ==> {
        &&& parents_known(count, buffer.drop_last())
        &&& buffer.last().0 matches TraceInstruction::Stack(stack) ==> stack.parent <= count
            + stacks(buffer.drop_last())
    }
}

/// The outcome of translating the instructions of one thread.
pub struct Translation {
    /// The global tree.
    pub tree: Seq<Frame>,
    /// The global indices of the thread's frames.
    pub locals: Seq<usize>,
    /// The instructions that are passed on, with global indices.
    pub kept: Seq<TimestampedTraceInstruction>,
    /// The frames that are new to the global tree.
    pub resolve: Seq<(usize, u64)>,
}

/// `alloc` with the global index of its stack frame.
pub open spec fn globalized(alloc: InstrAllocation, locals: Seq<usize>) -> InstrAllocation {
    InstrAllocation {
        size: alloc.size,
        ptr: alloc.ptr,
        trace_index: types::trace_index_of(
            stacktrace::to_global(locals, alloc.trace_index.0 as nat),
        ),
    }
}

/// Translate one more instruction: a stack frame is interned in the global tree, and passed on
/// only where it is new; an allocation or deallocation is passed on with a global index.
pub open spec fn translate_next(
    before: Translation,
    instruction: TimestampedTraceInstruction,
) -> Translation {
    match instruction.0 {
        TraceInstruction::Stack(stack) => {
            let parent = stacktrace::to_global(before.locals, stack.parent as nat);
            let frame = Frame { ip: stack.ip, parent };
            let (tree, index) = frames::intern(before.tree, frame);
            let locals = before.locals.push(index as usize);
            if before.tree.contains(frame) {
                Translation { tree, locals, kept: before.kept, resolve: before.resolve }
            } else {
                let announced = TraceInstruction::Stack(
                    InstrStack { ip: stack.ip, index: index as usize, parent: parent as usize },
                );
                Translation {
                    tree,
                    locals,
                    kept: before.kept.push((announced, instruction.1)),
                    resolve: before.resolve.push((index as usize, stack.ip)),
                }
            }
        },
        TraceInstruction::Allocate(alloc) => Translation {
            kept: before.kept.push(
                (TraceInstruction::Allocate(globalized(alloc, before.locals)), instruction.1),
            ),
            ..before
        },
        TraceInstruction::Deallocate(alloc) => Translation {
            kept: before.kept.push(
                (TraceInstruction::Deallocate(globalized(alloc, before.locals)), instruction.1),
            ),
            ..before
        },
    }
}

/// Translate all of `buffer`, in order.
pub open spec fn translate(
    tree: Seq<Frame>,
    locals: Seq<usize>,
    buffer: Seq<TimestampedTraceInstruction>,
) -> Translation
    decreases buffer.len(),
{
    if buffer.len() == 0 {
        Translation { tree, locals, kept: Seq::empty(), resolve: Seq::empty() }
    } else {
        translate_next(translate(tree, locals, buffer.drop_last()), buffer.last())
    }
}

/// What is done for one buffer of a thread: the new stack frames are sent to the resolver, and
/// one message with the translated instructions is written. Nothing for an empty buffer.
pub open spec fn sent(
    timestamp: Timestamp,
    thread_id: usize,
    tree: Seq<Frame>,
    locals: Seq<usize>,
    buffer: Seq<TimestampedTraceInstruction>,
) -> Seq<Effect> {
    if buffer.len() == 0 {
        Seq::empty()
    } else {
        let translation = translate(tree, locals, buffer);
        requests(translation.resolve).push(
            Effect::Instructions { timestamp, thread_id, buffer: translation.kept },
        )
    }
}

/// Requests to resolve `frames`, in order.
pub open spec fn requests(frames: Seq<(usize, u64)>) -> Seq<Effect> {
    frames.map_values(|frame: (usize, u64)| Effect::Resolve(frame.0, frame.1))
}

/// Protocol definition for worker threads to send commands to the gatherer thread
#[derive(Debug)]
pub enum GathererProtocol<H> {
    /// Flush a complete trace buffer
    Flush(usize, Vec<TimestampedTraceInstruction>),
    /// Register a shared handle to this thread's state
    Register(H, InstrInit),
}

/// Something that happens to the gatherer.
#[derive(Debug)]
pub enum GatherEvent<H> {
    /// The clock ticked, this many nanoseconds after the last sweep.
    Tick(u128),
    /// A worker thread sent a command, or `None` once all worker threads are gone.
    Message(Option<GathererProtocol<H>>),
    /// The resolver sent the details of a stack frame, or `None` once it is gone.
    Details(Option<(usize, InstrStackDetails)>),
}

/// How the gatherer takes an event.
#[derive(Debug)]
pub enum Reaction {
    /// Perform these actions and go on.
    Act(Vec<GatherAction>),
    /// Collect the buffers of all threads and go on.
    Sweep,
    /// Stop.
    Stop,
}

/// Time between two sweeps, in nanoseconds.
pub const TICK_NANOS: u128 = 500_000_000;

/// State of the gatherer thread. `H` is a handle to the state of a thread.
pub struct Gatherer<H> {
    /// Shared handle to the thread states.
    buffers: Vec<H>,
    /// Translation table of thread-local stack frames to global stack frames
    trace_tree: GlobalTraceTree,
    /// Current timestamp
    timestamp: Timestamp,
}

/// A pass over the threads that are registered: those before `index` stay, the others are still
/// to be visited.
pub struct Sweep<H> {
    states: Vec<H>,
    index: usize,
    next_timestamp: Timestamp,
}

impl<H> Sweep<H> {
    /// The position lies within the threads.
    pub closed spec fn wf(&self) -> bool {
        self.index <= self.states@.len()
    }

    /// The threads that were visited and are still alive.
    pub closed spec fn kept(&self) -> Seq<H> {
        self.states@.take(self.index as int)
    }

    /// The threads that are still to be visited.
    pub closed spec fn rest(&self) -> Seq<H> {
        self.states@.skip(self.index as int)
    }

    /// The timestamp that the sweep announces at its end.
    pub closed spec fn next_timestamp(&self) -> Timestamp {
        self.next_timestamp
    }

    /// The thread to visit next.
    pub fn current(&self) -> (handle: Option<&H>)
        requires
            self.wf(),
        ensures
            match handle {
                Some(handle) => self.rest().len() > 0 && *handle == self.rest()[0],
                None => self.rest().len() == 0,
            },
    {
        if self.index < self.states.len() {
            Some(&self.states[self.index])
        } else {
            None
        }
    }
}

impl<H> Gatherer<H> {
    /// The translation table is well-formed.
    pub closed spec fn wf(&self) -> bool {
        self.trace_tree.wf()
    }

    /// The threads that are registered.
    pub closed spec fn threads(&self) -> Seq<H> {
        self.buffers@
    }

    /// The global tree of stack frames.
    pub closed spec fn tree(&self) -> Seq<Frame> {
        self.trace_tree@
    }

    /// The global indices of the frames of a thread.
    pub closed spec fn locals(&self, thread_id: usize) -> Seq<usize> {
        self.trace_tree.locals(thread_id)
    }

    /// The timestamp that was announced last.
    pub closed spec fn timestamp(&self) -> Timestamp {
        self.timestamp
    }

    /// No thread but `thread_id` has other frames than in `earlier`.
    pub open spec fn others_kept(&self, earlier: &Self, thread_id: usize) -> bool {
        forall|other: usize|
            other != thread_id ==> #[trigger] self.locals(other) == earlier.locals(other)
    }

    /// The tree of a well-formed gatherer is well-formed.
    pub proof fn lemma_wf(&self)
        requires
            self.wf(),
        ensures
            frames::tree_ok(self.tree()),
            self.tree().len() < usize::MAX,
            forall|thread_id: usize, i: int|
                0 <= i < self.locals(thread_id).len() ==> 0 < #[trigger] self.locals(thread_id)[i]
                    <= self.tree().len(),
    {
        self.trace_tree.lemma_wf();
    }

    /// Construct a new gatherer
    pub fn new() -> (gatherer: Self)
        ensures
            gatherer.wf(),
            gatherer.threads() == Seq::<H>::empty(),
            gatherer.tree() == Seq::<Frame>::empty(),
            forall|thread_id: usize|
                #[trigger] gatherer.locals(thread_id) == Seq::<usize>::empty(),
            gatherer.timestamp() == 0,
    {
        Gatherer { buffers: Vec::new(), trace_tree: GlobalTraceTree::default(), timestamp: 0 }
    }

    /// Whether every stack frame in `buffer` has a parent that the thread has announced.
    pub fn accepts(&self, thread_id: usize, buffer: &Vec<TimestampedTraceInstruction>) -> (known:
        bool)
        requires
            self.wf(),
        ensures
            known == parents_known(self.locals(thread_id).len(), buffer@),
    {
        let count: usize = self.trace_tree.local_count(thread_id);
        let mut announced: usize = 0;
        let mut at: usize = 0;
        while at < buffer.len()
            invariant
                at <= buffer@.len(),
                announced <= at,
                announced == stacks(buffer@.take(at as int)),
                parents_known(count as nat, buffer@.take(at as int)),
                count == self.locals(thread_id).len(),
            decreases buffer@.len() - at,
        {
            assert(buffer@.take(at + 1).drop_last() =~= buffer@.take(at as int));
            match &buffer[at].0 {
                TraceInstruction::Stack(stack) => {
                    if stack.parent > count && stack.parent - count > announced {
                        proof {
                            lemma_parents_known_prefix(count as nat, buffer@, at + 1);
                        }
                        return false;
                    }
                    announced += 1;
                },
                _ => {},
            }
            at += 1;
        }
        assert(buffer@.take(at as int) =~= buffer@);
        true
    }

    /// Send a buffer. Drains the contents from the buffer.
    pub fn send_buffer(
        &mut self,
        thread_id: usize,
        buffer: &mut Vec<TimestampedTraceInstruction>,
    ) -> (actions: Vec<GatherAction>)
        requires
            old(self).wf(),
            parents_known(old(self).locals(thread_id).len(), old(buffer)@),
        ensures
            final(self).wf(),
            ({
                let translation = translate(
                    old(self).tree(),
                    old(self).locals(thread_id),
                    old(buffer)@,
                );
                &&& final(self).tree() == translation.tree
                &&& final(self).locals(thread_id) == translation.locals
            }),
            final(self).others_kept(old(self), thread_id),
            final(self).threads() == old(self).threads(),
            final(self).timestamp() == old(self).timestamp(),
            final(buffer)@ == Seq::<TimestampedTraceInstruction>::empty(),
            effects(actions@) == sent(
                old(self).timestamp(),
                thread_id,
                old(self).tree(),
                old(self).locals(thread_id),
                old(buffer)@,
            ),
            old(buffer)@.len() > 0 ==> {
                &&& actions@.len() > 0
                &&& actions@.last() matches GatherAction::Write(
                    TraceProtocol::Instructions { timestamp, thread_id: thread, buffer: message },
                )
                &&& timestamp == old(self).timestamp()
                &&& thread == thread_id
                &&& message@ == translate(
                    old(self).tree(),
                    old(self).locals(thread_id),
                    old(buffer)@,
                ).kept
            },
    {
        let ghost tree = self.tree();
        let ghost locals = self.locals(thread_id);
        let ghost whole = buffer@;
        let mut actions: Vec<GatherAction> = Vec::new();
        if buffer.is_empty() {
            assert(effects(actions@) =~= Seq::<Effect>::empty());
            return actions;
        }
        let mut kept: Vec<TimestampedTraceInstruction> = Vec::new();
        let mut at: usize = 0;
        assert(effects(actions@) =~= requests(Seq::empty()));
        while at < buffer.len()
            invariant
                at <= buffer@.len(),
                buffer@ == whole,
                self.wf(),
                parents_known(locals.len(), whole),
                ({
                    let translation = translate(tree, locals, whole.take(at as int));
                    &&& self.tree() == translation.tree
                    &&& self.locals(thread_id) == translation.locals
                    &&& kept@ == translation.kept
                    &&& effects(actions@) == requests(translation.resolve)
                }),
                self.others_kept(old(self), thread_id),
                self.threads() == old(self).threads(),
                self.timestamp() == old(self).timestamp(),
            decreases buffer@.len() - at,
        {
            let ghost translation = translate(tree, locals, whole.take(at as int));
            let ghost earlier_self = *self;
            proof {
                assert(whole.take(at + 1).drop_last() =~= whole.take(at as int));
                assert(whole.take(at + 1).last() == whole[at as int]);
                lemma_parents_known_prefix(locals.len(), whole, at + 1);
                lemma_translated_locals(tree, locals, whole.take(at as int));
            }
            let time: Timestamp = buffer[at].1;
            match &buffer[at].0 {
                TraceInstruction::Stack(stack) => {
                    let (updated, parent, index) = self.trace_tree.push_frame(
                        thread_id,
                        stack.parent,
                        stack.ip,
                    );
                    if updated {
                        let ghost earlier = actions@;
                        actions.push(
                            GatherAction::Resolve(ResolverProtocol::Resolv(index, stack.ip)),
                        );
                        kept.push(
                            (
                                TraceInstruction::Stack(
                                    InstrStack { ip: stack.ip, index, parent },
                                ),
                                time,
                            ),
                        );
                        assert(effects(actions@) =~= effects(earlier).push(
                            Effect::Resolve(index, stack.ip),
                        ));
                        assert(requests(translation.resolve.push((index, stack.ip))) =~= requests(
                            translation.resolve,
                        ).push(Effect::Resolve(index, stack.ip)));
                    }
                },
                TraceInstruction::Allocate(alloc) => {
                    let global: usize = self.trace_tree.lookup(
                        thread_id,
                        alloc.trace_index.0 as usize,
                    );
                    let trace_index: TraceIndex = TraceIndex::from(global);
                    kept.push(
                        (
                            TraceInstruction::Allocate(
                                InstrAllocation { size: alloc.size, ptr: alloc.ptr, trace_index },
                            ),
                            time,
                        ),
                    );
                },
                TraceInstruction::Deallocate(alloc) => {
                    let global: usize = self.trace_tree.lookup(
                        thread_id,
                        alloc.trace_index.0 as usize,
                    );
                    let trace_index: TraceIndex = TraceIndex::from(global);
                    kept.push(
                        (
                            TraceInstruction::Deallocate(
                                InstrAllocation { size: alloc.size, ptr: alloc.ptr, trace_index },
                            ),
                            time,
                        ),
                    );
                },
            }
            at += 1;
            assert forall|other: usize| other != thread_id implies #[trigger] self.locals(other)
                == old(self).locals(other) by {
                assert(earlier_self.locals(other) == old(self).locals(other));
            }
        }
        assert(whole.take(at as int) =~= whole);
        buffer.clear();
        let ghost earlier = actions@;
        let message = TraceProtocol::Instructions {
            timestamp: self.timestamp,
            thread_id,
            buffer: kept,
        };
        actions.push(GatherAction::Write(message));
        assert(effects(actions@) =~= effects(earlier).push(GatherAction::Write(message)@));
        actions
    }

    /// Pass on the details of a stack frame that the resolver has found.
    pub fn handle_details(&self, index: usize, details: InstrStackDetails) -> (actions: Vec<
        GatherAction,
    >)
        ensures
            effects(actions@) == seq![Effect::Stack { index, details }],
    {
        let mut actions: Vec<GatherAction> = Vec::new();
        actions.push(
            GatherAction::Write(TraceProtocol::Stack { index, details: Box::new(details) }),
        );
        assert(effects(actions@) =~= seq![Effect::Stack { index, details }]);
        actions
    }

    /// Handle a command of a worker thread.
    pub fn handle_protocol(&mut self, protocol: GathererProtocol<H>) -> (actions: Vec<
        GatherAction,
    >)
        requires
            old(self).wf(),
            protocol matches GathererProtocol::Flush(thread_id, buffer) ==> parents_known(
                old(self).locals(thread_id).len(),
                buffer@,
            ),
        ensures
            final(self).wf(),
            final(self).timestamp() == old(self).timestamp(),
            match protocol {
                GathererProtocol::Register(handle, info) => {
                    &&& final(self).threads() == old(self).threads().push(handle)
                    &&& final(self).tree() == old(self).tree()
                    &&& forall|thread_id: usize|
                        #[trigger] final(self).locals(thread_id) == old(self).locals(thread_id)
                    &&& effects(actions@) == seq![Effect::Accept, Effect::Init(info), Effect::Flush]
                },
                GathererProtocol::Flush(thread_id, buffer) => {
                    let translation = translate(
                        old(self).tree(),
                        old(self).locals(thread_id),
                        buffer@,
                    );
                    &&& final(self).threads() == old(self).threads()
                    &&& final(self).tree() == translation.tree
                    &&& final(self).locals(thread_id) == translation.locals
                    &&& final(self).others_kept(old(self), thread_id)
                    &&& effects(actions@) == sent(
                        old(self).timestamp(),
                        thread_id,
                        old(self).tree(),
                        old(self).locals(thread_id),
                        buffer@,
                    ).push(Effect::Flush)
                },
            },
    {
        match protocol {
            GathererProtocol::Register(handle, info) => {
                self.buffers.push(handle);
                let mut actions: Vec<GatherAction> = Vec::new();
                actions.push(GatherAction::Accept);
                actions.push(GatherAction::Write(TraceProtocol::Init(info)));
                actions.push(GatherAction::Flush);
                assert(effects(actions@) =~= seq![Effect::Accept, Effect::Init(info), Effect::Flush]);
                actions
            },
            GathererProtocol::Flush(thread_id, mut buffer) => {
                let mut actions = self.send_buffer(thread_id, &mut buffer);
                let ghost earlier = actions@;
                actions.push(GatherAction::Flush);
                assert(effects(actions@) =~= effects(earlier).push(Effect::Flush));
                actions
            },
        }
    }

    /// Begin to forcibly flush the buffers of all worker threads. All data up to `next_timestamp`
    /// is in a buffer by then, or was sent before.
    pub fn begin_sweep(&mut self, next_timestamp: Timestamp) -> (sweep: Sweep<H>)
        requires
            old(self).wf(),
        ensures
            final(self).wf(),
            final(self).threads() == Seq::<H>::empty(),
            final(self).tree() == old(self).tree(),
            forall|thread_id: usize|
                #[trigger] final(self).locals(thread_id) == old(self).locals(thread_id),
            final(self).timestamp() == old(self).timestamp(),
            sweep.wf(),
            sweep.kept() == Seq::<H>::empty(),
            sweep.rest() == old(self).threads(),
            sweep.next_timestamp() == next_timestamp,
    {
        let mut states: Vec<H> = Vec::new();
        std::mem::swap(&mut states, &mut self.buffers);
        let sweep = Sweep { states, index: 0, next_timestamp };
        assert(sweep.rest() =~= old(self).threads());
        sweep
    }

    /// Send what was in the buffer of the thread that `sweep` visits, and go on to the next
    /// thread. A dead thread is removed.
    pub fn sweep_thread(
        &mut self,
        sweep: &mut Sweep<H>,
        thread_id: usize,
        dead: bool,
        buffer: &mut Vec<TimestampedTraceInstruction>,
    ) -> (actions: Vec<GatherAction>)
        requires
            old(self).wf(),
            old(sweep).wf(),
            old(sweep).rest().len() > 0,
            parents_known(old(self).locals(thread_id).len(), old(buffer)@),
        ensures
            final(self).wf(),
            final(sweep).wf(),
            final(sweep).rest() == old(sweep).rest().drop_first(),
            final(sweep).kept() == if dead {
                old(sweep).kept()
            } else {
                old(sweep).kept().push(old(sweep).rest()[0])
            },
            final(sweep).next_timestamp() == old(sweep).next_timestamp(),
            final(self).threads() == old(self).threads(),
            final(self).timestamp() == old(self).timestamp(),
            ({
                let translation = translate(
                    old(self).tree(),
                    old(self).locals(thread_id),
                    old(buffer)@,
                );
                &&& final(self).tree() == translation.tree
                &&& final(self).locals(thread_id) == if dead {
                    Seq::<usize>::empty()
                } else {
                    translation.locals
                }
            }),
            final(self).others_kept(old(self), thread_id),
            final(buffer)@ == Seq::<TimestampedTraceInstruction>::empty(),
            effects(actions@) == sent(
                old(self).timestamp(),
                thread_id,
                old(self).tree(),
                old(self).locals(thread_id),
                old(buffer)@,
            ),
    {
        let actions = self.send_buffer(thread_id, buffer);
        let ghost earlier = *self;
        // Remove dead threads
        if dead {
            let _ = sweep.states.remove(sweep.index);
            self.trace_tree.remove_thread(thread_id);
            assert forall|other: usize| other != thread_id implies #[trigger] self.locals(other)
                == old(self).locals(other) by {
                assert(earlier.locals(other) == old(self).locals(other));
            }
        } else {
            assert(sweep.index < sweep.states.len());
            sweep.index = sweep.index + 1;
        }
        assert(sweep.rest() =~= old(sweep).rest().drop_first());
        assert(sweep.kept() =~= if dead {
            old(sweep).kept()
        } else {
            old(sweep).kept().push(old(sweep).rest()[0])
        });
        actions
    }

    /// Whether no thread has registered since the sweep began.
    pub fn is_idle(&self) -> (idle: bool)
        ensures
            idle == (self.threads().len() == 0),
    {
        self.buffers.len() == 0
    }

    /// End a sweep that has visited every thread, and announce its timestamp.
    pub fn end_sweep(&mut self, sweep: Sweep<H>) -> (actions: Vec<GatherAction>)
        requires
            old(self).wf(),
            old(self).threads().len() == 0,
            sweep.wf(),
            sweep.rest().len() == 0,
        ensures
            final(self).wf(),
            final(self).threads() == sweep.kept(),
            final(self).tree() == old(self).tree(),
            forall|thread_id: usize|
                #[trigger] final(self).locals(thread_id) == old(self).locals(thread_id),
            final(self).timestamp() == sweep.next_timestamp(),
            effects(actions@) == seq![Effect::Timestamp(sweep.next_timestamp()), Effect::Flush],
    {
        self.timestamp = sweep.next_timestamp;
        self.buffers = sweep.states;
        assert(self.threads() =~= sweep.kept());
        let mut actions: Vec<GatherAction> = Vec::new();
        // Announce new timestamp
        actions.push(GatherAction::Write(TraceProtocol::Timestamp(self.timestamp)));
        actions.push(GatherAction::Flush);
        assert(effects(actions@) =~= seq![Effect::Timestamp(self.timestamp), Effect::Flush]);
        actions
    }

    /// Begin to shut down, after the last sweep: the resolver is told to end.
    pub fn begin_shutdown(&self) -> (actions: Vec<GatherAction>)
        ensures
            effects(actions@) == seq![Effect::EndResolver],
    {
        let mut actions: Vec<GatherAction> = Vec::new();
        actions.push(GatherAction::Resolve(ResolverProtocol::Shutdown));
        assert(effects(actions@) =~= seq![Effect::EndResolver]);
        actions
    }

    /// Pass on what the resolver still sends while the gatherer shuts down. `None` once the
    /// resolver is gone, which completes the shutdown.
    pub fn drain_details(&self, details: Option<(usize, InstrStackDetails)>) -> (actions: Vec<
        GatherAction,
    >)
        ensures
            effects(actions@) == match details {
                Some(found) => seq![Effect::Stack { index: found.0, details: found.1 }],
                None => seq![Effect::Flush],
            },
    {
        match details {
            Some((index, details)) => self.handle_details(index, details),
            None => {
                let mut actions: Vec<GatherAction> = Vec::new();
                actions.push(GatherAction::Flush);
                assert(effects(actions@) =~= seq![Effect::Flush]);
                actions
            },
        }
    }

    /// Handle an event. The gatherer stops once all worker threads, or the resolver, are gone.
    pub fn handle_event(&mut self, event: GatherEvent<H>) -> (reaction: Reaction)
        requires
            old(self).wf(),
            event matches GatherEvent::Message(Some(GathererProtocol::Flush(thread_id, buffer)))
                ==> parents_known(old(self).locals(thread_id).len(), buffer@),
        ensures
            final(self).wf(),
            final(self).timestamp() == old(self).timestamp(),
            match event {
                GatherEvent::Message(Some(GathererProtocol::Register(handle, info))) => {
                    &&& final(self).threads() == old(self).threads().push(handle)
                    &&& final(self).tree() == old(self).tree()
                    &&& forall|thread_id: usize|
                        #[trigger] final(self).locals(thread_id) == old(self).locals(thread_id)
                    &&& reaction is Act
                    &&& effects(reaction->Act_0@) == seq![
                        Effect::Accept,
                        Effect::Init(info),
                        Effect::Flush,
                    ]
                },
                GatherEvent::Message(Some(GathererProtocol::Flush(thread_id, buffer))) => {
                    let translation = translate(
                        old(self).tree(),
                        old(self).locals(thread_id),
                        buffer@,
                    );
                    &&& final(self).threads() == old(self).threads()
                    &&& final(self).tree() == translation.tree
                    &&& final(self).locals(thread_id) == translation.locals
                    &&& final(self).others_kept(old(self), thread_id)
                    &&& reaction is Act
                    &&& effects(reaction->Act_0@) == sent(
                        old(self).timestamp(),
                        thread_id,
                        old(self).tree(),
                        old(self).locals(thread_id),
                        buffer@,
                    ).push(Effect::Flush)
                },
                GatherEvent::Message(None) => {
                    &&& *final(self) == *old(self)
                    &&& reaction is Stop
                },
                GatherEvent::Details(Some(found)) => {
                    &&& *final(self) == *old(self)
                    &&& reaction is Act
                    &&& effects(reaction->Act_0@) == seq![
                        Effect::Stack { index: found.0, details: found.1 },
                    ]
                },
                GatherEvent::Details(None) => {
                    &&& *final(self) == *old(self)
                    &&& reaction is Stop
                },
                GatherEvent::Tick(elapsed) => {
                    &&& *final(self) == *old(self)
                    &&& if elapsed > TICK_NANOS {
                        reaction is Sweep
                    } else {
                        reaction is Act && effects(reaction->Act_0@) == Seq::<Effect>::empty()
                    }
                },
            },
    {
        match event {
            GatherEvent::Tick(elapsed) => {
                if elapsed > TICK_NANOS {
                    Reaction::Sweep
                } else {
                    let actions: Vec<GatherAction> = Vec::new();
                    assert(effects(actions@) =~= Seq::<Effect>::empty());
                    Reaction::Act(actions)
                }
            },
            GatherEvent::Message(Some(protocol)) => Reaction::Act(self.handle_protocol(protocol)),
            GatherEvent::Message(None) => Reaction::Stop,
            GatherEvent::Details(Some((index, details))) => Reaction::Act(
                self.handle_details(index, details),
            ),
            GatherEvent::Details(None) => Reaction::Stop,
        }
    }
}

/// A longer buffer with known parents starts with a shorter one.
pub proof fn lemma_parents_known_prefix(
    count: nat,
    buffer: Seq<TimestampedTraceInstruction>,
    len: int,
)
    requires
        0 <= len <= buffer.len(),
    ensures
        parents_known(count, buffer) ==> parents_known(count, buffer.take(len)),
    decreases buffer.len(),
{
    if len == buffer.len() {
        assert(buffer.take(len) =~= buffer);
    } else {
        assert(buffer.drop_last().take(len) =~= buffer.take(len));
        lemma_parents_known_prefix(count, buffer.drop_last(), len);
    }
}

/// Each stack frame that is translated adds one local frame.
pub proof fn lemma_translated_locals(
    tree: Seq<Frame>,
    locals: Seq<usize>,
    buffer: Seq<TimestampedTraceInstruction>,
)
    ensures
        translate(tree, locals, buffer).locals.len() == locals.len() + stacks(buffer),
    decreases buffer.len(),
{
    if buffer.len() > 0 {
        lemma_translated_locals(tree, locals, buffer.drop_last());
    }
}

} // verus!
