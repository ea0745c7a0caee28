//! Stack traces that begin below a given function, and a tree of them with 32-bit indices.
use crate::frames;
use crate::frames::Frame;
use crate::stacktrace;
use crate::stacktrace::{FrameCallback, TRACE_MAX_SIZE};
use crate::symbols;
use vstd::prelude::*;

verus! {

/// A size-limited stack trace composed of instruction pointers
pub struct Trace {
    size: usize,
    data: [u64; TRACE_MAX_SIZE],
}

/// The instruction pointers of `frames`, which lists the address of the function and the
/// instruction pointer of each frame, innermost first, from behind the first frame of the
/// function at `stop`.
pub open spec fn beyond(frames: Seq<(u64, u64)>, stop: u64) -> Seq<u64>
    decreases frames.len(),
{
    if frames.len() == 0 {
        Seq::empty()
    } else if frames[0].0 == stop {
        frames.drop_first().map_values(|frame: (u64, u64)| frame.1)
    } else {
        beyond(frames.drop_first(), stop)
    }
}

/// The first entries of `ips`, as many as fit into a trace.
pub open spec fn fitting(ips: Seq<u64>) -> Seq<u64> {
    if ips.len() <= TRACE_MAX_SIZE {
        ips
    } else {
        ips.take(TRACE_MAX_SIZE as int)
    }
}

impl View for Trace {
    type V = Seq<u64>;

    closed spec fn view(&self) -> Seq<u64> {
        self.data@.take(self.size as int)
    }
}

impl Trace {
    /// The frames lie within the buffer.
    pub closed spec fn wf(&self) -> bool {
        self.size <= TRACE_MAX_SIZE
    }

    /// A well-formed trace holds no more frames than fit into it.
    pub proof fn lemma_length(&self)
        requires
            self.wf(),
        ensures
            self@.len() <= TRACE_MAX_SIZE,
    {
    }

    /// Construct and fill a new trace from the current call stack beyond the function at `stop`.
    pub fn new(stop: u64) -> (trace: Self)
        ensures
            trace.wf(),
            exists|frames: Seq<(u64, u64)>| #[trigger]
                symbols::seen_on_stack(frames) && trace@ == stacktrace::trimmed(
                    fitting(beyond(frames, stop)),
                ),
    {
        let mut trace = Trace { size: 0, data: [0; TRACE_MAX_SIZE] };
        trace.fill(stop);
        trace
    }

    /// Fill a trace from the current call stack beyond the function at `stop`.
    pub fn fill(&mut self, stop: u64)
        ensures
            final(self).wf(),
            exists|frames: Seq<(u64, u64)>| #[trigger]
                symbols::seen_on_stack(frames) && final(self)@ == stacktrace::trimmed(
                    fitting(beyond(frames, stop)),
                ),
    {
        let frames = symbols::call_stack();
        proof {
            symbols::law_seen_by_looking(frames, frames@);
        }
        self.fill_from(&frames, stop);
        assert(self@ == stacktrace::trimmed(fitting(beyond(frames@, stop))));
    }

    /// Construct a trace of the call stack `frames` beyond the function at `stop`.
    pub fn from_frames(frames: &Vec<(u64, u64)>, stop: u64) -> (trace: Self)
        ensures
            trace.wf(),
            trace@ == stacktrace::trimmed(fitting(beyond(frames@, stop))),
    {
        let mut trace = Trace { size: 0, data: [0; TRACE_MAX_SIZE] };
        trace.fill_from(frames, stop);
        trace
    }

    /// Fill a trace from the call stack `frames` beyond the function at `stop`.
    pub fn fill_from(&mut self, frames: &Vec<(u64, u64)>, stop: u64)
        ensures
            final(self).wf(),
            final(self)@ == stacktrace::trimmed(fitting(beyond(frames@, stop))),
    {
        self.data = [0; TRACE_MAX_SIZE];
        let mut from: usize = 0;
        assert(frames@.skip(0) =~= frames@);
        while from < frames.len() && frames[from].0 != stop
            invariant
                from <= frames@.len(),
                beyond(frames@.skip(from as int), stop) == beyond(frames@, stop),
            decreases frames@.len() - from,
        {
            assert(frames@.skip(from as int).drop_first() =~= frames@.skip(from + 1));
            from += 1;
        }
        let ghost rest = frames@.skip(from as int);
        let ghost ips = beyond(frames@, stop);
        if from < frames.len() {
            from += 1;
            assert(rest.drop_first() =~= frames@.skip(from as int));
        }
        assert(ips =~= frames@.skip(from as int).map_values(|frame: (u64, u64)| frame.1));
        let mut index: usize = 0;
        while index < TRACE_MAX_SIZE && index < frames.len() - from
            invariant
                index <= TRACE_MAX_SIZE,
                from <= frames@.len(),
                index <= frames@.len() - from,
                ips == frames@.skip(from as int).map_values(|frame: (u64, u64)| frame.1),
                forall|i: int| 0 <= i < index ==> self.data@[i] == ips[i],
            decreases TRACE_MAX_SIZE - index,
        {
            self.data[index] = frames[from + index].1;
            index += 1;
        }
        assert(self.data@.take(index as int) =~= fitting(ips));
        let mut size: usize = index;
        while size > 0 && self.data[size - 1] == 0
            invariant
                size <= index <= TRACE_MAX_SIZE,
                stacktrace::trimmed(self.data@.take(size as int)) == stacktrace::trimmed(
                    fitting(ips),
                ),
            decreases size,
        {
            assert(self.data@.take(size as int).drop_last() =~= self.data@.take(size - 1));
            size -= 1;
        }
        self.size = size;
    }

    /// The instruction pointers of the trace, innermost first.
    pub fn deref(&self) -> (frames: &[u64])
        requires
            self.wf(),
        ensures
            frames@ == self@,
    {
        vstd::slice::slice_subrange(self.data.as_slice(), 0, self.size)
    }
}

/// A tree of stack frames whose indices have 32 bits.
pub struct TraceTree {
    inner: stacktrace::TraceTree,
}

impl View for TraceTree {
    type V = Seq<Frame>;

    closed spec fn view(&self) -> Seq<Frame> {
        self.inner@
    }
}

impl Default for TraceTree {
    fn default() -> (tree: Self)
        ensures
            tree.wf(),
            tree@ == Seq::<Frame>::empty(),
    {
        TraceTree { inner: stacktrace::TraceTree::default() }
    }
}

impl TraceTree {
    /// The tree is well-formed, and its next index has 32 bits.
    pub closed spec fn wf(&self) -> bool {
        &&& self.inner.wf()
        &&& self.inner@.len() < u32::MAX
    }

    /// The frames of a well-formed tree are well-formed.
    pub proof fn lemma_wf(&self)
        requires
            self.wf(),
        ensures
            frames::tree_ok(self@),
            self@.len() < u32::MAX,
    {
        self.inner.lemma_wf();
    }

    /// Whether a trace of `length` frames can be indexed whatever frames it holds.
    pub fn has_room(&self, length: usize) -> (room: bool)
        requires
            self.wf(),
        ensures
            room == (self@.len() + length < u32::MAX),
    {
        let limit: usize = u32::MAX as usize;
        length <= limit && self.inner.next_index() <= limit - length
    }

    /// Obtain the index of the innermost frame of `trace`.
    ///
    /// Calls the callback for any newly encountered instruction pointer, or a new path. Where a
    /// call answers `false`, the rest of the trace is dropped and the result is 0.
    pub fn index<C: FrameCallback>(&mut self, trace: &Trace, callback: &mut C) -> (index: u32)
        requires
            old(self).wf(),
            trace.wf(),
            frames::intern_path(old(self)@, 0, stacktrace::call_path(trace@)).0.len() < u32::MAX,
        ensures
            final(self).wf(),
            stacktrace::indexed(
                old(self)@,
                0,
                stacktrace::call_path(trace@),
                old(callback).calls(),
                final(callback).calls(),
                final(self)@,
                if stacktrace::gave_up(old(callback).calls(), final(callback).calls()) {
                    None
                } else {
                    Some(index as usize)
                },
            ),
            stacktrace::gave_up(old(callback).calls(), final(callback).calls()) ==> index == 0,
    {
        let ips = stacktrace::outermost_first(trace.deref());
        proof {
            trace.lemma_length();
            trace@.reverse().lemma_filter_len(|ip: u64| ip != 0);
            self.inner.lemma_wf();
            frames::lemma_intern_path(self@, 0, ips@);
        }
        let index: usize = self.inner.index_path(&ips, callback);
        index as u32
    }
}

} // verus!
