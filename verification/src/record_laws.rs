//! What the terms of the recording side come down to: indices, call paths, announcements, and the
//! messages of the gatherer, entry by entry and field by field.
use crate::buffer;
use crate::frames;
use crate::frames::Frame;
use crate::gather;
use crate::gather::{Effect, GatherAction, Gatherer, ResolverProtocol};
use crate::laws;
use crate::stacktrace;
use crate::stacktrace::{FrameCall, FrameCallback, Trace};
use crate::types;
use crate::types::{
    InstrAllocation, InstrInit, InstrStack, InstrStackDetails, TimestampedTraceInstruction,
    Timestamp, TraceIndex, TraceInstruction, TraceProtocol,
};
use crate::writer;
use crate::writer::NewFrames;
use vstd::prelude::*;

verus! {

/// A trace index keeps the lower 32 bits of a frame index: small indices stay as they are, and
/// indices that are 2^32 apart have the same trace index.
pub proof fn law_trace_index_keeps_low_bits(index: nat)
    ensures
        index < 0x1_0000_0000 ==> types::trace_index_of(index).0 == index,
        types::trace_index_of(index + 0x1_0000_0000) == types::trace_index_of(index),
{
}

/// Converting to a trace index keeps a number of 32 bits, and the lower 32 bits of another.
pub proof fn law_conversions_keep_low_bits(small: u32, index: usize)
    ensures
        <TraceIndex as vstd::std_specs::convert::FromSpec<u32>>::from_spec(small).0 == small,
        <TraceIndex as vstd::std_specs::convert::FromSpec<usize>>::from_spec(index).0 == index as int
            % 0x1_0000_0000,
{
}

/// Allocations and deallocations carry their allocation, stack frames carry none.
pub proof fn law_allocation_of_instruction(instruction: TraceInstruction)
    ensures
        instruction is Stack ==> instruction.allocation() is None,
        instruction matches TraceInstruction::Allocate(alloc) ==> instruction.allocation() == Some(
            alloc,
        ),
        instruction matches TraceInstruction::Deallocate(alloc) ==> instruction.allocation()
            == Some(alloc),
{
}

/// In a well-formed tree every frame comes after its parent and no two frames are equal, and
/// nothing more is asked of it.
pub proof fn law_well_formed_tree(tree: Seq<Frame>)
    ensures
        frames::tree_ok(tree) <==> (forall|k: int|
            0 <= k < tree.len() ==> (#[trigger] tree[k]).parent <= k) && (forall|i: int, j: int|
            0 <= i < j < tree.len() ==> #[trigger] tree[i] != #[trigger] tree[j]),
{
}

/// A later tree begins with all frames of the earlier one, at the same places.
pub proof fn law_extension_keeps_frames(earlier: Seq<Frame>, later: Seq<Frame>)
    ensures
        frames::extends(earlier, later) <==> earlier.len() <= later.len() && (forall|k: int|
            0 <= k < earlier.len() ==> later[k] == #[trigger] earlier[k]),
{
    if frames::extends(earlier, later) {
        assert forall|k: int| 0 <= k < earlier.len() implies later[k] == #[trigger] earlier[k] by {
            assert(later.take(earlier.len() as int)[k] == earlier[k]);
        }
    }
    if earlier.len() <= later.len() && (forall|k: int|
        0 <= k < earlier.len() ==> later[k] == #[trigger] earlier[k]) {
        assert(later.take(earlier.len() as int) =~= earlier);
    }
}

/// A frame is found at its index. It is added, at the end, only where no frame equals it.
pub proof fn law_interned_frame_is_found(tree: Seq<Frame>, frame: Frame)
    ensures
        ({
            let (next, index) = frames::intern(tree, frame);
            &&& 0 < index <= next.len()
            &&& next[index - 1] == frame
            &&& forall|k: int| 0 <= k < tree.len() ==> next[k] == #[trigger] tree[k]
            &&& if exists|k: int| 0 <= k < tree.len() && #[trigger] tree[k] == frame {
                next.len() == tree.len()
            } else {
                next.len() == tree.len() + 1 && index == next.len()
            }
        }),
{
    if tree.contains(frame) {
        assert(tree[tree.index_of(frame)] == frame);
    }
}

/// The root has no call path; that of a frame is the one of its parent with its own instruction
/// pointer at the end.
pub proof fn law_path_goes_through_parent(tree: Seq<Frame>, index: nat)
    requires
        frames::tree_ok(tree),
        0 < index <= tree.len(),
    ensures
        frames::path(tree, 0).len() == 0,
        frames::path(tree, index).len() == frames::path(tree, tree[index - 1].parent).len() + 1,
        frames::path(tree, index).last() == tree[index - 1].ip,
        frames::path(tree, index).drop_last() == frames::path(tree, tree[index - 1].parent),
{
    assert(frames::path(tree, index).drop_last() =~= frames::path(tree, tree[index - 1].parent));
}

/// Below a frame that has no children yet, all of a chain is new.
proof fn lemma_chain_from_tip(tree: Seq<Frame>, ips: Seq<u64>)
    requires
        frames::tree_ok(tree),
    ensures
        ({
            let (full, index) = frames::intern_path(tree, tree.len(), ips);
            &&& full.len() == tree.len() + ips.len()
            &&& index == full.len()
            &&& forall|k: int| tree.len() <= k < full.len() ==> (#[trigger] full[k]).parent == k
        }),
    decreases ips.len(),
{
    if ips.len() > 0 {
        let frame = Frame { ip: ips[0], parent: tree.len() };
        if tree.contains(frame) {
            assert(tree[tree.index_of(frame)].parent <= tree.index_of(frame));
        }
        let next = tree.push(frame);
        frames::lemma_intern(tree, frame);
        lemma_chain_from_tip(next, ips.drop_first());
        frames::lemma_intern_path(next, next.len(), ips.drop_first());
        let full = frames::intern_path(next, next.len(), ips.drop_first()).0;
        assert(full[tree.len() as int] == full.take(next.len() as int)[tree.len() as int]);
    }
}

/// The frames that a chain adds hang one below the other, and the last of them is its end.
proof fn lemma_chain(tree: Seq<Frame>, parent: nat, ips: Seq<u64>)
    requires
        frames::tree_ok(tree),
        parent <= tree.len(),
    ensures
        ({
            let (full, index) = frames::intern_path(tree, parent, ips);
            &&& full.len() <= tree.len() + ips.len()
            &&& full.len() > tree.len() ==> index == full.len()
            &&& forall|k: int| tree.len() < k < full.len() ==> (#[trigger] full[k]).parent == k
        }),
    decreases ips.len(),
{
    if ips.len() > 0 {
        let frame = Frame { ip: ips[0], parent };
        let (next, child) = frames::intern(tree, frame);
        frames::lemma_intern(tree, frame);
        if tree.contains(frame) {
            lemma_chain(tree, child, ips.drop_first());
        } else {
            lemma_chain_from_tip(next, ips.drop_first());
        }
    }
}

/// Indexing a call path adds no more than its own frames: what is new hangs one below the other
/// and ends at the index, which is reached by exactly these instruction pointers. What was there
/// stays.
pub proof fn law_indexing_adds_only_the_path(tree: Seq<Frame>, ips: Seq<u64>)
    requires
        frames::tree_ok(tree),
    ensures
        ({
            let (full, index) = frames::intern_path(tree, 0, ips);
            &&& frames::tree_ok(full)
            &&& tree.len() <= full.len() <= tree.len() + ips.len()
            &&& forall|k: int| 0 <= k < tree.len() ==> full[k] == #[trigger] tree[k]
            &&& forall|k: int| tree.len() < k < full.len() ==> (#[trigger] full[k]).parent == k
            &&& full.len() > tree.len() ==> index == full.len()
            &&& index <= full.len()
            &&& frames::path(full, index) == ips
        }),
{
    lemma_chain(tree, 0, ips);
    laws::law_index_of_trace(tree, ips);
    law_extension_keeps_frames(tree, frames::intern_path(tree, 0, ips).0);
}

/// The call path of a trace without nulls is the trace backwards.
pub proof fn law_call_path_is_backwards(trace: Seq<u64>)
    requires
        forall|i: int| 0 <= i < trace.len() ==> #[trigger] trace[i] != 0,
    ensures
        stacktrace::call_path(trace).len() == trace.len(),
        forall|i: int|
            0 <= i < trace.len() ==> #[trigger] stacktrace::call_path(trace)[i] == trace[trace.len()
                - 1 - i],
    decreases trace.len(),
{
    if trace.len() == 0 {
        law_call_path_grows_inwards(0, trace);
    } else {
        let outer = trace.drop_first();
        assert(trace =~= seq![trace[0]] + outer);
        assert forall|i: int| 0 <= i < outer.len() implies #[trigger] outer[i] != 0 by {
            assert(trace[i + 1] != 0);
        }
        assert(trace[0] != 0);
        law_call_path_is_backwards(outer);
        law_call_path_grows_inwards(trace[0], outer);
    }
}

/// One more innermost frame stands at the end of the call path, unless it is null.
pub proof fn law_call_path_grows_inwards(ip: u64, trace: Seq<u64>)
    ensures
        stacktrace::call_path(Seq::empty()).len() == 0,
        ip != 0 ==> stacktrace::call_path(seq![ip] + trace) == stacktrace::call_path(trace).push(
            ip,
        ),
        ip == 0 ==> stacktrace::call_path(seq![ip] + trace) == stacktrace::call_path(trace),
{
    let non_null = |ip: u64| ip != 0;
    assert((seq![ip] + trace).reverse() =~= trace.reverse().push(ip));
    trace.reverse().lemma_filter_push(ip, non_null);
    assert(Seq::<u64>::empty().reverse() =~= Seq::empty());
    assert(Seq::<u64>::empty().filter(non_null).len() == 0) by {
        reveal(Seq::filter);
    }
}

/// Dropping a null frame, wherever it stands, leaves the call path as it is.
pub proof fn law_call_path_ignores_nulls(inner: Seq<u64>, outer: Seq<u64>)
    ensures
        stacktrace::call_path(inner + seq![0u64] + outer) == stacktrace::call_path(inner + outer),
    decreases inner.len(),
{
    if inner.len() == 0 {
        assert(inner + seq![0u64] + outer =~= seq![0u64] + outer);
        assert(inner + outer =~= outer);
        law_call_path_grows_inwards(0, outer);
    } else {
        let rest = inner.drop_first();
        assert(inner + seq![0u64] + outer =~= seq![inner[0]] + (rest + seq![0u64] + outer));
        assert(inner + outer =~= seq![inner[0]] + (rest + outer));
        law_call_path_ignores_nulls(rest, outer);
        law_call_path_grows_inwards(inner[0], rest + seq![0u64] + outer);
        law_call_path_grows_inwards(inner[0], rest + outer);
    }
}

/// The call path ends with the first frame of the trace that is not null.
pub proof fn law_call_path_ends_at_first_frame(trace: Seq<u64>, first: int)
    requires
        0 <= first < trace.len(),
        trace[first] != 0,
        forall|i: int| 0 <= i < first ==> #[trigger] trace[i] == 0,
    ensures
        stacktrace::call_path(trace).len() > 0,
        stacktrace::call_path(trace).last() == trace[first],
    decreases first,
{
    let outer = trace.drop_first();
    assert(trace =~= seq![trace[0]] + outer);
    law_call_path_grows_inwards(trace[0], outer);
    if first > 0 {
        assert(trace[0] == 0);
        assert forall|i: int| 0 <= i < first - 1 implies #[trigger] outer[i] == 0 by {
            assert(trace[i + 1] == 0);
        }
        law_call_path_ends_at_first_frame(outer, first - 1);
    }
}

/// The index of a trace names its innermost frame: the first that is not null.
pub proof fn law_index_names_innermost_frame(tree: Seq<Frame>, trace: Trace, first: int)
    requires
        frames::tree_ok(tree),
        trace@ is Some,
        0 <= first < (trace@->0).len(),
        (trace@->0)[first] != 0,
        forall|i: int| 0 <= i < first ==> #[trigger] (trace@->0)[i] == 0,
    ensures
        ({
            let (full, index) = writer::with_trace(tree, trace);
            &&& 0 < index <= full.len()
            &&& full[index - 1].ip == (trace@->0)[first]
        }),
{
    let ips = stacktrace::call_path(trace@->0);
    law_call_path_ends_at_first_frame(trace@->0, first);
    law_indexing_adds_only_the_path(tree, ips);
    let (full, index) = frames::intern_path(tree, 0, ips);
    if index == 0 {
        assert(frames::path(full, index).len() == 0);
    } else {
        law_path_goes_through_parent(full, index);
    }
}

/// A trace is indexed by its call path, and the tree it is indexed in keeps all frames.
pub proof fn law_trace_is_indexed_by_call_path(tree: Seq<Frame>, trace: Trace)
    requires
        frames::tree_ok(tree),
        trace@ is Some,
    ensures
        ({
            let (full, index) = writer::with_trace(tree, trace);
            let ips = stacktrace::call_path(trace@->0);
            &&& frames::tree_ok(full)
            &&& tree.len() <= full.len() <= tree.len() + ips.len()
            &&& forall|k: int| 0 <= k < tree.len() ==> full[k] == #[trigger] tree[k]
            &&& forall|k: int| tree.len() < k < full.len() ==> (#[trigger] full[k]).parent == k
            &&& full.len() > tree.len() ==> index == full.len()
            &&& index <= full.len()
            &&& frames::path(full, index) == ips
        }),
{
    law_indexing_adds_only_the_path(tree, stacktrace::call_path(trace@->0));
}

/// Every readable trace can be indexed as long as its frames fit below the last index.
pub proof fn law_readable_trace_is_indexable(tree: Seq<Frame>, trace: Trace)
    requires
        frames::tree_ok(tree),
        trace.wf(),
        trace@ is Some,
        tree.len() + (trace@->0).len() < usize::MAX,
    ensures
        writer::indexable(tree, trace),
{
    law_trace_is_indexed_by_call_path(tree, trace);
    (trace@->0).reverse().lemma_filter_len(|ip: u64| ip != 0);
}

/// Trimming drops the nulls at the end, all of them and nothing else.
pub proof fn law_trimming_drops_nulls_at_end(captured: Seq<u64>)
    ensures
        ({
            let left = stacktrace::trimmed(captured);
            &&& left.len() <= captured.len()
            &&& forall|i: int| 0 <= i < left.len() ==> left[i] == #[trigger] captured[i]
            &&& forall|i: int| left.len() <= i < captured.len() ==> #[trigger] captured[i] == 0
            &&& left.len() > 0 ==> left.last() != 0
        }),
    decreases captured.len(),
{
    if captured.len() > 0 && captured.last() == 0 {
        let shorter = captured.drop_last();
        law_trimming_drops_nulls_at_end(shorter);
        let left = stacktrace::trimmed(captured);
        assert forall|i: int| 0 <= i < left.len() implies left[i] == #[trigger] captured[i] by {
            assert(shorter[i] == captured[i]);
        }
        assert forall|i: int| left.len() <= i < captured.len() implies #[trigger] captured[i]
            == 0 by {
            if i < shorter.len() {
                assert(shorter[i] == captured[i]);
            }
        }
    }
}

/// A trace keeps the frames that were captured, up to the last that is not null, less `skip` at
/// either end. `count` is the number of frames up to there.
pub proof fn law_trace_keeps_frames(data: Seq<u64>, size: int, skip: int, count: int)
    requires
        0 <= count <= size <= data.len(),
        0 <= skip,
        forall|i: int| count <= i < size ==> #[trigger] data[i] == 0,
        count > 0 ==> data[count - 1] != 0,
    ensures
        2 * skip <= count ==> {
            &&& stacktrace::kept(data, size, skip) matches Some(left)
            &&& left.len() == count - 2 * skip
            &&& forall|i: int| 0 <= i < left.len() ==> #[trigger] left[i] == data[skip + i]
        },
        2 * skip > count ==> stacktrace::kept(data, size, skip) is None,
{
    let captured = data.take(size);
    law_trimming_drops_nulls_at_end(captured);
    let left = stacktrace::trimmed(captured);
    assert forall|i: int| 0 <= i < size implies #[trigger] captured[i] == data[i] by {}
    if left.len() < count {
        assert(captured[count - 1] == 0);
    } else if left.len() > count {
        assert(left.last() == captured[left.len() - 1]);
    }
    if 2 * skip <= count {
        let result = stacktrace::kept(data, size, skip)->0;
        assert forall|i: int| 0 <= i < result.len() implies #[trigger] result[i] == data[skip + i] by {
            assert(result[i] == left[skip + i]);
            assert(left[skip + i] == captured[skip + i]);
        }
    }
}

/// A capture that failed leaves an empty trace.
pub proof fn law_failed_capture_is_empty(data: Seq<u64>, size: int, skip: int)
    requires
        size < 0,
    ensures
        stacktrace::kept(data, size, skip) matches Some(left) && left.len() == 0,
{
}

/// The global index of a local frame is the one that is listed for it; the root and unknown frames
/// have 0.
pub proof fn law_global_index_is_listed(locals: Seq<usize>, local: nat)
    ensures
        0 < local <= locals.len() ==> stacktrace::to_global(locals, local) == locals[local - 1],
        local == 0 || local > locals.len() ==> stacktrace::to_global(locals, local) == 0,
{
}

/// Up to any frame of the chain, the call path is the beginning of the whole call path.
proof fn lemma_path_prefix(full: Seq<Frame>, from: nat, len: nat)
    requires
        frames::tree_ok(full),
        from < len <= full.len(),
        forall|k: int| from < k < full.len() ==> (#[trigger] full[k]).parent == k,
    ensures
        ({
            let whole = frames::path(full, full.len());
            let n = whole.len() - (full.len() - len);
            0 < n <= whole.len() && frames::path(full, len) == whole.take(n)
        }),
    decreases full.len() - len,
{
    law_path_goes_through_parent(full, len);
    let whole = frames::path(full, full.len());
    if len == full.len() {
        assert(whole.take(whole.len() as int) =~= whole);
    } else {
        lemma_path_prefix(full, from, len + 1);
        law_path_goes_through_parent(full, len + 1);
        assert(full[len as int].parent == len);
        let n = whole.len() - (full.len() - len);
        assert(whole.take(n + 1).drop_last() =~= whole.take(n));
    }
}

/// What indexing a call path tells the callback, and what it leads to: the callback is told of
/// every new frame once, in order, with its instruction pointer, parent and index, until it
/// refuses one. Where it refuses none, the index has the call path; else the refused frame is the
/// last one that was added, on the way to the end of the call path.
pub proof fn law_callback_is_told_of_new_frames(
    tree: Seq<Frame>,
    ips: Seq<u64>,
    before: Seq<FrameCall>,
    after: Seq<FrameCall>,
    now: Seq<Frame>,
    index: Option<usize>,
)
    requires
        frames::tree_ok(tree),
        stacktrace::indexed(tree, 0, ips, before, after, now, index),
    ensures
        frames::tree_ok(now),
        after.len() >= before.len(),
        forall|j: int| 0 <= j < before.len() ==> after[j] == #[trigger] before[j],
        now.len() == tree.len() + after.len() - before.len(),
        forall|k: int| 0 <= k < tree.len() ==> now[k] == #[trigger] tree[k],
        forall|k: int| tree.len() < k < now.len() ==> (#[trigger] now[k]).parent == k,
        forall|j: int|
            before.len() <= j < after.len() ==> {
                let at = tree.len() + j - before.len();
                &&& (#[trigger] after[j]).ip == now[at].ip
                &&& after[j].parent == now[at].parent
                &&& after[j].index == at + 1
            },
        forall|j: int| before.len() <= j < after.len() - 1 ==> (#[trigger] after[j]).proceed,
        match index {
            Some(index) => {
                &&& after.len() > before.len() ==> after.last().proceed && index == now.len()
                &&& index <= now.len()
                &&& frames::path(now, index as nat) == ips
            },
            None => {
                &&& after.len() > before.len()
                &&& !after.last().proceed
                &&& exists|n: int|
                    0 < n <= ips.len() && frames::path(now, now.len()) == #[trigger] ips.take(n)
            },
        },
{
    let (full, innermost) = frames::intern_path(tree, 0, ips);
    law_indexing_adds_only_the_path(tree, ips);
    assert(now == full.take(now.len() as int)) by {
        assert(full.take(full.len() as int) =~= full);
    }
    frames::lemma_take_ok(full, now.len());
    assert forall|k: int| 0 <= k < now.len() implies #[trigger] now[k] == full[k] by {}
    assert forall|j: int| 0 <= j < before.len() implies after[j] == #[trigger] before[j] by {
        assert(after.take(before.len() as int)[j] == before[j]);
    }
    assert forall|j: int| before.len() <= j < after.len() implies {
        let at = tree.len() + j - before.len();
        &&& (#[trigger] after[j]).ip == now[at].ip
        &&& after[j].parent == now[at].parent
        &&& after[j].index == at + 1
    } by {
        assert(stacktrace::announces(after[j], full, tree.len() + j - before.len()));
    }
    if index is None {
        lemma_path_prefix(full, tree.len(), now.len());
        frames::lemma_path_extends(now, full, now.len());
        let n = ips.len() - (full.len() - now.len());
        assert(frames::path(now, now.len()) == ips.take(n));
    }
}

/// An index was given up exactly if the last new call answered `false`.
pub proof fn law_giving_up_is_last_answer(before: Seq<FrameCall>, after: Seq<FrameCall>)
    ensures
        stacktrace::gave_up(before, after) <==> after.len() > before.len() && !after[after.len()
            - 1].proceed,
{
}

/// Collected frames are what the collector was told, field by field.
pub proof fn law_collected_frames_are_calls(collected: NewFrames, j: int)
    requires
        0 <= j < collected.frames@.len(),
    ensures
        collected.calls().len() == collected.frames@.len(),
        collected.calls()[j].ip == collected.frames@[j].ip,
        collected.calls()[j].parent == collected.frames@[j].parent,
        collected.calls()[j].index == collected.frames@[j].index,
        collected.calls()[j].proceed,
{
}

/// The announcements of a tree list its frames from a place on, each with its instruction pointer,
/// its index and its parent.
pub proof fn law_announcements_list_frames(tree: Seq<Frame>, from: nat, j: int)
    requires
        frames::tree_ok(tree),
        tree.len() < usize::MAX,
        from <= tree.len(),
        0 <= j < tree.len() - from,
    ensures
        writer::announcements(tree, from).len() == tree.len() - from,
        writer::announcements(tree, from)[j] matches TraceInstruction::Stack(stack) && stack.ip
            == tree[from + j].ip && stack.index == from + j + 1 && stack.parent == tree[from
            + j].parent,
{
    assert(tree[from + j].parent <= from + j);
}

/// A tree without frames from a place on has nothing to announce there.
pub proof fn law_nothing_new_is_not_announced(tree: Seq<Frame>)
    ensures
        writer::announcements(tree, tree.len()).len() == 0,
{
}

/// The effect of an action is what the action says, with nothing left out.
pub proof fn law_effect_says_what_is_done(action: GatherAction)
    ensures
        match action {
            GatherAction::Write(TraceProtocol::Instructions { timestamp, thread_id, buffer }) => {
                &&& action@ matches Effect::Instructions { timestamp: t, thread_id: i, buffer: b }
                &&& t == timestamp && i == thread_id && b == buffer@
            },
            GatherAction::Write(TraceProtocol::Timestamp(timestamp)) => action@
                matches Effect::Timestamp(t) && t == timestamp,
            GatherAction::Write(TraceProtocol::Init(info)) => action@ matches Effect::Init(i) && i
                == info,
            GatherAction::Write(TraceProtocol::Stack { index, details }) => {
                &&& action@ matches Effect::Stack { index: i, details: d }
                &&& i == index && d == *details
            },
            GatherAction::Resolve(ResolverProtocol::Resolv(index, ip)) => action@
                matches Effect::Resolve(i, p) && i == index && p == ip,
            GatherAction::Resolve(ResolverProtocol::Shutdown) => action@ is EndResolver,
            GatherAction::Accept => action@ is Accept,
            GatherAction::Flush => action@ is Flush,
        },
{
}

/// Actions take effect one by one, in order.
pub proof fn law_effects_are_in_order(actions: Seq<GatherAction>)
    ensures
        gather::effects(actions).len() == actions.len(),
        forall|i: int|
            0 <= i < actions.len() ==> #[trigger] gather::effects(actions)[i] == actions[i]@,
{
}

/// The stack frames in a buffer are counted one by one.
pub proof fn law_stacks_are_counted(
    buffer: Seq<TimestampedTraceInstruction>,
    entry: TimestampedTraceInstruction,
)
    ensures
        gather::stacks(Seq::empty()) == 0,
        gather::stacks(buffer.push(entry)) == gather::stacks(buffer) + if entry.0 is Stack {
            1int
        } else {
            0int
        },
{
    assert(buffer.push(entry).drop_last() =~= buffer);
}

/// All parents are known exactly if each frame in the buffer has a parent among the frames that
/// were announced before it, in this buffer or earlier ones.
pub proof fn law_known_parents_come_before(
    announced: nat,
    buffer: Seq<TimestampedTraceInstruction>,
)
    ensures
        gather::parents_known(announced, buffer) <==> forall|at: int|
            0 <= at < buffer.len() ==> ((#[trigger] buffer[at]).0 matches TraceInstruction::Stack(
                stack,
            ) ==> stack.parent <= announced + gather::stacks(buffer.take(at))),
    decreases buffer.len(),
{
    if buffer.len() > 0 {
        let shorter = buffer.drop_last();
        let last = buffer.len() - 1;
        law_known_parents_come_before(announced, shorter);
        assert(buffer.take(last) =~= shorter);
        assert forall|at: int| 0 <= at < last implies #[trigger] shorter.take(at) == buffer.take(
            at,
        ) by {
            assert(shorter.take(at) =~= buffer.take(at));
        }
        if gather::parents_known(announced, buffer) {
            assert forall|at: int| 0 <= at < buffer.len() implies ((
            #[trigger] buffer[at]).0 matches TraceInstruction::Stack(stack) ==> stack.parent
                <= announced + gather::stacks(buffer.take(at))) by {
                if at < last {
                    assert(shorter[at] == buffer[at]);
                    assert(shorter.take(at) == buffer.take(at));
                }
            }
        } else if forall|at: int|
            0 <= at < buffer.len() ==> ((#[trigger] buffer[at]).0 matches TraceInstruction::Stack(
                stack,
            ) ==> stack.parent <= announced + gather::stacks(buffer.take(at))) {
            assert forall|at: int| 0 <= at < shorter.len() implies ((
            #[trigger] shorter[at]).0 matches TraceInstruction::Stack(stack) ==> stack.parent
                <= announced + gather::stacks(shorter.take(at))) by {
                assert(shorter[at] == buffer[at]);
                assert(shorter.take(at) == buffer.take(at));
            }
            assert(buffer[last] == buffer.last());
        }
    }
}

/// An allocation is passed on with its size and pointer, and with the lower 32 bits of the global
/// index that is listed for its frame, or 0 where none is.
pub proof fn law_allocation_gets_global_index(alloc: InstrAllocation, locals: Seq<usize>)
    ensures
        ({
            let sent = gather::globalized(alloc, locals);
            let local = alloc.trace_index.0;
            &&& sent.size == alloc.size
            &&& sent.ptr == alloc.ptr
            &&& sent.trace_index.0 == if 0 < local <= locals.len() {
                locals[local - 1] as int % 0x1_0000_0000
            } else {
                0
            }
        }),
{
}

/// Translating one more entry: an allocation or deallocation is added to what is passed on, as
/// such and at its time, and leaves the tree alone. A frame is given the global index of the equal
/// frame in the tree; where there is none, it is added to the tree, passed on with its global
/// index and parent, and sent to the resolver.
pub proof fn law_one_more_entry_is_translated(
    tree: Seq<Frame>,
    locals: Seq<usize>,
    buffer: Seq<TimestampedTraceInstruction>,
    entry: TimestampedTraceInstruction,
)
    requires
        gather::translate(tree, locals, buffer).tree.len() < usize::MAX,
    ensures
        ({
            let before = gather::translate(tree, locals, buffer);
            let after = gather::translate(tree, locals, buffer.push(entry));
            match entry.0 {
                TraceInstruction::Stack(stack) => {
                    let parent: int = if 0 < stack.parent <= before.locals.len() {
                        before.locals[stack.parent - 1] as int
                    } else {
                        0
                    };
                    let frame = Frame { ip: stack.ip, parent: parent as nat };
                    let known = exists|k: int|
                        0 <= k < before.tree.len() && #[trigger] before.tree[k] == frame;
                    let index = after.locals.last();
                    &&& after.locals.len() == before.locals.len() + 1
                    &&& after.locals.drop_last() == before.locals
                    &&& 0 < index <= after.tree.len()
                    &&& after.tree[index - 1] == frame
                    &&& if known {
                        &&& after.tree == before.tree
                        &&& after.kept == before.kept
                        &&& after.resolve == before.resolve
                    } else {
                        &&& after.tree == before.tree.push(frame)
                        &&& index == after.tree.len()
                        &&& after.kept.len() == before.kept.len() + 1
                        &&& after.kept.drop_last() == before.kept
                        &&& after.kept.last().1 == entry.1
                        &&& after.kept.last().0 matches TraceInstruction::Stack(sent)
                        &&& sent.ip == stack.ip && sent.index == index && sent.parent == parent
                        &&& after.resolve == before.resolve.push((index, stack.ip))
                    }
                },
                TraceInstruction::Allocate(alloc) => {
                    &&& after.tree == before.tree
                    &&& after.locals == before.locals
                    &&& after.resolve == before.resolve
                    &&& after.kept.len() == before.kept.len() + 1
                    &&& after.kept.drop_last() == before.kept
                    &&& after.kept.last().1 == entry.1
                    &&& after.kept.last().0 matches TraceInstruction::Allocate(sent)
                    &&& sent.ptr == alloc.ptr && sent.size == alloc.size
                    &&& sent.trace_index.0 == if 0 < alloc.trace_index.0 <= before.locals.len() {
                        before.locals[alloc.trace_index.0 - 1] as int % 0x1_0000_0000
                    } else {
                        0
                    }
                },
                TraceInstruction::Deallocate(alloc) => {
                    &&& after.tree == before.tree
                    &&& after.locals == before.locals
                    &&& after.resolve == before.resolve
                    &&& after.kept.len() == before.kept.len() + 1
                    &&& after.kept.drop_last() == before.kept
                    &&& after.kept.last().1 == entry.1
                    &&& after.kept.last().0 matches TraceInstruction::Deallocate(sent)
                    &&& sent.ptr == alloc.ptr && sent.size == alloc.size
                    &&& sent.trace_index.0 == if 0 < alloc.trace_index.0 <= before.locals.len() {
                        before.locals[alloc.trace_index.0 - 1] as int % 0x1_0000_0000
                    } else {
                        0
                    }
                },
            }
        }),
{
    assert(buffer.push(entry).drop_last() =~= buffer);
    let before = gather::translate(tree, locals, buffer);
    let after = gather::translate(tree, locals, buffer.push(entry));
    match entry.0 {
        TraceInstruction::Stack(stack) => {
            let frame = Frame {
                ip: stack.ip,
                parent: stacktrace::to_global(before.locals, stack.parent as nat),
            };
            law_interned_frame_is_found(before.tree, frame);
            assert(after.locals.drop_last() =~= before.locals);
            if !before.tree.contains(frame) {
                assert(after.kept.drop_last() =~= before.kept);
            }
        },
        TraceInstruction::Allocate(alloc) => {
            law_allocation_gets_global_index(alloc, before.locals);
            assert(after.kept.drop_last() =~= before.kept);
        },
        TraceInstruction::Deallocate(alloc) => {
            law_allocation_gets_global_index(alloc, before.locals);
            assert(after.kept.drop_last() =~= before.kept);
        },
    }
}

/// With nothing to translate, nothing changes and nothing is passed on.
pub proof fn law_nothing_is_translated_to_nothing(tree: Seq<Frame>, locals: Seq<usize>)
    ensures
        ({
            let translation = gather::translate(tree, locals, Seq::empty());
            &&& translation.tree == tree
            &&& translation.locals == locals
            &&& translation.kept.len() == 0
            &&& translation.resolve.len() == 0
        }),
{
}

/// Every allocation and deallocation of a buffer is passed on, once and in order: those that are
/// passed on are as many as those in the buffer, and the one and the other have the same kind,
/// pointer, size and time.
pub proof fn law_every_event_is_passed_on(
    tree: Seq<Frame>,
    locals: Seq<usize>,
    buffer: Seq<TimestampedTraceInstruction>,
)
    ensures
        ({
            let is_event = |entry: TimestampedTraceInstruction| !(entry.0 is Stack);
            let made = buffer.filter(is_event);
            let sent = gather::translate(tree, locals, buffer).kept.filter(is_event);
            &&& sent.len() == made.len()
            &&& forall|i: int|
                0 <= i < made.len() ==> {
                    &&& (#[trigger] sent[i]).1 == made[i].1
                    &&& match made[i].0 {
                        TraceInstruction::Allocate(alloc) => sent[i].0
                            matches TraceInstruction::Allocate(passed) && passed.ptr == alloc.ptr
                            && passed.size == alloc.size,
                        TraceInstruction::Deallocate(alloc) => sent[i].0
                            matches TraceInstruction::Deallocate(passed) && passed.ptr == alloc.ptr
                            && passed.size == alloc.size,
                        TraceInstruction::Stack(_) => false,
                    }
                }
        }),
    decreases buffer.len(),
{
    let is_event = |entry: TimestampedTraceInstruction| !(entry.0 is Stack);
    if buffer.len() == 0 {
        reveal(Seq::filter);
    } else {
        let shorter = buffer.drop_last();
        let entry = buffer.last();
        law_every_event_is_passed_on(tree, locals, shorter);
        assert(buffer =~= shorter.push(entry));
        let before = gather::translate(tree, locals, shorter);
        let after = gather::translate(tree, locals, buffer);
        shorter.lemma_filter_push(entry, is_event);
        if after.kept.len() > before.kept.len() {
            assert(after.kept =~= before.kept.push(after.kept.last()));
            before.kept.lemma_filter_push(after.kept.last(), is_event);
        }
    }
}

/// The frames that are passed on rebuild the global tree: adding them to the tree as it was before
/// gives the tree as it is afterwards.
pub proof fn law_message_rebuilds_tree(
    tree: Seq<Frame>,
    locals: Seq<usize>,
    buffer: Seq<TimestampedTraceInstruction>,
)
    ensures
        ({
            let translation = gather::translate(tree, locals, buffer);
            let announced = translation.kept.filter(
                |entry: TimestampedTraceInstruction| entry.0 is Stack,
            );
            &&& translation.tree.len() == tree.len() + announced.len()
            &&& forall|k: int| 0 <= k < tree.len() ==> translation.tree[k] == #[trigger] tree[k]
            &&& forall|j: int|
                0 <= j < announced.len() ==> ((
                #[trigger] announced[j]).0 matches TraceInstruction::Stack(stack)
                    && translation.tree[tree.len() + j].ip == stack.ip
                    && translation.tree[tree.len() + j].parent == stack.parent)
        }),
    decreases buffer.len(),
{
    let is_frame = |entry: TimestampedTraceInstruction| entry.0 is Stack;
    if buffer.len() == 0 {
        reveal(Seq::filter);
    } else {
        let shorter = buffer.drop_last();
        let entry = buffer.last();
        law_message_rebuilds_tree(tree, locals, shorter);
        let before = gather::translate(tree, locals, shorter);
        let after = gather::translate(tree, locals, buffer);
        if after.kept.len() > before.kept.len() {
            assert(after.kept =~= before.kept.push(after.kept.last()));
            before.kept.lemma_filter_push(after.kept.last(), is_frame);
        }
    }
}

/// What sending a non-empty buffer does, action by action: the resolver is asked for each new
/// frame, in order, and then exactly one message is written, which bears the timestamp, the thread
/// and all that the translation of the buffer passes on. An empty buffer is not sent.
pub proof fn law_one_message_per_buffer(
    actions: Seq<GatherAction>,
    timestamp: Timestamp,
    thread_id: usize,
    tree: Seq<Frame>,
    locals: Seq<usize>,
    buffer: Seq<TimestampedTraceInstruction>,
)
    requires
        gather::effects(actions) == gather::sent(timestamp, thread_id, tree, locals, buffer),
    ensures
        buffer.len() == 0 ==> actions.len() == 0,
        buffer.len() > 0 ==> {
            let translation = gather::translate(tree, locals, buffer);
            &&& actions.len() == translation.resolve.len() + 1
            &&& forall|j: int|
                0 <= j < translation.resolve.len() ==> (
                #[trigger] actions[j] matches GatherAction::Resolve(
                    ResolverProtocol::Resolv(index, ip),
                ) && (index, ip) == translation.resolve[j])
            &&& actions.last() matches GatherAction::Write(
                TraceProtocol::Instructions { timestamp: stamp, thread_id: thread, buffer: message },
            )
            &&& stamp == timestamp
            &&& thread == thread_id
            &&& message@ == translation.kept
        },
{
    law_effects_are_in_order(actions);
    if buffer.len() > 0 {
        let translation = gather::translate(tree, locals, buffer);
        let done = gather::effects(actions);
        assert(done.len() == translation.resolve.len() + 1);
        assert forall|j: int| 0 <= j < translation.resolve.len() implies (
        #[trigger] actions[j] matches GatherAction::Resolve(ResolverProtocol::Resolv(index, ip)) && (
            index,
            ip,
        ) == translation.resolve[j]) by {
            assert(done[j] == actions[j]@);
            law_effect_says_what_is_done(actions[j]);
        }
        assert(done.last() == actions.last()@);
        law_effect_says_what_is_done(actions.last());
    }
}

/// Requests to the resolver name the frames one by one, in order.
pub proof fn law_requests_name_frames(wanted: Seq<(usize, u64)>)
    ensures
        gather::requests(wanted).len() == wanted.len(),
        forall|j: int|
            0 <= j < wanted.len() ==> (#[trigger] gather::requests(wanted)[j] matches Effect::Resolve(
                index,
                ip,
            ) && index == wanted[j].0 && ip == wanted[j].1),
{
}

/// Where the others are kept, every other thread has the frames that it had.
pub proof fn law_other_threads_keep_frames<H>(
    now: Gatherer<H>,
    earlier: Gatherer<H>,
    thread_id: usize,
    other: usize,
)
    requires
        now.others_kept(&earlier, thread_id),
        other != thread_id,
    ensures
        now.locals(other) == earlier.locals(other),
{
}

/// A buffer and what is reserved for it make up the capacity that buffers are meant to have, unless
/// it has more.
pub proof fn law_reserving_makes_up_capacity(capacity: nat)
    ensures
        capacity <= 1024 ==> capacity + buffer::short_of(capacity) == 1024,
        capacity >= 1024 ==> buffer::short_of(capacity) == 0,
{
}

/// A buffer that is full holds as much as its capacity, and no less than buffers are meant to
/// hold; one that is not either holds less or has another capacity.
pub proof fn law_full_buffer_is_at_capacity<T>(entries: Vec<T>)
    ensures
        buffer::is_full(entries) <==> entries@.len() >= 1024 && buffer::has_capacity(
            entries,
            entries@.len() as usize,
        ),
        buffer::is_not_full(entries) && entries@.len() >= 1024 ==> exists|capacity: usize|
            capacity != entries@.len() && #[trigger] buffer::has_capacity(entries, capacity),
{
}

/// Threads are swept twice a second at most.
pub proof fn law_half_a_second_between_sweeps()
    ensures
        gather::TICK_NANOS * 2 == 1_000_000_000,
{
}

/// The analysis is found where it is documented to be.
pub proof fn law_default_address()
    ensures
        types::DEFAULT_HEAP_ANALYSIS_ADDR@ == "localhost:64123"@,
        types::ENV_HEAP_ANALYSIS_ADDR@ == "HEAP_ANALYSIS_ADDR"@,
{
}

} // verus!
