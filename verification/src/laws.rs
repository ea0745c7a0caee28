//! What holds of the recording side as a whole: from the stack traces of a thread, through its
//! local tree and the stream of its instructions, to the global tree.
use crate::frames;
use crate::frames::Frame;
use crate::gather;
use crate::gather::Translation;
use crate::stacktrace;
use crate::stacktrace::Trace;
use crate::types;
use crate::types::{
    InstrAllocation, InstrStack, TimestampedTraceInstruction, Timestamp, TraceInstruction,
};
use crate::writer;
use vstd::prelude::*;

verus! {

/// Every index names one call path: two frames of a tree that are reached by the same instruction
/// pointers are the same frame.
pub proof fn law_path_names_frame(tree: Seq<Frame>, one: nat, other: nat)
    requires
        frames::tree_ok(tree),
        one <= tree.len(),
        other <= tree.len(),
        frames::path(tree, one) == frames::path(tree, other),
    ensures
        one == other,
    decreases one,
{
    if one == 0 || other == 0 {
        assert(frames::path(tree, 0).len() == 0);
        if one > 0 {
            assert(frames::path(tree, one).len() > 0);
        }
        if other > 0 {
            assert(frames::path(tree, other).len() > 0);
        }
    } else {
        let first = tree[one - 1];
        let second = tree[other - 1];
        assert(frames::path(tree, one).last() == first.ip);
        assert(frames::path(tree, other).last() == second.ip);
        assert(frames::path(tree, one).drop_last() =~= frames::path(tree, first.parent));
        assert(frames::path(tree, other).drop_last() =~= frames::path(tree, second.parent));
        law_path_names_frame(tree, first.parent, second.parent);
        assert(tree[one - 1] == tree[other - 1]);
    }
}

/// The index of a trace is that of its call path, and the frames that were there before keep
/// their indices and call paths.
pub proof fn law_index_of_trace(tree: Seq<Frame>, ips: Seq<u64>)
    requires
        frames::tree_ok(tree),
    ensures
        ({
            let (full, index) = frames::intern_path(tree, 0, ips);
            &&& frames::tree_ok(full)
            &&& frames::extends(tree, full)
            &&& index <= full.len()
            &&& frames::path(full, index) == ips
            &&& forall|i: nat|
                i <= tree.len() ==> frames::path(full, i) == #[trigger] frames::path(tree, i)
        }),
{
    frames::lemma_intern_path(tree, 0, ips);
    let (full, index) = frames::intern_path(tree, 0, ips);
    assert(frames::path(tree, 0) + ips =~= ips);
    assert forall|i: nat| i <= tree.len() implies frames::path(full, i) == #[trigger] frames::path(
        tree,
        i,
    ) by {
        frames::lemma_path_extends(tree, full, i);
    }
}

/// A chain that is in a tree is found again there, at the same index and without a new frame.
proof fn lemma_interned_again(tree: Seq<Frame>, parent: nat, ips: Seq<u64>, later: Seq<Frame>)
    requires
        frames::tree_ok(tree),
        parent <= tree.len(),
        frames::tree_ok(later),
        frames::extends(frames::intern_path(tree, parent, ips).0, later),
    ensures
        frames::intern_path(later, parent, ips) == (
            later,
            frames::intern_path(tree, parent, ips).1,
        ),
    decreases ips.len(),
{
    if ips.len() > 0 {
        let frame = Frame { ip: ips[0], parent };
        let (next, child) = frames::intern(tree, frame);
        let rest = ips.drop_first();
        frames::lemma_intern(tree, frame);
        frames::lemma_intern_path(next, child, rest);
        let full = frames::intern_path(next, child, rest).0;
        frames::lemma_extends_trans(next, full, later);
        assert(later[child - 1] == later.take(next.len() as int)[child - 1]);
        frames::lemma_index_unique(later, child);
        lemma_interned_again(next, child, rest, later);
    }
}

/// A trace that has been indexed before gets the same index again, and nothing is announced.
pub proof fn law_index_is_stable(tree: Seq<Frame>, ips: Seq<u64>, later: Seq<Frame>)
    requires
        frames::tree_ok(tree),
        frames::tree_ok(later),
        frames::extends(frames::intern_path(tree, 0, ips).0, later),
    ensures
        frames::intern_path(later, 0, ips) == (later, frames::intern_path(tree, 0, ips).1),
{
    lemma_interned_again(tree, 0, ips, later);
}

/// Two traces get the same index exactly if they have the same call path.
pub proof fn law_same_index_same_path(tree: Seq<Frame>, first: Seq<u64>, second: Seq<u64>)
    requires
        frames::tree_ok(tree),
    ensures
        ({
            let (one, i) = frames::intern_path(tree, 0, first);
            let (two, j) = frames::intern_path(one, 0, second);
            i == j <==> first == second
        }),
{
    law_index_of_trace(tree, first);
    let (one, i) = frames::intern_path(tree, 0, first);
    law_index_of_trace(one, second);
    let (two, j) = frames::intern_path(one, 0, second);
    frames::lemma_path_extends(one, two, i);
    if first == second {
        law_path_names_frame(two, i, j);
    }
}

/// The tree after one more instruction.
pub open spec fn grown(tree: Seq<Frame>, instruction: TraceInstruction) -> Seq<Frame> {
    match instruction {
        TraceInstruction::Stack(stack) => tree.push(
            Frame { ip: stack.ip, parent: stack.parent as nat },
        ),
        _ => tree,
    }
}

/// `instruction` continues a consistent stream that has led to `tree`.
pub open spec fn continues(tree: Seq<Frame>, instruction: TraceInstruction) -> bool {
    match instruction {
        TraceInstruction::Stack(stack) => {
            &&& stack.index == tree.len() + 1
            &&& stack.parent <= tree.len()
            &&& !tree.contains((Frame { ip: stack.ip, parent: stack.parent as nat }))
        },
        TraceInstruction::Allocate(alloc) => alloc.trace_index.0 <= tree.len(),
        TraceInstruction::Deallocate(alloc) => alloc.trace_index.0 <= tree.len(),
    }
}

/// The tree that results from adding the frames that `buffer` announces to `tree`.
pub open spec fn replay(tree: Seq<Frame>, buffer: Seq<TimestampedTraceInstruction>) -> Seq<Frame>
    decreases buffer.len(),
{
    if buffer.len() == 0 {
        tree
    } else {
        grown(replay(tree, buffer.drop_last()), buffer.last().0)
    }
}

/// `buffer` describes frames and allocations consistently, starting from `tree`: each frame that
/// is announced is new, bears the next index, and has a parent that is known; each allocation
/// and deallocation refers to a frame that is known.
pub open spec fn consistent(tree: Seq<Frame>, buffer: Seq<TimestampedTraceInstruction>) -> bool
    decreases buffer.len(),
{
    buffer.len() > 0 ==> {
        &&& consistent(tree, buffer.drop_last())
        &&& continues(replay(tree, buffer.drop_last()), buffer.last().0)
    }
}

/// A consistent stream grows a well-formed tree.
pub proof fn lemma_replay(tree: Seq<Frame>, buffer: Seq<TimestampedTraceInstruction>)
    requires
        frames::tree_ok(tree),
        consistent(tree, buffer),
    ensures
        frames::tree_ok(replay(tree, buffer)),
        frames::extends(tree, replay(tree, buffer)),
        replay(tree, buffer).len() == tree.len() + gather::stacks(buffer),
    decreases buffer.len(),
{
    if buffer.len() == 0 {
        assert(tree.take(tree.len() as int) =~= tree);
    } else {
        lemma_replay(tree, buffer.drop_last());
        let before = replay(tree, buffer.drop_last());
        match buffer.last().0 {
            TraceInstruction::Stack(stack) => {
                let frame = Frame { ip: stack.ip, parent: stack.parent as nat };
                frames::lemma_intern(before, frame);
                frames::lemma_extends_trans(tree, before, before.push(frame));
            },
            _ => {},
        }
    }
}

/// Two consistent streams, one after the other, are one consistent stream.
pub proof fn law_streams_concatenate(
    tree: Seq<Frame>,
    first: Seq<TimestampedTraceInstruction>,
    second: Seq<TimestampedTraceInstruction>,
)
    ensures
        replay(tree, first + second) == replay(replay(tree, first), second),
        consistent(tree, first + second) <==> consistent(tree, first) && consistent(
            replay(tree, first),
            second,
        ),
    decreases second.len(),
{
    let whole = first + second;
    if second.len() == 0 {
        assert(whole =~= first);
    } else {
        law_streams_concatenate(tree, first, second.drop_last());
        assert(whole.drop_last() =~= first + second.drop_last());
        assert(whole.last() == second.last());
    }
}

/// The instructions of `buffer`, without their times.
pub open spec fn instructions(buffer: Seq<TimestampedTraceInstruction>) -> Seq<TraceInstruction> {
    buffer.map_values(|entry: TimestampedTraceInstruction| entry.0)
}

/// Announcing the last frames of a tree is consistent and yields that tree.
proof fn lemma_announcements(
    full: Seq<Frame>,
    from: nat,
    buffer: Seq<TimestampedTraceInstruction>,
)
    requires
        frames::tree_ok(full),
        full.len() < usize::MAX,
        from <= full.len(),
        buffer.len() <= full.len() - from,
        forall|j: int|
            0 <= j < buffer.len() ==> (#[trigger] buffer[j]).0 == writer::announcement(
                full,
                from + j,
            ),
    ensures
        consistent(full.take(from as int), buffer),
        replay(full.take(from as int), buffer) == full.take((from + buffer.len()) as int),
    decreases buffer.len(),
{
    let start = full.take(from as int);
    if buffer.len() == 0 {
    } else {
        lemma_announcements(full, from, buffer.drop_last());
        let at = from + buffer.len() - 1;
        let before = full.take(at);
        let frame = full[at];
        assert(replay(start, buffer.drop_last()) == before);
        assert(buffer.last().0 == writer::announcement(full, at));
        assert(frame.parent <= at);
        if before.contains(frame) {
            let k = before.index_of(frame);
            assert(full[k] == full[at]);
        }
        assert(before.push(frame) =~= full.take(at + 1));
    }
}

/// What a writer hands out for an allocation, a deallocation or a move, stamped with any times,
/// continues its stream consistently: `tail` is what follows the announcements.
pub proof fn law_writer_is_consistent(
    tree: Seq<Frame>,
    trace: Trace,
    tail: Seq<TraceInstruction>,
    stamped: Seq<TimestampedTraceInstruction>,
)
    requires
        frames::tree_ok(tree),
        writer::indexable(tree, trace),
        instructions(stamped) == writer::announcements(
            writer::with_trace(tree, trace).0,
            tree.len(),
        ) + tail,
        forall|j: int|
            0 <= j < tail.len() ==> {
                &&& (#[trigger] tail[j]).allocation() is Some
                &&& tail[j].allocation()->0.trace_index == types::trace_index_of(
                    writer::with_trace(tree, trace).1,
                )
            },
    ensures
        consistent(tree, stamped),
        replay(tree, stamped) == writer::with_trace(tree, trace).0,
    decreases tail.len(),
{
    let (full, index) = writer::with_trace(tree, trace);
    let announced = writer::announcements(full, tree.len());
    law_index_of_trace(tree, stacktrace::call_path(trace@->0));
    let listed = instructions(stamped);
    assert(listed.len() == stamped.len());
    assert forall|j: int| 0 <= j < stamped.len() implies (#[trigger] stamped[j]).0 == listed[j] by {}
    if tail.len() == 0 {
        assert(announced + tail =~= announced);
        assert forall|j: int| 0 <= j < stamped.len() implies (#[trigger] stamped[j]).0
            == writer::announcement(full, tree.len() + j) by {
            assert(stamped[j].0 == announced[j]);
        }
        lemma_announcements(full, tree.len(), stamped);
        assert(full.take(full.len() as int) =~= full);
    } else {
        let shorter = stamped.drop_last();
        assert(instructions(shorter) =~= announced + tail.drop_last());
        law_writer_is_consistent(tree, trace, tail.drop_last(), shorter);
        assert(stamped.last().0 == tail.last());
        assert(index % 0x1_0000_0000 <= index) by (nonlinear_arith);
    }
}

/// The local frames of a thread and the global frames that stand for them have the same call
/// paths.
pub open spec fn mirrors(local: Seq<Frame>, global: Seq<Frame>, locals: Seq<usize>) -> bool {
    &&& locals.len() == local.len()
    &&& forall|i: int|
        0 <= i < locals.len() ==> {
            &&& 0 < #[trigger] locals[i] <= global.len()
            &&& frames::path(global, locals[i] as nat) == frames::path(local, (i + 1) as nat)
        }
}

/// The global index that stands for a local frame, or for the root, has its call path.
pub proof fn law_mirrored_path(
    local: Seq<Frame>,
    global: Seq<Frame>,
    locals: Seq<usize>,
    index: nat,
)
    requires
        mirrors(local, global, locals),
        index <= local.len(),
    ensures
        stacktrace::to_global(locals, index) <= global.len(),
        frames::path(global, stacktrace::to_global(locals, index)) == frames::path(local, index),
{
    if index > 0 {
        assert(locals[index - 1] <= global.len());
    } else {
        assert(frames::path(global, 0) =~= frames::path(local, 0));
    }
}

/// What other threads add to the global tree leaves the frames of a thread as they are.
pub proof fn law_mirror_survives_growth(
    local: Seq<Frame>,
    global: Seq<Frame>,
    locals: Seq<usize>,
    later: Seq<Frame>,
)
    requires
        frames::tree_ok(global),
        mirrors(local, global, locals),
        frames::extends(global, later),
    ensures
        mirrors(local, later, locals),
{
    assert forall|i: int| 0 <= i < locals.len() implies {
        &&& 0 < #[trigger] locals[i] <= later.len()
        &&& frames::path(later, locals[i] as nat) == frames::path(local, (i + 1) as nat)
    } by {
        frames::lemma_path_extends(global, later, locals[i] as nat);
    }
}

/// Two threads agree: frames with the same call path have the same global index.
pub proof fn law_threads_share_frames(
    global: Seq<Frame>,
    local: Seq<Frame>,
    locals: Seq<usize>,
    index: nat,
    other_local: Seq<Frame>,
    other_locals: Seq<usize>,
    other_index: nat,
)
    requires
        frames::tree_ok(global),
        mirrors(local, global, locals),
        mirrors(other_local, global, other_locals),
        index <= local.len(),
        other_index <= other_local.len(),
    ensures
        frames::path(local, index) == frames::path(other_local, other_index)
            <==> stacktrace::to_global(locals, index) == stacktrace::to_global(
            other_locals,
            other_index,
        ),
{
    law_mirrored_path(local, global, locals, index);
    law_mirrored_path(other_local, global, other_locals, other_index);
    if frames::path(local, index) == frames::path(other_local, other_index) {
        law_path_names_frame(
            global,
            stacktrace::to_global(locals, index),
            stacktrace::to_global(other_locals, other_index),
        );
    }
}

/// A pushed frame is new to the global tree exactly if no frame there has its call path.
pub proof fn law_updated_iff_new_path(global: Seq<Frame>, frame: Frame)
    requires
        frames::tree_ok(global),
        frame.parent <= global.len(),
    ensures
        global.contains(frame) <==> exists|i: nat|
            0 < i <= global.len() && #[trigger] frames::path(global, i) == frames::path(
                global,
                frame.parent,
            ).push(frame.ip),
{
    let wanted = frames::path(global, frame.parent).push(frame.ip);
    if global.contains(frame) {
        let i = frames::index_in(global, frame);
        assert(global[i - 1] == frame);
        assert(frames::path(global, i) == wanted);
    }
    if exists|i: nat| 0 < i <= global.len() && #[trigger] frames::path(global, i) == wanted {
        let i = choose|i: nat| 0 < i <= global.len() && #[trigger] frames::path(global, i) == wanted;
        let found = global[i - 1];
        assert(frames::path(global, i).last() == wanted.last());
        assert(frames::path(global, i).drop_last() =~= frames::path(global, found.parent));
        assert(wanted.drop_last() =~= frames::path(global, frame.parent));
        law_path_names_frame(global, found.parent, frame.parent);
        assert(found == frame);
        assert(global.contains(global[i - 1]));
    }
}

/// The gatherer accepts a consistent stream, and the frames of the thread are mirrored after it
/// as they were before. The global tree only grows.
pub proof fn law_translation_mirrors(
    local: Seq<Frame>,
    global: Seq<Frame>,
    locals: Seq<usize>,
    buffer: Seq<TimestampedTraceInstruction>,
)
    requires
        frames::tree_ok(local),
        frames::tree_ok(global),
        mirrors(local, global, locals),
        consistent(local, buffer),
        gather::translate(global, locals, buffer).tree.len() <= usize::MAX,
    ensures
        gather::parents_known(locals.len(), buffer),
        ({
            let translation = gather::translate(global, locals, buffer);
            &&& frames::tree_ok(translation.tree)
            &&& frames::extends(global, translation.tree)
            &&& mirrors(replay(local, buffer), translation.tree, translation.locals)
        }),
    decreases buffer.len(),
{
    if buffer.len() == 0 {
        assert(global.take(global.len() as int) =~= global);
    } else {
        let shorter = buffer.drop_last();
        let before = gather::translate(global, locals, shorter);
        let after = gather::translate(global, locals, buffer);
        assert(before.tree.len() <= after.tree.len());
        law_translation_mirrors(local, global, locals, shorter);
        lemma_replay(local, shorter);
        let tree = replay(local, shorter);
        match buffer.last().0 {
            TraceInstruction::Stack(stack) => {
                let parent = stacktrace::to_global(before.locals, stack.parent as nat);
                let frame = Frame { ip: stack.ip, parent };
                let local_frame = Frame { ip: stack.ip, parent: stack.parent as nat };
                let (next, index) = frames::intern(before.tree, frame);
                law_mirrored_path(tree, before.tree, before.locals, stack.parent as nat);
                frames::lemma_intern(before.tree, frame);
                frames::lemma_intern(tree, local_frame);
                frames::lemma_extends_trans(global, before.tree, next);
                law_mirror_survives_growth(tree, before.tree, before.locals, next);
                let longer = tree.push(local_frame);
                assert forall|i: int| 0 <= i < after.locals.len() implies {
                    &&& 0 < #[trigger] after.locals[i] <= next.len()
                    &&& frames::path(next, after.locals[i] as nat) == frames::path(
                        longer,
                        (i + 1) as nat,
                    )
                } by {
                    if i < before.locals.len() {
                        assert(after.locals[i] == before.locals[i]);
                        frames::lemma_path_extends(tree, longer, (i + 1) as nat);
                    } else {
                        assert(after.locals[i] == index);
                        frames::lemma_path_extends(before.tree, next, parent);
                        frames::lemma_path_extends(tree, longer, stack.parent as nat);
                        assert(frames::path(next, index) == frames::path(next, parent).push(
                            stack.ip,
                        ));
                        assert(frames::path(longer, longer.len()) == frames::path(
                            longer,
                            stack.parent as nat,
                        ).push(stack.ip));
                    }
                }
            },
            _ => {},
        }
    }
}

/// An allocation reaches the analysis with a stack frame of the same call path, as long as frame
/// indices fit into a trace index.
pub proof fn law_allocation_keeps_path(
    local: Seq<Frame>,
    global: Seq<Frame>,
    locals: Seq<usize>,
    alloc: InstrAllocation,
)
    requires
        mirrors(local, global, locals),
        alloc.trace_index.0 <= local.len(),
        global.len() < 0x1_0000_0000,
    ensures
        ({
            let sent = gather::globalized(alloc, locals);
            &&& sent.size == alloc.size
            &&& sent.ptr == alloc.ptr
            &&& frames::path(global, sent.trace_index.0 as nat) == frames::path(
                local,
                alloc.trace_index.0 as nat,
            )
        }),
{
    law_mirrored_path(local, global, locals, alloc.trace_index.0 as nat);
}

/// Both instructions allocate, or both free, the same memory.
pub open spec fn same_event(one: TraceInstruction, other: TraceInstruction) -> bool {
    match (one, other) {
        (TraceInstruction::Allocate(a), TraceInstruction::Allocate(b)) => a.ptr == b.ptr && a.size
            == b.size,
        (TraceInstruction::Deallocate(a), TraceInstruction::Deallocate(b)) => a.ptr == b.ptr
            && a.size == b.size,
        _ => false,
    }
}

/// Where `buffer` announces no frame from position `at` on, its entry there is passed on, with the
/// global index of its frame.
proof fn lemma_passed_on(
    global: Seq<Frame>,
    locals: Seq<usize>,
    buffer: Seq<TimestampedTraceInstruction>,
    at: int,
)
    requires
        0 <= at < buffer.len(),
        forall|j: int|
            at <= j < buffer.len() ==> (#[trigger] buffer[j]).0.allocation() is Some,
    ensures
        ({
            let translation = gather::translate(global, locals, buffer);
            let place = translation.kept.len() - (buffer.len() - at);
            let sent = translation.kept[place];
            &&& place >= 0
            &&& same_event(sent.0, buffer[at].0)
            &&& sent.0.allocation() == Some(
                gather::globalized(buffer[at].0.allocation()->0, translation.locals),
            )
            &&& sent.1 == buffer[at].1
        }),
    decreases buffer.len(),
{
    let shorter = buffer.drop_last();
    assert(buffer.last().0.allocation() is Some);
    if at < buffer.len() - 1 {
        assert forall|j: int| at <= j < shorter.len() implies (
        #[trigger] shorter[j]).0.allocation() is Some by {
            assert(buffer[j].0.allocation() is Some);
        }
        lemma_passed_on(global, locals, shorter, at);
    }
}

/// What is written down about an allocation, a deallocation or a move reaches the analysis:
/// `tail`, which follows the announcements, is what is passed on last, at the same times, with a
/// stack frame whose call path is that of the trace it was made at. This holds as long as frame
/// indices fit into a trace index.
pub proof fn law_records_reach_analysis(
    local: Seq<Frame>,
    global: Seq<Frame>,
    locals: Seq<usize>,
    trace: Trace,
    tail: Seq<TraceInstruction>,
    stamped: Seq<TimestampedTraceInstruction>,
)
    requires
        frames::tree_ok(local),
        frames::tree_ok(global),
        mirrors(local, global, locals),
        writer::indexable(local, trace),
        instructions(stamped) == writer::announcements(
            writer::with_trace(local, trace).0,
            local.len(),
        ) + tail,
        forall|j: int|
            0 <= j < tail.len() ==> {
                &&& (#[trigger] tail[j]).allocation() is Some
                &&& tail[j].allocation()->0.trace_index == types::trace_index_of(
                    writer::with_trace(local, trace).1,
                )
            },
        writer::with_trace(local, trace).0.len() < 0x1_0000_0000,
        gather::translate(global, locals, stamped).tree.len() < 0x1_0000_0000,
        gather::translate(global, locals, stamped).tree.len() <= usize::MAX,
    ensures
        gather::parents_known(locals.len(), stamped),
        ({
            let translation = gather::translate(global, locals, stamped);
            let skipped = translation.kept.len() - tail.len();
            &&& skipped >= 0
            &&& forall|j: int|
                0 <= j < tail.len() ==> {
                    let sent = translation.kept[skipped + j];
                    &&& same_event(sent.0, #[trigger] tail[j])
                    &&& sent.1 == stamped[stamped.len() - tail.len() + j].1
                    &&& frames::path(
                        translation.tree,
                        sent.0.allocation()->0.trace_index.0 as nat,
                    ) == stacktrace::call_path(trace@->0)
                }
        }),
{
    let (full, index) = writer::with_trace(local, trace);
    let announced = writer::announcements(full, local.len());
    let translation = gather::translate(global, locals, stamped);
    law_writer_is_consistent(local, trace, tail, stamped);
    law_translation_mirrors(local, global, locals, stamped);
    law_index_of_trace(local, stacktrace::call_path(trace@->0));
    let listed = instructions(stamped);
    assert(listed.len() == stamped.len());
    assert forall|j: int| 0 <= j < stamped.len() implies (#[trigger] stamped[j]).0 == listed[j] by {}
    let from = announced.len();
    assert forall|j: int| from <= j < stamped.len() implies (
    #[trigger] stamped[j]).0.allocation() is Some by {
        assert(stamped[j].0 == tail[j - from]);
    }
    if tail.len() > 0 {
        lemma_passed_on(global, locals, stamped, from as int);
    }
    assert forall|j: int| 0 <= j < tail.len() implies {
        let sent = translation.kept[translation.kept.len() - tail.len() + j];
        &&& same_event(sent.0, #[trigger] tail[j])
        &&& sent.1 == stamped[stamped.len() - tail.len() + j].1
        &&& frames::path(translation.tree, sent.0.allocation()->0.trace_index.0 as nat)
            == stacktrace::call_path(trace@->0)
    } by {
        assert(stamped[from + j].0 == tail[j]);
        lemma_passed_on(global, locals, stamped, from + j);
        law_allocation_keeps_path(
            full,
            translation.tree,
            translation.locals,
            tail[j].allocation()->0,
        );
    }
}

/// A consistent stream with one more instruction.
proof fn lemma_continued(
    tree: Seq<Frame>,
    buffer: Seq<TimestampedTraceInstruction>,
    entry: TimestampedTraceInstruction,
)
    ensures
        replay(tree, buffer.push(entry)) == grown(replay(tree, buffer), entry.0),
        consistent(tree, buffer) && continues(replay(tree, buffer), entry.0) ==> consistent(
            tree,
            buffer.push(entry),
        ),
{
    assert(buffer.push(entry).drop_last() =~= buffer);
}

/// What is passed on to the analysis is a consistent stream too: it announces every global frame
/// once, in the order of the indices, and from it the analysis can rebuild the global tree. The
/// resolver is asked for exactly these frames.
#[verifier::rlimit(40)]
#[verifier::spinoff_prover]
pub proof fn law_translation_is_consistent(
    local: Seq<Frame>,
    global: Seq<Frame>,
    locals: Seq<usize>,
    buffer: Seq<TimestampedTraceInstruction>,
)
    requires
        frames::tree_ok(local),
        frames::tree_ok(global),
        mirrors(local, global, locals),
        consistent(local, buffer),
        gather::translate(global, locals, buffer).tree.len() <= usize::MAX,
    ensures
        ({
            let translation = gather::translate(global, locals, buffer);
            &&& consistent(global, translation.kept)
            &&& replay(global, translation.kept) == translation.tree
            &&& translation.resolve.len() == translation.tree.len() - global.len()
            &&& forall|j: int|
                0 <= j < translation.resolve.len() ==> {
                    &&& (#[trigger] translation.resolve[j]).0 == global.len() + j + 1
                    &&& translation.resolve[j].1 == translation.tree[global.len() + j].ip
                }
        }),
    decreases buffer.len(),
{
    if buffer.len() > 0 {
        let shorter = buffer.drop_last();
        let before = gather::translate(global, locals, shorter);
        let after = gather::translate(global, locals, buffer);
        assert(before.tree.len() <= after.tree.len());
        law_translation_is_consistent(local, global, locals, shorter);
        law_translation_mirrors(local, global, locals, shorter);
        law_translation_mirrors(local, global, locals, buffer);
        lemma_replay(local, shorter);
        let tree = replay(local, shorter);
        match buffer.last().0 {
            TraceInstruction::Stack(stack) => {
                let parent = stacktrace::to_global(before.locals, stack.parent as nat);
                let frame = Frame { ip: stack.ip, parent };
                law_mirrored_path(tree, before.tree, before.locals, stack.parent as nat);
                if !before.tree.contains(frame) {
                    assert(after.tree == before.tree.push(frame));
                    lemma_continued(global, before.kept, after.kept.last());
                    assert(after.kept == before.kept.push(after.kept.last()));
                }
            },
            TraceInstruction::Allocate(alloc) => {
                law_mirrored_path(tree, before.tree, before.locals, alloc.trace_index.0 as nat);
                lemma_continued(global, before.kept, after.kept.last());
                assert(after.kept == before.kept.push(after.kept.last()));
            },
            TraceInstruction::Deallocate(alloc) => {
                law_mirrored_path(tree, before.tree, before.locals, alloc.trace_index.0 as nat);
                lemma_continued(global, before.kept, after.kept.last());
                assert(after.kept == before.kept.push(after.kept.last()));
            },
        }
    }
}

/// Those of `threads` that are not `dead`, in order.
pub open spec fn survivors<H>(threads: Seq<H>, dead: Seq<bool>) -> Seq<H>
    decreases threads.len(),
{
    if threads.len() == 0 {
        Seq::empty()
    } else if dead[threads.len() - 1] {
        survivors(threads.drop_last(), dead)
    } else {
        survivors(threads.drop_last(), dead).push(threads.last())
    }
}

/// A sweep that visits the threads one by one keeps exactly the live ones, in order. `kept` and
/// `rest` list what the sweep has kept and has left before each visit and after the last one.
pub proof fn law_sweep_keeps_live_threads<H>(
    kept: Seq<Seq<H>>,
    rest: Seq<Seq<H>>,
    dead: Seq<bool>,
)
    requires
        kept.len() == dead.len() + 1,
        rest.len() == dead.len() + 1,
        kept[0] == Seq::<H>::empty(),
        forall|i: int|
            0 <= i < dead.len() ==> {
                &&& (#[trigger] rest[i]).len() > 0
                &&& rest[i + 1] == rest[i].drop_first()
                &&& kept[i + 1] == if dead[i] {
                    kept[i]
                } else {
                    kept[i].push(rest[i][0])
                }
            },
    ensures
        dead.len() <= rest[0].len(),
        kept.last() == survivors(rest[0].take(dead.len() as int), dead),
        rest.last() == rest[0].skip(dead.len() as int),
    decreases dead.len(),
{
    if dead.len() == 0 {
        assert(rest[0].skip(0) =~= rest[0]);
    } else {
        let n = dead.len() - 1;
        let earlier = dead.drop_last();
        let seen = kept.drop_last();
        let left = rest.drop_last();
        assert forall|i: int| 0 <= i < earlier.len() implies {
            &&& (#[trigger] left[i]).len() > 0
            &&& left[i + 1] == left[i].drop_first()
            &&& seen[i + 1] == if earlier[i] {
                seen[i]
            } else {
                seen[i].push(left[i][0])
            }
        } by {
            assert(rest[i].len() > 0);
        }
        law_sweep_keeps_live_threads(seen, left, earlier);
        assert(rest[n].len() > 0);
        assert(rest[0].take(n + 1).drop_last() =~= rest[0].take(n));
        lemma_survivors(rest[0].take(n), earlier, dead);
        assert(rest[n] == rest[0].skip(n));
        assert(rest[0].skip(n).drop_first() =~= rest[0].skip(n + 1));
    }
}

/// Only the flags of the threads themselves count.
proof fn lemma_survivors<H>(threads: Seq<H>, one: Seq<bool>, other: Seq<bool>)
    requires
        threads.len() <= one.len(),
        threads.len() <= other.len(),
        forall|i: int| 0 <= i < threads.len() ==> one[i] == other[i],
    ensures
        survivors(threads, one) == survivors(threads, other),
    decreases threads.len(),
{
    if threads.len() > 0 {
        lemma_survivors(threads.drop_last(), one, other);
    }
}

} // verus!
