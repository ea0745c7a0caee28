use heap_analysis::buffer;
use heap_analysis::gather::{
    next_to_resolve, resolve_next, GatherAction, GatherEvent, Gatherer, GathererProtocol, Reaction,
    ResolverProtocol, TICK_NANOS,
};
use heap_analysis::stacktrace::{
    FrameCall, FrameCallback, GlobalTraceTree, Trace, TraceTree, TRACE_MAX_SIZE,
};
use heap_analysis::tracking::{admission, realloc_is_visible, Admission, TrackingState};
use heap_analysis::types::{
    InstrAllocation, InstrInit, InstrStack, InstrStackDetails, TimestampedTraceInstruction,
    TraceIndex, TraceInstruction, TraceProtocol, ENV_HEAP_ANALYSIS_ADDR,
};
use heap_analysis::writer::{AllocationWriter, NewFrames, ThreadState};

/// A trace of the given frames, innermost first.
fn trace(frames: &[u64]) -> Trace {
    let mut data = [0u64; TRACE_MAX_SIZE];
    data[..frames.len()].copy_from_slice(frames);
    Trace::new(0, data, frames.len() as i32)
}

fn stack(ip: u64, index: usize, parent: usize) -> TraceInstruction {
    TraceInstruction::Stack(InstrStack { ip, index, parent })
}

fn allocation(ptr: u64, size: usize, index: u32) -> InstrAllocation {
    InstrAllocation { size, ptr, trace_index: TraceIndex(index) }
}

fn stamped(instructions: Vec<TraceInstruction>) -> Vec<TimestampedTraceInstruction> {
    instructions.into_iter().enumerate().map(|(i, instr)| (instr, i as u64)).collect()
}

/// The buffer of the message that `actions` write, and the frames that they resolve.
fn written(actions: &[GatherAction]) -> (Vec<TraceInstruction>, Vec<(usize, u64)>) {
    let mut kept = Vec::new();
    let mut resolve = Vec::new();
    for action in actions {
        match action {
            GatherAction::Write(TraceProtocol::Instructions { buffer, .. }) => {
                kept.extend(buffer.iter().map(|(instr, _)| instr.clone()))
            }
            GatherAction::Resolve(ResolverProtocol::Resolv(index, ip)) => {
                resolve.push((*index, *ip))
            }
            _ => {}
        }
    }
    (kept, resolve)
}

/// Gives up after a number of calls.
struct Limited {
    calls: Vec<(u64, usize, usize)>,
    limit: usize,
}

impl FrameCallback for Limited {
    fn calls(&self) -> vstd::seq::Seq<FrameCall> {
        unreachable!()
    }

    fn call(&mut self, ip: u64, parent: usize, index: usize) -> bool {
        self.calls.push((ip, parent, index));
        self.calls.len() < self.limit
    }
}

#[test]
fn instruction_accessors() {
    let alloc = TraceInstruction::Allocate(allocation(7, 16, 3));
    assert_eq!(alloc.ptr(), Some(7));
    assert_eq!(alloc.size(), Some(16));
    assert_eq!(alloc.trace_index(), Some(TraceIndex(3)));
    let free = TraceInstruction::Deallocate(allocation(8, 17, 4));
    assert_eq!(free.ptr(), Some(8));
    assert_eq!(free.size(), Some(17));
    assert_eq!(free.trace_index(), Some(TraceIndex(4)));
    let frame = stack(1, 2, 3);
    assert_eq!(frame.ptr(), None);
    assert_eq!(frame.size(), None);
    assert_eq!(frame.trace_index(), None);
}

#[test]
fn trace_index_is_truncated() {
    assert_eq!(TraceIndex::from(5u32), TraceIndex(5));
    assert_eq!(TraceIndex::from(5usize), TraceIndex(5));
    assert_eq!(TraceIndex::from(0x1_0000_0007usize), TraceIndex(7));
    assert_eq!(TraceIndex::default(), TraceIndex(0));
    assert_eq!(ENV_HEAP_ANALYSIS_ADDR, "HEAP_ANALYSIS_ADDR");
}

#[test]
fn trace_skips_on_both_sides() {
    let mut data = [0u64; TRACE_MAX_SIZE];
    data[..6].copy_from_slice(&[10, 20, 30, 40, 50, 60]);
    let trace = Trace::new(2, data, 6);
    assert!(trace.readable());
    assert_eq!(trace.deref(), &[30, 40]);
}

#[test]
fn trace_drops_nulls_at_its_end() {
    let mut data = [0u64; TRACE_MAX_SIZE];
    data[..3].copy_from_slice(&[10, 0, 30]);
    let trace = Trace::new(0, data, 6);
    assert_eq!(trace.deref(), &[10, 0, 30]);
}

#[test]
fn trace_of_failed_capture_is_empty() {
    let trace = Trace::new(2, [7; TRACE_MAX_SIZE], -1);
    assert!(trace.readable());
    assert!(trace.deref().is_empty());
}

#[test]
fn trace_too_short_to_skip_is_not_readable() {
    let mut data = [0u64; TRACE_MAX_SIZE];
    data[..3].copy_from_slice(&[10, 20, 30]);
    assert!(!Trace::new(2, data, 3).readable());
    assert!(!Trace::new(5, data, 3).readable());
}

#[test]
fn trace_can_be_full() {
    let trace = Trace::new(0, [9; TRACE_MAX_SIZE], TRACE_MAX_SIZE as i32);
    assert_eq!(trace.deref().len(), TRACE_MAX_SIZE);
}

#[test]
fn tree_announces_new_frames_once() {
    let mut tree = TraceTree::default();
    let mut first = NewFrames { frames: Vec::new() };
    // main (30) -> work (20) -> alloc (10)
    assert_eq!(tree.index(&trace(&[10, 20, 30]), &mut first), 3);
    assert_eq!(
        first.frames,
        vec![
            InstrStack { ip: 30, index: 1, parent: 0 },
            InstrStack { ip: 20, index: 2, parent: 1 },
            InstrStack { ip: 10, index: 3, parent: 2 },
        ]
    );
    let mut second = NewFrames { frames: Vec::new() };
    assert_eq!(tree.index(&trace(&[10, 20, 30]), &mut second), 3);
    assert!(second.frames.is_empty());
    let mut third = NewFrames { frames: Vec::new() };
    assert_eq!(tree.index(&trace(&[5, 20, 30]), &mut third), 4);
    assert_eq!(third.frames, vec![InstrStack { ip: 5, index: 4, parent: 2 }]);
    assert_eq!(tree.index(&trace(&[20, 30]), &mut third), 2);
    assert_eq!(tree.next_index(), 5);
}

#[test]
fn tree_separates_equal_frames_on_different_paths() {
    let mut tree = TraceTree::default();
    let mut frames = NewFrames { frames: Vec::new() };
    let one = tree.index(&trace(&[10, 20]), &mut frames);
    let other = tree.index(&trace(&[10, 30]), &mut frames);
    assert_ne!(one, other);
    assert_eq!(tree.index(&trace(&[10, 20]), &mut frames), one);
}

#[test]
fn tree_ignores_nulls_and_empty_traces() {
    let mut tree = TraceTree::default();
    let mut frames = NewFrames { frames: Vec::new() };
    assert_eq!(tree.index(&trace(&[]), &mut frames), 0);
    assert_eq!(tree.index(&trace(&[0, 10, 0, 20]), &mut frames), 2);
    assert_eq!(tree.index(&trace(&[10, 20]), &mut frames), 2);
    assert_eq!(frames.frames.len(), 2);
}

#[test]
fn tree_keeps_many_children_apart() {
    let mut tree = TraceTree::default();
    let mut frames = NewFrames { frames: Vec::new() };
    let ips: Vec<u64> = (1..200u64).map(|i| i * 7919 % 1009 + 1).collect();
    let indices: Vec<usize> = ips.iter().map(|ip| tree.index(&trace(&[*ip]), &mut frames)).collect();
    let again: Vec<usize> = ips.iter().map(|ip| tree.index(&trace(&[*ip]), &mut frames)).collect();
    assert_eq!(indices, again);
    assert_eq!(indices, (1..200usize).collect::<Vec<_>>());
}

#[test]
fn tree_stops_where_the_callback_gives_up() {
    let mut tree = TraceTree::default();
    let mut limited = Limited { calls: Vec::new(), limit: 2 };
    assert_eq!(tree.index(&trace(&[10, 20, 30]), &mut limited), 0);
    assert_eq!(limited.calls, vec![(30, 0, 1), (20, 1, 2)]);
    // The refused frame is known all the same.
    let mut frames = NewFrames { frames: Vec::new() };
    assert_eq!(tree.index(&trace(&[10, 20, 30]), &mut frames), 3);
    assert_eq!(frames.frames, vec![InstrStack { ip: 10, index: 3, parent: 2 }]);
}

#[test]
fn global_tree_merges_threads() {
    let mut tree = GlobalTraceTree::default();
    assert!(tree.push(1, 0, 30));
    assert!(tree.push(1, 1, 20));
    assert!(!tree.push(2, 0, 30));
    assert!(!tree.push(2, 1, 20));
    assert_eq!(tree.lookup(1, 2), tree.lookup(2, 2));
    assert_eq!(tree.lookup(2, 2), 2);
    assert_eq!(tree.local_count(2), 2);
}

#[test]
fn global_tree_keeps_children_with_their_parent() {
    let mut tree = GlobalTraceTree::default();
    assert_eq!(tree.push_frame(1, 0, 30), (true, 0, 1));
    assert_eq!(tree.push_frame(1, 1, 40), (true, 1, 2));
    assert_eq!(tree.push_frame(1, 1, 10), (true, 1, 3));
    // The same instruction pointer below the root is another frame.
    assert_eq!(tree.push_frame(2, 0, 10), (true, 0, 4));
    assert_eq!(tree.push_frame(2, 0, 30), (false, 0, 1));
    assert_eq!(tree.push_frame(2, 2, 10), (false, 1, 3));
}

#[test]
fn global_tree_looks_up_the_root_and_the_unknown_as_zero() {
    let mut tree = GlobalTraceTree::default();
    tree.push(1, 0, 30);
    assert_eq!(tree.lookup(1, 0), 0);
    assert_eq!(tree.lookup(1, 2), 0);
    assert_eq!(tree.lookup(9, 1), 0);
}

#[test]
fn global_tree_forgets_a_thread() {
    let mut tree = GlobalTraceTree::default();
    tree.push(1, 0, 30);
    tree.push(2, 0, 30);
    tree.remove_thread(1);
    assert_eq!(tree.lookup(1, 1), 0);
    assert_eq!(tree.lookup(2, 1), 1);
    assert_eq!(tree.push_frame(1, 0, 30), (false, 0, 1));
}

#[test]
fn writer_records_allocations() {
    let mut writer = AllocationWriter::new();
    assert!(writer.has_room(&trace(&[10, 20])));
    assert_eq!(
        writer.handle_alloc(100, 8, &trace(&[10, 20])),
        vec![stack(20, 1, 0), stack(10, 2, 1), TraceInstruction::Allocate(allocation(100, 8, 2))]
    );
    assert_eq!(
        writer.handle_dealloc(100, 8, &trace(&[10, 20])),
        vec![TraceInstruction::Deallocate(allocation(100, 8, 2))]
    );
    assert_eq!(
        writer.handle_realloc(100, 200, 8, 16, &trace(&[5, 20])),
        vec![
            stack(5, 3, 1),
            TraceInstruction::Deallocate(allocation(100, 8, 3)),
            TraceInstruction::Allocate(allocation(200, 16, 3)),
        ]
    );
}

#[test]
fn writer_has_no_room_for_an_unreadable_trace() {
    let writer = AllocationWriter::new();
    let mut data = [0u64; TRACE_MAX_SIZE];
    data[0] = 1;
    assert!(!writer.has_room(&Trace::new(1, data, 1)));
}

#[test]
fn full_buffer_is_handed_out() {
    let mut state = ThreadState::new(3);
    assert_eq!(state.thread_id, 3);
    assert!(!state.dead);
    let mut handed_out = 0;
    let mut pushed = 0;
    while handed_out == 0 {
        pushed += 1;
        if let Some(contents) = state.push(stack(pushed, 1, 0), pushed) {
            handed_out = contents.len() as u64;
            assert!(state.buffer.is_empty());
            assert_eq!(contents[0], (stack(1, 1, 0), 1));
        }
        assert!(pushed < 100_000);
    }
    assert_eq!(handed_out, pushed);
    assert!(pushed as usize >= buffer::BUFFER_CAPACITY);
}

#[test]
fn buffer_is_made_to_hold_enough() {
    assert_eq!(buffer::to_reserve(0), 1024);
    assert_eq!(buffer::to_reserve(1000), 24);
    assert_eq!(buffer::to_reserve(1024), 0);
    assert_eq!(buffer::to_reserve(2000), 0);
}

#[test]
fn buffer_is_full_at_its_capacity() {
    let mut entries = vec![1, 2, 3];
    assert_eq!(buffer::take_full(&mut entries, 4), None);
    assert_eq!(entries, vec![1, 2, 3]);
    assert_eq!(buffer::take_full(&mut entries, 3), Some(vec![1, 2, 3]));
    assert!(entries.is_empty());
}

#[test]
fn thread_state_swaps_and_dies() {
    let mut state = ThreadState::new(1);
    state.push(stack(1, 1, 0), 5);
    let mut spare = Vec::with_capacity(buffer::BUFFER_CAPACITY);
    state.swap_buffer(&mut spare);
    assert_eq!(spare, vec![(stack(1, 1, 0), 5)]);
    assert!(state.buffer.is_empty());
    state.mark_dead();
    assert!(state.dead);
}

#[test]
fn gatherer_translates_the_streams_of_two_threads() {
    let mut gatherer: Gatherer<u32> = Gatherer::new();
    let mut one = AllocationWriter::new();
    let mut other = AllocationWriter::new();

    let mut buffer = stamped(one.handle_alloc(100, 8, &trace(&[10, 20, 30])));
    assert!(gatherer.accepts(1, &buffer));
    let (kept, resolve) = written(&gatherer.send_buffer(1, &mut buffer));
    assert!(buffer.is_empty());
    assert_eq!(
        kept,
        vec![
            stack(30, 1, 0),
            stack(20, 2, 1),
            stack(10, 3, 2),
            TraceInstruction::Allocate(allocation(100, 8, 3)),
        ]
    );
    assert_eq!(resolve, vec![(1, 30), (2, 20), (3, 10)]);

    // The other thread reaches the same frames in another order.
    let mut buffer = stamped(other.handle_alloc(200, 4, &trace(&[7, 30])));
    buffer.extend(stamped(other.handle_dealloc(100, 8, &trace(&[10, 20, 30]))));
    assert!(gatherer.accepts(2, &buffer));
    let (kept, resolve) = written(&gatherer.send_buffer(2, &mut buffer));
    assert_eq!(
        kept,
        vec![
            stack(7, 4, 1),
            TraceInstruction::Allocate(allocation(200, 4, 4)),
            TraceInstruction::Deallocate(allocation(100, 8, 3)),
        ]
    );
    assert_eq!(resolve, vec![(4, 7)]);
}

#[test]
fn moved_allocation_reaches_the_analysis() {
    let mut gatherer: Gatherer<u32> = Gatherer::new();
    gatherer.send_buffer(1, &mut stamped(vec![stack(30, 1, 0), stack(5, 2, 1), stack(20, 3, 1)]));
    let mut writer = AllocationWriter::new();
    let mut buffer = stamped(writer.handle_realloc(100, 200, 8, 16, &trace(&[20, 30])));
    let actions = gatherer.send_buffer(2, &mut buffer);
    assert_eq!(
        written(&actions).0,
        vec![
            TraceInstruction::Deallocate(allocation(100, 8, 3)),
            TraceInstruction::Allocate(allocation(200, 16, 3)),
        ]
    );
}

#[test]
fn gatherer_refuses_unknown_parents() {
    let gatherer: Gatherer<u32> = Gatherer::new();
    assert!(!gatherer.accepts(1, &stamped(vec![stack(10, 1, 1)])));
    assert!(gatherer.accepts(1, &stamped(vec![stack(10, 1, 0), stack(20, 2, 1)])));
    assert!(!gatherer.accepts(1, &stamped(vec![stack(10, 1, 0), stack(20, 2, 2)])));
    assert!(gatherer.accepts(1, &stamped(vec![TraceInstruction::Allocate(allocation(1, 1, 9))])));
}

#[test]
fn gatherer_sends_nothing_for_an_empty_buffer() {
    let mut gatherer: Gatherer<u32> = Gatherer::new();
    assert!(gatherer.send_buffer(1, &mut Vec::new()).is_empty());
}

#[test]
fn gatherer_sends_a_buffer_of_known_frames_as_empty_message() {
    let mut gatherer: Gatherer<u32> = Gatherer::new();
    gatherer.send_buffer(1, &mut stamped(vec![stack(10, 1, 0)]));
    let actions = gatherer.send_buffer(2, &mut stamped(vec![stack(10, 1, 0)]));
    assert_eq!(actions.len(), 1);
    assert!(matches!(
        &actions[0],
        GatherAction::Write(TraceProtocol::Instructions { thread_id: 2, buffer, .. })
            if buffer.is_empty()
    ));
}

#[test]
fn gatherer_registers_threads() {
    let mut gatherer: Gatherer<&str> = Gatherer::new();
    let info = InstrInit { thread_name: "main".to_owned(), thread_id: 4 };
    let actions = gatherer.handle_protocol(GathererProtocol::Register("handle", info));
    assert_eq!(actions.len(), 3);
    assert!(matches!(actions[0], GatherAction::Accept));
    assert!(matches!(
        &actions[1],
        GatherAction::Write(TraceProtocol::Init(info))
            if info.thread_name == "main" && info.thread_id == 4
    ));
    assert!(matches!(actions[2], GatherAction::Flush));
    let sweep = gatherer.begin_sweep(9);
    assert_eq!(sweep.current(), Some(&"handle"));
}

#[test]
fn sweep_keeps_live_threads_in_order() {
    let mut gatherer: Gatherer<usize> = Gatherer::new();
    for thread_id in 0..4usize {
        let info = InstrInit { thread_name: String::new(), thread_id };
        gatherer.handle_protocol(GathererProtocol::Register(thread_id, info));
        gatherer.send_buffer(thread_id, &mut stamped(vec![stack(10, 1, 0)]));
    }
    let mut sweep = gatherer.begin_sweep(77);
    assert!(gatherer.is_idle());
    while let Some(thread_id) = sweep.current().copied() {
        let dead = thread_id == 1 || thread_id == 3;
        let mut buffer =
            stamped(vec![TraceInstruction::Allocate(allocation(thread_id as u64, 1, 1))]);
        let actions = gatherer.sweep_thread(&mut sweep, thread_id, dead, &mut buffer);
        assert_eq!(
            written(&actions).0,
            vec![TraceInstruction::Allocate(allocation(thread_id as u64, 1, 1))]
        );
    }
    let actions = gatherer.end_sweep(sweep);
    assert_eq!(actions.len(), 2);
    assert!(matches!(actions[0], GatherAction::Write(TraceProtocol::Timestamp(77))));
    assert!(matches!(actions[1], GatherAction::Flush));
    assert!(!gatherer.is_idle());

    // The dead threads are forgotten, the others are visited again.
    assert!(!gatherer.accepts(1, &stamped(vec![stack(20, 2, 1)])));
    assert!(gatherer.accepts(2, &stamped(vec![stack(20, 2, 1)])));
    let mut sweep = gatherer.begin_sweep(78);
    let mut visited = Vec::new();
    while let Some(thread_id) = sweep.current().copied() {
        visited.push(thread_id);
        gatherer.sweep_thread(&mut sweep, thread_id, false, &mut Vec::new());
    }
    assert_eq!(visited, vec![0, 2]);
}

#[test]
fn messages_carry_the_last_timestamp() {
    let mut gatherer: Gatherer<usize> = Gatherer::new();
    let sweep = gatherer.begin_sweep(77);
    gatherer.end_sweep(sweep);
    let actions = gatherer.send_buffer(1, &mut stamped(vec![stack(10, 1, 0)]));
    assert!(matches!(
        actions.last(),
        Some(GatherAction::Write(TraceProtocol::Instructions { timestamp: 77, thread_id: 1, .. }))
    ));
}

#[test]
fn gatherer_reacts_to_events() {
    let mut gatherer: Gatherer<u32> = Gatherer::new();
    assert!(matches!(gatherer.handle_event(GatherEvent::Message(None)), Reaction::Stop));
    assert!(matches!(gatherer.handle_event(GatherEvent::Details(None)), Reaction::Stop));
    assert!(matches!(gatherer.handle_event(GatherEvent::Tick(TICK_NANOS + 1)), Reaction::Sweep));
    assert!(matches!(
        gatherer.handle_event(GatherEvent::Tick(TICK_NANOS)),
        Reaction::Act(actions) if actions.is_empty()
    ));
    let details = InstrStackDetails { name: Some("main".to_owned()), ..Default::default() };
    assert!(matches!(
        gatherer.handle_event(GatherEvent::Details(Some((5, details)))),
        Reaction::Act(actions) if matches!(
            &actions[..],
            [GatherAction::Write(TraceProtocol::Stack { index: 5, details })]
                if details.name.as_deref() == Some("main") && details.lineno.is_none()
        )
    ));
    let flush = GathererProtocol::Flush(1, stamped(vec![stack(10, 1, 0)]));
    assert!(matches!(
        gatherer.handle_event(GatherEvent::Message(Some(flush))),
        Reaction::Act(actions) if matches!(
            &actions[..],
            [
                GatherAction::Resolve(ResolverProtocol::Resolv(1, 10)),
                GatherAction::Write(_),
                GatherAction::Flush,
            ]
        )
    ));
}

#[test]
fn gatherer_shuts_down() {
    let gatherer: Gatherer<u32> = Gatherer::new();
    assert!(matches!(
        &gatherer.begin_shutdown()[..],
        [GatherAction::Resolve(ResolverProtocol::Shutdown)]
    ));
    let details = InstrStackDetails { lineno: Some(12), ..Default::default() };
    assert!(matches!(
        &gatherer.drain_details(Some((5, details)))[..],
        [GatherAction::Write(TraceProtocol::Stack { index: 5, details })]
            if details.lineno == Some(12)
    ));
    assert!(matches!(&gatherer.drain_details(None)[..], [GatherAction::Flush]));
}

#[test]
fn resolver_runs_until_it_is_told_to_end() {
    assert_eq!(next_to_resolve(Some(ResolverProtocol::Resolv(3, 9))), Some((3, 9)));
    assert_eq!(next_to_resolve(Some(ResolverProtocol::Shutdown)), None);
    assert_eq!(next_to_resolve(None), None);
    assert!(resolve_next(Some(ResolverProtocol::Shutdown)).is_none());
    assert!(resolve_next(None).is_none());
}

fn resolvable(value: u64) -> u64 {
    value.wrapping_mul(3)
}

#[test]
fn resolver_finds_the_name_of_a_function() {
    assert_eq!(resolvable(2), 6);
    let ip = resolvable as usize as u64 + 1;
    let (index, details) = resolve_next(Some(ResolverProtocol::Resolv(7, ip))).unwrap();
    assert_eq!(index, 7);
    assert!(details.name.unwrap().contains("resolvable"));
    let (index, details) = resolve_next(Some(ResolverProtocol::Resolv(8, 1))).unwrap();
    assert_eq!(index, 8);
    assert_eq!(details, InstrStackDetails::default());
}

#[test]
fn events_are_admitted_by_state() {
    let fresh: TrackingState<u8> = TrackingState::Uninitialized;
    let ready: TrackingState<u8> = TrackingState::Ready(1);
    let disabled: TrackingState<u8> = TrackingState::Disabled;
    assert_eq!(admission(true, Some(&fresh)), Admission::Initialize);
    assert_eq!(admission(true, Some(&ready)), Admission::Record);
    assert_eq!(admission(true, Some(&disabled)), Admission::Ignore);
    assert_eq!(admission::<u8>(true, None), Admission::Ignore);
    assert_eq!(admission(false, Some(&ready)), Admission::Ignore);
    assert_eq!(admission(false, Some(&fresh)), Admission::Ignore);
}

#[test]
fn reallocation_in_place_is_invisible() {
    assert!(!realloc_is_visible(8, 8, 16, 16));
    assert!(realloc_is_visible(8, 8, 16, 17));
    assert!(realloc_is_visible(8, 9, 16, 16));
}
