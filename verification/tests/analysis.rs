use heap_analysis::dataflow::{
    error_output, pair_update, round_up, route, ByteOrder, MatchEvent, Matcher, Progress,
    Received, Record, TraceReader, Wake, WindowGrouper, FUEL, ROUND_TO,
};
use heap_analysis::output::{AllocError, AllocInfo, AllocPerThreadPair, OutputData};
use heap_analysis::types::{
    InstrAllocation, InstrInit, InstrStack, InstrStackDetails, TraceIndex, TraceInstruction,
    TraceProtocol,
};
use std::hash::{Hash, Hasher};

fn taken(ptr: u64, size: usize, index: u32) -> TraceInstruction {
    TraceInstruction::Allocate(InstrAllocation { size, ptr, trace_index: TraceIndex(index) })
}

fn freed(ptr: u64, size: usize, index: u32) -> TraceInstruction {
    TraceInstruction::Deallocate(InstrAllocation { size, ptr, trace_index: TraceIndex(index) })
}

fn frame() -> TraceInstruction {
    TraceInstruction::Stack(InstrStack { ip: 1, index: 1, parent: 0 })
}

/// A comparable form of an event.
#[derive(Debug, PartialEq)]
enum Seen {
    Pair(usize, usize, u64, isize),
    DoubleAlloc(u64, AllocInfo, AllocInfo),
    DoubleFree(u64, AllocInfo),
    Leak(u64, AllocInfo),
}

fn seen(events: &[MatchEvent]) -> Vec<Seen> {
    events
        .iter()
        .map(|event| match *event {
            MatchEvent::Pair { alloc_thread, dealloc_thread, bucket, size } => {
                Seen::Pair(alloc_thread, dealloc_thread, bucket, size)
            }
            MatchEvent::Error(AllocError::DoubleAlloc { ptr, old, new }) => {
                Seen::DoubleAlloc(ptr, old, new)
            }
            MatchEvent::Error(AllocError::DoubleFree { ptr, info }) => Seen::DoubleFree(ptr, info),
            MatchEvent::Error(AllocError::Leak { ptr, info }) => Seen::Leak(ptr, info),
        })
        .collect()
}

#[test]
fn times_are_rounded_up_to_windows() {
    assert_eq!(ROUND_TO, 10_000_000_000);
    assert_eq!(round_up(0), 0);
    assert_eq!(round_up(1), ROUND_TO);
    assert_eq!(round_up(ROUND_TO), ROUND_TO);
    assert_eq!(round_up(ROUND_TO + 1), 2 * ROUND_TO);
    assert_eq!(round_up(u64::MAX), u64::MAX);
    assert_eq!(round_up(u64::MAX / ROUND_TO * ROUND_TO), u64::MAX / ROUND_TO * ROUND_TO);
    assert_eq!(round_up(u64::MAX / ROUND_TO * ROUND_TO + 1), u64::MAX);
}

#[test]
fn instructions_are_routed_by_pointer() {
    let little = ByteOrder::LittleEndian;
    let big = ByteOrder::BigEndian;
    assert_eq!(route(&frame(), little), 0);
    assert_eq!(route(&frame(), big), 0);
    assert_eq!(route(&taken(0, 1, 1), little), 0xa8c7_f832_281a_39c5);
    assert_eq!(route(&taken(0, 1, 1), big), 0xa8c7_f832_281a_39c5);
    assert_eq!(route(&taken(0x7fff_1234_5678, 1, 1), little), 0xbeef_882c_b6d8_239b);
    assert_eq!(
        route(&taken(0x7fff_1234_5678, 1, 1), big),
        route(&taken(0x7fff_1234_5678u64.swap_bytes(), 1, 1), little)
    );
    assert_ne!(
        route(&taken(0x7fff_1234_5678, 1, 1), big),
        route(&taken(0x7fff_1234_5678, 1, 1), little)
    );
    assert_eq!(route(&taken(77, 1, 2), little), route(&freed(77, 3, 4), little));
    assert_ne!(route(&taken(77, 1, 2), little), route(&taken(78, 1, 2), little));
}

#[test]
fn routes_hash_the_pointer_as_this_machine_stores_it() {
    let order = if 1u64.to_ne_bytes()[0] == 1 {
        ByteOrder::LittleEndian
    } else {
        ByteOrder::BigEndian
    };
    for ptr in [0u64, 1, 77, 0x7fff_1234_5678, u64::MAX] {
        let mut hasher = fnv::FnvHasher::default();
        ptr.hash(&mut hasher);
        assert_eq!(route(&taken(ptr, 1, 1), order), hasher.finish());
    }
}

#[test]
fn deallocation_is_matched_to_its_allocation() {
    let mut matcher = Matcher::new();
    let data: Vec<Record> = vec![(5, 1, taken(100, 8, 3)), (6, 1, frame()), (7, 2, freed(100, 8, 4))];
    let events = matcher.process(7, &data);
    assert_eq!(seen(&events), vec![Seen::Pair(1, 2, ROUND_TO, 8)]);
    // Nothing is left to leak.
    assert!(matches!(matcher.advance(None), Progress::Leaks(leaks) if leaks.is_empty()));
}

#[test]
fn matching_remembers_earlier_batches() {
    let mut matcher = Matcher::new();
    assert!(matcher.process(1, &vec![(1, 1, taken(100, 8, 3))]).is_empty());
    let events = matcher.process(ROUND_TO + 5, &vec![(9, 4, freed(100, 8, 5))]);
    assert_eq!(seen(&events), vec![Seen::Pair(1, 4, 2 * ROUND_TO, 8)]);
}

#[test]
fn double_allocation_is_reported() {
    let mut matcher = Matcher::new();
    let data: Vec<Record> = vec![(5, 1, taken(100, 8, 3)), (6, 2, taken(100, 9, 4))];
    assert_eq!(
        seen(&matcher.process(0, &data)),
        vec![Seen::DoubleAlloc(100, (5, 1, TraceIndex(3)), (6, 2, TraceIndex(4)))]
    );
    // The later allocation is the one that is freed.
    assert_eq!(
        seen(&matcher.process(0, &vec![(7, 3, freed(100, 9, 5))])),
        vec![Seen::Pair(2, 3, 0, 9)]
    );
}

#[test]
fn double_free_is_reported() {
    let mut matcher = Matcher::new();
    let data: Vec<Record> =
        vec![(5, 1, taken(100, 8, 3)), (6, 1, freed(100, 8, 3)), (7, 2, freed(100, 8, 4))];
    assert_eq!(
        seen(&matcher.process(0, &data)),
        vec![Seen::Pair(1, 1, 0, 8), Seen::DoubleFree(100, (7, 2, TraceIndex(4)))]
    );
}

#[test]
fn outstanding_allocations_leak_once() {
    let mut matcher = Matcher::new();
    matcher.process(0, &vec![(5, 1, taken(100, 8, 3)), (6, 2, taken(200, 9, 4))]);
    match matcher.advance(None) {
        Progress::Leaks(leaks) => {
            let mut leaks = seen(&leaks);
            leaks.sort_by_key(|leak| match leak {
                Seen::Leak(ptr, _) => *ptr,
                _ => 0,
            });
            assert_eq!(
                leaks,
                vec![
                    Seen::Leak(100, (5, 1, TraceIndex(3))),
                    Seen::Leak(200, (6, 2, TraceIndex(4))),
                ]
            );
        }
        other => panic!("{:?}", other),
    }
    assert!(matches!(matcher.advance(None), Progress::Hold));
    assert!(matches!(matcher.advance(Some(9)), Progress::Hold));
}

#[test]
fn whole_run_accounts_for_everything() {
    let batches: Vec<(u64, Vec<Record>)> = vec![
        (0, vec![(1, 1, taken(10, 8, 1)), (2, 1, taken(20, 8, 1)), (3, 2, taken(10, 4, 2))]),
        (1, vec![(4, 2, freed(20, 8, 1)), (5, 1, freed(30, 8, 1)), (6, 1, frame())]),
        (ROUND_TO + 1, vec![(7, 3, taken(40, 1, 5)), (8, 3, freed(40, 1, 5))]),
    ];
    let mut matcher = Matcher::new();
    let mut events = Vec::new();
    for (time, data) in &batches {
        events.extend(seen(&matcher.process(*time, data)));
    }
    assert_eq!(
        events,
        vec![
            Seen::DoubleAlloc(10, (1, 1, TraceIndex(1)), (3, 2, TraceIndex(2))),
            Seen::Pair(1, 2, ROUND_TO, 8),
            Seen::DoubleFree(30, (5, 1, TraceIndex(1))),
            Seen::Pair(3, 3, 2 * ROUND_TO, 1),
        ]
    );
    match matcher.advance(None) {
        Progress::Leaks(leaks) => {
            assert_eq!(seen(&leaks), vec![Seen::Leak(10, (3, 2, TraceIndex(2)))])
        }
        other => panic!("{:?}", other),
    }
}

#[test]
fn matched_pairs_are_counted_in_the_window_of_their_message() {
    let instructions = |timestamp: u64, thread_id: usize, buffer: Vec<TraceInstruction>| {
        let buffer = buffer.into_iter().map(|instr| (instr, timestamp)).collect();
        TraceProtocol::Instructions { timestamp, thread_id, buffer }
    };
    let messages = vec![
        instructions(5, 1, vec![taken(10, 8, 1), taken(20, 4, 1)]),
        TraceProtocol::Timestamp(ROUND_TO + 7),
        // Time does not go back.
        instructions(6, 2, vec![freed(10, 8, 2), freed(10, 8, 2)]),
        instructions(ROUND_TO + 9, 2, vec![freed(20, 4, 2)]),
    ];
    let mut reader = TraceReader::new(0);
    let mut matcher = Matcher::new();
    let mut time = 0;
    let mut updates = Vec::new();
    let mut errors = Vec::new();
    for message in messages {
        let reading = reader.receive(Received::Message(message));
        time = reading.downgrade.unwrap_or(time);
        for event in matcher.process(time, &reading.records) {
            updates.extend(pair_update(&event));
            errors.extend(error_output(&event));
        }
    }
    assert_eq!(
        updates,
        vec![((1, 2), 2 * ROUND_TO, (1, 8)), ((1, 2), 2 * ROUND_TO, (1, 4))]
    );
    assert_eq!(errors.len(), 1);
    assert!(matches!(
        errors[0],
        OutputData::AllocError(AllocError::DoubleFree { ptr: 10, info: (6, 2, TraceIndex(2)) })
    ));
}

#[test]
fn matcher_follows_its_input() {
    let mut matcher = Matcher::new();
    assert!(matches!(matcher.advance(Some(0)), Progress::Hold));
    assert!(matches!(matcher.advance(Some(5)), Progress::Downgrade(5)));
    assert!(matches!(matcher.advance(Some(5)), Progress::Hold));
    assert!(matches!(matcher.advance(Some(6)), Progress::Downgrade(6)));
}

#[test]
fn workers_divide_the_pointers() {
    let data: Vec<Record> = vec![
        (1, 1, taken(1, 8, 1)),
        (2, 1, taken(2, 8, 1)),
        (3, 2, freed(1, 8, 1)),
        (4, 2, freed(3, 8, 1)),
        (5, 2, freed(2, 8, 1)),
    ];
    let whole = seen(&Matcher::new().process(0, &data));
    let part = |odd: bool| -> Vec<Seen> {
        let mine: Vec<Record> = data
            .iter()
            .filter(|record| (record.2.ptr().unwrap() % 2 == 1) == odd)
            .cloned()
            .collect();
        seen(&Matcher::new().process(0, &mine))
    };
    let mut parts = part(true);
    parts.extend(part(false));
    assert_eq!(parts.len(), whole.len());
    assert!(whole.iter().all(|event| parts.contains(event)));
}

#[test]
fn events_are_split_into_errors_and_pairs() {
    let pair = MatchEvent::Pair { alloc_thread: 1, dealloc_thread: 2, bucket: 3, size: 4 };
    let error =
        MatchEvent::Error(AllocError::DoubleFree { ptr: 9, info: (1, 2, TraceIndex(3)) });
    assert!(error_output(&pair).is_none());
    assert_eq!(pair_update(&pair), Some(((1, 2), 3, (1, 4))));
    assert!(matches!(
        error_output(&error),
        Some(OutputData::AllocError(AllocError::DoubleFree { ptr: 9, .. }))
    ));
    assert_eq!(pair_update(&error), None);
}

#[test]
fn totals_are_grouped_by_time() {
    let mut grouper = WindowGrouper::new();
    grouper.add(10, &vec![((1, 2), 10, (3, 40))]);
    grouper.add(20, &vec![((1, 1), 20, (1, 1))]);
    grouper.add(10, &vec![((2, 1), 10, (5, 60))]);
    grouper.add(30, &Vec::new());
    let shown = |pair: &AllocPerThreadPair| {
        (pair.alloc_thread, pair.dealloc_thread, pair.count, pair.size)
    };
    match grouper.notify(10) {
        Some(OutputData::AllocPerThreadPairs(pairs)) => {
            let pairs: Vec<_> = pairs.iter().map(shown).collect();
            assert_eq!(pairs, vec![(1, 2, 3, 40), (2, 1, 5, 60)]);
        }
        other => panic!("{:?}", other),
    }
    assert!(grouper.notify(10).is_none());
    assert!(grouper.notify(30).is_none());
    assert!(grouper.notify(20).is_some());
}

#[test]
fn reader_emits_records_at_the_message_time() {
    let mut reader = TraceReader::new(0);
    let buffer = vec![(taken(1, 2, 3), 11), (frame(), 12)];
    let message = TraceProtocol::Instructions { timestamp: 10, thread_id: 7, buffer };
    let reading = reader.receive(Received::Message(message));
    assert_eq!(reading.downgrade, Some(10));
    assert_eq!(reading.records, vec![(11, 7, taken(1, 2, 3)), (12, 7, frame())]);
    // Time does not go back.
    let reading = reader.receive(Received::Message(TraceProtocol::Timestamp(9)));
    assert_eq!(reading.downgrade, None);
    assert!(reading.records.is_empty());
    let reading = reader.receive(Received::Message(TraceProtocol::Timestamp(15)));
    assert_eq!(reading.downgrade, Some(15));
}

#[test]
fn reader_passes_over_announcements() {
    let mut reader = TraceReader::new(3);
    let init = InstrInit { thread_name: "t".to_owned(), thread_id: 1 };
    let reading = reader.receive(Received::Message(TraceProtocol::Init(init)));
    assert_eq!(reading.downgrade, None);
    assert!(reading.records.is_empty());
    let details = Box::new(InstrStackDetails::default());
    let reading = reader.receive(Received::Message(TraceProtocol::Stack { index: 1, details }));
    assert_eq!(reading.downgrade, None);
    assert!(reading.records.is_empty());
    assert!(reader.wants_more());
}

#[test]
fn reader_runs_dry() {
    let mut reader = TraceReader::new(0);
    reader.receive(Received::Empty);
    assert!(!reader.wants_more());
    assert_eq!(reader.finish(), Wake::Later);
    assert!(!reader.is_done());
    reader.begin();
    assert!(reader.wants_more());
}

#[test]
fn reader_ends() {
    let mut reader = TraceReader::new(0);
    reader.receive(Received::Disconnected);
    assert!(!reader.wants_more());
    assert_eq!(reader.finish(), Wake::Never);
    assert!(reader.is_done());
    reader.begin();
    assert!(!reader.wants_more());
}

#[test]
fn reader_stops_after_a_full_batch() {
    let mut reader = TraceReader::new(0);
    let mut messages = 0;
    while reader.wants_more() {
        reader.receive(Received::Message(TraceProtocol::Timestamp(1)));
        messages += 1;
    }
    assert_eq!(messages, FUEL);
    assert_eq!(messages, 256);
    assert_eq!(reader.finish(), Wake::Now);
}
