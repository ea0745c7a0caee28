//! The operators of the analysis: reading the protocol, matching allocations to deallocations, and
//! grouping the totals by time window.
use crate::output::{AllocError, AllocInfo, AllocPerThreadPair, OutputData};
use crate::types::{
    InstrAllocation, TimestampedTraceInstruction, Timestamp, TraceIndex, TraceInstruction,
    TraceProtocol,
};
use std::collections::HashMap;
use vstd::prelude::*;

verus! {

/// Width of the aggregation time window, in nanoseconds.
pub const ROUND_TO: u64 = 10_000_000_000;

/// The least multiple of [`ROUND_TO`] that is not below `time`.
pub open spec fn window_end(time: nat) -> nat {
    ((time + ROUND_TO - 1) / ROUND_TO as int * ROUND_TO) as nat
}

/// The time window of `time`: the end of it, or the largest timestamp where that is too large.
pub open spec fn window_of(time: u64) -> u64 {
    if window_end(time as nat) <= u64::MAX {
        window_end(time as nat) as u64
    } else {
        u64::MAX
    }
}

/// Round a timestamp up to the next multiple of [`ROUND_TO`]. Where that is too large, the result
/// is the largest timestamp.
pub fn round_up(time: u64) -> (rounded: u64)
    ensures
        rounded == window_of(time),
{
    let windows: u64 = time / ROUND_TO + if time % ROUND_TO == 0 {
        0
    } else {
        1
    };
    assert(windows == (time + ROUND_TO - 1) / ROUND_TO as int);
    match windows.checked_mul(ROUND_TO) {
        Some(rounded) => rounded,
        None => u64::MAX,
    }
}

/// One step of the hash: mix in a byte, then multiply modulo 2^64.
pub open spec fn fnv1a_step(hash: u64, byte: u8) -> u64 {
    ((hash ^ (byte as u64)) as nat * 0x100_0000_01b3 % 0x1_0000_0000_0000_0000) as u64
}

/// The 64-bit Fowler-Noll-Vo hash (FNV-1a) of `bytes`.
pub open spec fn fnv1a(bytes: Seq<u8>) -> u64
    decreases bytes.len(),
{
    if bytes.len() == 0 {
        0xcbf2_9ce4_8422_2325
    } else {
        fnv1a_step(fnv1a(bytes.drop_last()), bytes.last())
    }
}

/// `fnv::FnvHasher`: a fresh hasher that has been fed `bytes` finishes with their FNV-1a hash.
#[verifier::external_body]
fn fnv_hash(bytes: &[u8]) -> (hash: u64)
    ensures
        hash == fnv1a(bytes@),
{
    let mut hasher = fnv::FnvHasher::default();
    std::hash::Hasher::write(&mut hasher, bytes);
    std::hash::Hasher::finish(&hasher)
}

/// The `count` lowest bytes of `value`, least significant byte first.
pub open spec fn low_bytes(value: nat, count: nat) -> Seq<u8>
    decreases count,
{
    if count == 0 {
        Seq::empty()
    } else {
        seq![(value % 256) as u8] + low_bytes(value / 256, (count - 1) as nat)
    }
}

/// The bytes of `value`, least significant byte first.
fn bytes_of(value: u64) -> (bytes: Vec<u8>)
    ensures
        bytes@ == low_bytes(value as nat, 8),
{
    let mut bytes: Vec<u8> = Vec::new();
    let mut rest: u64 = value;
    assert(bytes@ + low_bytes(rest as nat, 8) =~= low_bytes(value as nat, 8));
    let mut count: u64 = 8;
    while count > 0
        invariant
            count <= 8,
            bytes@ + low_bytes(rest as nat, count as nat) == low_bytes(value as nat, 8),
        decreases count,
    {
        let ghost earlier = bytes@;
        let ghost tail = low_bytes((rest / 256) as nat, (count - 1) as nat);
        bytes.push((rest % 256) as u8);
        assert(earlier + (seq![(rest % 256) as u8] + tail) =~= bytes@ + tail);
        rest = rest / 256;
        count -= 1;
    }
    assert(bytes@ + low_bytes(rest as nat, 0) =~= bytes@);
    bytes
}

/// The order in which a machine stores the bytes of an integer.
#[derive(Debug, Clone, Copy, PartialEq, Eq, Structural)]
pub enum ByteOrder {
    /// Least significant byte first.
    LittleEndian,
    /// Most significant byte first.
    BigEndian,
}

/// The bytes of `value` as a machine with `order` stores them.
pub open spec fn stored(value: u64, order: ByteOrder) -> Seq<u8> {
    match order {
        ByteOrder::LittleEndian => low_bytes(value as nat, 8),
        ByteOrder::BigEndian => low_bytes(value as nat, 8).reverse(),
    }
}

/// `bytes` from the last to the first.
fn reversed(bytes: Vec<u8>) -> (backwards: Vec<u8>)
    ensures
        backwards@ == bytes@.reverse(),
{
    let mut backwards: Vec<u8> = Vec::new();
    let mut left: usize = bytes.len();
    while left > 0
        invariant
            left <= bytes@.len(),
            backwards@ == bytes@.reverse().take(bytes@.len() - left),
        decreases left,
    {
        left -= 1;
        backwards.push(bytes[left]);
        assert(backwards@ =~= bytes@.reverse().take(bytes@.len() - left));
    }
    assert(bytes@.reverse().take(bytes@.len() as int) =~= bytes@.reverse());
    backwards
}

/// The key by which an instruction is assigned to a worker, on a machine with `order`: the hash of
/// its pointer as it is stored, or 0 where it has none.
pub open spec fn route_of(instruction: TraceInstruction, order: ByteOrder) -> u64 {
    match instruction.allocation() {
        Some(alloc) => fnv1a(stored(alloc.ptr, order)),
        None => 0,
    }
}

/// The key by which `instruction` is assigned to a worker, on a machine with `order`.
pub fn route(instruction: &TraceInstruction, order: ByteOrder) -> (key: u64)
    ensures
        key == route_of(*instruction, order),
{
    match instruction.ptr() {
        Some(ptr) => {
            let bytes: Vec<u8> = match order {
                ByteOrder::LittleEndian => bytes_of(ptr),
                ByteOrder::BigEndian => reversed(bytes_of(ptr)),
            };
            fnv_hash(bytes.as_slice())
        },
        None => 0,
    }
}

/// A trace instruction with the time and the thread of its event.
pub type Record = (Timestamp, usize, TraceInstruction);

/// The most messages that are read in one go.
pub const FUEL: usize = 256;

/// Time until an idle reader looks for messages again, in milliseconds.
pub const IDLE_MILLIS: u64 = 10;

/// What reading from the network gave.
#[derive(Debug)]
pub enum Received {
    /// A message.
    Message(TraceProtocol),
    /// Nothing at the moment.
    Empty,
    /// Nothing any more.
    Disconnected,
}

/// What follows from what was read.
#[derive(Debug)]
pub struct Reading {
    /// The time of the output moves on to this.
    pub downgrade: Option<Timestamp>,
    /// Records to put out at the time of the output.
    pub records: Vec<Record>,
}

/// When the reader runs next.
#[derive(Debug, Clone, Copy, PartialEq, Eq, Structural)]
pub enum Wake {
    /// At once: there is probably more to read.
    Now,
    /// After [`IDLE_MILLIS`].
    Later,
    /// The reader does not ask to be run.
    Never,
}

/// Reads the trace protocol in batches.
#[derive(Debug)]
pub struct TraceReader {
    time: Timestamp,
    fuel: usize,
    empty: bool,
    exit: bool,
}

/// The records that a buffer of a thread holds.
pub open spec fn records_of(thread_id: usize, buffer: Seq<TimestampedTraceInstruction>) -> Seq<
    Record,
> {
    buffer.map_values(|entry: TimestampedTraceInstruction| (entry.1, thread_id, entry.0))
}

/// The time to which a message with `timestamp` moves the output, where it does.
pub open spec fn later_than(timestamp: Timestamp, time: Timestamp) -> Option<Timestamp> {
    if time < timestamp {
        Some(timestamp)
    } else {
        None
    }
}

impl TraceReader {
    /// The time of the output.
    pub closed spec fn time(&self) -> Timestamp {
        self.time
    }

    /// How many more messages may be read in this batch.
    pub closed spec fn fuel(&self) -> nat {
        self.fuel as nat
    }

    /// Nothing was there to read at the end of this batch.
    pub closed spec fn ran_dry(&self) -> bool {
        self.empty
    }

    /// Nothing will be there to read any more.
    pub closed spec fn at_end(&self) -> bool {
        self.exit
    }

    /// A reader whose output starts at `time`.
    pub fn new(time: Timestamp) -> (reader: Self)
        ensures
            reader.time() == time,
            reader.fuel() == FUEL,
            !reader.ran_dry(),
            !reader.at_end(),
    {
        TraceReader { time, fuel: FUEL, empty: false, exit: false }
    }

    /// Begin a batch.
    pub fn begin(&mut self)
        ensures
            final(self).time() == old(self).time(),
            final(self).fuel() == FUEL,
            !final(self).ran_dry(),
            final(self).at_end() == old(self).at_end(),
    {
        self.fuel = FUEL;
        self.empty = false;
    }

    /// Whether to read once more in this batch.
    pub fn wants_more(&self) -> (more: bool)
        ensures
            more == (self.fuel() > 0 && !self.ran_dry() && !self.at_end()),
    {
        self.fuel > 0 && !self.empty && !self.exit
    }

    /// Take what was read.
    pub fn receive(&mut self, received: Received) -> (reading: Reading)
        requires
            old(self).fuel() > 0,
        ensures
            final(self).fuel() == old(self).fuel() - 1,
            final(self).ran_dry() == (old(self).ran_dry() || received is Empty),
            final(self).at_end() == (old(self).at_end() || received is Disconnected),
            match received {
                Received::Message(
                    TraceProtocol::Instructions { timestamp, thread_id, buffer },
                ) => {
                    &&& reading.downgrade == later_than(timestamp, old(self).time())
                    &&& reading.records@ == records_of(thread_id, buffer@)
                },
                Received::Message(TraceProtocol::Timestamp(timestamp)) => {
                    &&& reading.downgrade == later_than(timestamp, old(self).time())
                    &&& reading.records@ == Seq::<Record>::empty()
                },
                _ => {
                    &&& reading.downgrade is None
                    &&& reading.records@ == Seq::<Record>::empty()
                },
            },
            final(self).time() == match reading.downgrade {
                Some(time) => time,
                None => old(self).time(),
            },
            final(self).time() >= old(self).time(),
    {
        self.fuel -= 1;
        let mut records: Vec<Record> = Vec::new();
        let mut downgrade: Option<Timestamp> = None;
        match received {
            Received::Message(TraceProtocol::Instructions { timestamp, thread_id, buffer }) => {
                if self.time < timestamp {
                    downgrade = Some(timestamp);
                    self.time = timestamp;
                }
                let ghost whole = buffer@;
                for entry in entries: buffer
                    invariant
                        entries.seq() == whole,
                        records@ == records_of(thread_id, whole.take(entries.index() as int)),
                {
                    assert(whole.take(entries.index() + 1) =~= whole.take(
                        entries.index() as int,
                    ).push(whole[entries.index() as int]));
                    records.push((entry.1, thread_id, entry.0));
                    assert(records@ =~= records_of(thread_id, whole.take(entries.index() + 1)));
                }
                assert(whole.take(whole.len() as int) =~= whole);
                assert(records@ =~= records_of(thread_id, whole));
            },
            Received::Message(TraceProtocol::Timestamp(timestamp)) => {
                if self.time < timestamp {
                    downgrade = Some(timestamp);
                    self.time = timestamp;
                }
            },
            Received::Message(TraceProtocol::Init(_)) => {},
            Received::Message(TraceProtocol::Stack { .. }) => {},
            Received::Disconnected => {
                self.exit = true;
            },
            Received::Empty => {
                self.empty = true;
            },
        }
        Reading { downgrade, records }
    }

    /// End a batch: when to run next. A full batch is followed by another one at once. A reader
    /// that ran dry looks again by itself: whoever fills the channel may be blocked on it and
    /// unable to say so.
    pub fn finish(&self) -> (wake: Wake)
        ensures
            wake == if self.fuel() == 0 {
                Wake::Now
            } else if !self.at_end() {
                Wake::Later
            } else {
                Wake::Never
            },
    {
        if self.fuel == 0 {
            Wake::Now
        } else if !self.exit {
            Wake::Later
        } else {
            Wake::Never
        }
    }

    /// Whether the reader has read all there will be, so that its output can be closed.
    pub fn is_done(&self) -> (done: bool)
        ensures
            done == self.at_end(),
    {
        self.exit
    }
}

/// Internal event produced by the pointer-matching operator.
#[derive(Clone, Copy, Debug)]
pub enum MatchEvent {
    /// A deallocation matched to its allocation.
    Pair {
        alloc_thread: usize,
        dealloc_thread: usize,
        /// Time window (rounded) the deallocation falls into.
        bucket: u64,
        size: isize,
    },
    /// An error observed while matching.
    Error(AllocError),
}

/// The allocations that are live, and the events observed so far.
pub struct Matching {
    /// What is known of each allocation, by pointer.
    pub live: Map<u64, AllocInfo>,
    /// The events, in order.
    pub events: Seq<MatchEvent>,
}

/// Match one more record: an allocation becomes live, a deallocation ends it.
pub open spec fn match_next(before: Matching, bucket: u64, record: Record) -> Matching {
    match record.2 {
        TraceInstruction::Allocate(alloc) => {
            let new = (record.0, record.1, alloc.trace_index);
            Matching {
                live: before.live.insert(alloc.ptr, new),
                events: if before.live.contains_key(alloc.ptr) {
                    before.events.push(
                        MatchEvent::Error(
                            AllocError::DoubleAlloc {
                                ptr: alloc.ptr,
                                old: before.live[alloc.ptr],
                                new,
                            },
                        ),
                    )
                } else {
                    before.events
                },
            }
        },
        TraceInstruction::Deallocate(dealloc) => if before.live.contains_key(dealloc.ptr) {
            Matching {
                live: before.live.remove(dealloc.ptr),
                events: before.events.push(
                    MatchEvent::Pair {
                        alloc_thread: before.live[dealloc.ptr].1,
                        dealloc_thread: record.1,
                        bucket,
                        size: dealloc.size as isize,
                    },
                ),
            }
        } else {
            Matching {
                live: before.live,
                events: before.events.push(
                    MatchEvent::Error(
                        AllocError::DoubleFree {
                            ptr: dealloc.ptr,
                            info: (record.0, record.1, dealloc.trace_index),
                        },
                    ),
                ),
            }
        },
        TraceInstruction::Stack(_) => before,
    }
}

/// Match all of `data`, in order.
pub open spec fn match_all(live: Map<u64, AllocInfo>, bucket: u64, data: Seq<Record>) -> Matching
    decreases data.len(),
{
    if data.len() == 0 {
        Matching { live, events: Seq::empty() }
    } else {
        match_next(match_all(live, bucket, data.drop_last()), bucket, data.last())
    }
}

/// `leaks` reports each of the allocations in `live` once, in any order, and nothing else.
pub open spec fn leaks_of(live: Map<u64, AllocInfo>, leaks: Seq<MatchEvent>) -> bool {
    &&& leaks.no_duplicates()
    &&& leaks.len() == live.dom().len()
    &&& forall|ptr: u64| #[trigger]
        live.contains_key(ptr) ==> leaks.contains(
            MatchEvent::Error(AllocError::Leak { ptr, info: live[ptr] }),
        )
    &&& forall|i: int|
        0 <= i < leaks.len() ==> (#[trigger] leaks[i] matches MatchEvent::Error(
            AllocError::Leak { ptr, info },
        ) && live.contains_key(ptr) && live[ptr] == info)
}

/// What the matching operator does as its input moves on.
#[derive(Debug)]
pub enum Progress {
    /// Nothing.
    Hold,
    /// It will put out nothing before this time.
    Downgrade(Timestamp),
    /// Its input is exhausted: it puts out these leaks, and then nothing any more.
    Leaks(Vec<MatchEvent>),
}

/// Matches allocations to deallocations by pointer. Keeps one entry per live allocation, so its
/// memory is bounded by the number of outstanding allocations.
#[derive(Debug)]
pub struct Matcher {
    stash: HashMap<u64, AllocInfo>,
    leak_time: Option<Timestamp>,
}

impl Matcher {
    /// The allocations that are live.
    pub closed spec fn live(&self) -> Map<u64, AllocInfo> {
        self.stash@
    }

    /// The earliest time at which leaks may still be put out; `None` once they have been.
    pub closed spec fn leak_time(&self) -> Option<Timestamp> {
        self.leak_time
    }

    /// A matcher that has seen nothing yet.
    pub fn new() -> (matcher: Self)
        ensures
            matcher.live() == Map::<u64, AllocInfo>::empty(),
            matcher.leak_time() == Some(0u64),
    {
        broadcast use vstd::std_specs::hash::group_hash_axioms;

        Matcher { stash: HashMap::new(), leak_time: Some(0) }
    }

    /// Match the records that arrive at `time`.
    pub fn process(&mut self, time: Timestamp, data: &Vec<Record>) -> (events: Vec<MatchEvent>)
        ensures
            ({
                let matching = match_all(old(self).live(), window_of(time), data@);
                &&& final(self).live() == matching.live
                &&& events@ == matching.events
            }),
            final(self).leak_time() == old(self).leak_time(),
    {
        broadcast use vstd::std_specs::hash::group_hash_axioms;

        let bucket: u64 = round_up(time);
        let ghost live = self.live();
        let mut events: Vec<MatchEvent> = Vec::new();
        let mut at: usize = 0;
        while at < data.len()
            invariant
                at <= data@.len(),
                self.live() == match_all(live, bucket, data@.take(at as int)).live,
                events@ == match_all(live, bucket, data@.take(at as int)).events,
                self.leak_time() == old(self).leak_time(),
            decreases data@.len() - at,
        {
            assert(data@.take(at + 1).drop_last() =~= data@.take(at as int));
            assert(data@.take(at + 1).last() == data@[at as int]);
            let event_time: Timestamp = data[at].0;
            let thread: usize = data[at].1;
            match &data[at].2 {
                TraceInstruction::Allocate(alloc) => {
                    let info: AllocInfo = (event_time, thread, alloc.trace_index);
                    match self.stash.insert(alloc.ptr, info) {
                        Some(old_info) => {
                            events.push(
                                MatchEvent::Error(
                                    AllocError::DoubleAlloc {
                                        ptr: alloc.ptr,
                                        old: old_info,
                                        new: info,
                                    },
                                ),
                            );
                        },
                        None => {},
                    }
                },
                TraceInstruction::Deallocate(dealloc) => {
                    match self.stash.remove(&dealloc.ptr) {
                        Some(alloc) => {
                            events.push(
                                MatchEvent::Pair {
                                    alloc_thread: alloc.1,
                                    dealloc_thread: thread,
                                    bucket,
                                    size: #[verifier::truncate] (dealloc.size as isize),
                                },
                            );
                        },
                        None => {
                            events.push(
                                MatchEvent::Error(
                                    AllocError::DoubleFree {
                                        ptr: dealloc.ptr,
                                        info: (event_time, thread, dealloc.trace_index),
                                    },
                                ),
                            );
                        },
                    }
                },
                TraceInstruction::Stack(_) => {},
            }
            at += 1;
        }
        assert(data@.take(at as int) =~= data@);
        events
    }

    /// Take note of the earliest time at which further input may arrive, or of there being none.
    pub fn advance(&mut self, frontier: Option<Timestamp>) -> (progress: Progress)
        ensures
            match (frontier, old(self).leak_time()) {
                (None, Some(_)) => {
                    &&& progress is Leaks
                    &&& leaks_of(old(self).live(), progress->Leaks_0@)
                    &&& final(self).live() == Map::<u64, AllocInfo>::empty()
                    &&& final(self).leak_time() is None
                },
                (Some(time), Some(earliest)) => {
                    &&& final(self).live() == old(self).live()
                    &&& if earliest < time {
                        &&& progress == Progress::Downgrade(time)
                        &&& final(self).leak_time() == Some(time)
                    } else {
                        &&& progress is Hold
                        &&& final(self).leak_time() == old(self).leak_time()
                    }
                },
                (_, None) => {
                    &&& progress is Hold
                    &&& *final(self) == *old(self)
                },
            },
    {
        match frontier {
            None => {
                if self.leak_time.is_none() {
                    return Progress::Hold;
                }
                self.leak_time = None;
                let leaks = self.take_leaks();
                Progress::Leaks(leaks)
            },
            Some(time) => {
                match self.leak_time {
                    Some(earliest) => {
                        if earliest < time {
                            self.leak_time = Some(time);
                            Progress::Downgrade(time)
                        } else {
                            Progress::Hold
                        }
                    },
                    None => Progress::Hold,
                }
            },
        }
    }

    /// Everything still outstanding is a leak.
    fn take_leaks(&mut self) -> (leaks: Vec<MatchEvent>)
        ensures
            leaks_of(old(self).live(), leaks@),
            final(self).live() == Map::<u64, AllocInfo>::empty(),
            final(self).leak_time() == old(self).leak_time(),
    {
        broadcast use vstd::std_specs::hash::group_hash_axioms;

        let ghost live = self.live();
        let mut leaks: Vec<MatchEvent> = Vec::new();
        let stashed = self.stash.iter();
        let ghost all = vstd::std_specs::iter::IteratorSpec::remaining(&stashed);
        for entry in entries: stashed
            invariant
                entries.seq() == all,
                leaks@.len() == entries.index(),
                forall|i: int|
                    0 <= i < leaks@.len() ==> #[trigger] leaks@[i] == MatchEvent::Error(
                        AllocError::Leak { ptr: *all[i].0, info: *all[i].1 },
                    ),
        {
            leaks.push(MatchEvent::Error(AllocError::Leak { ptr: *entry.0, info: *entry.1 }));
        }
        proof {
            assert(leaks@.len() == all.len());
            assert forall|i: int| 0 <= i < all.len() implies live.contains_key(*(#[trigger] all[i]).0)
                && live[*all[i].0] == *all[i].1 by {
                assert(live.contains_key(*all[i].0));
            }
            assert forall|ptr: u64| #[trigger] live.contains_key(ptr) implies leaks@.contains(
                MatchEvent::Error(AllocError::Leak { ptr, info: live[ptr] }),
            ) by {
                assert(all.contains((&ptr, &live[ptr])));
                let i = choose|i: int| 0 <= i < all.len() && all[i] == (&ptr, &live[ptr]);
                assert(leaks@[i] == MatchEvent::Error(AllocError::Leak { ptr, info: live[ptr] }));
            }
            assert forall|i: int, j: int|
                0 <= i < leaks@.len() && 0 <= j < leaks@.len() && i != j implies leaks@[i]
                != leaks@[j] by {
                assert(all[i] != all[j]);
                assert(live[*all[i].0] == *all[i].1);
                assert(live[*all[j].0] == *all[j].1);
            }
        }
        self.stash.clear();
        leaks
    }
}

/// Totals of one thread pair in one time window: the threads, the window, and the number and size
/// of the allocations.
pub type PairUpdate = ((usize, usize), u64, (isize, isize));

/// Errors are put out directly.
pub fn error_output(event: &MatchEvent) -> (output: Option<OutputData>)
    ensures
        output == match *event {
            MatchEvent::Error(error) => Some(OutputData::AllocError(error)),
            MatchEvent::Pair { .. } => None,
        },
{
    match event {
        MatchEvent::Error(error) => Some(OutputData::AllocError(*error)),
        MatchEvent::Pair { .. } => None,
    }
}

/// The update that a matched pair counts for: one allocation, with its size.
pub open spec fn update_of(event: MatchEvent) -> Option<PairUpdate> {
    match event {
        MatchEvent::Pair { alloc_thread, dealloc_thread, bucket, size } => Some(
            ((alloc_thread, dealloc_thread), bucket, (1isize, size)),
        ),
        MatchEvent::Error(_) => None,
    }
}

/// Matched pairs are aggregated per (alloc_thread, dealloc_thread) and time window: each counts
/// once, with its size.
pub fn pair_update(event: &MatchEvent) -> (update: Option<PairUpdate>)
    ensures
        update == update_of(*event),
{
    match event {
        MatchEvent::Pair { alloc_thread, dealloc_thread, bucket, size } => Some(
            ((*alloc_thread, *dealloc_thread), *bucket, (1, *size)),
        ),
        MatchEvent::Error(_) => None,
    }
}

/// The report of one total.
pub open spec fn report(update: PairUpdate) -> AllocPerThreadPair {
    AllocPerThreadPair {
        alloc_thread: update.0.0,
        dealloc_thread: update.0.1,
        count: update.2.0,
        size: update.2.1,
    }
}

/// The reports of all `updates`, in order.
pub open spec fn reports(updates: Seq<PairUpdate>) -> Seq<AllocPerThreadPair> {
    updates.map_values(|update: PairUpdate| report(update))
}

/// Collects the totals of each time until all of them have arrived.
#[derive(Debug)]
pub struct WindowGrouper {
    stash: HashMap<u64, Vec<AllocPerThreadPair>>,
}

impl WindowGrouper {
    /// No time is kept without totals.
    pub closed spec fn wf(&self) -> bool {
        forall|time: u64| #[trigger]
            self.stash@.contains_key(time) ==> self.stash@[time]@.len() > 0
    }

    /// The totals that have arrived for `time` and have not been put out.
    pub closed spec fn pending(&self, time: u64) -> Seq<AllocPerThreadPair> {
        if self.stash@.contains_key(time) {
            self.stash@[time]@
        } else {
            Seq::empty()
        }
    }

    /// A grouper that has seen nothing yet.
    pub fn new() -> (grouper: Self)
        ensures
            grouper.wf(),
            forall|time: u64| #[trigger]
                grouper.pending(time) == Seq::<AllocPerThreadPair>::empty(),
    {
        broadcast use vstd::std_specs::hash::group_hash_axioms;

        WindowGrouper { stash: HashMap::new() }
    }

    /// Keep the totals that arrive at `time`.
    pub fn add(&mut self, time: u64, data: &Vec<PairUpdate>)
        requires
            old(self).wf(),
        ensures
            final(self).wf(),
            final(self).pending(time) == old(self).pending(time) + reports(data@),
            forall|other: u64|
                other != time ==> #[trigger] final(self).pending(other) == old(self).pending(other),
    {
        broadcast use vstd::std_specs::hash::group_hash_axioms;

        let ghost before = *self;
        if data.len() == 0 {
            assert(before.pending(time) + reports(data@) =~= before.pending(time));
            return;
        }
        let mut pairs: Vec<AllocPerThreadPair> = match self.stash.remove(&time) {
            Some(pairs) => pairs,
            None => Vec::new(),
        };
        assert(pairs@ == before.pending(time));
        let mut at: usize = 0;
        assert(pairs@ =~= before.pending(time) + reports(data@.take(0)));
        while at < data.len()
            invariant
                at <= data@.len(),
                pairs@ == before.pending(time) + reports(data@.take(at as int)),
            decreases data@.len() - at,
        {
            let (threads, _window, totals) = data[at];
            let ghost seen = data@.take(at as int);
            pairs.push(
                AllocPerThreadPair {
                    alloc_thread: threads.0,
                    dealloc_thread: threads.1,
                    count: totals.0,
                    size: totals.1,
                },
            );
            assert(data@.take(at + 1) =~= seen.push(data@[at as int]));
            assert(reports(data@.take(at + 1)) =~= reports(seen).push(report(data@[at as int])));
            assert(pairs@ =~= before.pending(time) + reports(data@.take(at + 1)));
            at += 1;
        }
        assert(data@.take(at as int) =~= data@);
        let _ = self.stash.insert(time, pairs);
        assert forall|other: u64| other != time implies #[trigger] self.pending(other)
            == before.pending(other) by {}
        assert forall|other: u64| #[trigger] self.stash@.contains_key(other) implies self.stash@[other]@.len()
            > 0 by {
            if other != time {
                assert(before.stash@.contains_key(other));
            }
        }
    }

    /// All totals of `time` have arrived: put them out, where there are any.
    pub fn notify(&mut self, time: u64) -> (output: Option<OutputData>)
        requires
            old(self).wf(),
        ensures
            final(self).wf(),
            match output {
                Some(output) => {
                    &&& old(self).pending(time).len() > 0
                    &&& output is AllocPerThreadPairs
                    &&& output->AllocPerThreadPairs_0@ == old(self).pending(time)
                },
                None => old(self).pending(time).len() == 0,
            },
            final(self).pending(time) == Seq::<AllocPerThreadPair>::empty(),
            forall|other: u64|
                other != time ==> #[trigger] final(self).pending(other) == old(self).pending(other),
    {
        broadcast use vstd::std_specs::hash::group_hash_axioms;

        let ghost before = *self;
        let removed = self.stash.remove(&time);
        assert forall|other: u64| #[trigger] self.stash@.contains_key(other) implies self.stash@[other]@.len()
            > 0 by {
            assert(before.stash@.contains_key(other));
        }
        match removed {
            Some(pairs) => Some(OutputData::AllocPerThreadPairs(pairs)),
            None => None,
        }
    }
}

} // verus!
