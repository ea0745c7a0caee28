//! What the terms of the analysis come down to: records, windows, keys, matches, leaks and totals,
//! and what is named, drawn and sent around them, entry by entry and field by field.
use crate::dataflow;
use crate::dataflow::{ByteOrder, MatchEvent, PairUpdate, Record, ROUND_TO};
use crate::analysis_laws;
use crate::buffer;
use crate::frames;
use crate::frames::Frame;
use crate::heaptrack;
use crate::heaptrack::Entry;
use crate::output::{AllocError, AllocInfo, AllocPerThreadPair};
use crate::run_laws;
use crate::run_laws::{GrouperStep, Key};
use crate::symbols;
use crate::trace;
use crate::types::{
    InstrAllocation, InstrStack, InstrStackDetails, TimestampedTraceInstruction, Timestamp,
    TraceInstruction,
};
use crate::web;
use crate::web::{Client, Clients};
use vstd::prelude::*;

verus! {

/// A message yields one record per entry of its buffer, in order: each has the time of the entry,
/// the thread of the message and the instruction of the entry.
pub proof fn law_records_of_message(
    thread_id: usize,
    buffer: Seq<TimestampedTraceInstruction>,
)
    ensures
        dataflow::records_of(thread_id, buffer).len() == buffer.len(),
        forall|i: int|
            0 <= i < buffer.len() ==> {
                &&& (#[trigger] dataflow::records_of(thread_id, buffer)[i]).0 == buffer[i].1
                &&& dataflow::records_of(thread_id, buffer)[i].1 == thread_id
                &&& dataflow::records_of(thread_id, buffer)[i].2 == buffer[i].0
            },
{
}

/// The output moves on to the timestamps that lie ahead of it, and to no others.
pub proof fn law_time_moves_on_only(timestamp: Timestamp, time: Timestamp)
    ensures
        time < timestamp ==> dataflow::later_than(timestamp, time) == Some(timestamp),
        timestamp <= time ==> dataflow::later_than(timestamp, time) is None,
{
}

/// The window of a time does not end before it. It ends at a multiple of the width, the first from
/// the time on; only where none of these is a timestamp, it ends at the largest timestamp.
pub proof fn law_window_of_time(time: u64, multiple: u64)
    ensures
        time <= dataflow::window_of(time),
        multiple as int % 10_000_000_000 == 0 && time <= multiple ==> {
            &&& dataflow::window_of(time) as int % 10_000_000_000 == 0
            &&& dataflow::window_of(time) <= multiple
        },
        dataflow::window_of(time) as int % 10_000_000_000 == 0 || dataflow::window_of(time)
            == u64::MAX,
{
    analysis_laws::law_window_end(time as nat, multiple as nat);
}

/// A pointer is stored in eight bytes, each of which holds its part of the value. The other byte
/// order stores the same bytes backwards.
pub proof fn law_pointer_is_stored_in_bytes(value: u64)
    ensures
        ({
            let bytes = dataflow::stored(value, ByteOrder::LittleEndian);
            &&& bytes.len() == 8
            &&& bytes[0] == value as int % 0x100
            &&& bytes[1] == value as int / 0x100 % 0x100
            &&& bytes[2] == value as int / 0x1_0000 % 0x100
            &&& bytes[3] == value as int / 0x100_0000 % 0x100
            &&& bytes[4] == value as int / 0x1_0000_0000 % 0x100
            &&& bytes[5] == value as int / 0x100_0000_0000 % 0x100
            &&& bytes[6] == value as int / 0x1_0000_0000_0000 % 0x100
            &&& bytes[7] == value as int / 0x100_0000_0000_0000 % 0x100
        }),
        dataflow::stored(value, ByteOrder::BigEndian).len() == 8,
        forall|i: int|
            0 <= i < 8 ==> #[trigger] dataflow::stored(value, ByteOrder::BigEndian)[i]
                == dataflow::stored(value, ByteOrder::LittleEndian)[7 - i],
{
    let v0 = value as nat;
    let v1 = v0 / 256;
    let v2 = v1 / 256;
    let v3 = v2 / 256;
    let v4 = v3 / 256;
    let v5 = v4 / 256;
    let v6 = v5 / 256;
    let v7 = v6 / 256;
    lemma_low_bytes(v0, 8);
    lemma_low_bytes(v1, 7);
    lemma_low_bytes(v2, 6);
    lemma_low_bytes(v3, 5);
    lemma_low_bytes(v4, 4);
    lemma_low_bytes(v5, 3);
    lemma_low_bytes(v6, 2);
    lemma_low_bytes(v7, 1);
    assert(v2 == v0 / 0x1_0000);
    assert(v3 == v0 / 0x100_0000);
    assert(v4 == v0 / 0x1_0000_0000);
    assert(v5 == v0 / 0x100_0000_0000);
    assert(v6 == v0 / 0x1_0000_0000_0000);
    assert(v7 == v0 / 0x100_0000_0000_0000);
}

/// The lowest byte comes first, and the others as they do in the value without it.
proof fn lemma_low_bytes(value: nat, count: nat)
    requires
        count > 0,
    ensures
        dataflow::low_bytes(value, count).len() == count,
        dataflow::low_bytes(value, count)[0] == value % 256,
        forall|i: int|
            0 < i < count ==> #[trigger] dataflow::low_bytes(value, count)[i]
                == dataflow::low_bytes(value / 256, (count - 1) as nat)[i - 1],
    decreases count,
{
    if count > 1 {
        lemma_low_bytes(value / 256, (count - 1) as nat);
    } else {
        assert(dataflow::low_bytes(value / 256, 0).len() == 0);
    }
}

/// The key of an instruction is the hash of its pointer as it is stored, whatever else the
/// instruction says, and 0 where it has none.
pub proof fn law_key_is_hash_of_pointer(instruction: TraceInstruction, order: ByteOrder)
    ensures
        match instruction {
            TraceInstruction::Stack(_) => dataflow::route_of(instruction, order) == 0,
            TraceInstruction::Allocate(alloc) => dataflow::route_of(instruction, order)
                == dataflow::fnv1a(dataflow::stored(alloc.ptr, order)),
            TraceInstruction::Deallocate(alloc) => dataflow::route_of(instruction, order)
                == dataflow::fnv1a(dataflow::stored(alloc.ptr, order)),
        },
{
}

/// The hash takes the bytes one by one: it mixes in a byte and multiplies by the prime.
pub proof fn law_hash_takes_bytes_one_by_one(bytes: Seq<u8>, byte: u8)
    ensures
        dataflow::fnv1a(Seq::empty()) == 0xcbf2_9ce4_8422_2325,
        dataflow::fnv1a(bytes.push(byte)) as int == (dataflow::fnv1a(bytes) ^ (byte as u64)) as int
            * 0x100_0000_01b3 % 0x1_0000_0000_0000_0000,
{
    assert(bytes.push(byte).drop_last() =~= bytes);
    let mixed = (dataflow::fnv1a(bytes) ^ (byte as u64)) as nat;
    assert(0 <= mixed * 0x100_0000_01b3 % 0x1_0000_0000_0000_0000 < 0x1_0000_0000_0000_0000);
}

/// Matching one more record. An allocation becomes live with the time, the thread and the frame of
/// its record; it is an event only where the pointer was live, and then reports both. A
/// deallocation ends a live allocation and is a pair of the two threads, in the window, with its
/// size; where nothing was live, it is a double free. What happens to other pointers is not
/// touched.
pub proof fn law_one_more_record_is_matched(
    live: Map<u64, AllocInfo>,
    bucket: u64,
    data: Seq<Record>,
    record: Record,
    other: u64,
)
    ensures
        ({
            let before = dataflow::match_all(live, bucket, data);
            let after = dataflow::match_all(live, bucket, data.push(record));
            let (time, thread, instruction) = record;
            match instruction {
                TraceInstruction::Stack(_) => after == before,
                TraceInstruction::Allocate(alloc) => {
                    let info = (time, thread, alloc.trace_index);
                    &&& after.live.contains_key(alloc.ptr)
                    &&& after.live[alloc.ptr] == info
                    &&& other != alloc.ptr ==> same_at(before.live, after.live, other)
                    &&& if before.live.contains_key(alloc.ptr) {
                        after.events == before.events.push(
                            MatchEvent::Error(
                                AllocError::DoubleAlloc {
                                    ptr: alloc.ptr,
                                    old: before.live[alloc.ptr],
                                    new: info,
                                },
                            ),
                        )
                    } else {
                        after.events == before.events
                    }
                },
                TraceInstruction::Deallocate(dealloc) => {
                    &&& !after.live.contains_key(dealloc.ptr)
                    &&& other != dealloc.ptr ==> same_at(before.live, after.live, other)
                    &&& after.events.len() == before.events.len() + 1
                    &&& after.events.drop_last() == before.events
                    &&& if before.live.contains_key(dealloc.ptr) {
                        &&& after.events.last() matches MatchEvent::Pair {
                            alloc_thread,
                            dealloc_thread,
                            bucket: window,
                            size,
                        }
                        &&& alloc_thread == before.live[dealloc.ptr].1
                        &&& dealloc_thread == thread
                        &&& window == bucket
                        &&& size == dealloc.size as isize
                    } else {
                        after.events.last() == MatchEvent::Error(
                            AllocError::DoubleFree {
                                ptr: dealloc.ptr,
                                info: (time, thread, dealloc.trace_index),
                            },
                        )
                    }
                },
            }
        }),
{
    assert(data.push(record).drop_last() =~= data);
    let before = dataflow::match_all(live, bucket, data);
    let after = dataflow::match_all(live, bucket, data.push(record));
    if record.2 is Deallocate {
        assert(after.events.drop_last() =~= before.events);
    }
}

/// Both maps say the same of `key`.
pub open spec fn same_at(one: Map<u64, AllocInfo>, other: Map<u64, AllocInfo>, key: u64) -> bool {
    &&& one.contains_key(key) == other.contains_key(key)
    &&& one.contains_key(key) ==> one[key] == other[key]
}

/// Without records nothing happens.
pub proof fn law_no_records_no_events(live: Map<u64, AllocInfo>, bucket: u64)
    ensures
        dataflow::match_all(live, bucket, Seq::empty()).live == live,
        dataflow::match_all(live, bucket, Seq::empty()).events.len() == 0,
{
}

/// A leak is reported for a pointer exactly if it is live, with what is known of it, and at one
/// place only. Nothing else is reported.
pub proof fn law_leaks_are_what_is_live(
    live: Map<u64, AllocInfo>,
    leaks: Seq<MatchEvent>,
    ptr: u64,
    info: AllocInfo,
)
    requires
        dataflow::leaks_of(live, leaks),
    ensures
        (exists|i: int|
            0 <= i < leaks.len() && #[trigger] leaks[i] == MatchEvent::Error(
                AllocError::Leak { ptr, info },
            )) <==> live.contains_key(ptr) && live[ptr] == info,
        forall|i: int, j: int|
            0 <= i < j < leaks.len() ==> #[trigger] leaks[i] != #[trigger] leaks[j],
        forall|i: int|
            0 <= i < leaks.len() ==> (#[trigger] leaks[i] matches MatchEvent::Error(error) && error
                is Leak),
        leaks.len() == live.dom().len(),
{
    if live.contains_key(ptr) && live[ptr] == info {
        let leak = MatchEvent::Error(AllocError::Leak { ptr, info });
        assert(leaks.contains(leak));
        assert(leaks[leaks.index_of(leak)] == leak);
    }
}

/// A pair counts once, with its size, for its two threads and its window. Errors do not count.
pub proof fn law_pair_counts_once(event: MatchEvent)
    ensures
        match event {
            MatchEvent::Pair { alloc_thread, dealloc_thread, bucket, size } => {
                &&& dataflow::update_of(event) matches Some(update)
                &&& update.0.0 == alloc_thread
                &&& update.0.1 == dealloc_thread
                &&& update.1 == bucket
                &&& update.2.0 == 1
                &&& update.2.1 == size
            },
            MatchEvent::Error(_) => dataflow::update_of(event) is None,
        },
{
}

/// Totals are reported one by one, in order, each with its two threads, its count and its size.
pub proof fn law_reports_say_the_totals(totals: Seq<PairUpdate>)
    ensures
        dataflow::reports(totals).len() == totals.len(),
        forall|i: int|
            0 <= i < totals.len() ==> {
                let told = #[trigger] dataflow::reports(totals)[i];
                &&& told.alloc_thread == totals[i].0.0
                &&& told.dealloc_thread == totals[i].0.1
                &&& told.count == totals[i].2.0
                &&& told.size == totals[i].2.1
            },
{
}

/// What has been put out for a time, once all of it has arrived, lists every total that arrived at
/// it, in order, each with its two threads, its count and its size.
pub proof fn law_put_out_says_the_totals(steps: Seq<GrouperStep>, time: u64)
    requires
        steps.len() > 0,
        steps.last() == GrouperStep::Notify(time),
    ensures
        ({
            let out = run_laws::grouped(steps, time).0;
            let totals = run_laws::arrived(steps, time);
            &&& out.len() == totals.len()
            &&& forall|i: int|
                0 <= i < totals.len() ==> {
                    &&& (#[trigger] out[i]).alloc_thread == totals[i].0.0
                    &&& out[i].dealloc_thread == totals[i].0.1
                    &&& out[i].count == totals[i].2.0
                    &&& out[i].size == totals[i].2.1
                }
        }),
{
    run_laws::law_totals_come_out_once(steps, time);
    let totals = run_laws::arrived(steps, time);
    law_reports_say_the_totals(totals);
    assert forall|i: int| 0 <= i < totals.len() implies {
        let told = #[trigger] run_laws::grouped(steps, time).0[i];
        &&& told.alloc_thread == totals[i].0.0
        &&& told.dealloc_thread == totals[i].0.1
        &&& told.count == totals[i].2.0
        &&& told.size == totals[i].2.1
    } by {
        assert(dataflow::reports(totals)[i].size == totals[i].2.1);
    }
}

/// What is reported of a thread pair and window is the number of its matches and the sum of the
/// sizes that they free.
pub proof fn law_reported_totals(
    batches: Seq<(u64, Seq<Record>)>,
    events: Seq<MatchEvent>,
    totals: Seq<PairUpdate>,
    key: Key,
)
    requires
        events.to_multiset() == analysis_laws::run(batches).events.to_multiset(),
        run_laws::consolidates(run_laws::updates(events), totals),
        forall|i: int|
            0 <= i < run_laws::matched_over(batches).len() ==> (
            #[trigger] run_laws::matched_over(batches)[i]).freed.size <= isize::MAX,
        run_laws::matched_over(batches).filter(run_laws::matched_at(key)).len() > 0,
    ensures
        ({
            let matches = run_laws::matched_over(batches).filter(run_laws::matched_at(key));
            exists|i: int|
                {
                    let told = #[trigger] dataflow::reports(totals)[i];
                    &&& 0 <= i < totals.len()
                    &&& totals[i].1 == key.1
                    &&& told.alloc_thread == key.0.0
                    &&& told.dealloc_thread == key.0.1
                    &&& told.count == matches.len()
                    &&& told.size == run_laws::sum_by(matches, run_laws::freed_size())
                }
        }),
{
    run_laws::law_totals(batches, events, totals, key);
    law_reports_say_the_totals(totals);
    let i = choose|i: int|
        0 <= i < totals.len() && ((#[trigger] totals[i]).0, totals[i].1) == key;
    let told = dataflow::reports(totals)[i];
    assert(told.size == totals[i].2.1);
}

/// The details that are reported are those of the last symbol that was found, in every field, and
/// empty where none was.
pub proof fn law_last_symbol_is_reported(found: Seq<InstrStackDetails>, last: InstrStackDetails)
    ensures
        ({
            let details = symbols::reported(found.push(last));
            &&& details.name == last.name
            &&& details.filename == last.filename
            &&& details.lineno == last.lineno
            &&& details.colno == last.colno
        }),
        ({
            let details = symbols::reported(Seq::empty());
            &&& details.name is None
            &&& details.filename is None
            &&& details.lineno is None
            &&& details.colno is None
        }),
{
}

/// The name that is looked up for an instruction pointer is that of the last symbol found there.
pub proof fn law_name_is_that_of_last_symbol(ip: u64, name: Option<String>)
    requires
        heaptrack::looked_up(ip, name),
    ensures
        exists|found: Seq<InstrStackDetails>|
            {
                &&& #[trigger] symbols::found_at(ip, found)
                &&& found.len() > 0 ==> name == found.last().name
                &&& found.len() == 0 ==> name is None
            },
{
    let found = choose|found: Seq<InstrStackDetails>| #[trigger]
        symbols::found_at(ip, found) && name == symbols::reported(found).name;
    assert(symbols::found_at(ip, found));
}

/// A trace begins behind the first frame of the function at which it stops, and has all frames
/// from there on.
pub proof fn law_trace_begins_beyond_stop(stack: Seq<(u64, u64)>, stop: u64, at: int)
    requires
        0 <= at < stack.len(),
        stack[at].0 == stop,
        forall|i: int| 0 <= i < at ==> (#[trigger] stack[i]).0 != stop,
    ensures
        trace::beyond(stack, stop).len() == stack.len() - at - 1,
        forall|i: int|
            0 <= i < stack.len() - at - 1 ==> #[trigger] trace::beyond(stack, stop)[i] == stack[at + 1
                + i].1,
    decreases at,
{
    if at > 0 {
        let rest = stack.drop_first();
        assert(stack[0].0 != stop);
        assert forall|i: int| 0 <= i < at - 1 implies (#[trigger] rest[i]).0 != stop by {
            assert(stack[i + 1].0 != stop);
        }
        law_trace_begins_beyond_stop(rest, stop, at - 1);
    }
}

/// Where the function is not on the stack, the trace is empty.
pub proof fn law_no_trace_without_stop(stack: Seq<(u64, u64)>, stop: u64)
    requires
        forall|i: int| 0 <= i < stack.len() ==> (#[trigger] stack[i]).0 != stop,
    ensures
        trace::beyond(stack, stop).len() == 0,
    decreases stack.len(),
{
    if stack.len() > 0 {
        let rest = stack.drop_first();
        assert(stack[0].0 != stop);
        assert forall|i: int| 0 <= i < rest.len() implies (#[trigger] rest[i]).0 != stop by {
            assert(stack[i + 1].0 != stop);
        }
        law_no_trace_without_stop(rest, stop);
    }
}

/// A trace has room for the first 64 frames.
pub proof fn law_first_frames_fit(ips: Seq<u64>)
    ensures
        trace::fitting(ips).len() == if ips.len() <= 64 {
            ips.len() as int
        } else {
            64
        },
        forall|i: int|
            0 <= i < trace::fitting(ips).len() ==> #[trigger] trace::fitting(ips)[i] == ips[i],
{
}

/// The contents of a record are what the record says, with nothing left out.
pub proof fn law_entry_says_the_record(record: heaptrack::TraceInstruction)
    ensures
        match record {
            heaptrack::TraceInstruction::Init(init) => record@ matches Entry::Init(name) && name
                == init.thread_name@,
            heaptrack::TraceInstruction::Stack(stack) => record@ matches Entry::Stack {
                name,
                parent,
            } && name == stack.name@ && parent == stack.parent,
            heaptrack::TraceInstruction::Allocate(alloc) => record@ matches Entry::Allocate {
                size,
                ptr,
                trace_index,
            } && size == alloc.size && ptr == alloc.ptr && trace_index == alloc.trace_index,
            heaptrack::TraceInstruction::Free(free) => record@ matches Entry::Free { ptr } && ptr
                == free.ptr,
        },
{
}

/// Records are listed one by one, in order.
pub proof fn law_entries_are_in_order(records: Seq<heaptrack::TraceInstruction>)
    ensures
        heaptrack::entries(records).len() == records.len(),
        forall|i: int|
            0 <= i < records.len() ==> #[trigger] heaptrack::entries(records)[i] == records[i]@,
{
}

/// Buffers are listed one after the other, each with all of its records.
pub proof fn law_buffers_follow_one_another(
    buffers: Seq<Vec<heaptrack::TraceInstruction>>,
    next: Vec<heaptrack::TraceInstruction>,
)
    ensures
        heaptrack::all_entries(Seq::empty()).len() == 0,
        heaptrack::all_entries(buffers.push(next)).len() == heaptrack::all_entries(buffers).len()
            + next@.len(),
        forall|i: int|
            0 <= i < heaptrack::all_entries(buffers).len() ==> heaptrack::all_entries(
                buffers.push(next),
            )[i] == #[trigger] heaptrack::all_entries(buffers)[i],
        forall|i: int|
            0 <= i < next@.len() ==> heaptrack::all_entries(
                buffers.push(next),
            )[heaptrack::all_entries(buffers).len() + i] == (#[trigger] next@[i])@,
{
    assert(buffers.push(next).drop_last() =~= buffers);
    law_entries_are_in_order(next@);
    assert forall|i: int| 0 <= i < next@.len() implies heaptrack::all_entries(
        buffers.push(next),
    )[heaptrack::all_entries(buffers).len() + i] == (#[trigger] next@[i])@ by {
        assert(heaptrack::entries(next@)[i] == next@[i]@);
    }
}

/// New frames are written down one by one, in order, each with its parent and with its name, or
/// with a fixed text where it has none.
pub proof fn law_frames_are_named_in_order(new: Seq<InstrStack>, names: Seq<Option<String>>, j: int)
    requires
        0 <= j < names.len(),
    ensures
        heaptrack::named(new, names).len() == names.len(),
        heaptrack::named(new, names)[j] matches Entry::Stack { name, parent } && parent
            == new[j].parent && name == match names[j] {
            Some(given) => given@,
            None => "<unresolved>"@,
        },
{
}

/// Frames are listed one by one, in order, each with its instruction pointer, its parent and its
/// index.
pub proof fn law_listed_frames_are_those_of_tree(
    listed: Seq<InstrStack>,
    tree: Seq<Frame>,
    from: nat,
    j: int,
)
    requires
        heaptrack::lists_frames(listed, tree, from),
    ensures
        listed.len() == tree.len() - from,
        0 <= j < listed.len() ==> {
            &&& listed[j].ip == tree[from + j].ip
            &&& listed[j].parent == tree[from + j].parent
            &&& listed[j].index == from + j + 1
        },
{
}

/// Each of the buffers that are handed out is full.
pub proof fn law_flushed_buffers_are_full(
    buffers: Seq<Vec<heaptrack::TraceInstruction>>,
    i: int,
)
    requires
        heaptrack::all_full(buffers),
        0 <= i < buffers.len(),
    ensures
        buffers[i]@.len() >= 1024,
        buffer::is_full(buffers[i]),
{
}

/// An identifier has 36 characters: four hyphens, and lower-case digits of base 16, of which one
/// tells the version and one the variant.
pub proof fn law_identifier_is_hyphenated(id: Seq<char>, i: int)
    requires
        web::is_uuid(id),
    ensures
        id.len() == 36,
        id[8] == '-' && id[13] == '-' && id[18] == '-' && id[23] == '-',
        0 <= i < 36 && i != 8 && i != 13 && i != 18 && i != 23 ==> '0' <= id[i] <= '9' || 'a'
            <= id[i] <= 'f',
        id[14] == '4',
        id[19] == '8' || id[19] == '9' || id[19] == 'a' || id[19] == 'b',
{
}

/// Results are sent to every client that is connected, once, and to no others: there is exactly
/// one sender per connected client, and it is the one of that client.
pub proof fn law_connected_clients_are_sent_to<S>(
    clients: Clients<S>,
    ids: Seq<Seq<char>>,
    senders: Seq<&S>,
    id: Seq<char>,
    sender: S,
)
    requires
        clients.lists_recipients(ids, senders),
    ensures
        ids.len() == senders.len(),
        clients.client(id) == Some(Client { sender: Some(sender) }) ==> exists|k: int|
            0 <= k < ids.len() && #[trigger] ids[k] == id && *senders[k] == sender,
        forall|k: int|
            0 <= k < ids.len() ==> clients.client(#[trigger] ids[k]) == Some(
                (Client { sender: Some(*senders[k]) }),
            ),
        forall|k: int, l: int|
            0 <= k < l < ids.len() ==> #[trigger] ids[k] != #[trigger] ids[l],
{
    if clients.client(id) == Some(Client { sender: Some(sender) }) {
        let k = ids.index_of(id);
        assert(ids.contains(id));
        assert(ids[k] == id);
    }
}

/// Where the others are kept, every other client is registered as it was.
pub proof fn law_other_clients_are_kept<S>(
    now: Clients<S>,
    earlier: Clients<S>,
    id: Seq<char>,
    other: Seq<char>,
)
    requires
        now.others_kept(&earlier, id),
        other != id,
    ensures
        now.client(other) == earlier.client(other),
{
}

/// Windows are ten seconds wide, a batch has 256 messages, and an idle reader looks again after
/// ten milliseconds.
pub proof fn law_measures_of_analysis()
    ensures
        ROUND_TO == 10 * 1_000_000_000,
        dataflow::FUEL == 256,
        dataflow::IDLE_MILLIS * 100 == 1000,
{
}

} // verus!
