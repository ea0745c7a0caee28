//! What holds of the analysis as a whole: time windows, matching in batches and on several
//! workers, and the account of every allocation.
use crate::dataflow;
use crate::dataflow::{ByteOrder, MatchEvent, Matching, Record, ROUND_TO};
use crate::output::{AllocError, AllocInfo};
use crate::types::{InstrAllocation, TraceInstruction};
use vstd::prelude::*;

verus! {

/// A time window ends at the least multiple of its width that is not before the time.
pub proof fn law_window_end(time: nat, multiple: nat)
    ensures
        time <= dataflow::window_end(time) < time + ROUND_TO,
        dataflow::window_end(time) % (ROUND_TO as nat) == 0,
        multiple % (ROUND_TO as nat) == 0 && time <= multiple ==> dataflow::window_end(time)
            <= multiple,
{
    let width = ROUND_TO as int;
    let windows = (time + width - 1) / width;
    assert(dataflow::window_end(time) == windows * width);
    assert(time <= windows * width < time + width);
    assert((windows * width) % width == 0);
    if multiple % (ROUND_TO as nat) == 0 && time <= multiple {
        assert(multiple == multiple / (ROUND_TO as nat) * ROUND_TO);
    }
}

/// Later times fall into later windows.
pub proof fn law_window_end_is_monotonic(earlier: nat, later: nat)
    requires
        earlier <= later,
    ensures
        dataflow::window_end(earlier) <= dataflow::window_end(later),
{
}

/// Instructions that concern the same pointer go to the same worker.
pub proof fn law_pointer_stays_with_worker(
    one: TraceInstruction,
    other: TraceInstruction,
    order: ByteOrder,
)
    requires
        one.allocation() is Some,
        other.allocation() is Some,
        one.allocation()->0.ptr == other.allocation()->0.ptr,
    ensures
        dataflow::route_of(one, order) == dataflow::route_of(other, order),
{
}

/// Matching in two batches is matching in one.
pub proof fn law_batches_concatenate(
    live: Map<u64, AllocInfo>,
    bucket: u64,
    first: Seq<Record>,
    second: Seq<Record>,
)
    ensures
        ({
            let one = dataflow::match_all(live, bucket, first);
            let two = dataflow::match_all(one.live, bucket, second);
            let whole = dataflow::match_all(live, bucket, first + second);
            &&& whole.live == two.live
            &&& whole.events == one.events + two.events
        }),
    decreases second.len(),
{
    let one = dataflow::match_all(live, bucket, first);
    if second.len() == 0 {
        assert(first + second =~= first);
        assert(one.events + Seq::<MatchEvent>::empty() =~= one.events);
    } else {
        law_batches_concatenate(live, bucket, first, second.drop_last());
        assert((first + second).drop_last() =~= first + second.drop_last());
        assert((first + second).last() == second.last());
        let two = dataflow::match_all(one.live, bucket, second);
        let whole = dataflow::match_all(live, bucket, first + second);
        assert(whole.events =~= one.events + two.events);
    }
}

/// The last record in `data` that concerns `ptr`.
pub open spec fn last_about(data: Seq<Record>, ptr: u64) -> Option<Record>
    decreases data.len(),
{
    if data.len() == 0 {
        None
    } else if data.last().2.allocation() matches Some(alloc) && alloc.ptr == ptr {
        Some(data.last())
    } else {
        last_about(data.drop_last(), ptr)
    }
}

/// What is known of the allocation at `ptr` after `data`, going by the last record about it.
pub open spec fn known_of(live: Map<u64, AllocInfo>, data: Seq<Record>, ptr: u64) -> Option<
    AllocInfo,
> {
    match last_about(data, ptr) {
        Some(record) => match record.2 {
            TraceInstruction::Allocate(alloc) => Some((record.0, record.1, alloc.trace_index)),
            _ => None,
        },
        None => if live.contains_key(ptr) {
            Some(live[ptr])
        } else {
            None
        },
    }
}

/// An allocation is live exactly if the last thing that happened to its pointer was that it was
/// allocated.
pub proof fn law_live_goes_by_last_record(
    live: Map<u64, AllocInfo>,
    bucket: u64,
    data: Seq<Record>,
    ptr: u64,
)
    ensures
        ({
            let after = dataflow::match_all(live, bucket, data).live;
            match known_of(live, data, ptr) {
                Some(info) => after.contains_key(ptr) && after[ptr] == info,
                None => !after.contains_key(ptr),
            }
        }),
    decreases data.len(),
{
    if data.len() > 0 {
        law_live_goes_by_last_record(live, bucket, data.drop_last(), ptr);
    }
}

/// The record at position `at` is no misuse: it allocates what is not allocated, or frees what is.
pub open spec fn proper_at(live: Map<u64, AllocInfo>, data: Seq<Record>, at: int) -> bool {
    match data[at].2 {
        TraceInstruction::Allocate(alloc) => known_of(live, data.take(at), alloc.ptr) is None,
        TraceInstruction::Deallocate(alloc) => known_of(live, data.take(at), alloc.ptr) is Some,
        TraceInstruction::Stack(_) => true,
    }
}

/// An error is reported exactly if something is allocated twice in a row or freed without being
/// allocated.
pub proof fn law_errors_iff_misuse(live: Map<u64, AllocInfo>, bucket: u64, data: Seq<Record>)
    ensures
        (forall|i: int|
            0 <= i < dataflow::match_all(live, bucket, data).events.len() ==> (
            #[trigger] dataflow::match_all(live, bucket, data).events[i]) is Pair) <==> (forall|
            at: int,
        |
            0 <= at < data.len() ==> #[trigger] proper_at(live, data, at)),
    decreases data.len(),
{
    if data.len() > 0 {
        let shorter = data.drop_last();
        let before = dataflow::match_all(live, bucket, shorter);
        let after = dataflow::match_all(live, bucket, data);
        law_errors_iff_misuse(live, bucket, shorter);
        let last = data.len() - 1;
        assert(data.take(last) =~= shorter);
        match data.last().2.allocation() {
            Some(alloc) => {
                law_live_goes_by_last_record(live, bucket, shorter, alloc.ptr);
            },
            None => {},
        }
        assert forall|at: int| 0 <= at < last implies proper_at(live, shorter, at) == proper_at(
            live,
            data,
            at,
        ) by {
            assert(shorter.take(at) =~= data.take(at));
        }
        if forall|i: int| 0 <= i < after.events.len() ==> (#[trigger] after.events[i]) is Pair {
            assert forall|i: int| 0 <= i < before.events.len() implies (
            #[trigger] before.events[i]) is Pair by {
                assert(after.events[i] is Pair);
            }
            assert forall|at: int| 0 <= at < data.len() implies #[trigger] proper_at(
                live,
                data,
                at,
            ) by {
                if at < last {
                    assert(proper_at(live, shorter, at));
                } else if after.events.len() > before.events.len() {
                    assert(after.events[before.events.len() as int] is Pair);
                }
            }
        }
        if forall|at: int| 0 <= at < data.len() ==> #[trigger] proper_at(live, data, at) {
            assert forall|at: int| 0 <= at < shorter.len() implies #[trigger] proper_at(
                live,
                shorter,
                at,
            ) by {
                assert(proper_at(live, data, at));
            }
            assert(proper_at(live, data, last));
            assert forall|i: int| 0 <= i < after.events.len() implies (
            #[trigger] after.events[i]) is Pair by {
                if i < before.events.len() {
                    assert(after.events[i] == before.events[i]);
                }
            }
        }
    }
}

/// The number of entries of `data` that satisfy `counted`.
pub open spec fn count<A>(data: Seq<A>, counted: spec_fn(A) -> bool) -> nat
    decreases data.len(),
{
    if data.len() == 0 {
        0
    } else {
        count(data.drop_last(), counted) + if counted(data.last()) {
            1nat
        } else {
            0nat
        }
    }
}

/// The number of allocations in `data`.
pub open spec fn allocations(data: Seq<Record>) -> nat {
    count(data, |record: Record| record.2 is Allocate)
}

/// The number of deallocations in `data`.
pub open spec fn deallocations(data: Seq<Record>) -> nat {
    count(data, |record: Record| record.2 is Deallocate)
}

/// The number of matched pairs in `events`.
pub open spec fn pairs(events: Seq<MatchEvent>) -> nat {
    count(events, |event: MatchEvent| event is Pair)
}

/// The number of double allocations in `events`.
pub open spec fn double_allocs(events: Seq<MatchEvent>) -> nat {
    count(
        events,
        |event: MatchEvent| event matches MatchEvent::Error(error) && error is DoubleAlloc,
    )
}

/// The number of double frees in `events`.
pub open spec fn double_frees(events: Seq<MatchEvent>) -> nat {
    count(
        events,
        |event: MatchEvent| event matches MatchEvent::Error(error) && error is DoubleFree,
    )
}

/// Counting one more entry.
proof fn lemma_count_push<A>(data: Seq<A>, entry: A, counted: spec_fn(A) -> bool)
    ensures
        count(data.push(entry), counted) == count(data, counted) + if counted(entry) {
            1nat
        } else {
            0nat
        },
{
    assert(data.push(entry).drop_last() =~= data);
}

/// Nothing gets lost: every deallocation is matched or is a double free, and every allocation is
/// matched, overwritten by a double allocation, or still live.
pub proof fn law_every_allocation_is_accounted_for(
    live: Map<u64, AllocInfo>,
    bucket: u64,
    data: Seq<Record>,
)
    requires
        live.dom().finite(),
    ensures
        ({
            let after = dataflow::match_all(live, bucket, data);
            &&& after.live.dom().finite()
            &&& deallocations(data) == pairs(after.events) + double_frees(after.events)
            &&& live.dom().len() + allocations(data) == after.live.dom().len() + pairs(after.events)
                + double_allocs(after.events)
            &&& after.events.len() == pairs(after.events) + double_frees(after.events)
                + double_allocs(after.events)
        }),
    decreases data.len(),
{
    if data.len() > 0 {
        let before = dataflow::match_all(live, bucket, data.drop_last());
        let after = dataflow::match_all(live, bucket, data);
        law_every_allocation_is_accounted_for(live, bucket, data.drop_last());
        if after.events.len() > before.events.len() {
            let event = after.events.last();
            assert(after.events =~= before.events.push(event));
            lemma_count_push(before.events, event, |event: MatchEvent| event is Pair);
            lemma_count_push(
                before.events,
                event,
                |event: MatchEvent|
                    event matches MatchEvent::Error(error) && error is DoubleAlloc,
            );
            lemma_count_push(
                before.events,
                event,
                |event: MatchEvent| event matches MatchEvent::Error(error) && error is DoubleFree,
            );
        }
        match data.last().2 {
            TraceInstruction::Allocate(alloc) => {
                let info = (data.last().0, data.last().1, alloc.trace_index);
                assert(after.live.dom() =~= before.live.dom().insert(alloc.ptr));
            },
            TraceInstruction::Deallocate(dealloc) => {
                assert(after.live.dom() =~= before.live.dom().remove(dealloc.ptr));
            },
            TraceInstruction::Stack(_) => {},
        }
    }
}

/// Counting in two parts is counting in one.
proof fn lemma_count_concat<A>(first: Seq<A>, second: Seq<A>, counted: spec_fn(A) -> bool)
    ensures
        count(first + second, counted) == count(first, counted) + count(second, counted),
    decreases second.len(),
{
    if second.len() == 0 {
        assert(first + second =~= first);
    } else {
        lemma_count_concat(first, second.drop_last(), counted);
        assert((first + second).drop_last() =~= first + second.drop_last());
    }
}

/// The last record about `ptr` is in the second part, where there is one.
pub proof fn lemma_last_about_concat(first: Seq<Record>, second: Seq<Record>, ptr: u64)
    ensures
        last_about(first + second, ptr) == match last_about(second, ptr) {
            Some(record) => Some(record),
            None => last_about(first, ptr),
        },
    decreases second.len(),
{
    if second.len() == 0 {
        assert(first + second =~= first);
    } else {
        lemma_last_about_concat(first, second.drop_last(), ptr);
        assert((first + second).drop_last() =~= first + second.drop_last());
    }
}

/// What a new matcher holds and has observed after `batches`, each of which arrives in a time
/// window of its own.
pub open spec fn run(batches: Seq<(u64, Seq<Record>)>) -> Matching
    decreases batches.len(),
{
    if batches.len() == 0 {
        Matching { live: Map::empty(), events: Seq::empty() }
    } else {
        let before = run(batches.drop_last());
        let last = dataflow::match_all(before.live, batches.last().0, batches.last().1);
        Matching { live: last.live, events: before.events + last.events }
    }
}

/// All records of `batches`, in order.
pub open spec fn records(batches: Seq<(u64, Seq<Record>)>) -> Seq<Record>
    decreases batches.len(),
{
    if batches.len() == 0 {
        Seq::empty()
    } else {
        records(batches.drop_last()) + batches.last().1
    }
}

/// What holds of a run before its leaks are reported.
pub proof fn lemma_run(batches: Seq<(u64, Seq<Record>)>)
    ensures
        ({
            let after = run(batches);
            let data = records(batches);
            &&& after.live.dom().finite()
            &&& deallocations(data) == pairs(after.events) + double_frees(after.events)
            &&& allocations(data) == after.live.dom().len() + pairs(after.events) + double_allocs(
                after.events,
            )
            &&& forall|ptr: u64| #[trigger]
                after.live.contains_key(ptr) <==> known_of(Map::empty(), data, ptr) is Some
            &&& forall|ptr: u64| #[trigger]
                after.live.contains_key(ptr) ==> known_of(Map::empty(), data, ptr) == Some(
                    after.live[ptr],
                )
        }),
    decreases batches.len(),
{
    if batches.len() > 0 {
        let before = run(batches.drop_last());
        let earlier = records(batches.drop_last());
        let (bucket, data) = batches.last();
        let last = dataflow::match_all(before.live, bucket, data);
        lemma_run(batches.drop_last());
        law_every_allocation_is_accounted_for(before.live, bucket, data);
        lemma_count_concat(earlier, data, |record: Record| record.2 is Allocate);
        lemma_count_concat(earlier, data, |record: Record| record.2 is Deallocate);
        lemma_count_concat(before.events, last.events, |event: MatchEvent| event is Pair);
        lemma_count_concat(
            before.events,
            last.events,
            |event: MatchEvent| event matches MatchEvent::Error(error) && error is DoubleAlloc,
        );
        lemma_count_concat(
            before.events,
            last.events,
            |event: MatchEvent| event matches MatchEvent::Error(error) && error is DoubleFree,
        );
        assert forall|ptr: u64|
            (#[trigger] last.live.contains_key(ptr) <==> known_of(
                Map::empty(),
                earlier + data,
                ptr,
            ) is Some) && (last.live.contains_key(ptr) ==> known_of(
                Map::empty(),
                earlier + data,
                ptr,
            ) == Some(last.live[ptr])) by {
            lemma_last_about_concat(earlier, data, ptr);
            law_live_goes_by_last_record(before.live, bucket, data, ptr);
            assert(before.live.contains_key(ptr) <==> known_of(Map::empty(), earlier, ptr) is Some);
        }
    }
}

/// Over a whole run, whatever the batches in which the records arrive: every deallocation is
/// matched or is a double free; every allocation is matched, overwritten by a double allocation,
/// or a leak; and a leak is reported for exactly those pointers that were allocated last.
pub proof fn law_whole_run(batches: Seq<(u64, Seq<Record>)>, leaks: Seq<MatchEvent>, ptr: u64)
    requires
        dataflow::leaks_of(run(batches).live, leaks),
    ensures
        ({
            let events = run(batches).events;
            let data = records(batches);
            &&& deallocations(data) == pairs(events) + double_frees(events)
            &&& allocations(data) == pairs(events) + double_allocs(events) + leaks.len()
            &&& match last_about(data, ptr) {
                Some((time, thread, TraceInstruction::Allocate(alloc))) => leaks.contains(
                    MatchEvent::Error(
                        AllocError::Leak { ptr, info: (time, thread, alloc.trace_index) },
                    ),
                ),
                _ => forall|info: AllocInfo|
                    !#[trigger] leaks.contains(
                        MatchEvent::Error(AllocError::Leak { ptr, info }),
                    ),
            }
        }),
{
    lemma_run(batches);
    let live = run(batches).live;
    let data = records(batches);
    assert(live.contains_key(ptr) <==> known_of(Map::empty(), data, ptr) is Some);
}

/// The part of `live` that concerns the pointers that `mine` picks.
pub open spec fn live_part(live: Map<u64, AllocInfo>, mine: spec_fn(u64) -> bool) -> Map<
    u64,
    AllocInfo,
> {
    live.restrict(live.dom().filter(mine))
}

/// The part of `data` that concerns the pointers that `mine` picks.
pub open spec fn data_part(data: Seq<Record>, mine: spec_fn(u64) -> bool) -> Seq<Record> {
    data.filter(
        |record: Record|
            record.2.allocation() matches Some(alloc) && mine(alloc.ptr),
    )
}

/// The pointers that `mine` does not pick.
pub open spec fn others(mine: spec_fn(u64) -> bool) -> spec_fn(u64) -> bool {
    |ptr: u64| !mine(ptr)
}

/// Dividing the pointers between workers changes nothing: together they observe the events that
/// one worker would, and hold the allocations that it would hold.
pub proof fn law_workers_divide_the_work(
    live: Map<u64, AllocInfo>,
    bucket: u64,
    data: Seq<Record>,
    mine: spec_fn(u64) -> bool,
)
    ensures
        ({
            let whole = dataflow::match_all(live, bucket, data);
            let one = dataflow::match_all(live_part(live, mine), bucket, data_part(data, mine));
            let other = dataflow::match_all(
                live_part(live, others(mine)),
                bucket,
                data_part(data, others(mine)),
            );
            &&& one.live == live_part(whole.live, mine)
            &&& other.live == live_part(whole.live, others(mine))
            &&& whole.events.to_multiset() == one.events.to_multiset().add(
                other.events.to_multiset(),
            )
        }),
    decreases data.len(),
{
    broadcast use vstd::seq_lib::group_to_multiset_ensures;

    let whole = dataflow::match_all(live, bucket, data);
    let one = dataflow::match_all(live_part(live, mine), bucket, data_part(data, mine));
    let other = dataflow::match_all(
        live_part(live, others(mine)),
        bucket,
        data_part(data, others(mine)),
    );
    reveal(Seq::filter);
    if data.len() == 0 {
        assert(whole.events.to_multiset() =~= one.events.to_multiset().add(
            other.events.to_multiset(),
        ));
    } else {
        let shorter = data.drop_last();
        let record = data.last();
        law_workers_divide_the_work(live, bucket, shorter, mine);
        let whole0 = dataflow::match_all(live, bucket, shorter);
        let one0 = dataflow::match_all(live_part(live, mine), bucket, data_part(shorter, mine));
        let other0 = dataflow::match_all(
            live_part(live, others(mine)),
            bucket,
            data_part(shorter, others(mine)),
        );
        match record.2.allocation() {
            None => {
                assert(data_part(data, mine) == data_part(shorter, mine));
                assert(data_part(data, others(mine)) == data_part(shorter, others(mine)));
            },
            Some(alloc) => {
                if mine(alloc.ptr) {
                    assert(data_part(data, mine) == data_part(shorter, mine).push(record));
                    assert(data_part(data, mine).drop_last() =~= data_part(shorter, mine));
                    assert(data_part(data, others(mine)) == data_part(shorter, others(mine)));
                } else {
                    assert(data_part(data, mine) == data_part(shorter, mine));
                    assert(data_part(data, others(mine)) == data_part(shorter, others(mine)).push(
                        record,
                    ));
                    assert(data_part(data, others(mine)).drop_last() =~= data_part(
                        shorter,
                        others(mine),
                    ));
                }
            },
        }
        assert(one.live =~= live_part(whole.live, mine));
        assert(other.live =~= live_part(whole.live, others(mine)));
        assert(whole.events.to_multiset() =~= one.events.to_multiset().add(
            other.events.to_multiset(),
        ));
    }
}

} // verus!
