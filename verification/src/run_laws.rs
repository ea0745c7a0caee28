//! What holds of a whole run of the analysis: the events that the records call for, the share of
//! each worker, the windows in which messages are counted, and the totals per thread pair.
use crate::analysis_laws;
use crate::dataflow;
use crate::dataflow::{MatchEvent, PairUpdate, Record};
use crate::output::{AllocError, AllocInfo, AllocPerThreadPair};
use crate::types::{InstrAllocation, Timestamp, TraceInstruction, TraceProtocol};
use vstd::prelude::*;

verus! {

/// `entries`, and `entry` where there is one.
pub open spec fn appended<A>(entries: Seq<A>, entry: Option<A>) -> Seq<A> {
    match entry {
        Some(entry) => entries.push(entry),
        None => entries,
    }
}

/// The event that `record` calls for, which arrives in the window `bucket` after the records
/// `earlier`. It goes by the last of these that concerns the same pointer.
pub open spec fn due(earlier: Seq<Record>, bucket: u64, record: Record) -> Option<MatchEvent> {
    match record.2 {
        TraceInstruction::Allocate(alloc) => match analysis_laws::known_of(
            Map::empty(),
            earlier,
            alloc.ptr,
        ) {
            Some(old) => Some(
                MatchEvent::Error(
                    AllocError::DoubleAlloc {
                        ptr: alloc.ptr,
                        old,
                        new: (record.0, record.1, alloc.trace_index),
                    },
                ),
            ),
            None => None,
        },
        TraceInstruction::Deallocate(dealloc) => match analysis_laws::known_of(
            Map::empty(),
            earlier,
            dealloc.ptr,
        ) {
            Some(info) => Some(
                MatchEvent::Pair {
                    alloc_thread: info.1,
                    dealloc_thread: record.1,
                    bucket,
                    size: dealloc.size as isize,
                },
            ),
            None => Some(
                MatchEvent::Error(
                    AllocError::DoubleFree {
                        ptr: dealloc.ptr,
                        info: (record.0, record.1, dealloc.trace_index),
                    },
                ),
            ),
        },
        TraceInstruction::Stack(_) => None,
    }
}

/// The events that `data` calls for, in order.
pub open spec fn due_in(earlier: Seq<Record>, bucket: u64, data: Seq<Record>) -> Seq<MatchEvent>
    decreases data.len(),
{
    if data.len() == 0 {
        Seq::empty()
    } else {
        appended(
            due_in(earlier, bucket, data.drop_last()),
            due(earlier + data.drop_last(), bucket, data.last()),
        )
    }
}

/// The events that all of `batches` call for, in order.
pub open spec fn due_over(batches: Seq<(u64, Seq<Record>)>) -> Seq<MatchEvent>
    decreases batches.len(),
{
    if batches.len() == 0 {
        Seq::empty()
    } else {
        let before = batches.drop_last();
        due_over(before) + due_in(
            analysis_laws::records(before),
            batches.last().0,
            batches.last().1,
        )
    }
}

/// A matcher that knows of each pointer what the records `earlier` say observes what is due.
proof fn lemma_due_in(
    live: Map<u64, AllocInfo>,
    earlier: Seq<Record>,
    bucket: u64,
    data: Seq<Record>,
)
    requires
        forall|ptr: u64| #[trigger]
            live.contains_key(ptr) <==> analysis_laws::known_of(
                Map::empty(),
                earlier,
                ptr,
            ) is Some,
        forall|ptr: u64| #[trigger]
            live.contains_key(ptr) ==> analysis_laws::known_of(Map::empty(), earlier, ptr) == Some(
                live[ptr],
            ),
    ensures
        dataflow::match_all(live, bucket, data).events == due_in(earlier, bucket, data),
    decreases data.len(),
{
    if data.len() > 0 {
        let shorter = data.drop_last();
        lemma_due_in(live, earlier, bucket, shorter);
        match data.last().2.allocation() {
            Some(alloc) => {
                analysis_laws::law_live_goes_by_last_record(live, bucket, shorter, alloc.ptr);
                analysis_laws::lemma_last_about_concat(earlier, shorter, alloc.ptr);
                assert(live.contains_key(alloc.ptr) <==> analysis_laws::known_of(
                    Map::empty(),
                    earlier,
                    alloc.ptr,
                ) is Some);
            },
            None => {},
        }
    }
}

/// A run observes exactly the events that its records call for, each once and in order: a double
/// allocation where the last record about the pointer allocated it, with what that record says; a
/// double free where it did not; a pair where a deallocation follows an allocation.
pub proof fn law_events_are_those_called_for(batches: Seq<(u64, Seq<Record>)>)
    ensures
        analysis_laws::run(batches).events == due_over(batches),
    decreases batches.len(),
{
    if batches.len() > 0 {
        let before = batches.drop_last();
        law_events_are_those_called_for(before);
        analysis_laws::lemma_run(before);
        lemma_due_in(
            analysis_laws::run(before).live,
            analysis_laws::records(before),
            batches.last().0,
            batches.last().1,
        );
    }
}

/// The part of `batches` that concerns the pointers that `mine` picks.
pub open spec fn batches_part(
    batches: Seq<(u64, Seq<Record>)>,
    mine: spec_fn(u64) -> bool,
) -> Seq<(u64, Seq<Record>)> {
    batches.map_values(
        |batch: (u64, Seq<Record>)| (batch.0, analysis_laws::data_part(batch.1, mine)),
    )
}

/// Dividing the pointers between workers changes nothing over a whole run: together they observe
/// the events that one worker would, and hold the allocations that it would hold.
pub proof fn law_workers_divide_a_run(
    batches: Seq<(u64, Seq<Record>)>,
    mine: spec_fn(u64) -> bool,
)
    ensures
        ({
            let whole = analysis_laws::run(batches);
            let one = analysis_laws::run(batches_part(batches, mine));
            let other = analysis_laws::run(batches_part(batches, analysis_laws::others(mine)));
            &&& one.live == analysis_laws::live_part(whole.live, mine)
            &&& other.live == analysis_laws::live_part(whole.live, analysis_laws::others(mine))
            &&& whole.events.to_multiset() == one.events.to_multiset().add(
                other.events.to_multiset(),
            )
        }),
    decreases batches.len(),
{
    let rest = analysis_laws::others(mine);
    let whole = analysis_laws::run(batches);
    let one = analysis_laws::run(batches_part(batches, mine));
    let other = analysis_laws::run(batches_part(batches, rest));
    if batches.len() == 0 {
        broadcast use vstd::seq_lib::group_to_multiset_ensures;

        assert(one.live =~= analysis_laws::live_part(whole.live, mine));
        assert(other.live =~= analysis_laws::live_part(whole.live, rest));
        assert(whole.events.to_multiset() =~= one.events.to_multiset().add(
            other.events.to_multiset(),
        ));
    } else {
        let before = batches.drop_last();
        let (bucket, data) = batches.last();
        law_workers_divide_a_run(before, mine);
        assert(batches_part(batches, mine).drop_last() =~= batches_part(before, mine));
        assert(batches_part(batches, rest).drop_last() =~= batches_part(before, rest));
        let whole0 = analysis_laws::run(before);
        let one0 = analysis_laws::run(batches_part(before, mine));
        let other0 = analysis_laws::run(batches_part(before, rest));
        analysis_laws::law_workers_divide_the_work(whole0.live, bucket, data, mine);
        let whole1 = dataflow::match_all(whole0.live, bucket, data);
        let one1 = dataflow::match_all(
            one0.live,
            bucket,
            analysis_laws::data_part(data, mine),
        );
        let other1 = dataflow::match_all(
            other0.live,
            bucket,
            analysis_laws::data_part(data, rest),
        );
        vstd::seq_lib::lemma_multiset_commutative(whole0.events, whole1.events);
        vstd::seq_lib::lemma_multiset_commutative(one0.events, one1.events);
        vstd::seq_lib::lemma_multiset_commutative(other0.events, other1.events);
        assert(whole.events.to_multiset() =~= one.events.to_multiset().add(
            other.events.to_multiset(),
        ));
    }
}

/// The pointer that an error concerns.
pub open spec fn pointer_of(error: AllocError) -> u64 {
    match error {
        AllocError::DoubleAlloc { ptr, .. } => ptr,
        AllocError::DoubleFree { ptr, .. } => ptr,
        AllocError::Leak { ptr, .. } => ptr,
    }
}

/// Picks the errors that concern the pointers that `mine` picks.
pub open spec fn error_about(mine: spec_fn(u64) -> bool) -> spec_fn(MatchEvent) -> bool {
    |event: MatchEvent| event matches MatchEvent::Error(error) && mine(pointer_of(error))
}

/// Picks the errors.
pub open spec fn any_error() -> spec_fn(MatchEvent) -> bool {
    |event: MatchEvent| event is Error
}

/// In one batch, the errors about some of the pointers come from the records about them alone.
proof fn lemma_errors_in_part(
    live: Map<u64, AllocInfo>,
    bucket: u64,
    data: Seq<Record>,
    mine: spec_fn(u64) -> bool,
)
    ensures
        dataflow::match_all(live, bucket, data).events.filter(error_about(mine))
            == dataflow::match_all(
            analysis_laws::live_part(live, mine),
            bucket,
            analysis_laws::data_part(data, mine),
        ).events.filter(any_error()),
    decreases data.len(),
{
    reveal(Seq::filter);
    let live1 = analysis_laws::live_part(live, mine);
    if data.len() > 0 {
        let shorter = data.drop_last();
        let record = data.last();
        lemma_errors_in_part(live, bucket, shorter, mine);
        analysis_laws::law_workers_divide_the_work(live, bucket, shorter, mine);
        let before = dataflow::match_all(live, bucket, shorter);
        let after = dataflow::match_all(live, bucket, data);
        let part = analysis_laws::data_part(data, mine);
        let before1 = dataflow::match_all(
            live1,
            bucket,
            analysis_laws::data_part(shorter, mine),
        );
        let after1 = dataflow::match_all(live1, bucket, part);
        if after.events.len() > before.events.len() {
            assert(after.events.drop_last() =~= before.events);
        }
        match record.2.allocation() {
            Some(alloc) => {
                if mine(alloc.ptr) {
                    assert(part.drop_last() =~= analysis_laws::data_part(shorter, mine));
                    if after1.events.len() > before1.events.len() {
                        assert(after1.events.drop_last() =~= before1.events);
                    }
                }
            },
            None => {},
        }
    }
}

/// The errors about any part of the pointers are exactly those that the records about these
/// pointers call for, each once, in order and with its information. The records about other
/// pointers do not matter.
pub proof fn law_errors_about_pointers(
    batches: Seq<(u64, Seq<Record>)>,
    mine: spec_fn(u64) -> bool,
)
    ensures
        analysis_laws::run(batches).events.filter(error_about(mine)) == due_over(
            batches_part(batches, mine),
        ).filter(any_error()),
    decreases batches.len(),
{
    let part = batches_part(batches, mine);
    law_events_are_those_called_for(part);
    if batches.len() == 0 {
        reveal(Seq::filter);
    } else {
        let before = batches.drop_last();
        let (bucket, data) = batches.last();
        law_errors_about_pointers(before, mine);
        law_workers_divide_a_run(before, mine);
        law_events_are_those_called_for(batches_part(before, mine));
        assert(part.drop_last() =~= batches_part(before, mine));
        let whole0 = analysis_laws::run(before);
        let one0 = analysis_laws::run(batches_part(before, mine));
        lemma_errors_in_part(whole0.live, bucket, data, mine);
        Seq::filter_distributes_over_add(
            whole0.events,
            dataflow::match_all(whole0.live, bucket, data).events,
            error_about(mine),
        );
        Seq::filter_distributes_over_add(
            one0.events,
            dataflow::match_all(
                one0.live,
                bucket,
                analysis_laws::data_part(data, mine),
            ).events,
            any_error(),
        );
    }
}

/// A deallocation that is matched to its allocation.
pub struct Matched {
    /// What is known of the allocation.
    pub info: AllocInfo,
    /// The thread that deallocates.
    pub thread: usize,
    /// The deallocation.
    pub freed: InstrAllocation,
    /// The time window in which it arrives.
    pub window: u64,
}

/// The match that `record` makes, which arrives in `window` after the records `earlier`: it
/// deallocates what the last of these that concerns the pointer allocated.
pub open spec fn match_due(earlier: Seq<Record>, window: u64, record: Record) -> Option<Matched> {
    match record.2 {
        TraceInstruction::Deallocate(freed) => match analysis_laws::known_of(
            Map::empty(),
            earlier,
            freed.ptr,
        ) {
            Some(info) => Some(Matched { info, thread: record.1, freed, window }),
            None => None,
        },
        _ => None,
    }
}

/// The matches that `data` makes, in order.
pub open spec fn matched_in(earlier: Seq<Record>, window: u64, data: Seq<Record>) -> Seq<Matched>
    decreases data.len(),
{
    if data.len() == 0 {
        Seq::empty()
    } else {
        appended(
            matched_in(earlier, window, data.drop_last()),
            match_due(earlier + data.drop_last(), window, data.last()),
        )
    }
}

/// The matches that all of `batches` make, in order.
pub open spec fn matched_over(batches: Seq<(u64, Seq<Record>)>) -> Seq<Matched>
    decreases batches.len(),
{
    if batches.len() == 0 {
        Seq::empty()
    } else {
        let before = batches.drop_last();
        matched_over(before) + matched_in(
            analysis_laws::records(before),
            batches.last().0,
            batches.last().1,
        )
    }
}

/// The update that a match counts for.
pub open spec fn update_for(matched: Matched) -> PairUpdate {
    (
        (matched.info.1, matched.thread),
        matched.window,
        (1isize, matched.freed.size as isize),
    )
}

/// The updates that `matches` count for, in order.
pub open spec fn updates_for(matches: Seq<Matched>) -> Seq<PairUpdate> {
    matches.map_values(|matched: Matched| update_for(matched))
}

/// The updates that `events` yield, in order.
pub open spec fn updates(events: Seq<MatchEvent>) -> Seq<PairUpdate>
    decreases events.len(),
{
    if events.len() == 0 {
        Seq::empty()
    } else {
        appended(updates(events.drop_last()), dataflow::update_of(events.last()))
    }
}

/// The updates of two parts follow one another.
proof fn lemma_updates_concat(first: Seq<MatchEvent>, second: Seq<MatchEvent>)
    ensures
        updates(first + second) == updates(first) + updates(second),
    decreases second.len(),
{
    if second.len() == 0 {
        assert(first + second =~= first);
    } else {
        lemma_updates_concat(first, second.drop_last());
        assert((first + second).drop_last() =~= first + second.drop_last());
        assert(updates(first + second) =~= updates(first) + updates(second));
    }
}

/// In one batch, the updates are those that the matches count for.
proof fn lemma_updates_in(earlier: Seq<Record>, bucket: u64, data: Seq<Record>)
    ensures
        updates(due_in(earlier, bucket, data)) == updates_for(matched_in(earlier, bucket, data)),
    decreases data.len(),
{
    if data.len() == 0 {
        assert(updates_for(matched_in(earlier, bucket, data)) =~= Seq::<PairUpdate>::empty());
    } else {
        let shorter = data.drop_last();
        lemma_updates_in(earlier, bucket, shorter);
        let before = due_in(earlier, bucket, shorter);
        match due(earlier + shorter, bucket, data.last()) {
            Some(event) => {
                assert(before.push(event).drop_last() =~= before);
            },
            None => {},
        }
        assert(updates(due_in(earlier, bucket, data)) =~= updates_for(
            matched_in(earlier, bucket, data),
        ));
    }
}

/// A run yields one update per matched pair, in order: it counts 1, with the size of the
/// deallocation, for the thread that allocated and the thread that deallocated, in the window in
/// which the deallocation arrives.
pub proof fn law_one_update_per_match(batches: Seq<(u64, Seq<Record>)>)
    ensures
        updates(analysis_laws::run(batches).events) == updates_for(matched_over(batches)),
    decreases batches.len(),
{
    law_events_are_those_called_for(batches);
    if batches.len() == 0 {
        assert(updates_for(matched_over(batches)) =~= Seq::<PairUpdate>::empty());
    } else {
        let before = batches.drop_last();
        let earlier = analysis_laws::records(before);
        let (bucket, data) = batches.last();
        law_one_update_per_match(before);
        law_events_are_those_called_for(before);
        lemma_updates_in(earlier, bucket, data);
        lemma_updates_concat(due_over(before), due_in(earlier, bucket, data));
        assert(updates_for(matched_over(batches)) =~= updates_for(matched_over(before))
            + updates_for(matched_in(earlier, bucket, data)));
    }
}

/// The sum of `weight` over `entries`.
pub open spec fn sum_by<A>(entries: Seq<A>, weight: spec_fn(A) -> int) -> int
    decreases entries.len(),
{
    if entries.len() == 0 {
        0
    } else {
        sum_by(entries.drop_last(), weight) + weight(entries.last())
    }
}

/// Leaving out one entry takes its weight from the sum.
proof fn lemma_sum_remove<A>(entries: Seq<A>, at: int, weight: spec_fn(A) -> int)
    requires
        0 <= at < entries.len(),
    ensures
        sum_by(entries, weight) == sum_by(entries.remove(at), weight) + weight(entries[at]),
    decreases entries.len(),
{
    if at == entries.len() - 1 {
        assert(entries.remove(at) =~= entries.drop_last());
    } else {
        lemma_sum_remove(entries.drop_last(), at, weight);
        assert(entries.remove(at).drop_last() =~= entries.drop_last().remove(at));
        assert(entries.remove(at).last() == entries.last());
    }
}

/// The order of the entries does not matter to the sum.
proof fn lemma_sum_permutation<A>(one: Seq<A>, other: Seq<A>, weight: spec_fn(A) -> int)
    requires
        one.to_multiset() == other.to_multiset(),
    ensures
        sum_by(one, weight) == sum_by(other, weight),
    decreases one.len(),
{
    broadcast use vstd::seq_lib::group_to_multiset_ensures;

    assert(one.len() == one.to_multiset().len());
    assert(other.len() == other.to_multiset().len());
    if one.len() > 0 {
        let entry = one.last();
        assert(one.contains(entry));
        assert(one.to_multiset().contains(entry));
        assert(other.contains(entry));
        let at = other.index_of(entry);
        lemma_sum_remove(other, at, weight);
        assert(one.drop_last() =~= one.remove(one.len() - 1));
        lemma_sum_permutation(one.drop_last(), other.remove(at), weight);
    }
}

/// A thread pair and a time window.
pub type Key = ((usize, usize), u64);

/// Weighs an update for `key` by its count.
pub open spec fn count_at(key: Key) -> spec_fn(PairUpdate) -> int {
    |update: PairUpdate|
        if (update.0, update.1) == key {
            update.2.0 as int
        } else {
            0
        }
}

/// Weighs an update for `key` by its size.
pub open spec fn size_at(key: Key) -> spec_fn(PairUpdate) -> int {
    |update: PairUpdate|
        if (update.0, update.1) == key {
            update.2.1 as int
        } else {
            0
        }
}

/// `totals` consolidates `updates`: the updates of each thread pair and window are added up into
/// at most one total, and there is none where the sums are zero.
pub open spec fn consolidates(updates: Seq<PairUpdate>, totals: Seq<PairUpdate>) -> bool {
    &&& forall|i: int, j: int|
        0 <= i < j < totals.len() ==> ((#[trigger] totals[i]).0, totals[i].1) != ((
        #[trigger] totals[j]).0, totals[j].1)
    &&& forall|i: int|
        0 <= i < totals.len() ==> {
            let key = ((#[trigger] totals[i]).0, totals[i].1);
            &&& totals[i].2.0 == sum_by(updates, count_at(key))
            &&& totals[i].2.1 == sum_by(updates, size_at(key))
            &&& totals[i].2 != (0isize, 0isize)
        }
    &&& forall|key: Key|
        #![trigger sum_by(updates, count_at(key))]
        sum_by(updates, count_at(key)) != 0 || sum_by(updates, size_at(key)) != 0 ==> exists|i: int|
            0 <= i < totals.len() && ((#[trigger] totals[i]).0, totals[i].1) == key
}

/// Picks the matches of a thread pair and window.
pub open spec fn matched_at(key: Key) -> spec_fn(Matched) -> bool {
    |matched: Matched| ((matched.info.1, matched.thread), matched.window) == key
}

/// The size that a match frees.
pub open spec fn freed_size() -> spec_fn(Matched) -> int {
    |matched: Matched| matched.freed.size as int
}

/// The weight of the update that an event yields.
pub open spec fn through_update(weight: spec_fn(PairUpdate) -> int) -> spec_fn(MatchEvent) -> int {
    |event: MatchEvent|
        match dataflow::update_of(event) {
            Some(update) => weight(update),
            None => 0,
        }
}

/// Adding up the updates is adding up over the events that yield them.
proof fn lemma_sum_updates(events: Seq<MatchEvent>, weight: spec_fn(PairUpdate) -> int)
    ensures
        sum_by(updates(events), weight) == sum_by(events, through_update(weight)),
    decreases events.len(),
{
    if events.len() > 0 {
        let shorter = updates(events.drop_last());
        lemma_sum_updates(events.drop_last(), weight);
        match dataflow::update_of(events.last()) {
            Some(update) => {
                assert(shorter.push(update).drop_last() =~= shorter);
            },
            None => {},
        }
    }
}

/// The updates of `matches` for one thread pair and window add up to the number of matches there
/// and to the sizes that they free.
proof fn lemma_sum_matches(matches: Seq<Matched>, key: Key)
    requires
        forall|i: int|
            0 <= i < matches.len() ==> (#[trigger] matches[i]).freed.size <= isize::MAX,
    ensures
        sum_by(updates_for(matches), count_at(key)) == matches.filter(matched_at(key)).len(),
        sum_by(updates_for(matches), size_at(key)) == sum_by(
            matches.filter(matched_at(key)),
            freed_size(),
        ),
    decreases matches.len(),
{
    reveal(Seq::filter);
    if matches.len() > 0 {
        let shorter = matches.drop_last();
        let last = matches.last();
        lemma_sum_matches(shorter, key);
        assert(updates_for(matches).drop_last() =~= updates_for(shorter));
        assert(updates_for(matches).last() == update_for(last));
        assert(last.freed.size <= isize::MAX);
        let before = shorter.filter(matched_at(key));
        assert(before.push(last).drop_last() =~= before);
    }
}

/// The totals of a run: where `events` are those of the run, in any order, and `totals`
/// consolidates their updates, there is exactly one total for a thread pair and window in which
/// there are matches, with the number of these matches and the sum of the sizes that they free,
/// and none where there are no matches.
pub proof fn law_totals(
    batches: Seq<(u64, Seq<Record>)>,
    events: Seq<MatchEvent>,
    totals: Seq<PairUpdate>,
    key: Key,
)
    requires
        events.to_multiset() == analysis_laws::run(batches).events.to_multiset(),
        consolidates(updates(events), totals),
        forall|i: int|
            0 <= i < matched_over(batches).len() ==> (
            #[trigger] matched_over(batches)[i]).freed.size <= isize::MAX,
    ensures
        ({
            let matches = matched_over(batches).filter(matched_at(key));
            if matches.len() == 0 {
                forall|i: int|
                    0 <= i < totals.len() ==> ((#[trigger] totals[i]).0, totals[i].1) != key
            } else {
                exists|i: int|
                    {
                        &&& 0 <= i < totals.len()
                        &&& ((#[trigger] totals[i]).0, totals[i].1) == key
                        &&& totals[i].2.0 == matches.len()
                        &&& totals[i].2.1 == sum_by(matches, freed_size())
                        &&& forall|j: int|
                            0 <= j < totals.len() && j != i ==> ((#[trigger] totals[j]).0, totals[j].1)
                                != key
                    }
            }
        }),
{
    let whole = analysis_laws::run(batches).events;
    let all = matched_over(batches);
    let matches = all.filter(matched_at(key));
    law_one_update_per_match(batches);
    lemma_sum_matches(all, key);
    lemma_sum_updates(events, count_at(key));
    lemma_sum_updates(whole, count_at(key));
    lemma_sum_permutation(events, whole, through_update(count_at(key)));
    lemma_sum_updates(events, size_at(key));
    lemma_sum_updates(whole, size_at(key));
    lemma_sum_permutation(events, whole, through_update(size_at(key)));
    assert(sum_by(updates(events), count_at(key)) == matches.len());
    assert(sum_by(updates(events), size_at(key)) == sum_by(matches, freed_size()));
    if matches.len() == 0 {
        assert forall|i: int| 0 <= i < totals.len() implies ((#[trigger] totals[i]).0, totals[i].1)
            != key by {
            if (totals[i].0, totals[i].1) == key {
                assert(sum_by(matches, freed_size()) == 0);
            }
        }
    } else {
        let i = choose|i: int|
            0 <= i < totals.len() && ((#[trigger] totals[i]).0, totals[i].1) == key;
        assert(totals[i].2.0 == matches.len());
        assert forall|j: int| 0 <= j < totals.len() && j != i implies ((
        #[trigger] totals[j]).0, totals[j].1) != key by {
            if i < j {
                assert((totals[i].0, totals[i].1) != (totals[j].0, totals[j].1));
            } else {
                assert((totals[j].0, totals[j].1) != (totals[i].0, totals[i].1));
            }
        }
    }
}

/// The timestamp that a message bears.
pub open spec fn stamp_of(message: TraceProtocol) -> Option<Timestamp> {
    match message {
        TraceProtocol::Instructions { timestamp, .. } => Some(timestamp),
        TraceProtocol::Timestamp(timestamp) => Some(timestamp),
        _ => None,
    }
}

/// The time of the output of a reader that starts at 0 and has received `messages`.
pub open spec fn time_after(messages: Seq<TraceProtocol>) -> Timestamp
    decreases messages.len(),
{
    if messages.len() == 0 {
        0
    } else {
        let before = time_after(messages.drop_last());
        match stamp_of(messages.last()) {
            Some(timestamp) => match dataflow::later_than(timestamp, before) {
                Some(time) => time,
                None => before,
            },
            None => before,
        }
    }
}

/// The time of the output is the largest timestamp received so far, or 0 where there was none.
pub proof fn law_time_is_largest_timestamp(messages: Seq<TraceProtocol>)
    ensures
        forall|i: int|
            0 <= i < messages.len() ==> (stamp_of(#[trigger] messages[i]) matches Some(timestamp)
                ==> timestamp <= time_after(messages)),
        time_after(messages) == 0 || exists|i: int|
            0 <= i < messages.len() && stamp_of(#[trigger] messages[i]) == Some(
                time_after(messages),
            ),
    decreases messages.len(),
{
    if messages.len() > 0 {
        let shorter = messages.drop_last();
        law_time_is_largest_timestamp(shorter);
        assert forall|i: int| 0 <= i < messages.len() implies (stamp_of(
            #[trigger] messages[i],
        ) matches Some(timestamp) ==> timestamp <= time_after(messages)) by {
            if i < shorter.len() {
                assert(messages[i] == shorter[i]);
            }
        }
        if time_after(messages) == time_after(shorter) {
            if time_after(shorter) != 0 {
                let i = choose|i: int|
                    0 <= i < shorter.len() && stamp_of(#[trigger] shorter[i]) == Some(
                        time_after(shorter),
                    );
                assert(messages[i] == shorter[i]);
            }
        } else {
            assert(stamp_of(messages[messages.len() - 1]) == Some(time_after(messages)));
        }
    }
}

/// The batches of records that a reader puts out for `messages`, each with the time window in
/// which it is counted.
pub open spec fn batches_of(messages: Seq<TraceProtocol>) -> Seq<(u64, Seq<Record>)>
    decreases messages.len(),
{
    if messages.len() == 0 {
        Seq::empty()
    } else {
        let before = batches_of(messages.drop_last());
        match messages.last() {
            TraceProtocol::Instructions { timestamp, thread_id, buffer } => before.push(
                (
                    dataflow::window_of(time_after(messages)),
                    dataflow::records_of(thread_id, buffer@),
                ),
            ),
            _ => before,
        }
    }
}

/// The instructions of a message are counted in the window of the largest timestamp up to and
/// including that message, after those of all earlier messages.
pub proof fn law_window_of_message(messages: Seq<TraceProtocol>, at: int)
    requires
        0 <= at < messages.len(),
        messages[at] is Instructions,
    ensures
        ({
            let place = batches_of(messages.take(at)).len() as int;
            &&& place < batches_of(messages).len()
            &&& messages[at] matches TraceProtocol::Instructions { thread_id, buffer, .. }
            &&& batches_of(messages)[place] == (
                dataflow::window_of(time_after(messages.take(at + 1))),
                dataflow::records_of(thread_id, buffer@),
            )
        }),
    decreases messages.len(),
{
    let shorter = messages.drop_last();
    if at == messages.len() - 1 {
        assert(messages.take(at) =~= shorter);
        assert(messages.take(at + 1) =~= messages);
    } else {
        law_window_of_message(shorter, at);
        assert(shorter.take(at) =~= messages.take(at));
        assert(shorter.take(at + 1) =~= messages.take(at + 1));
    }
}

/// Something that is done to a grouper.
pub enum GrouperStep {
    /// Totals arrive at a time.
    Add(u64, Seq<PairUpdate>),
    /// All totals of a time have arrived.
    Notify(u64),
}

/// What a new grouper has put out for `time` after `steps`, and what is pending for it.
pub open spec fn grouped(steps: Seq<GrouperStep>, time: u64) -> (
    Seq<AllocPerThreadPair>,
    Seq<AllocPerThreadPair>,
)
    decreases steps.len(),
{
    if steps.len() == 0 {
        (Seq::empty(), Seq::empty())
    } else {
        let (out, pending) = grouped(steps.drop_last(), time);
        match steps.last() {
            GrouperStep::Add(at, data) => if at == time {
                (out, pending + dataflow::reports(data))
            } else {
                (out, pending)
            },
            GrouperStep::Notify(at) => if at == time {
                (out + pending, Seq::empty())
            } else {
                (out, pending)
            },
        }
    }
}

/// The totals that arrive at `time` in `steps`, in order.
pub open spec fn arrived(steps: Seq<GrouperStep>, time: u64) -> Seq<PairUpdate>
    decreases steps.len(),
{
    if steps.len() == 0 {
        Seq::empty()
    } else {
        let before = arrived(steps.drop_last(), time);
        match steps.last() {
            GrouperStep::Add(at, data) => if at == time {
                before + data
            } else {
                before
            },
            GrouperStep::Notify(_) => before,
        }
    }
}

/// Every total is put out once, in order: what has been put out for a time and what is pending for
/// it are the reports of all totals that have arrived at it. Nothing is pending after a notice.
pub proof fn law_totals_come_out_once(steps: Seq<GrouperStep>, time: u64)
    ensures
        ({
            let (out, pending) = grouped(steps, time);
            &&& out + pending == dataflow::reports(arrived(steps, time))
            &&& steps.len() > 0 && steps.last() == GrouperStep::Notify(time) ==> out
                == dataflow::reports(arrived(steps, time))
        }),
    decreases steps.len(),
{
    let (out, pending) = grouped(steps, time);
    if steps.len() > 0 {
        let shorter = steps.drop_last();
        law_totals_come_out_once(shorter, time);
        let (out0, pending0) = grouped(shorter, time);
        let before = arrived(shorter, time);
        match steps.last() {
            GrouperStep::Add(at, data) => {
                assert(dataflow::reports(before + data) =~= dataflow::reports(before)
                    + dataflow::reports(data));
                assert(out0 + (pending0 + dataflow::reports(data)) =~= (out0 + pending0)
                    + dataflow::reports(data));
            },
            GrouperStep::Notify(_) => {},
        }
    }
    assert(out + pending =~= dataflow::reports(arrived(steps, time)));
    if steps.len() > 0 && steps.last() == GrouperStep::Notify(time) {
        assert(out + pending =~= out);
    }
}

} // verus!
