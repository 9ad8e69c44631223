//! What holds of timers as a whole.
use super::oneshot::{
    dequeued, enqueued, entry_before, entry_slot, inserted, lemma_queue_index, lemma_slot, queue_index, slot,
    without_handle, FireTimer, OneshotTimer, OneshotTimerCallback, OneshotTimerHandle,
    OrderingEntry, TimerCallback, TimersView,
};
use super::{TimerEventId, TimerSource};
use crate::clock::{DocumentTime, TimeSpan};
use vstd::prelude::*;

verus! {

/// The timer that fires is the one that comes first: no other has an earlier deadline, or the same
/// deadline and an earlier place in the order of creation.
pub proof fn law_earliest_timer_fires_first<C>(view: TimersView<C>, index: int)
    requires
        view.wf(),
        0 <= index < view.timers.len() - 1,
    ensures
        view.timers.last().is_before(&view.timers[index]),
{
}

/// Of two timers that are set at the same time with the same delay, the one that was set first
/// fires first.
pub proof fn law_equal_delays_fire_in_order_of_creation<C>(
    view: TimersView<C>,
    first: OneshotTimerCallback<C>,
    second: OneshotTimerCallback<C>,
    duration: TimeSpan,
    source: TimerSource,
    now: DocumentTime,
)
    requires
        view.wf(),
        view.next_timer_handle + 1 < i32::MAX,
        0 <= view.creation_sequence,
        view.creation_sequence + 1 < u64::MAX,
        i32::MIN <= view.next_timer_handle,
        now.0 + duration.0 <= u128::MAX,
    ensures
        ({
            let after = view.with_timer(first, duration, source, now).with_timer(
                second,
                duration,
                source,
                now,
            );
            exists|i: int, j: int|
                {
                    &&& 0 <= i < j < after.timers.len()
                    &&& (#[trigger] after.timers[j]).handle.0 == view.next_timer_handle
                    &&& (#[trigger] after.timers[i]).handle.0 == view.next_timer_handle + 1
                }
        }),
{
    let one = view.with_timer(first, duration, source, now);
    let first_timer = OneshotTimer {
        handle: OneshotTimerHandle(view.next_timer_handle as i32),
        source,
        callback: first,
        scheduled_for: DocumentTime((now.0 + duration.0) as u128),
        creation_sequence: view.creation_sequence as u64,
    };
    let second_timer = OneshotTimer {
        handle: OneshotTimerHandle((view.next_timer_handle + 1) as i32),
        source,
        callback: second,
        scheduled_for: DocumentTime((now.0 + duration.0) as u128),
        creation_sequence: (view.creation_sequence + 1) as u64,
    };
    lemma_slot(view.timers, first_timer, 0);
    let place = slot(view.timers, first_timer, 0);
    assert(one.timers == inserted(view.timers, first_timer));
    assert(one.timers[place] == first_timer);
    lemma_slot(one.timers, second_timer, 0);
    let other = slot(one.timers, second_timer, 0);
    let after = one.with_timer(second, duration, source, now);
    assert(after.timers == inserted(one.timers, second_timer));
    if place < other {
        assert(second_timer.is_before(&one.timers[place]));
    }
    assert(after.timers[other] == second_timer);
    assert(after.timers[place + 1] == first_timer);
    assert(after.timers[other].handle.0 == view.next_timer_handle + 1);
    assert(after.timers[place + 1].handle.0 == view.next_timer_handle);
}

/// Once a request has been invalidated, its event changes nothing.
pub proof fn law_invalidated_event_is_ignored<C>(
    view: TimersView<C>,
    id: TimerEventId,
    now: DocumentTime,
    can_continue_running: bool,
)
    requires
        view.expected_event_id == id.0,
    ensures
        view.invalidated().fired(id, now, can_continue_running) == (
            view.invalidated(),
            FireTimer::<C>::Ignored,
        ),
{
}

proof fn lemma_without_handle<C>(
    timers: Seq<OneshotTimer<C>>,
    count: int,
    handle: OneshotTimerHandle,
)
    requires
        0 <= count <= timers.len(),
    ensures
        forall|i: int|
            0 <= i < without_handle(timers, count, handle).len() ==> (#[trigger] without_handle(
                timers,
                count,
                handle,
            )[i]).handle != handle,
        forall|j: int|
            0 <= j < count && (#[trigger] timers[j]).handle != handle ==> without_handle(
                timers,
                count,
                handle,
            ).contains(timers[j]),
    decreases count,
{
    if count > 0 {
        lemma_without_handle(timers, count - 1, handle);
        let before = without_handle(timers, count - 1, handle);
        let after = without_handle(timers, count, handle);
        assert forall|j: int| 0 <= j < count && (#[trigger] timers[j]).handle
            != handle implies after.contains(timers[j]) by {
            if j < count - 1 {
                assert(before.contains(timers[j]));
                let k = choose|k: int| 0 <= k < before.len() && before[k] == timers[j];
                assert(after[k] == timers[j]);
            } else {
                assert(after[after.len() - 1] == timers[j]);
            }
        }
    }
}

/// A timer that has been taken out never fires, and no other timer is lost.
pub proof fn law_unscheduled_timer_is_gone<C>(
    view: TimersView<C>,
    handle: OneshotTimerHandle,
    now: DocumentTime,
)
    ensures
        ({
            let after = view.unscheduled(handle, now).0.timers;
            &&& forall|i: int|
                0 <= i < after.len() ==> (#[trigger] after[i]).handle != handle
            &&& forall|j: int|
                0 <= j < view.timers.len() && (#[trigger] view.timers[j]).handle != handle
                    ==> after.contains(view.timers[j])
        }),
{
    lemma_without_handle(view.timers, view.timers.len() as int, handle);
}

/// Entries that wait stand in the order in which they go.
pub open spec fn entries_ordered(entries: Seq<OrderingEntry>) -> bool {
    forall|i: int, j: int|
        0 <= i < j < entries.len() ==> entry_before(#[trigger] entries[i], #[trigger] entries[j])
}

proof fn lemma_entry_slot_order(entries: Seq<OrderingEntry>, entry: OrderingEntry, index: int)
    requires
        0 <= index <= entries.len(),
    ensures
        index <= entry_slot(entries, entry, index) <= entries.len(),
        forall|i: int|
            index <= i < entry_slot(entries, entry, index) ==> entry_before(
                #[trigger] entries[i],
                entry,
            ),
        entry_slot(entries, entry, index) < entries.len() ==> !entry_before(
            entries[entry_slot(entries, entry, index)],
            entry,
        ),
    decreases entries.len() - index,
{
    if index < entries.len() && entry_before(entries[index], entry) {
        lemma_entry_slot_order(entries, entry, index + 1);
    }
}

/// Steps of one ordering identifier wait by milliseconds and then by start: a new entry is put
/// behind every entry of the same or fewer milliseconds and before every entry of more.
pub proof fn law_steps_wait_in_order(
    queues: Seq<(Seq<char>, Seq<OrderingEntry>)>,
    ordering_id: Seq<char>,
    entry: OrderingEntry,
    index: int,
)
    requires
        forall|q: int| 0 <= q < queues.len() ==> entries_ordered((#[trigger] queues[q]).1),
        forall|q: int, i: int|
            0 <= q < queues.len() && 0 <= i < queues[q].1.len() ==> (
            #[trigger] queues[q].1[i]).start_seq < entry.start_seq,
        0 <= index < enqueued(queues, ordering_id, entry).len(),
    ensures
        entries_ordered(enqueued(queues, ordering_id, entry)[index].1),
{
    lemma_queue_index(queues, 0, ordering_id);
    match queue_index(queues, 0, ordering_id) {
        Some(found) => if index == found {
            let entries = queues[found].1;
            assert(entries_ordered(entries));
            lemma_entry_slot_order(entries, entry, 0);
            let place = entry_slot(entries, entry, 0);
            let after = entries.insert(place, entry);
            assert forall|i: int, j: int| 0 <= i < j < after.len() implies entry_before(
                #[trigger] after[i],
                #[trigger] after[j],
            ) by {
                let a = if i < place {
                    i
                } else {
                    i - 1
                };
                let b = if j < place {
                    j
                } else {
                    j - 1
                };
                if i != place {
                    assert(after[i] == entries[a]);
                }
                if j != place {
                    assert(after[j] == entries[b]);
                }
                if i == place {
                    assert(queues[found].1[place].start_seq < entry.start_seq);
                    assert(entry_before(entry, entries[place]));
                }
            }
        } else {
            assert(enqueued(queues, ordering_id, entry)[index] == queues[index]);
        },
        None => {
            if index < queues.len() {
                assert(enqueued(queues, ordering_id, entry)[index] == queues[index]);
            }
        },
    }
}

/// An event fires at most one timer: every other timer stays as it is, and what fires is gone,
/// unless it waits for steps that go before it.
pub proof fn law_event_fires_one_timer<C>(
    view: TimersView<C>,
    id: TimerEventId,
    now: DocumentTime,
    can_continue_running: bool,
)
    requires
        view.timers.len() > 0,
    ensures
        ({
            let (after, fired) = view.fired(id, now, can_continue_running);
            &&& fired is Ignored || fired is NotDue ==> after == view
            &&& fired is Interrupted || fired is RunSteps || fired is Invoke ==> after.timers
                == view.timers.drop_last()
            &&& fired is Requeued ==> after.timers == inserted(
                view.timers.drop_last(),
                OneshotTimer { scheduled_for: now, ..view.timers.last() },
            )
            &&& after.queues == view.queues
            &&& after.active == view.active
        }),
{
}

/// Once steps are done, exactly the first of those that wait under their ordering identifier is gone,
/// and with the last one the whole queue; what waits under other identifiers waits as before.
pub proof fn law_done_steps_let_the_next_go(
    queues: Seq<(Seq<char>, Seq<OrderingEntry>)>,
    ordering_id: Seq<char>,
    q: int,
)
    requires
        0 <= q < queues.len(),
        forall|k: int, l: int|
            0 <= k < l < queues.len() ==> (#[trigger] queues[k]).0 != (#[trigger] queues[l]).0,
    ensures
        ({
            let after = dequeued(queues, ordering_id);
            &&& queues[q].0 != ordering_id ==> after.contains(queues[q])
            &&& queues[q].0 == ordering_id && queues[q].1.len() > 1 ==> {
                &&& after.len() == queues.len()
                &&& after.contains((ordering_id, queues[q].1.drop_first()))
            }
            &&& queues[q].0 == ordering_id && queues[q].1.len() <= 1 ==> {
                &&& after.len() == queues.len() - 1
                &&& forall|p: int| 0 <= p < after.len() ==> (#[trigger] after[p]).0 != ordering_id
            }
            &&& (forall|k: int| 0 <= k < queues.len() ==> (#[trigger] queues[k]).0 != ordering_id)
                ==> after == queues
        }),
{
    lemma_queue_index(queues, 0, ordering_id);
    let after = dequeued(queues, ordering_id);
    match queue_index(queues, 0, ordering_id) {
        Some(found) => {
            if queues[q].0 == ordering_id {
                assert(q == found) by {
                    if q < found {
                        assert(queues[q].0 != queues[found].0);
                    } else if found < q {
                        assert(queues[found].0 != queues[q].0);
                    }
                }
                if queues[q].1.len() > 1 {
                    assert(after[q] == (ordering_id, queues[q].1.drop_first()));
                } else {
                    assert forall|p: int| 0 <= p < after.len() implies (#[trigger] after[p]).0
                        != ordering_id by {
                        if p < found {
                            assert(after[p] == queues[p]);
                            assert(queues[p].0 != queues[found].0);
                        } else {
                            assert(after[p] == queues[p + 1]);
                            assert(queues[found].0 != queues[p + 1].0);
                        }
                    }
                }
            } else if queues[found].1.len() > 1 || q < found {
                assert(after[q] == queues[q]);
            } else {
                assert(after[q - 1] == queues[q]);
            }
        },
        None => {
            assert(after[q] == queues[q]);
        },
    }
}

/// Steps that begin to wait add one entry to those of their ordering identifier, and nothing else
/// changes: what waits under other identifiers waits as before.
pub proof fn law_new_steps_wait_under_their_own_identifier(
    queues: Seq<(Seq<char>, Seq<OrderingEntry>)>,
    ordering_id: Seq<char>,
    entry: OrderingEntry,
    q: int,
)
    requires
        0 <= q < queues.len(),
        forall|k: int, l: int|
            0 <= k < l < queues.len() ==> (#[trigger] queues[k]).0 != (#[trigger] queues[l]).0,
    ensures
        ({
            let after = enqueued(queues, ordering_id, entry);
            &&& after[q].0 == queues[q].0
            &&& queues[q].0 != ordering_id ==> after[q].1 == queues[q].1
            &&& queues[q].0 == ordering_id ==> {
                &&& after.len() == queues.len()
                &&& after[q].1.len() == queues[q].1.len() + 1
                &&& after[q].1.contains(entry)
                &&& forall|i: int|
                    0 <= i < queues[q].1.len() ==> after[q].1.contains(#[trigger] queues[q].1[i])
            }
            &&& (forall|k: int| 0 <= k < queues.len() ==> (#[trigger] queues[k]).0 != ordering_id)
                ==> after == queues.push((ordering_id, seq![entry]))
        }),
{
    lemma_queue_index(queues, 0, ordering_id);
    let after = enqueued(queues, ordering_id, entry);
    if let Some(found) = queue_index(queues, 0, ordering_id) {
        if queues[q].0 == ordering_id {
            assert(q == found) by {
                if q < found {
                    assert(queues[q].0 != queues[found].0);
                } else if found < q {
                    assert(queues[found].0 != queues[q].0);
                }
            }
            let entries = queues[q].1;
            lemma_entry_slot_order(entries, entry, 0);
            let place = entry_slot(entries, entry, 0);
            assert(after[q].1[place] == entry);
            assert forall|i: int| 0 <= i < entries.len() implies after[q].1.contains(
                #[trigger] entries[i],
            ) by {
                if i < place {
                    assert(after[q].1[i] == entries[i]);
                } else {
                    assert(after[q].1[i + 1] == entries[i]);
                }
            }
        }
    }
}

/// Entries wait in order: fewer milliseconds first, and of the same the one that started first.
pub open spec fn wait_in_order(entries: Seq<OrderingEntry>) -> bool {
    forall|i: int, j: int|
        0 <= i < j < entries.len() ==> {
            let upper = #[trigger] entries[i];
            let lower = #[trigger] entries[j];
            upper.milliseconds <= lower.milliseconds && (upper.milliseconds == lower.milliseconds
                ==> upper.start_seq < lower.start_seq)
        }
}

/// Steps of one ordering identifier go by their milliseconds, and where these are the same by when
/// they started: entries that wait so still do when another begins to wait.
pub proof fn law_fewer_milliseconds_go_first(
    queues: Seq<(Seq<char>, Seq<OrderingEntry>)>,
    ordering_id: Seq<char>,
    entry: OrderingEntry,
    index: int,
)
    requires
        forall|q: int| 0 <= q < queues.len() ==> wait_in_order((#[trigger] queues[q]).1),
        forall|q: int, i: int|
            0 <= q < queues.len() && 0 <= i < queues[q].1.len() ==> (
            #[trigger] queues[q].1[i]).start_seq < entry.start_seq,
        0 <= index < enqueued(queues, ordering_id, entry).len(),
    ensures
        wait_in_order(enqueued(queues, ordering_id, entry)[index].1),
{
    assert forall|q: int| 0 <= q < queues.len() implies entries_ordered((#[trigger] queues[q]).1) by {
        assert(wait_in_order(queues[q].1));
    }
    law_steps_wait_in_order(queues, ordering_id, entry, index);
}

/// A timer that was given a function calls it. One that was given a string calls what the string was
/// made into, where evaluation is allowed, and a string that was refused gives its error and calls
/// nothing.
pub proof fn law_timer_calls_what_it_was_given<C, E>(callback: TimerCallback<C, E>)
    ensures
        match callback {
            TimerCallback::FunctionTimerCallback(function) => callback.refused() is None
                && callback.prepared() == Some(function),
            TimerCallback::StringTimerCallback { code, evaluation_allowed } => {
                &&& callback.refused() is Some <==> code is Err
                &&& code is Err ==> callback.refused() == Some(code->Err_0)
                &&& callback.prepared() is Some <==> code is Ok && evaluation_allowed
                &&& callback.prepared() is Some ==> callback.prepared() == Some(code->Ok_0)
            },
        },
{
}

} // verus!
