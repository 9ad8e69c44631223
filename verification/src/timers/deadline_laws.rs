//! When timers fire and what the scheduler is asked for, told by their deadlines.
use super::oneshot::{
    inserted, lemma_slot, slot, without_handle, FireTimer, JsTimersView, JsTimerTask,
    OneshotTimer, OneshotTimerCallback, OneshotTimerHandle, TimersView,
};
use super::{TimerEventId, TimerSource};
use crate::clock::{DocumentTime, TimeSpan, MAX_SPAN};
use vstd::prelude::*;

verus! {

/// One timer is due before another: at an earlier time, or at the same time and created before it.
pub open spec fn due_before<C>(left: OneshotTimer<C>, right: OneshotTimer<C>) -> bool {
    left.scheduled_for.0 < right.scheduled_for.0 || (left.scheduled_for.0
        == right.scheduled_for.0 && left.creation_sequence < right.creation_sequence)
}

/// An event that is expected fires the timer that is due before all others, where its time has come:
/// that timer, and no other, leaves the timers, and what it calls is handed out, unless script is
/// being shut down or steps of the same ordering identifier go before it. An event that is not
/// expected, or that comes early, changes nothing.
pub proof fn law_event_fires_the_timer_that_is_due<C>(
    view: TimersView<C>,
    id: TimerEventId,
    now: DocumentTime,
    can_continue_running: bool,
    index: int,
)
    requires
        view.wf(),
        view.timers.len() > 0,
        0 <= index < view.timers.len(),
        forall|i: int|
            0 <= i < view.timers.len() && i != index ==> due_before(
                view.timers[index],
                #[trigger] view.timers[i],
            ),
    ensures
        ({
            let (after, fired) = view.fired(id, now, can_continue_running);
            let timer = view.timers[index];
            let expected = view.expected_event_id == id.0;
            let due = timer.scheduled_for.0 <= now.0;
            &&& fired is Ignored <==> !expected
            &&& fired is NotDue <==> expected && !due
            &&& !(expected && due) ==> after == view
            &&& expected && due ==> {
                &&& fired is Interrupted <==> !can_continue_running
                &&& can_continue_running && !(timer.callback is RunStepsAfterTimeout) ==> fired
                    == FireTimer::Invoke(timer.callback)
                &&& can_continue_running && timer.callback is RunStepsAfterTimeout ==> fired
                    is RunSteps || fired is Requeued
                &&& !(fired is Requeued) ==> {
                    &&& after.timers.len() == view.timers.len() - 1
                    &&& forall|i: int|
                        0 <= i < after.timers.len() ==> (#[trigger] after.timers[i]).handle
                            != timer.handle
                    &&& forall|i: int|
                        0 <= i < view.timers.len() && i != index ==> after.timers.contains(
                            #[trigger] view.timers[i],
                        )
                }
            }
            &&& after.expected_event_id == view.expected_event_id
            &&& after.scheduled_timer_id == view.scheduled_timer_id
            &&& after.queues == view.queues
            &&& after.js == view.js
            &&& after.timebase == view.timebase
        }),
{
    let last = view.timers.len() - 1;
    if index != last {
        assert(view.timers[last].is_before(&view.timers[index]));
        assert(due_before(view.timers[index], view.timers[last]));
    }
    let rest = view.timers.drop_last();
    assert forall|i: int| 0 <= i < rest.len() implies (#[trigger] rest[i]).handle
        != view.timers[index].handle by {
        assert(rest[i] == view.timers[i]);
        assert(view.timers[i].handle != view.timers[last].handle);
    }
    assert forall|i: int| 0 <= i < view.timers.len() && i != index implies rest.contains(
        #[trigger] view.timers[i],
    ) by {
        assert(rest[i] == view.timers[i]);
    }
}

/// Steps that run after a timeout go where no steps of the same ordering identifier wait before them,
/// and wait again, due at once, where some do.
pub proof fn law_steps_wait_for_the_steps_before_them<C>(
    view: TimersView<C>,
    id: TimerEventId,
    now: DocumentTime,
    q: int,
)
    requires
        view.timers.len() > 0,
        view.expected_event_id == id.0,
        view.timers.last().scheduled_for.0 <= now.0,
        0 <= q < view.queues.len(),
        forall|k: int, l: int|
            0 <= k < l < view.queues.len() ==> (#[trigger] view.queues[k]).0 != (#[trigger]
            view.queues[l]).0,
    ensures
        view.timers.last().callback matches OneshotTimerCallback::RunStepsAfterTimeout {
            timer_key,
            ordering_id,
            milliseconds,
            completion,
        } ==> (view.queues[q].0 == ordering_id@ ==> {
            let (after, fired) = view.fired(id, now, true);
            let waiting = view.queues[q].1;
            if waiting.len() == 0 || waiting[0].handle == view.timers.last().handle {
                fired == (FireTimer::RunSteps { timer_key, ordering_id, completion })
            } else {
                &&& fired is Requeued
                &&& after.timers.len() == view.timers.len()
                &&& after.timers.contains(
                    OneshotTimer { scheduled_for: now, ..view.timers.last() },
                )
            }
        }),
{
    if let OneshotTimerCallback::RunStepsAfterTimeout {
        timer_key,
        ordering_id,
        milliseconds,
        completion,
    } = view.timers.last().callback {
        if view.queues[q].0 == ordering_id@ {
            super::oneshot::lemma_queue_index(view.queues, 0, ordering_id@);
            let rest = view.timers.drop_last();
            let again = OneshotTimer { scheduled_for: now, ..view.timers.last() };
            lemma_slot(rest, again, 0);
            assert(inserted(rest, again)[slot(rest, again, 0)] == again);
        }
    }
}

/// A new timer is due its delay from now on, and no other timer changes. The scheduler is asked for
/// an event after exactly that delay where the new timer is due before all others and timers are not
/// suspended, and the request before it is dropped; else it is asked for nothing.
pub proof fn law_new_timer_is_due_after_its_delay<C>(
    view: TimersView<C>,
    callback: OneshotTimerCallback<C>,
    duration: TimeSpan,
    source: TimerSource,
    now: DocumentTime,
)
    requires
        view.wf(),
        duration.0 <= MAX_SPAN,
        0 <= view.creation_sequence < u64::MAX,
        i32::MIN <= view.next_timer_handle < i32::MAX,
        0 <= view.expected_event_id < u32::MAX,
        now.0 + duration.0 <= u128::MAX,
    ensures
        ({
            let (after, call) = view.scheduled(callback, duration, source, now);
            let first = forall|i: int|
                0 <= i < view.timers.len() ==> now.0 + duration.0 < (#[trigger]
                view.timers[i]).scheduled_for.0;
            &&& after.timers.len() == view.timers.len() + 1
            &&& exists|k: int|
                0 <= k < after.timers.len() && {
                    let timer = #[trigger] after.timers[k];
                    &&& timer.scheduled_for.0 == now.0 + duration.0
                    &&& timer.callback == callback
                    &&& timer.source == source
                    &&& timer.handle.0 == view.next_timer_handle
                    &&& timer.creation_sequence == view.creation_sequence
                }
            &&& forall|i: int|
                0 <= i < view.timers.len() ==> after.timers.contains(#[trigger] view.timers[i])
            &&& after.next_timer_handle == view.next_timer_handle + 1
            &&& after.creation_sequence == view.creation_sequence + 1
            &&& after.js == view.js
            &&& after.timebase == view.timebase
            &&& if view.timebase.suspended_at is None && first {
                &&& call.cancel == view.scheduled_timer_id
                &&& call.request is Some
                &&& call.request->0.duration == duration
                &&& call.request->0.source == source
                &&& call.request->0.id.0 == view.expected_event_id + 1
                &&& after.expected_event_id == view.expected_event_id + 1
            } else {
                &&& call.cancel is None
                &&& call.request is None
                &&& after.expected_event_id == view.expected_event_id
                &&& after.scheduled_timer_id == view.scheduled_timer_id
            }
        }),
{
    let timer = OneshotTimer {
        handle: OneshotTimerHandle(view.next_timer_handle as i32),
        source,
        callback,
        scheduled_for: DocumentTime((now.0 + duration.0) as u128),
        creation_sequence: view.creation_sequence as u64,
    };
    lemma_slot(view.timers, timer, 0);
    let place = slot(view.timers, timer, 0);
    let (after, call) = view.scheduled(callback, duration, source, now);
    let timers = inserted(view.timers, timer);
    assert(after.timers == timers);
    assert(after.timers[place] == timer);
    assert forall|i: int| 0 <= i < view.timers.len() implies after.timers.contains(
        #[trigger] view.timers[i],
    ) by {
        if i < place {
            assert(timers[i] == view.timers[i]);
        } else {
            assert(timers[i + 1] == view.timers[i]);
        }
    }
    let count = view.timers.len() as int;
    if place == count {
        assert(timers.last() == timer);
        assert forall|i: int| 0 <= i < count implies now.0 + duration.0 < (#[trigger]
        view.timers[i]).scheduled_for.0 by {
            assert(timer.is_before(&view.timers[i]));
            assert(view.timers[i].creation_sequence < view.creation_sequence);
        }
    } else {
        assert(timers.last() == view.timers[count - 1]);
        assert(!timer.is_before(&view.timers[place]));
        assert(view.timers[place].creation_sequence < view.creation_sequence);
        assert(view.timers[count - 1].handle.0 < view.next_timer_handle);
    }
}

/// Where the next timer is taken out, the request for it is dropped, and the scheduler is asked for
/// the timer that is due next then, at its time, unless timers are suspended or none is left. Where
/// another timer is taken out, the scheduler is asked for nothing.
pub proof fn law_taking_out_the_next_timer_asks_for_the_one_behind_it<C>(
    view: TimersView<C>,
    handle: OneshotTimerHandle,
    now: DocumentTime,
    next: int,
)
    requires
        view.wf(),
        0 <= view.expected_event_id,
        view.expected_event_id + 2 < u32::MAX,
        view.timers.len() >= 2,
        0 <= next < view.timers.len(),
        view.timers[next].handle != handle,
        view.timers[next].scheduled_for.0 - now.0 <= MAX_SPAN,
        forall|i: int|
            0 <= i < view.timers.len() && i != next && (#[trigger] view.timers[i]).handle != handle
                ==> due_before(view.timers[next], view.timers[i]),
    ensures
        ({
            let (after, call) = view.unscheduled(handle, now);
            let was_next = exists|i: int|
                0 <= i < view.timers.len() && (#[trigger] view.timers[i]).handle == handle
                    && due_before(view.timers[i], view.timers[next]);
            &&& !was_next ==> call.cancel is None && call.request is None
                && after.expected_event_id == view.expected_event_id
            &&& was_next ==> call.cancel == view.scheduled_timer_id
            &&& was_next && view.timebase.suspended_at is Some ==> call.request is None
                && after.expected_event_id == view.expected_event_id + 1
            &&& was_next && view.timebase.suspended_at is None ==> {
                let timer = view.timers[next];
                &&& call.request is Some
                &&& call.request->0.source == timer.source
                &&& call.request->0.id.0 == view.expected_event_id + 2
                &&& call.request->0.duration.0 == if timer.scheduled_for.0 > now.0 {
                    timer.scheduled_for.0 - now.0
                } else {
                    0
                }
            }
        }),
{
    let count = view.timers.len() as int;
    let rest = without_handle(view.timers, count, handle);
    let last = count - 1;
    if view.timers[last].handle == handle {
        if next != last - 1 {
            assert(view.timers[last - 1].is_before(&view.timers[next]));
            assert(view.timers[last - 1].handle != view.timers[last].handle);
            assert(due_before(view.timers[next], view.timers[last - 1]));
        }
        assert(rest == without_handle(view.timers, last, handle));
        assert(view.timers[last - 1].handle != handle) by {
            assert(view.timers[last - 1].handle != view.timers[last].handle);
        }
        assert(rest.last() == view.timers[last - 1]);
        assert(view.timers[last].is_before(&view.timers[next]));
        assert(due_before(view.timers[last], view.timers[next]));
    } else {
        if next != last {
            assert(view.timers[last].is_before(&view.timers[next]));
            assert(due_before(view.timers[next], view.timers[last]));
        }
        assert forall|i: int| 0 <= i < count && (#[trigger] view.timers[i]).handle
            == handle implies !due_before(view.timers[i], view.timers[next]) by {
            assert(view.timers[last].is_before(&view.timers[i]));
        }
    }
}

/// The delay of a `setTimeout` or `setInterval` timer is the longest of what was asked for, what the
/// user agent asks for, and four milliseconds where timers are nested more than five deep.
pub proof fn law_delay_is_the_longest_that_is_asked_for(js: JsTimersView, duration: TimeSpan)
    ensures
        ({
            let delay = js.delay(duration).0;
            let floor: int = match js.min_duration {
                Some(min_duration) => min_duration.0 as int,
                None => 0,
            };
            &&& delay >= duration.0
            &&& delay >= floor
            &&& js.nesting_level > 5 ==> delay >= 4_000_000
            &&& delay == duration.0 || delay == floor || (js.nesting_level > 5 && delay
                == 4_000_000)
        }),
{
}

/// A timer that is set within a timer's call is nested one deeper, and its handle leads to it until
/// it is cleared.
pub proof fn law_set_timer_is_nested_and_known_by_its_handle<C>(
    view: TimersView<C>,
    task: JsTimerTask<C>,
    now: DocumentTime,
)
    requires
        view.js.nesting_level < u32::MAX,
        i32::MIN <= view.next_timer_handle < i32::MAX,
        now.0 + view.js.delay(task.duration).0 <= u128::MAX,
    ensures
        ({
            let (after, call) = view.initialized(task, now);
            let deadline = now.0 + view.js.delay(task.duration).0;
            &&& after.js.active.dom().contains(task.handle.0)
            &&& after.js.active[task.handle.0].0 == view.next_timer_handle
            &&& forall|other: i32|
                other != task.handle.0 ==> after.js.active.dom().contains(other)
                    == view.js.active.dom().contains(other)
            &&& after.js.nesting_level == view.js.nesting_level
            &&& exists|k: int|
                0 <= k < after.timers.len() && {
                    let timer = #[trigger] after.timers[k];
                    &&& timer.handle.0 == view.next_timer_handle
                    &&& timer.scheduled_for.0 == deadline
                    &&& timer.callback matches OneshotTimerCallback::JsTimer(waiting)
                        && waiting.nesting_level == view.js.nesting_level + 1
                        && waiting.callback == task.callback && waiting.handle == task.handle
                        && waiting.duration == task.duration && waiting.is_interval
                        == task.is_interval
                }
        }),
{
    let nested = JsTimerTask { nesting_level: (view.js.nesting_level + 1) as u32, ..task };
    let timer = OneshotTimer {
        handle: OneshotTimerHandle(view.next_timer_handle as i32),
        source: task.source,
        callback: OneshotTimerCallback::JsTimer(nested),
        scheduled_for: DocumentTime((now.0 + view.js.delay(task.duration).0) as u128),
        creation_sequence: view.creation_sequence as u64,
    };
    lemma_slot(view.timers, timer, 0);
    let after = view.initialized(task, now).0;
    assert(after.timers[slot(view.timers, timer, 0)] == timer);
}

/// A timer that repeats starts anew behind its call, unless it has been cleared meanwhile, at no
/// nesting; one that does not repeat does not. A timer that is cleared is known by its handle no
/// more, and never fires.
pub proof fn law_cleared_timer_does_not_repeat<C>(
    view: TimersView<C>,
    task: JsTimerTask<C>,
    now: DocumentTime,
)
    requires
        0 <= view.next_timer_handle < i32::MAX,
        0 <= view.expected_event_id,
    ensures
        ({
            let (cleared, _) = view.cleared_js(task.handle.0, now);
            let (after, call) = cleared.finished_js(task, now);
            let (running, asked) = view.finished_js(task, now);
            let repeats = task.is_interval is Interval && view.js.active.dom().contains(
                task.handle.0,
            );
            &&& !cleared.js.active.dom().contains(task.handle.0)
            &&& after.timers == cleared.timers
            &&& call.request is None && call.cancel is None
            &&& after.js.nesting_level == 0 && running.js.nesting_level == 0
            &&& view.js.active.dom().contains(task.handle.0) ==> forall|i: int|
                0 <= i < cleared.timers.len() ==> (#[trigger] cleared.timers[i]).handle
                    != view.js.active[task.handle.0]
            &&& !view.js.active.dom().contains(task.handle.0) ==> cleared == view
            &&& running.timers.len() == view.timers.len() + if repeats {
                1int
            } else {
                0int
            }
            &&& repeats ==> running.js.active[task.handle.0].0 == view.next_timer_handle
            &&& !repeats ==> asked.request is None && asked.cancel is None && running.timers
                == view.timers
        }),
{
    if view.js.active.dom().contains(task.handle.0) {
        super::laws::law_unscheduled_timer_is_gone(
            TimersView {
                js: JsTimersView { active: view.js.active.remove(task.handle.0), ..view.js },
                ..view
            },
            view.js.active[task.handle.0],
            now,
        );
    }
    let outside = TimersView { js: JsTimersView { nesting_level: 0, ..view.js }, ..view };
    let nested = JsTimerTask { nesting_level: 1u32, ..task };
    let timer = OneshotTimer {
        handle: OneshotTimerHandle(view.next_timer_handle as i32),
        source: task.source,
        callback: OneshotTimerCallback::JsTimer(nested),
        scheduled_for: DocumentTime((now.0 + outside.js.delay(task.duration).0) as u128),
        creation_sequence: view.creation_sequence as u64,
    };
    lemma_slot(view.timers, timer, 0);
}

} // verus!
