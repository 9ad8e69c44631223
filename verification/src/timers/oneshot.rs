//! The one-shot timers of a global: when each fires, in which order, and what the scheduler is
//! asked for.
use super::{clamp_duration, fires_before, nesting_floor, TimerEventId, TimerSource, TimerTimebase};
use crate::clock::{DocumentClock, DocumentTime, TimeSpan, MAX_SPAN};
use crate::fx::{empty_map, has_entry, insert_entry, remove_entry};
use rustc_hash::FxHashMap;
use std::collections::VecDeque;
use vstd::prelude::*;

verus! {

/// Names a one-shot timer.
#[derive(Clone, Copy, Debug, PartialEq, Eq, PartialOrd, Ord, Hash, Structural)]
pub struct OneshotTimerHandle(pub i32);

/// Names a timer of `setTimeout` or `setInterval`.
#[derive(Clone, Copy, Debug, PartialEq, Eq, PartialOrd, Ord, Hash, Structural)]
pub struct JsTimerHandle(pub i32);

/// Names a request to the scheduler.
#[derive(Clone, Copy, Debug, PartialEq, Eq, Hash, Structural)]
pub struct TimerId(pub u64);

/// Whether a timer repeats.
#[derive(Clone, Copy, Debug, PartialEq, Eq, Structural)]
pub enum IsInterval {
    Interval,
    NonInterval,
}

/// A timer of `setTimeout` or `setInterval`. `C` stands for what it calls.
#[derive(Debug)]
pub struct JsTimerTask<C> {
    pub handle: JsTimerHandle,
    pub source: TimerSource,
    pub callback: C,
    pub is_interval: IsInterval,
    pub nesting_level: u32,
    pub duration: TimeSpan,
    pub is_user_interacting: bool,
}

/// What happens when a timer fires. `C` stands for what is called.
#[derive(Debug)]
pub enum OneshotTimerCallback<C> {
    XhrTimeout(C),
    EventSourceTimeout(C),
    JsTimer(JsTimerTask<C>),
    TestBindingCallback(C),
    RefreshRedirectDue(C),
    /// Steps that run after a timeout, in order with those of the same ordering identifier.
    RunStepsAfterTimeout { timer_key: i32, ordering_id: String, milliseconds: u64, completion: C },
}

/// A timer that has not fired.
#[derive(Debug)]
pub struct OneshotTimer<C> {
    pub handle: OneshotTimerHandle,
    pub source: TimerSource,
    pub callback: OneshotTimerCallback<C>,
    pub scheduled_for: DocumentTime,
    pub creation_sequence: u64,
}

impl<C> OneshotTimer<C> {
    /// This timer fires before another.
    pub open spec fn spec_is_before(&self, other: &OneshotTimer<C>) -> bool {
        fires_before(
            self.scheduled_for,
            self.creation_sequence,
            other.scheduled_for,
            other.creation_sequence,
        )
    }

    /// This timer fires before another.
    #[verifier::when_used_as_spec(spec_is_before)]
    pub fn is_before(&self, other: &OneshotTimer<C>) -> (before: bool)
        ensures
            before == self.spec_is_before(other),
    {
        self.scheduled_for.0 < other.scheduled_for.0 || (self.scheduled_for.0
            == other.scheduled_for.0 && self.creation_sequence < other.creation_sequence)
    }
}

/// Steps that wait for their turn among those of one ordering identifier.
#[derive(Clone, Copy, Debug, PartialEq, Eq, Structural)]
pub struct OrderingEntry {
    pub milliseconds: u64,
    pub start_seq: u64,
    pub handle: OneshotTimerHandle,
}

/// The waiting steps of one ordering identifier.
#[derive(Debug)]
pub struct OrderingQueue {
    pub ordering_id: String,
    pub entries: Vec<OrderingEntry>,
}

/// A request to the scheduler: an event for a source, under an id, after a span of time.
#[derive(Clone, Copy, Debug, PartialEq, Eq, Structural)]
pub struct TimerRequest {
    pub source: TimerSource,
    pub id: TimerEventId,
    pub duration: TimeSpan,
}

/// What the scheduler is asked for: first to drop a request, then to take one.
#[derive(Clone, Copy, Debug, PartialEq, Eq)]
pub struct TimerCall {
    pub cancel: Option<TimerId>,
    pub request: Option<TimerRequest>,
}

/// What a timer event leads to. After the last three the next timer call is due, once what they ask
/// for has been done.
#[derive(Debug)]
pub enum FireTimer<C> {
    /// The event had been invalidated.
    Ignored,
    /// The earliest timer is not due.
    NotDue,
    /// The timer is dropped, since script is being shut down.
    Interrupted,
    /// The timer waits for steps of the same ordering identifier that go before it.
    Requeued,
    /// The steps are performed; [`OneshotTimers::finish_run_steps`] then lets the next ones go.
    RunSteps { timer_key: i32, ordering_id: String, completion: C },
    /// The callback is invoked.
    Invoke(OneshotTimerCallback<C>),
}

/// The `setTimeout` and `setInterval` timers of a global.
#[derive(Debug)]
pub struct JsTimers {
    pub next_timer_handle: JsTimerHandle,
    pub active_timers: FxHashMap<i32, OneshotTimerHandle>,
    pub nesting_level: u32,
    pub min_duration: Option<TimeSpan>,
}

/// The timers of a global. Those that have not fired are kept in order, the earliest at the back.
#[derive(Debug)]
pub struct OneshotTimers<C> {
    pub js_timers: JsTimers,
    pub next_timer_handle: OneshotTimerHandle,
    pub timers: VecDeque<OneshotTimer<C>>,
    pub timebase: TimerTimebase,
    /// Events with another id are ignored.
    pub expected_event_id: TimerEventId,
    /// The request for the current earliest timer.
    pub scheduled_timer_id: Option<TimerId>,
    pub map_of_active_timers: FxHashMap<i32, DocumentTime>,
    pub runsteps_queues: Vec<OrderingQueue>,
    pub next_runsteps_key: i32,
    pub runsteps_start_seq: u64,
    pub creation_sequence: u64,
}

/// `setTimeout` and `setInterval` timers as mathematical values.
pub struct JsTimersView {
    pub next_timer_handle: int,
    pub active: Map<i32, OneshotTimerHandle>,
    pub nesting_level: u32,
    pub min_duration: Option<TimeSpan>,
}

/// Timers as mathematical values.
pub struct TimersView<C> {
    pub js: JsTimersView,
    pub next_timer_handle: int,
    pub timers: Seq<OneshotTimer<C>>,
    pub timebase: TimerTimebase,
    pub expected_event_id: int,
    pub scheduled_timer_id: Option<TimerId>,
    pub active: Map<i32, DocumentTime>,
    pub queues: Seq<(Seq<char>, Seq<OrderingEntry>)>,
    pub next_runsteps_key: int,
    pub runsteps_start_seq: int,
    pub creation_sequence: int,
}

impl View for JsTimers {
    type V = JsTimersView;

    open spec fn view(&self) -> JsTimersView {
        JsTimersView {
            next_timer_handle: self.next_timer_handle.0 as int,
            active: self.active_timers@,
            nesting_level: self.nesting_level,
            min_duration: self.min_duration,
        }
    }
}

pub open spec fn queues_view(queues: Seq<OrderingQueue>) -> Seq<(Seq<char>, Seq<OrderingEntry>)> {
    queues.map_values(|queue: OrderingQueue| (queue.ordering_id@, queue.entries@))
}

impl<C> View for OneshotTimers<C> {
    type V = TimersView<C>;

    open spec fn view(&self) -> TimersView<C> {
        TimersView {
            js: self.js_timers@,
            next_timer_handle: self.next_timer_handle.0 as int,
            timers: self.timers@,
            timebase: self.timebase,
            expected_event_id: self.expected_event_id.0 as int,
            scheduled_timer_id: self.scheduled_timer_id,
            active: self.map_of_active_timers@,
            queues: queues_view(self.runsteps_queues@),
            next_runsteps_key: self.next_runsteps_key as int,
            runsteps_start_seq: self.runsteps_start_seq as int,
            creation_sequence: self.creation_sequence as int,
        }
    }
}

/// Where a timer belongs, from `index` on: behind all that fire after it.
pub open spec fn slot<C>(
    timers: Seq<OneshotTimer<C>>,
    timer: OneshotTimer<C>,
    index: int,
) -> int
    decreases timers.len() - index,
{
    if index < 0 || index >= timers.len() {
        timers.len() as int
    } else if timer.is_before(&timers[index]) {
        slot(timers, timer, index + 1)
    } else {
        index
    }
}

/// The timers with one more in its place.
pub open spec fn inserted<C>(
    timers: Seq<OneshotTimer<C>>,
    timer: OneshotTimer<C>,
) -> Seq<OneshotTimer<C>> {
    timers.insert(slot(timers, timer, 0), timer)
}

/// The first `count` timers without those of a handle.
pub open spec fn without_handle<C>(
    timers: Seq<OneshotTimer<C>>,
    count: int,
    handle: OneshotTimerHandle,
) -> Seq<OneshotTimer<C>>
    decreases count,
{
    if count <= 0 || count > timers.len() {
        Seq::empty()
    } else {
        let before = without_handle(timers, count - 1, handle);
        if timers[count - 1].handle == handle {
            before
        } else {
            before.push(timers[count - 1])
        }
    }
}

/// The first queue, from `index` on, of an ordering identifier.
pub open spec fn queue_index(
    queues: Seq<(Seq<char>, Seq<OrderingEntry>)>,
    index: int,
    ordering_id: Seq<char>,
) -> Option<int>
    decreases queues.len() - index,
{
    if index < 0 || index >= queues.len() {
        None
    } else if queues[index].0 == ordering_id {
        Some(index)
    } else {
        queue_index(queues, index + 1, ordering_id)
    }
}

/// One waiting entry goes before another: by milliseconds, then by start.
pub open spec fn entry_before(left: OrderingEntry, right: OrderingEntry) -> bool {
    left.milliseconds < right.milliseconds || (left.milliseconds == right.milliseconds
        && left.start_seq < right.start_seq)
}

/// Where an entry belongs, from `index` on: behind all that go before it.
pub open spec fn entry_slot(
    entries: Seq<OrderingEntry>,
    entry: OrderingEntry,
    index: int,
) -> int
    decreases entries.len() - index,
{
    if index < 0 || index >= entries.len() {
        entries.len() as int
    } else if entry_before(entries[index], entry) {
        entry_slot(entries, entry, index + 1)
    } else {
        index
    }
}

/// The queues with one more entry in its place.
pub open spec fn enqueued(
    queues: Seq<(Seq<char>, Seq<OrderingEntry>)>,
    ordering_id: Seq<char>,
    entry: OrderingEntry,
) -> Seq<(Seq<char>, Seq<OrderingEntry>)> {
    match queue_index(queues, 0, ordering_id) {
        Some(index) => queues.update(
            index,
            (
                ordering_id,
                queues[index].1.insert(entry_slot(queues[index].1, entry, 0), entry),
            ),
        ),
        None => queues.push((ordering_id, seq![entry])),
    }
}

/// The queues once the first entry of an ordering identifier is done.
pub open spec fn dequeued(
    queues: Seq<(Seq<char>, Seq<OrderingEntry>)>,
    ordering_id: Seq<char>,
) -> Seq<(Seq<char>, Seq<OrderingEntry>)> {
    match queue_index(queues, 0, ordering_id) {
        Some(index) => if queues[index].1.len() <= 1 {
            queues.remove(index)
        } else {
            queues.update(index, (ordering_id, queues[index].1.drop_first()))
        },
        None => queues,
    }
}

pub proof fn lemma_queue_index(
    queues: Seq<(Seq<char>, Seq<OrderingEntry>)>,
    from: int,
    ordering_id: Seq<char>,
)
    requires
        0 <= from <= queues.len(),
    ensures
        queue_index(queues, from, ordering_id) matches Some(index) ==> from <= index < queues.len()
            && queues[index].0 == ordering_id && forall|i: int|
            from <= i < index ==> (#[trigger] queues[i]).0 != ordering_id,
        queue_index(queues, from, ordering_id) is None ==> forall|i: int|
            from <= i < queues.len() ==> (#[trigger] queues[i]).0 != ordering_id,
    decreases queues.len() - from,
{
    if from < queues.len() && queues[from].0 != ordering_id {
        lemma_queue_index(queues, from + 1, ordering_id);
    }
}

pub proof fn lemma_slot<C>(timers: Seq<OneshotTimer<C>>, timer: OneshotTimer<C>, index: int)
    requires
        0 <= index <= timers.len(),
    ensures
        index <= slot(timers, timer, index) <= timers.len(),
        forall|i: int|
            index <= i < slot(timers, timer, index) ==> timer.is_before(&(#[trigger] timers[i])),
        slot(timers, timer, index) < timers.len() ==> !timer.is_before(
            &timers[slot(timers, timer, index)],
        ),
    decreases timers.len() - index,
{
    if index < timers.len() && timer.is_before(&timers[index]) {
        lemma_slot(timers, timer, index + 1);
    }
}

pub proof fn lemma_entry_slot(entries: Seq<OrderingEntry>, entry: OrderingEntry, index: int)
    requires
        0 <= index <= entries.len(),
    ensures
        index <= entry_slot(entries, entry, index) <= entries.len(),
    decreases entries.len() - index,
{
    if index < entries.len() && entry_before(entries[index], entry) {
        lemma_entry_slot(entries, entry, index + 1);
    }
}

impl JsTimersView {
    /// The delay that a timer gets: no shorter than the nesting level and the user agent ask for.
    pub open spec fn delay(self, duration: TimeSpan) -> TimeSpan {
        let clamped = duration.at_least(nesting_floor(self.nesting_level));
        match self.min_duration {
            Some(min_duration) => clamped.at_least(min_duration),
            None => clamped,
        }
    }
}

impl<C> TimersView<C> {
    /// Timers are in order, with the earliest at the back; no two share a handle or a place in the
    /// order of creation; the suspensions add up to a span.
    pub open spec fn wf(self) -> bool {
        &&& forall|i: int, j: int|
            0 <= i < j < self.timers.len() ==> (#[trigger] self.timers[i]).creation_sequence != (
            #[trigger] self.timers[j]).creation_sequence && self.timers[i].handle
                != self.timers[j].handle && self.timers[j].is_before(&self.timers[i])
        &&& forall|i: int|
            0 <= i < self.timers.len() ==> (#[trigger] self.timers[i]).creation_sequence
                < self.creation_sequence && self.timers[i].handle.0 < self.next_timer_handle
        &&& self.timebase.wf()
    }

    /// The last request, if any, no longer counts.
    pub open spec fn invalidated(self) -> TimersView<C> {
        TimersView {
            expected_event_id: self.expected_event_id + 1,
            scheduled_timer_id: None,
            ..self
        }
    }

    /// The earliest timer is requested of the scheduler, unless timers are suspended.
    pub open spec fn with_timer_call(self, now: DocumentTime) -> (TimersView<C>, TimerCall) {
        if self.timebase.suspended_at is Some || self.timers.len() == 0 {
            (self, TimerCall { cancel: None, request: None })
        } else {
            (
                self.invalidated(),
                TimerCall {
                    cancel: self.scheduled_timer_id,
                    request: Some(
                        TimerRequest {
                            source: self.timers.last().source,
                            id: TimerEventId((self.expected_event_id + 1) as u32),
                            duration: self.timers.last().scheduled_for.saturating_duration_since(
                                now,
                            ),
                        },
                    ),
                },
            )
        }
    }

    /// A new timer is in its place.
    pub open spec fn with_timer(
        self,
        callback: OneshotTimerCallback<C>,
        duration: TimeSpan,
        source: TimerSource,
        now: DocumentTime,
    ) -> TimersView<C> {
        let timer = OneshotTimer {
            handle: OneshotTimerHandle(self.next_timer_handle as i32),
            source,
            callback,
            scheduled_for: DocumentTime((now.0 + duration.0) as u128),
            creation_sequence: self.creation_sequence as u64,
        };
        let queued = match callback {
            OneshotTimerCallback::RunStepsAfterTimeout {
                timer_key,
                ordering_id,
                milliseconds,
                completion,
            } => self.with_run_steps(ordering_id@, timer.handle, milliseconds),
            _ => self,
        };
        TimersView {
            timers: inserted(self.timers, timer),
            next_timer_handle: self.next_timer_handle + 1,
            creation_sequence: self.creation_sequence + 1,
            ..queued
        }
    }

    /// Steps wait for their turn.
    pub open spec fn with_run_steps(
        self,
        ordering_id: Seq<char>,
        handle: OneshotTimerHandle,
        milliseconds: u64,
    ) -> TimersView<C> {
        TimersView {
            queues: enqueued(
                self.queues,
                ordering_id,
                OrderingEntry {
                    milliseconds,
                    start_seq: self.runsteps_start_seq as u64,
                    handle,
                },
            ),
            runsteps_start_seq: self.runsteps_start_seq + 1,
            ..self
        }
    }

    /// A timer is the next to fire.
    pub open spec fn is_next(self, handle: OneshotTimerHandle) -> bool {
        self.timers.len() > 0 && self.timers.last().handle == handle
    }

    /// A new timer is scheduled; where it is the next to fire, the scheduler is asked for it.
    pub open spec fn scheduled(
        self,
        callback: OneshotTimerCallback<C>,
        duration: TimeSpan,
        source: TimerSource,
        now: DocumentTime,
    ) -> (TimersView<C>, TimerCall) {
        let with_timer = self.with_timer(callback, duration, source, now);
        if with_timer.is_next(OneshotTimerHandle(self.next_timer_handle as i32)) {
            with_timer.with_timer_call(now)
        } else {
            (with_timer, TimerCall { cancel: None, request: None })
        }
    }

    /// A new timer would be the next to fire, so that the scheduler is asked for it.
    pub open spec fn asks_for(self, duration: TimeSpan, now: DocumentTime) -> bool {
        &&& self.timebase.suspended_at is None
        &&& self.timers.len() == 0 || now.0 + duration.0 < self.timers.last().scheduled_for.0
    }

    /// No sequence is exhausted by scheduling a timer, and its deadline is a document time.
    pub open spec fn can_schedule(
        self,
        callback: OneshotTimerCallback<C>,
        duration: TimeSpan,
        now: DocumentTime,
    ) -> bool {
        &&& self.next_timer_handle < i32::MAX
        &&& self.creation_sequence < u64::MAX
        &&& self.asks_for(duration, now) ==> self.expected_event_id < u32::MAX
        &&& now.0 + duration.0 <= u128::MAX
        &&& callback is RunStepsAfterTimeout ==> self.runsteps_start_seq < u64::MAX
    }

    /// A timer is taken out; where it was the next to fire, the request for it no longer counts.
    pub open spec fn unscheduled(
        self,
        handle: OneshotTimerHandle,
        now: DocumentTime,
    ) -> (TimersView<C>, TimerCall) {
        let rest = TimersView {
            timers: without_handle(self.timers, self.timers.len() as int, handle),
            ..self
        };
        if self.is_next(handle) {
            let (after, call) = rest.invalidated().with_timer_call(now);
            (after, TimerCall { cancel: self.scheduled_timer_id, request: call.request })
        } else {
            (rest, TimerCall { cancel: None, request: None })
        }
    }

    /// Taking a timer out does not exhaust the events: it uses one where the timer was the next to
    /// fire, and another one, at a timer time, where the scheduler is then asked for the timer after
    /// it.
    pub open spec fn can_unschedule(
        self,
        handle: OneshotTimerHandle,
        clock: DocumentClock,
    ) -> bool {
        self.is_next(handle) ==> {
            &&& self.expected_event_id < u32::MAX
            &&& self.timebase.suspended_at is None && without_handle(
                self.timers,
                self.timers.len() as int,
                handle,
            ).len() > 0 ==> self.timebase.has_time_on(clock) && self.expected_event_id + 1 < u32::MAX
        }
    }

    /// Steps of an ordering identifier may go: they are the first, or nothing waits.
    pub open spec fn is_head(self, ordering_id: Seq<char>, handle: OneshotTimerHandle) -> bool {
        match queue_index(self.queues, 0, ordering_id) {
            Some(index) => self.queues[index].1.len() == 0 || self.queues[index].1[0].handle
                == handle,
            None => true,
        }
    }

    /// A timer event arrives.
    pub open spec fn fired(
        self,
        id: TimerEventId,
        now: DocumentTime,
        can_continue_running: bool,
    ) -> (TimersView<C>, FireTimer<C>) {
        let rest = TimersView { timers: self.timers.drop_last(), ..self };
        let timer = self.timers.last();
        if self.expected_event_id != id.0 {
            (self, FireTimer::Ignored)
        } else if now.0 < timer.scheduled_for.0 {
            (self, FireTimer::NotDue)
        } else if !can_continue_running {
            (rest, FireTimer::Interrupted)
        } else {
            match timer.callback {
                OneshotTimerCallback::RunStepsAfterTimeout {
                    timer_key,
                    ordering_id,
                    milliseconds,
                    completion,
                } => if self.is_head(ordering_id@, timer.handle) {
                    (rest, FireTimer::RunSteps { timer_key, ordering_id, completion })
                } else {
                    (
                        TimersView {
                            timers: inserted(
                                rest.timers,
                                OneshotTimer { scheduled_for: now, ..timer },
                            ),
                            ..rest
                        },
                        FireTimer::Requeued,
                    )
                },
                callback => (rest, FireTimer::Invoke(callback)),
            }
        }
    }

    /// A `setTimeout` or `setInterval` timer starts to wait.
    pub open spec fn initialized(self, task: JsTimerTask<C>, now: DocumentTime) -> (
        TimersView<C>,
        TimerCall,
    ) {
        let nested = JsTimerTask { nesting_level: (self.js.nesting_level + 1) as u32, ..task };
        let (after, call) = self.scheduled(
            OneshotTimerCallback::JsTimer(nested),
            self.js.delay(task.duration),
            task.source,
            now,
        );
        (
            TimersView {
                js: JsTimersView {
                    active: self.js.active.insert(
                        task.handle.0,
                        OneshotTimerHandle(self.next_timer_handle as i32),
                    ),
                    ..self.js
                },
                ..after
            },
            call,
        )
    }

    /// A `setTimeout` or `setInterval` timer has called its function.
    pub open spec fn finished_js(self, task: JsTimerTask<C>, now: DocumentTime) -> (
        TimersView<C>,
        TimerCall,
    ) {
        let outside = TimersView { js: JsTimersView { nesting_level: 0, ..self.js }, ..self };
        if task.is_interval is Interval && self.js.active.dom().contains(task.handle.0) {
            outside.initialized(task, now)
        } else {
            (outside, TimerCall { cancel: None, request: None })
        }
    }

    /// A `setTimeout` or `setInterval` timer is cleared.
    pub open spec fn cleared_js(self, handle: i32, now: DocumentTime) -> (
        TimersView<C>,
        TimerCall,
    ) {
        if self.js.active.dom().contains(handle) {
            TimersView {
                js: JsTimersView { active: self.js.active.remove(handle), ..self.js },
                ..self
            }.unscheduled(self.js.active[handle], now)
        } else {
            (self, TimerCall { cancel: None, request: None })
        }
    }

    /// No sequence is exhausted by starting a `setTimeout` or `setInterval` timer.
    pub open spec fn can_initialize(self, duration: TimeSpan, now: DocumentTime) -> bool {
        &&& self.next_timer_handle < i32::MAX
        &&& self.creation_sequence < u64::MAX
        &&& self.asks_for(self.js.delay(duration), now) ==> self.expected_event_id < u32::MAX
        &&& self.js.nesting_level < u32::MAX
        &&& now.0 + self.js.delay(duration).0 <= u128::MAX
    }
}

impl JsTimers {
    /// No timers.
    pub fn new() -> (timers: Self)
        ensures
            timers@.next_timer_handle == 1,
            timers@.active =~= Map::empty(),
            timers@.nesting_level == 0,
            timers@.min_duration is None,
    {
        JsTimers {
            next_timer_handle: JsTimerHandle(1),
            active_timers: empty_map(),
            nesting_level: 0,
            min_duration: None,
        }
    }

    /// From now on no delay is shorter than this.
    pub fn set_min_duration(&mut self, duration: TimeSpan)
        ensures
            final(self)@ == (JsTimersView { min_duration: Some(duration), ..old(self)@ }),
    {
        self.min_duration = Some(duration);
    }

    /// The user agent asks for no shortest delay.
    pub fn remove_min_duration(&mut self)
        ensures
            final(self)@ == (JsTimersView { min_duration: None, ..old(self)@ }),
    {
        self.min_duration = None;
    }

    /// A delay that is no shorter than the user agent asks for.
    pub fn user_agent_pad(&self, current_duration: TimeSpan) -> (duration: TimeSpan)
        ensures
            duration == (match self.min_duration {
                Some(min_duration) => current_duration.at_least(min_duration),
                None => current_duration,
            }),
    {
        match self.min_duration {
            Some(min_duration) => current_duration.at_least(min_duration),
            None => current_duration,
        }
    }
}

impl<C> OneshotTimers<C> {
    /// No timers.
    pub fn new() -> (timers: Self)
        ensures
            timers@.timers.len() == 0,
            timers@.next_timer_handle == 1,
            timers@.timebase.suspended_at is None,
            timers@.timebase.suspension_offset == TimeSpan(0),
            timers@.expected_event_id == 0,
            timers@.scheduled_timer_id is None,
            timers@.active =~= Map::empty(),
            timers@.queues.len() == 0,
            timers@.next_runsteps_key == 1,
            timers@.runsteps_start_seq == 0,
            timers@.creation_sequence == 0,
            timers@.js.next_timer_handle == 1,
            timers@.js.active =~= Map::empty(),
            timers@.js.nesting_level == 0,
            timers@.js.min_duration is None,
            timers@.wf(),
    {
        OneshotTimers {
            js_timers: JsTimers::new(),
            next_timer_handle: OneshotTimerHandle(1),
            timers: VecDeque::new(),
            timebase: TimerTimebase::default(),
            expected_event_id: TimerEventId(0),
            scheduled_timer_id: None,
            map_of_active_timers: empty_map(),
            runsteps_queues: Vec::new(),
            next_runsteps_key: 1,
            runsteps_start_seq: 0,
            creation_sequence: 0,
        }
    }

    /// The current timer time.
    pub fn base_time(&self, clock: &DocumentClock) -> (time: DocumentTime)
        requires
            self.timebase.has_time_on(*clock),
        ensures
            time == self.timebase.time(clock.now()),
    {
        match self.timebase.now(clock) {
            Ok(time) => time,
            Err(_) => DocumentTime(0),
        }
    }

    /// The timer time from which steps count their timeout.
    pub fn now_for_runsteps(&self, clock: &DocumentClock) -> (time: DocumentTime)
        requires
            self.timebase.has_time_on(*clock),
        ensures
            time == self.timebase.time(clock.now()),
    {
        self.base_time(clock)
    }

    /// A key that no other steps have.
    pub fn fresh_runsteps_key(&mut self) -> (key: i32)
        requires
            old(self).next_runsteps_key < i32::MAX,
        ensures
            key == old(self)@.next_runsteps_key,
            final(self)@ == (TimersView {
                next_runsteps_key: old(self)@.next_runsteps_key + 1,
                ..old(self)@
            }),
    {
        let key: i32 = self.next_runsteps_key;
        self.next_runsteps_key = key + 1;
        key
    }

    /// Notes when steps are due.
    pub fn runsteps_set_active(&mut self, timer_key: i32, deadline: DocumentTime)
        ensures
            final(self)@ == (TimersView {
                active: old(self)@.active.insert(timer_key, deadline),
                ..old(self)@
            }),
    {
        insert_entry(&mut self.map_of_active_timers, timer_key, deadline);
    }

    /// The queue of an ordering identifier.
    fn find_queue(&self, ordering_id: &String) -> (found: Option<usize>)
        ensures
            match found {
                Some(index) => queue_index(self@.queues, 0, ordering_id@) == Some(index as int)
                    && index < self.runsteps_queues@.len(),
                None => queue_index(self@.queues, 0, ordering_id@) is None,
            },
    {
        let mut index: usize = 0;
        while index < self.runsteps_queues.len()
            invariant
                index <= self.runsteps_queues@.len(),
                queue_index(self@.queues, index as int, ordering_id@) == queue_index(
                    self@.queues,
                    0,
                    ordering_id@,
                ),
            decreases self.runsteps_queues.len() - index,
        {
            assert(self@.queues[index as int].0 == self.runsteps_queues@[index as int].ordering_id@);
            if self.runsteps_queues[index].ordering_id == *ordering_id {
                return Some(index);
            }
            index = index + 1;
        }
        None
    }

    /// Lets steps wait for their turn, by milliseconds and then by start.
    fn runsteps_enqueue_sorted(
        &mut self,
        ordering_id: String,
        handle: OneshotTimerHandle,
        milliseconds: u64,
    )
        requires
            old(self).runsteps_start_seq < u64::MAX,
        ensures
            final(self)@ == old(self)@.with_run_steps(ordering_id@, handle, milliseconds),
    {
        let ghost before = self@;
        let start_seq: u64 = self.runsteps_start_seq;
        self.runsteps_start_seq = start_seq + 1;
        let entry = OrderingEntry { milliseconds, start_seq, handle };
        let ghost after = before.with_run_steps(ordering_id@, handle, milliseconds);
        proof {
            lemma_queue_index(before.queues, 0, ordering_id@);
        }
        match self.find_queue(&ordering_id) {
            Some(found) => {
                let ghost entries = self.runsteps_queues@[found as int].entries@;
                assert(before.queues[found as int].1 == entries);
                let mut index: usize = 0;
                while index < self.runsteps_queues[found].entries.len() && (
                self.runsteps_queues[found].entries[index].milliseconds < milliseconds || (
                self.runsteps_queues[found].entries[index].milliseconds == milliseconds
                    && self.runsteps_queues[found].entries[index].start_seq < start_seq))
                    invariant
                        found < self.runsteps_queues@.len(),
                        entries == self.runsteps_queues@[found as int].entries@,
                        entry == (OrderingEntry { milliseconds, start_seq, handle }),
                        index <= entries.len(),
                        entry_slot(entries, entry, index as int) == entry_slot(entries, entry, 0),
                    decreases entries.len() - index,
                {
                    index = index + 1;
                }
                proof {
                    lemma_entry_slot(entries, entry, 0);
                }
                let ghost prior = self.runsteps_queues@;
                self.runsteps_queues[found].entries.insert(index, entry);
                assert(self.runsteps_queues@ =~= prior.update(
                    found as int,
                    self.runsteps_queues@[found as int],
                ));
            },
            None => {
                let mut entries: Vec<OrderingEntry> = Vec::new();
                entries.push(entry);
                assert(entries@ =~= seq![entry]);
                self.runsteps_queues.push(OrderingQueue { ordering_id, entries });
            },
        }
        assert(self@.queues =~= after.queues);
    }

    /// Puts a timer in its place.
    fn insert_timer(&mut self, timer: OneshotTimer<C>)
        ensures
            final(self)@ == (TimersView {
                timers: inserted(old(self)@.timers, timer),
                ..old(self)@
            }),
    {
        let ghost timers = self.timers@;
        let mut index: usize = 0;
        while index < self.timers.len() && timer.is_before(&self.timers[index])
            invariant
                self.timers@ == timers,
                index <= timers.len(),
                slot(timers, timer, index as int) == slot(timers, timer, 0),
            decreases timers.len() - index,
        {
            index = index + 1;
        }
        self.timers.insert(index, timer);
    }

    /// Schedules a callback and gives its handle, with what the scheduler is asked for.
    pub fn schedule_callback(
        &mut self,
        callback: OneshotTimerCallback<C>,
        duration: TimeSpan,
        source: TimerSource,
        clock: &DocumentClock,
    ) -> (result: (OneshotTimerHandle, TimerCall))
        requires
            old(self)@.wf(),
            old(self).timebase.has_time_on(*clock),
            old(self)@.can_schedule(callback, duration, old(self).timebase.time(clock.now())),
        ensures
            result.0.0 == old(self)@.next_timer_handle,
            (final(self)@, result.1) == old(self)@.scheduled(
                callback,
                duration,
                source,
                old(self).timebase.time(clock.now()),
            ),
            final(self)@.wf(),
    {
        let ghost before = self@;
        let now = self.base_time(clock);
        let new_handle = self.next_timer_handle;
        self.next_timer_handle = OneshotTimerHandle(new_handle.0 + 1);
        let creation_sequence: u64 = self.creation_sequence;
        self.creation_sequence = creation_sequence + 1;
        let run_steps: Option<(String, u64)> = match &callback {
            OneshotTimerCallback::RunStepsAfterTimeout { ordering_id, milliseconds, .. } => Some(
                (String::from_str(ordering_id.as_str()), *milliseconds),
            ),
            _ => None,
        };
        if let Some((ordering_id, milliseconds)) = run_steps {
            self.runsteps_enqueue_sorted(ordering_id, new_handle, milliseconds);
        }
        let timer = OneshotTimer {
            handle: new_handle,
            source,
            callback,
            scheduled_for: DocumentTime(now.0 + duration.0),
            creation_sequence,
        };
        proof {
            lemma_slot(before.timers, timer, 0);
            lemma_insert_keeps_order(before, timer);
        }
        self.insert_timer(timer);
        let ghost with_timer = before.with_timer(callback, duration, source, now);
        assert(self@ == with_timer);
        assert(self@.wf());
        if self.is_next_timer(new_handle) {
            proof {
                let place = slot(before.timers, timer, 0);
                let count = before.timers.len();
                if place < count {
                    assert(self.timers@.last() == before.timers[count - 1]);
                } else if count > 0 {
                    assert(timer.is_before(&before.timers[count - 1]));
                }
            }
            let call = self.schedule_timer_call(clock);
            return (new_handle, call);
        }
        (new_handle, TimerCall { cancel: None, request: None })
    }

    /// Takes a timer out, with what the scheduler is asked for.
    pub fn unschedule_callback(
        &mut self,
        handle: OneshotTimerHandle,
        clock: &DocumentClock,
    ) -> (call: TimerCall)
        requires
            old(self)@.wf(),
            old(self)@.can_unschedule(handle, *clock),
        ensures
            (final(self)@, call) == old(self)@.unscheduled(
                handle,
                old(self).timebase.time(clock.now()),
            ),
            final(self)@.wf(),
    {
        let ghost before = self@;
        let was_next = self.is_next_timer(handle);
        let mut rest: VecDeque<OneshotTimer<C>> = VecDeque::new();
        let ghost timers = self.timers@;
        while self.timers.len() > 0
            invariant
                self.timers@.len() <= timers.len(),
                timers == before.timers,
                self.timers@ == timers.skip(timers.len() - self.timers@.len()),
                rest@ == without_handle(timers, timers.len() - self.timers@.len(), handle),
                self@ == (TimersView { timers: self.timers@, ..before }),
            decreases self.timers@.len(),
        {
            let ghost done = timers.len() - self.timers@.len();
            match self.timers.pop_front() {
                Some(timer) => {
                    assert(timer == timers[done]);
                    assert(self.timers@ =~= timers.skip(done + 1));
                    if timer.handle != handle {
                        rest.push_back(timer);
                    }
                },
                None => {},
            }
        }
        self.timers = rest;
        proof {
            lemma_without_handle_keeps_order(before, before.timers.len() as int, handle);
        }
        if was_next {
            let cancel = self.invalidate_expected_event_id();
            let call = self.schedule_timer_call(clock);
            return TimerCall { cancel, request: call.request };
        }
        TimerCall { cancel: None, request: None }
    }

    fn is_next_timer(&self, handle: OneshotTimerHandle) -> (next: bool)
        ensures
            next == self@.is_next(handle),
    {
        let count: usize = self.timers.len();
        count > 0 && self.timers[count - 1].handle == handle
    }

    /// Invalidates the last request, and gives it where the scheduler still has it.
    fn invalidate_expected_event_id(&mut self) -> (cancel: Option<TimerId>)
        requires
            old(self)@.expected_event_id < u32::MAX,
        ensures
            final(self)@ == old(self)@.invalidated(),
            cancel == old(self)@.scheduled_timer_id,
    {
        let cancel = self.scheduled_timer_id;
        self.scheduled_timer_id = None;
        self.expected_event_id = TimerEventId(self.expected_event_id.0 + 1);
        cancel
    }

    /// Asks the scheduler for the earliest timer, unless timers are suspended.
    pub fn schedule_timer_call(&mut self, clock: &DocumentClock) -> (call: TimerCall)
        requires
            old(self)@.timers.len() > 0 && old(self).timebase.suspended_at is None ==> old(
                self,
            ).timebase.has_time_on(*clock) && old(self)@.expected_event_id < u32::MAX,
        ensures
            (final(self)@, call) == old(self)@.with_timer_call(
                old(self).timebase.time(clock.now()),
            ),
    {
        if self.timebase.suspended_at.is_some() {
            return TimerCall { cancel: None, request: None };
        }
        let count: usize = self.timers.len();
        if count == 0 {
            return TimerCall { cancel: None, request: None };
        }
        let now = self.base_time(clock);
        let source = self.timers[count - 1].source;
        let duration = self.timers[count - 1].scheduled_for.saturating_duration_since(now);
        let cancel = self.invalidate_expected_event_id();
        TimerCall {
            cancel,
            request: Some(TimerRequest { source, id: self.expected_event_id, duration }),
        }
    }

    /// Notes under which id the scheduler took the last request.
    pub fn set_scheduled_timer_id(&mut self, timer_id: Option<TimerId>)
        ensures
            final(self)@ == (TimersView { scheduled_timer_id: timer_id, ..old(self)@ }),
    {
        self.scheduled_timer_id = timer_id;
    }

    /// Decides what a timer event leads to: exactly one due timer fires, or none.
    pub fn fire_timer(
        &mut self,
        id: TimerEventId,
        clock: &DocumentClock,
        can_continue_running: bool,
    ) -> (fired: FireTimer<C>)
        requires
            old(self)@.wf(),
            old(self).expected_event_id == id ==> {
                &&& old(self).timebase.suspended_at is None
                &&& old(self).timebase.has_time_on(*clock)
                &&& old(self)@.timers.len() > 0
            },
        ensures
            (final(self)@, fired) == old(self)@.fired(
                id,
                old(self).timebase.time(clock.now()),
                can_continue_running,
            ),
            final(self)@.wf(),
    {
        if self.expected_event_id != id {
            return FireTimer::Ignored;
        }
        let ghost before = self@;
        let now = self.base_time(clock);
        let count: usize = self.timers.len();
        if now.0 < self.timers[count - 1].scheduled_for.0 {
            return FireTimer::NotDue;
        }
        match self.timers.pop_back() {
            Some(timer) => {
                assert(timer == before.timers.last());
                assert(self.timers@ =~= before.timers.drop_last());
                let ghost rest = self@;
                assert(rest.wf());
                if !can_continue_running {
                    return FireTimer::Interrupted;
                }
                let OneshotTimer { handle, source, callback, scheduled_for, creation_sequence } =
                    timer;
                match callback {
                    OneshotTimerCallback::RunStepsAfterTimeout {
                        timer_key,
                        ordering_id,
                        milliseconds,
                        completion,
                    } => {
                        if self.is_head_of_queue(&ordering_id, handle) {
                            return FireTimer::RunSteps { timer_key, ordering_id, completion };
                        }
                        let requeued = OneshotTimer {
                            handle,
                            source,
                            callback: OneshotTimerCallback::RunStepsAfterTimeout {
                                timer_key,
                                ordering_id,
                                milliseconds,
                                completion,
                            },
                            scheduled_for: now,
                            creation_sequence,
                        };
                        proof {
                            lemma_slot(rest.timers, requeued, 0);
                            lemma_requeue_keeps_order(rest, requeued);
                        }
                        self.insert_timer(requeued);
                        FireTimer::Requeued
                    },
                    callback => FireTimer::Invoke(callback),
                }
            },
            None => FireTimer::NotDue,
        }
    }

    fn is_head_of_queue(&self, ordering_id: &String, handle: OneshotTimerHandle) -> (head: bool)
        ensures
            head == self@.is_head(ordering_id@, handle),
    {
        match self.find_queue(ordering_id) {
            Some(index) => {
                assert(self@.queues[index as int].1 == self.runsteps_queues@[index as int].entries@);
                self.runsteps_queues[index].entries.len() == 0
                    || self.runsteps_queues[index].entries[0].handle == handle
            },
            None => true,
        }
    }

    /// Notes that steps have been performed: those that wait behind them may go.
    pub fn finish_run_steps(&mut self, timer_key: i32, ordering_id: &String)
        requires
            old(self)@.wf(),
        ensures
            final(self)@ == (TimersView {
                active: old(self)@.active.remove(timer_key),
                queues: dequeued(old(self)@.queues, ordering_id@),
                ..old(self)@
            }),
            final(self)@.wf(),
    {
        let ghost before = self@;
        let _ = remove_entry(&mut self.map_of_active_timers, timer_key);
        proof {
            lemma_queue_index(before.queues, 0, ordering_id@);
        }
        match self.find_queue(ordering_id) {
            Some(index) => {
                let ghost prior = self.runsteps_queues@;
                assert(before.queues[index as int].1 == prior[index as int].entries@);
                assert(before.queues[index as int].0 == prior[index as int].ordering_id@);
                if self.runsteps_queues[index].entries.len() <= 1 {
                    self.runsteps_queues.remove(index);
                    assert(self@.queues =~= before.queues.remove(index as int));
                } else {
                    let _ = self.runsteps_queues[index].entries.remove(0);
                    assert(self.runsteps_queues@[index as int].entries@
                        =~= prior[index as int].entries@.drop_first());
                    assert(self@.queues =~= dequeued(before.queues, ordering_id@));
                }
            },
            None => {},
        }
    }

    /// From now on no `setTimeout` or `setInterval` delay is shorter than this.
    pub fn slow_down(&mut self, min_duration_ms: u64)
        requires
            old(self)@.wf(),
        ensures
            final(self)@ == (TimersView {
                js: JsTimersView {
                    min_duration: Some(TimeSpan((min_duration_ms * 1_000_000) as u128)),
                    ..old(self)@.js
                },
                ..old(self)@
            }),
            final(self)@.wf(),
    {
        self.js_timers.set_min_duration(TimeSpan::from_millis(min_duration_ms));
    }

    /// The user agent asks for no shortest delay.
    pub fn speed_up(&mut self)
        requires
            old(self)@.wf(),
        ensures
            final(self)@ == (TimersView {
                js: JsTimersView { min_duration: None, ..old(self)@.js },
                ..old(self)@
            }),
            final(self)@.wf(),
    {
        self.js_timers.remove_min_duration();
    }

    /// Suspends timers: time stands still for them and no event counts. Says whether they were
    /// running, with what the scheduler is asked for.
    pub fn suspend(&mut self, clock: &DocumentClock) -> (result: (bool, TimerCall))
        requires
            old(self)@.wf(),
            old(self).timebase.suspended_at is None ==> clock.reading is Ok && old(
                self,
            )@.expected_event_id < u32::MAX,
        ensures
            old(self).timebase.suspended_at is Some ==> {
                &&& result == (false, TimerCall { cancel: None, request: None })
                &&& final(self)@ == old(self)@
            },
            old(self).timebase.suspended_at is None ==> {
                &&& result == (
                    true,
                    TimerCall { cancel: old(self)@.scheduled_timer_id, request: None },
                )
                &&& final(self)@ == (TimersView {
                    timebase: TimerTimebase {
                        suspended_at: Some(clock.now()),
                        ..old(self)@.timebase
                    },
                    ..old(self)@.invalidated()
                })
            },
            final(self)@.wf(),
    {
        match self.timebase.suspend(clock) {
            Ok(true) => {
                let cancel = self.invalidate_expected_event_id();
                (true, TimerCall { cancel, request: None })
            },
            _ => (false, TimerCall { cancel: None, request: None }),
        }
    }

    /// Lets suspended timers run on from where they stopped. Says whether they were suspended, with
    /// what the scheduler is asked for.
    pub fn resume(&mut self, clock: &DocumentClock) -> (result: (bool, TimerCall))
        requires
            old(self)@.wf(),
            old(self).timebase.suspended_at is Some ==> {
                let offset = old(self).timebase.offset_after(clock.now());
                &&& clock.reading is Ok
                &&& offset <= MAX_SPAN
                &&& old(self)@.timers.len() > 0 ==> offset <= clock.now().0 && old(
                    self,
                )@.expected_event_id < u32::MAX
            },
        ensures
            old(self).timebase.suspended_at is None ==> {
                &&& result == (false, TimerCall { cancel: None, request: None })
                &&& final(self)@ == old(self)@
            },
            old(self).timebase.suspended_at is Some ==> {
                let timebase = TimerTimebase {
                    suspended_at: None,
                    suspension_offset: TimeSpan(
                        old(self).timebase.offset_after(clock.now()) as u128,
                    ),
                };
                &&& result.0
                &&& (final(self)@, result.1) == (TimersView {
                    timebase,
                    ..old(self)@
                }).with_timer_call(timebase.time(clock.now()))
            },
            final(self)@.wf(),
    {
        match self.timebase.resume(clock) {
            Ok(true) => (true, self.schedule_timer_call(clock)),
            _ => (false, TimerCall { cancel: None, request: None }),
        }
    }

    /// Starts a `setTimeout` or `setInterval` timer, with what the scheduler is asked for.
    fn initialize_and_schedule(&mut self, task: JsTimerTask<C>, clock: &DocumentClock) -> (call:
        TimerCall)
        requires
            old(self)@.wf(),
            old(self).timebase.has_time_on(*clock),
            old(self)@.can_initialize(task.duration, old(self).timebase.time(clock.now())),
        ensures
            (final(self)@, call) == old(self)@.initialized(
                task,
                old(self).timebase.time(clock.now()),
            ),
            final(self)@.wf(),
    {
        let JsTimerTask {
            handle,
            source,
            callback,
            is_interval,
            nesting_level: _,
            duration,
            is_user_interacting,
        } = task;
        let nesting_level: u32 = self.js_timers.nesting_level;
        let delay = self.js_timers.user_agent_pad(clamp_duration(nesting_level, duration));
        let nested = JsTimerTask {
            handle,
            source,
            callback,
            is_interval,
            nesting_level: nesting_level + 1,
            duration,
            is_user_interacting,
        };
        let (oneshot_handle, call) = self.schedule_callback(
            OneshotTimerCallback::JsTimer(nested),
            delay,
            source,
            clock,
        );
        insert_entry(&mut self.js_timers.active_timers, handle.0, oneshot_handle);
        call
    }

    /// Sets a `setTimeout` or `setInterval` timer. Gives its handle, or zero where its string must
    /// not be evaluated, with what the scheduler is asked for.
    pub fn set_timeout_or_interval<E>(
        &mut self,
        callback: TimerCallback<C, E>,
        timeout: TimeSpan,
        is_interval: IsInterval,
        source: TimerSource,
        is_user_interacting: bool,
        clock: &DocumentClock,
    ) -> (result: Result<(i32, TimerCall), E>)
        requires
            old(self)@.wf(),
            callback.prepared() is Some ==> {
                &&& old(self).timebase.has_time_on(*clock)
                &&& old(self)@.can_initialize(timeout, old(self).timebase.time(clock.now()))
                &&& old(self)@.js.next_timer_handle < i32::MAX
            },
        ensures
            callback.refused() matches Some(error) ==> {
                &&& result == Err::<(i32, TimerCall), E>(error)
                &&& final(self)@ == old(self)@
            },
            callback.refused() is None && callback.prepared() is None ==> {
                &&& result == Ok::<(i32, TimerCall), E>(
                    (0, TimerCall { cancel: None, request: None }),
                )
                &&& final(self)@ == old(self)@
            },
            callback.prepared() matches Some(prepared) ==> {
                let view = old(self)@;
                let task = JsTimerTask {
                    handle: JsTimerHandle(view.js.next_timer_handle as i32),
                    source,
                    callback: prepared,
                    is_interval,
                    nesting_level: 0,
                    duration: timeout,
                    is_user_interacting,
                };
                &&& result matches Ok((handle, call)) && handle == view.js.next_timer_handle && (
                final(self)@,
                call,
                ) == (TimersView {
                    js: JsTimersView {
                        next_timer_handle: view.js.next_timer_handle + 1,
                        ..view.js
                    },
                    ..view
                }).initialized(task, old(self).timebase.time(clock.now()))
            },
            final(self)@.wf(),
    {
        let no_call = TimerCall { cancel: None, request: None };
        let prepared = match callback {
            TimerCallback::StringTimerCallback { code, evaluation_allowed } => match code {
                Err(error) => return Err(error),
                Ok(code) => {
                    if !evaluation_allowed {
                        return Ok((0, no_call));
                    }
                    code
                },
            },
            TimerCallback::FunctionTimerCallback(function) => function,
        };
        let new_handle: i32 = self.js_timers.next_timer_handle.0;
        self.js_timers.next_timer_handle = JsTimerHandle(new_handle + 1);
        let task = JsTimerTask {
            handle: JsTimerHandle(new_handle),
            source,
            callback: prepared,
            is_interval,
            nesting_level: 0,
            duration: timeout,
            is_user_interacting,
        };
        let call = self.initialize_and_schedule(task, clock);
        Ok((new_handle, call))
    }

    /// Clears a `setTimeout` or `setInterval` timer if there is one of that handle, with what the
    /// scheduler is asked for.
    pub fn clear_timeout_or_interval(&mut self, handle: i32, clock: &DocumentClock) -> (call:
        TimerCall)
        requires
            old(self)@.wf(),
            old(self)@.js.active.dom().contains(handle) ==> old(self)@.can_unschedule(
                old(self)@.js.active[handle],
                *clock,
            ),
        ensures
            (final(self)@, call) == old(self)@.cleared_js(
                handle,
                old(self).timebase.time(clock.now()),
            ),
            ({
                let view = old(self)@;
                let cleared = TimersView {
                    js: JsTimersView { active: view.js.active.remove(handle), ..view.js },
                    ..view
                };
                (final(self)@, call) == (if view.js.active.dom().contains(handle) {
                    cleared.unscheduled(
                        view.js.active[handle],
                        old(self).timebase.time(clock.now()),
                    )
                } else {
                    (view, TimerCall { cancel: None, request: None })
                })
            }),
            final(self)@.wf(),
    {
        let ghost before = self@;
        match remove_entry(&mut self.js_timers.active_timers, handle) {
            Some(oneshot_handle) => self.unschedule_callback(oneshot_handle, clock),
            None => {
                assert(self@.js.active =~= before.js.active);
                TimerCall { cancel: None, request: None }
            },
        }
    }

    /// A timer is about to call its function: timers set from now on are nested in it.
    pub fn begin_js_timer(&mut self, task: &JsTimerTask<C>)
        requires
            old(self)@.wf(),
        ensures
            final(self)@ == (TimersView {
                js: JsTimersView { nesting_level: task.nesting_level, ..old(self)@.js },
                ..old(self)@
            }),
            final(self)@.wf(),
    {
        self.js_timers.nesting_level = task.nesting_level;
    }

    /// A timer has called its function. One that repeats, and has not been cleared meanwhile, starts
    /// anew, with what the scheduler is asked for.
    pub fn finish_js_timer(&mut self, task: JsTimerTask<C>, clock: &DocumentClock) -> (call:
        TimerCall)
        requires
            old(self)@.wf(),
            task.is_interval is Interval && old(self)@.js.active.dom().contains(task.handle.0)
                ==> old(self).timebase.has_time_on(*clock) && (TimersView {
                js: JsTimersView { nesting_level: 0, ..old(self)@.js },
                ..old(self)@
            }).can_initialize(task.duration, old(self).timebase.time(clock.now())),
        ensures
            (final(self)@, call) == old(self)@.finished_js(
                task,
                old(self).timebase.time(clock.now()),
            ),
            ({
                let outside = TimersView {
                    js: JsTimersView { nesting_level: 0, ..old(self)@.js },
                    ..old(self)@
                };
                (final(self)@, call) == (if task.is_interval is Interval
                    && outside.js.active.dom().contains(task.handle.0) {
                    outside.initialized(task, old(self).timebase.time(clock.now()))
                } else {
                    (outside, TimerCall { cancel: None, request: None })
                })
            }),
            final(self)@.wf(),
    {
        self.js_timers.nesting_level = 0;
        if task.is_interval == IsInterval::Interval && has_entry(
            &self.js_timers.active_timers,
            task.handle.0,
        ) {
            return self.initialize_and_schedule(task, clock);
        }
        TimerCall { cancel: None, request: None }
    }
}

/// What a script hands to `setTimeout` or `setInterval`: a function, or a string that has been made
/// to comply with trusted types, or failed to, and that may or may not be evaluated.
#[derive(Debug)]
pub enum TimerCallback<C, E> {
    StringTimerCallback { code: Result<C, E>, evaluation_allowed: bool },
    FunctionTimerCallback(C),
}

impl<C, E> TimerCallback<C, E> {
    /// The error of a string that is refused.
    pub open spec fn refused(self) -> Option<E> {
        match self {
            TimerCallback::StringTimerCallback { code: Err(error), .. } => Some(error),
            _ => None,
        }
    }

    /// What the timer calls, if it may.
    pub open spec fn prepared(self) -> Option<C> {
        match self {
            TimerCallback::StringTimerCallback { code: Ok(code), evaluation_allowed } => if evaluation_allowed {
                Some(code)
            } else {
                None
            },
            TimerCallback::StringTimerCallback { code: Err(error), .. } => None,
            TimerCallback::FunctionTimerCallback(function) => Some(function),
        }
    }
}

/// The sink that a timer's string is checked for: the global and the method it was handed to.
pub fn timer_sink(is_window: bool, is_interval: IsInterval) -> (sink: &'static str)
    ensures
        sink@ == (match (is_window, is_interval) {
            (true, IsInterval::Interval) => "Window setInterval"@,
            (true, IsInterval::NonInterval) => "Window setTimeout"@,
            (false, IsInterval::Interval) => "WorkerGlobalScope setInterval"@,
            (false, IsInterval::NonInterval) => "WorkerGlobalScope setTimeout"@,
        }),
{
    match (is_window, is_interval) {
        (true, IsInterval::Interval) => "Window setInterval",
        (true, IsInterval::NonInterval) => "Window setTimeout",
        (false, IsInterval::Interval) => "WorkerGlobalScope setInterval",
        (false, IsInterval::NonInterval) => "WorkerGlobalScope setTimeout",
    }
}

proof fn lemma_insert_keeps_order<C>(view: TimersView<C>, timer: OneshotTimer<C>)
    requires
        view.wf(),
        timer.creation_sequence == view.creation_sequence,
        timer.handle.0 == view.next_timer_handle,
    ensures
        (TimersView {
            timers: inserted(view.timers, timer),
            next_timer_handle: view.next_timer_handle + 1,
            creation_sequence: view.creation_sequence + 1,
            ..view
        }).wf(),
{
    lemma_slot(view.timers, timer, 0);
    let timers = inserted(view.timers, timer);
    let place = slot(view.timers, timer, 0);
    assert forall|i: int, j: int| 0 <= i < j < timers.len() implies (
    #[trigger] timers[i]).creation_sequence != (#[trigger] timers[j]).creation_sequence
        && timers[i].handle != timers[j].handle && timers[j].is_before(&timers[i]) by {
        let a = if i < place {
            i
        } else {
            i - 1
        };
        let b = if j < place {
            j
        } else {
            j - 1
        };
        if i != place {
            assert(timers[i] == view.timers[a]);
        }
        if j != place {
            assert(timers[j] == view.timers[b]);
        }
        if i == place && b > place {
            assert(view.timers[b].is_before(&view.timers[place]));
        }
    }
}

proof fn lemma_requeue_keeps_order<C>(view: TimersView<C>, timer: OneshotTimer<C>)
    requires
        view.wf(),
        timer.creation_sequence < view.creation_sequence,
        timer.handle.0 < view.next_timer_handle,
        forall|i: int|
            0 <= i < view.timers.len() ==> (#[trigger] view.timers[i]).creation_sequence
                != timer.creation_sequence && view.timers[i].handle != timer.handle,
    ensures
        (TimersView { timers: inserted(view.timers, timer), ..view }).wf(),
{
    lemma_slot(view.timers, timer, 0);
    let timers = inserted(view.timers, timer);
    let place = slot(view.timers, timer, 0);
    assert forall|i: int, j: int| 0 <= i < j < timers.len() implies (
    #[trigger] timers[i]).creation_sequence != (#[trigger] timers[j]).creation_sequence
        && timers[i].handle != timers[j].handle && timers[j].is_before(&timers[i]) by {
        let a = if i < place {
            i
        } else {
            i - 1
        };
        let b = if j < place {
            j
        } else {
            j - 1
        };
        if i != place {
            assert(timers[i] == view.timers[a]);
        }
        if j != place {
            assert(timers[j] == view.timers[b]);
        }
        if i == place && b > place {
            assert(view.timers[b].is_before(&view.timers[place]));
        }
    }
}

proof fn lemma_without_handle_keeps_order<C>(
    view: TimersView<C>,
    count: int,
    handle: OneshotTimerHandle,
)
    requires
        view.wf(),
        0 <= count <= view.timers.len(),
    ensures
        (TimersView { timers: without_handle(view.timers, count, handle), ..view }).wf(),
        forall|i: int|
            0 <= i < without_handle(view.timers, count, handle).len() ==> exists|j: int|
                0 <= j < count && #[trigger] without_handle(view.timers, count, handle)[i]
                    == #[trigger] view.timers[j],
    decreases count,
{
    if count > 0 {
        lemma_without_handle_keeps_order(view, count - 1, handle);
        let before = without_handle(view.timers, count - 1, handle);
        let timers = without_handle(view.timers, count, handle);
        assert forall|i: int| 0 <= i < timers.len() implies exists|j: int|
            0 <= j < count && #[trigger] timers[i] == #[trigger] view.timers[j] by {
            if i < before.len() {
                assert(timers[i] == before[i]);
                let j = choose|j: int|
                    0 <= j < count - 1 && before[i] == #[trigger] view.timers[j];
                assert(view.timers[j] == timers[i]);
            } else {
                assert(view.timers[count - 1] == timers[i]);
            }
        }
        assert forall|i: int, j: int| 0 <= i < j < timers.len() implies (
        #[trigger] timers[i]).creation_sequence != (#[trigger] timers[j]).creation_sequence
            && timers[i].handle != timers[j].handle && timers[j].is_before(&timers[i]) by {
            assert(timers[i] == before[i]);
            if j < before.len() {
                assert(timers[j] == before[j]);
            } else {
                let k = choose|k: int|
                    0 <= k < count - 1 && before[i] == #[trigger] view.timers[k];
                assert(view.timers[k] == timers[i]);
                assert(view.timers[count - 1] == timers[j]);
            }
        }
    }
}

} // verus!
