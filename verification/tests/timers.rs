use std::cmp::Ordering;

use pliego_core::clock::{
    DocumentClock, DocumentClockError, DocumentClockId, DocumentTime, TimeSpan, MAX_SPAN,
};
use pliego_core::ids::PipelineId;
use pliego_core::timers::fetch_info::{
    initiating_script_fetch_info, InitiatingScriptFetchInfo, ParserMetadata, ScriptFetchOptions,
};
use pliego_core::timers::oneshot::{
    timer_sink, FireTimer, IsInterval, OneshotTimerCallback, OneshotTimers, TimerCall,
    TimerCallback, TimerId,
};
use pliego_core::timers::{
    clamp_duration, compare_timer_order, TimerEvent, TimerEventId, TimerGlobal, TimerSource,
    TimerTimebase,
};

fn clock_at(nanos: u128) -> DocumentClock {
    DocumentClock::new(DocumentClockId(1), DocumentTime::from_nanos(nanos))
}

const NO_CALL: TimerCall = TimerCall { cancel: None, request: None };
const WINDOW: TimerSource = TimerSource::FromWindow(PipelineId(3));

/// Grants a request of the timers, as a scheduler would.
fn grant<C>(timers: &mut OneshotTimers<C>, id: u64) {
    timers.set_scheduled_timer_id(Some(TimerId(id)));
}

#[test]
fn suspension_freezes_dom_timer_time_and_resume_excludes_the_pause() {
    let mut clock = clock_at(10);
    let mut timebase = TimerTimebase::default();
    assert_eq!(timebase.now(&clock).unwrap(), DocumentTime::from_nanos(10));

    assert!(timebase.suspend(&clock).unwrap());
    assert!(!timebase.suspend(&clock).unwrap());
    clock.advance_to(DocumentTime::from_nanos(20)).unwrap();
    assert_eq!(timebase.now(&clock).unwrap(), DocumentTime::from_nanos(10));

    assert!(timebase.resume(&clock).unwrap());
    assert!(!timebase.resume(&clock).unwrap());
    clock.advance_to(DocumentTime::from_nanos(25)).unwrap();
    assert_eq!(timebase.now(&clock).unwrap(), DocumentTime::from_nanos(15));
    let original_deadline = DocumentTime::from_nanos(20);
    assert_eq!(
        original_deadline.saturating_duration_since(timebase.now(&clock).unwrap()),
        TimeSpan::from_nanos(5)
    );
}

#[test]
fn timer_time_before_the_start_is_an_underflow() {
    let timebase = TimerTimebase { suspended_at: None, suspension_offset: TimeSpan(11) };
    assert_eq!(timebase.now(&clock_at(10)), Err(DocumentClockError::Underflow));
}

#[test]
fn a_suspension_that_does_not_fit_is_an_overflow_and_changes_nothing() {
    let mut timebase = TimerTimebase {
        suspended_at: Some(DocumentTime(0)),
        suspension_offset: TimeSpan(u128::MAX),
    };
    assert_eq!(timebase.resume(&clock_at(1)), Err(DocumentClockError::Overflow));
    assert_eq!(timebase.suspended_at, Some(DocumentTime(0)));
}

#[test]
fn dom_timer_order_is_deadline_then_creation_sequence() {
    let early = DocumentTime::from_nanos(5);
    let late = DocumentTime::from_nanos(10);
    assert_eq!(compare_timer_order(early, 9, late, 0), Ordering::Greater);
    assert_eq!(compare_timer_order(late, 0, early, 9), Ordering::Less);
    assert_eq!(compare_timer_order(early, 0, early, 1), Ordering::Greater);
    assert_eq!(compare_timer_order(early, 1, early, 0), Ordering::Less);
}

#[test]
fn equal_timers_compare_equal() {
    let time = DocumentTime::from_nanos(5);
    assert_eq!(compare_timer_order(time, 3, time, 3), Ordering::Equal);
}

#[test]
fn timer_nesting_preserves_the_existing_minimum_delay_boundary() {
    assert_eq!(clamp_duration(5, TimeSpan::zero()), TimeSpan::zero());
    assert_eq!(clamp_duration(6, TimeSpan::zero()), TimeSpan::from_millis(4));
    assert_eq!(
        clamp_duration(6, TimeSpan::from_millis(9)),
        TimeSpan::from_millis(9)
    );
}

#[test]
fn an_event_belongs_to_the_global_that_asked_for_it() {
    let of_window = TimerEvent(WINDOW, TimerEventId(1));
    let of_worker = TimerEvent(TimerSource::FromWorker, TimerEventId(1));
    assert!(of_window.is_delivered_to(TimerGlobal::Window(PipelineId(3))));
    assert!(!of_window.is_delivered_to(TimerGlobal::Window(PipelineId(4))));
    assert!(!of_window.is_delivered_to(TimerGlobal::Worker));
    assert!(of_worker.is_delivered_to(TimerGlobal::Worker));
    assert!(!of_worker.is_delivered_to(TimerGlobal::Window(PipelineId(3))));
}

#[test]
fn timers_fire_by_deadline_and_one_at_a_time() {
    let mut clock = clock_at(0);
    let mut timers: OneshotTimers<&'static str> = OneshotTimers::new();
    let (_, call) = timers.schedule_callback(
        OneshotTimerCallback::XhrTimeout("late"),
        TimeSpan(10),
        WINDOW,
        &clock,
    );
    let request = call.request.expect("the first timer is requested");
    assert_eq!(call.cancel, None);
    assert_eq!((request.id, request.duration), (TimerEventId(1), TimeSpan(10)));
    grant(&mut timers, 100);
    let (_, call) = timers.schedule_callback(
        OneshotTimerCallback::XhrTimeout("later"),
        TimeSpan(10),
        WINDOW,
        &clock,
    );
    assert_eq!(call, NO_CALL);
    let (_, call) = timers.schedule_callback(
        OneshotTimerCallback::XhrTimeout("early"),
        TimeSpan(5),
        WINDOW,
        &clock,
    );
    assert_eq!(call.cancel, Some(TimerId(100)));
    assert_eq!(call.request.map(|request| request.id), Some(TimerEventId(2)));
    grant(&mut timers, 101);

    assert!(matches!(timers.fire_timer(TimerEventId(1), &clock, true), FireTimer::Ignored));
    assert!(matches!(timers.fire_timer(TimerEventId(2), &clock, true), FireTimer::NotDue));
    clock.advance_to(DocumentTime(12)).unwrap();
    for (id, expected) in [(2, "early"), (3, "late"), (4, "later")] {
        assert!(matches!(
            timers.fire_timer(TimerEventId(id), &clock, true),
            FireTimer::Invoke(OneshotTimerCallback::XhrTimeout(name)) if name == expected
        ));
        timers.schedule_timer_call(&clock);
    }
    assert_eq!(timers.timers.len(), 0);
}

#[test]
fn a_shutdown_drops_the_due_timer() {
    let clock = clock_at(0);
    let mut timers: OneshotTimers<()> = OneshotTimers::new();
    timers.schedule_callback(OneshotTimerCallback::XhrTimeout(()), TimeSpan(0), WINDOW, &clock);
    assert!(matches!(timers.fire_timer(TimerEventId(1), &clock, false), FireTimer::Interrupted));
    assert_eq!(timers.timers.len(), 0);
}

#[test]
fn unscheduling_the_next_timer_invalidates_its_request() {
    let clock = clock_at(0);
    let mut timers: OneshotTimers<()> = OneshotTimers::new();
    let (first, _) =
        timers.schedule_callback(OneshotTimerCallback::XhrTimeout(()), TimeSpan(1), WINDOW, &clock);
    grant(&mut timers, 7);
    let (second, _) =
        timers.schedule_callback(OneshotTimerCallback::XhrTimeout(()), TimeSpan(2), WINDOW, &clock);
    assert_ne!(first, second);
    let call = timers.unschedule_callback(first, &clock);
    assert_eq!(call.cancel, Some(TimerId(7)));
    assert_eq!(
        call.request.map(|request| (request.id, request.duration)),
        Some((TimerEventId(3), TimeSpan(2)))
    );
    assert_eq!(timers.unschedule_callback(first, &clock), NO_CALL);
    assert_eq!(timers.timers.len(), 1);
}

#[test]
fn suspended_timers_request_nothing_and_resume_where_they_stopped() {
    let mut clock = clock_at(0);
    let mut timers: OneshotTimers<()> = OneshotTimers::new();
    timers.schedule_callback(OneshotTimerCallback::XhrTimeout(()), TimeSpan(10), WINDOW, &clock);
    grant(&mut timers, 7);
    clock.advance_to(DocumentTime(4)).unwrap();
    let (suspended, call) = timers.suspend(&clock);
    assert!(suspended);
    assert_eq!(call, TimerCall { cancel: Some(TimerId(7)), request: None });
    assert_eq!(timers.suspend(&clock), (false, NO_CALL));
    assert_eq!(timers.schedule_timer_call(&clock), NO_CALL);
    clock.advance_to(DocumentTime(100)).unwrap();
    let (resumed, call) = timers.resume(&clock);
    assert!(resumed);
    assert_eq!(call.request.map(|request| request.duration), Some(TimeSpan(6)));
    assert_eq!(timers.resume(&clock), (false, NO_CALL));
}

fn steps(key: i32, milliseconds: u64) -> OneshotTimerCallback<&'static str> {
    OneshotTimerCallback::RunStepsAfterTimeout {
        timer_key: key,
        ordering_id: String::from("order"),
        milliseconds,
        completion: "done",
    }
}

#[test]
fn steps_wait_for_those_that_go_before_them() {
    let mut clock = clock_at(0);
    let mut timers: OneshotTimers<&'static str> = OneshotTimers::new();
    let first = timers.fresh_runsteps_key();
    let second = timers.fresh_runsteps_key();
    assert_eq!((first, second), (1, 2));
    let start = timers.now_for_runsteps(&clock);
    timers.runsteps_set_active(first, start);
    timers.runsteps_set_active(second, start);
    // The first fires first but has more milliseconds, so it waits for the second.
    timers.schedule_callback(steps(first, 20), TimeSpan(0), WINDOW, &clock);
    timers.schedule_callback(steps(second, 10), TimeSpan(1), WINDOW, &clock);
    assert!(matches!(timers.fire_timer(TimerEventId(1), &clock, true), FireTimer::Requeued));
    clock.advance_to(DocumentTime(1)).unwrap();
    let call = timers.schedule_timer_call(&clock);
    assert_eq!(call.request.map(|request| request.id), Some(TimerEventId(2)));
    assert!(matches!(timers.fire_timer(TimerEventId(2), &clock, true), FireTimer::Requeued));
    assert_eq!(timers.timers.len(), 2);
    timers.schedule_timer_call(&clock);
    // Requeued at the same time as the second, the first still comes first by creation.
    assert!(matches!(timers.fire_timer(TimerEventId(3), &clock, true), FireTimer::Requeued));
    let waiting = timers.timers.pop_back().expect("the first waits");
    timers.schedule_timer_call(&clock);
    match timers.fire_timer(TimerEventId(4), &clock, true) {
        FireTimer::RunSteps { timer_key, ordering_id, completion } => {
            assert_eq!((timer_key, completion), (second, "done"));
            timers.finish_run_steps(timer_key, &ordering_id);
        },
        _ => panic!("the second has the fewest milliseconds"),
    }
    timers.timers.push_back(waiting);
    timers.schedule_timer_call(&clock);
    match timers.fire_timer(TimerEventId(5), &clock, true) {
        FireTimer::RunSteps { timer_key, ordering_id, .. } => {
            assert_eq!(timer_key, first);
            timers.finish_run_steps(timer_key, &ordering_id);
        },
        _ => panic!("nothing goes before the first any more"),
    }
    assert!(timers.map_of_active_timers.is_empty());
    assert!(timers.runsteps_queues.is_empty());
}

fn function(name: &'static str) -> TimerCallback<&'static str, ()> {
    TimerCallback::FunctionTimerCallback(name)
}

#[test]
fn an_interval_starts_anew_unless_it_was_cleared() {
    let clock = clock_at(0);
    let mut timers: OneshotTimers<&'static str> = OneshotTimers::new();
    let (handle, call) = timers
        .set_timeout_or_interval(
            function("tick"),
            TimeSpan(3),
            IsInterval::Interval,
            WINDOW,
            false,
            &clock,
        )
        .unwrap();
    assert_eq!(handle, 1);
    assert_eq!(call.request.map(|request| request.duration), Some(TimeSpan(3)));
    let clock = clock_at(3);
    let task = match timers.fire_timer(TimerEventId(1), &clock, true) {
        FireTimer::Invoke(OneshotTimerCallback::JsTimer(task)) => task,
        _ => panic!("the interval is due"),
    };
    assert_eq!((task.callback, task.nesting_level), ("tick", 1));
    timers.begin_js_timer(&task);
    assert_eq!(timers.js_timers.nesting_level, 1);
    let call = timers.finish_js_timer(task, &clock);
    assert_eq!(call.request.map(|request| request.duration), Some(TimeSpan(3)));
    assert_eq!(timers.js_timers.nesting_level, 0);
    timers.clear_timeout_or_interval(handle, &clock);
    assert_eq!(timers.timers.len(), 0);
    assert_eq!(timers.clear_timeout_or_interval(handle, &clock), NO_CALL);
}

#[test]
fn a_timer_that_does_not_repeat_is_done_after_its_call() {
    let clock = clock_at(0);
    let mut timers: OneshotTimers<&'static str> = OneshotTimers::new();
    timers
        .set_timeout_or_interval(
            function("once"),
            TimeSpan(0),
            IsInterval::NonInterval,
            WINDOW,
            true,
            &clock,
        )
        .unwrap();
    let task = match timers.fire_timer(TimerEventId(1), &clock, true) {
        FireTimer::Invoke(OneshotTimerCallback::JsTimer(task)) => task,
        _ => panic!("the timer is due"),
    };
    assert!(task.is_user_interacting);
    timers.begin_js_timer(&task);
    assert_eq!(timers.finish_js_timer(task, &clock), NO_CALL);
    assert_eq!(timers.timers.len(), 0);
}

#[test]
fn delays_have_a_floor_where_the_user_agent_asks_for_one() {
    let clock = clock_at(0);
    let mut timers: OneshotTimers<&'static str> = OneshotTimers::new();
    timers.slow_down(1000);
    let (_, call) = timers
        .set_timeout_or_interval(
            function("slow"),
            TimeSpan(0),
            IsInterval::NonInterval,
            WINDOW,
            false,
            &clock,
        )
        .unwrap();
    assert_eq!(call.request.map(|request| request.duration), Some(TimeSpan::from_millis(1000)));
    timers.speed_up();
    let (_, call) = timers
        .set_timeout_or_interval(
            function("fast"),
            TimeSpan(0),
            IsInterval::NonInterval,
            WINDOW,
            false,
            &clock,
        )
        .unwrap();
    assert_eq!(call.request.map(|request| request.duration), Some(TimeSpan(0)));
}

#[test]
fn a_string_that_is_refused_sets_no_timer() {
    let clock = clock_at(0);
    let mut timers: OneshotTimers<&'static str> = OneshotTimers::new();
    let refused: TimerCallback<&'static str, &'static str> =
        TimerCallback::StringTimerCallback { code: Err("no"), evaluation_allowed: true };
    assert_eq!(
        timers.set_timeout_or_interval(
            refused,
            TimeSpan(0),
            IsInterval::NonInterval,
            WINDOW,
            false,
            &clock
        ),
        Err("no")
    );
    let blocked: TimerCallback<&'static str, &'static str> =
        TimerCallback::StringTimerCallback { code: Ok("f()"), evaluation_allowed: false };
    assert_eq!(
        timers.set_timeout_or_interval(
            blocked,
            TimeSpan(0),
            IsInterval::NonInterval,
            WINDOW,
            false,
            &clock
        ),
        Ok((0, NO_CALL))
    );
    assert_eq!(timers.timers.len(), 0);
    assert_eq!(timers.js_timers.next_timer_handle.0, 1);
}

#[test]
fn sinks_name_the_global_and_the_method() {
    assert_eq!(timer_sink(true, IsInterval::Interval), "Window setInterval");
    assert_eq!(timer_sink(true, IsInterval::NonInterval), "Window setTimeout");
    assert_eq!(timer_sink(false, IsInterval::Interval), "WorkerGlobalScope setInterval");
    assert_eq!(timer_sink(false, IsInterval::NonInterval), "WorkerGlobalScope setTimeout");
}

fn fetch_info(nonce: &str, url: &'static str) -> InitiatingScriptFetchInfo<u8, u8, &'static str> {
    InitiatingScriptFetchInfo {
        fetch_options: ScriptFetchOptions {
            cryptographic_nonce: String::from(nonce),
            integrity_metadata: String::from("integrity"),
            parser_metadata: ParserMetadata::ParserInserted,
            credentials_mode: 1,
            referrer_policy: 2,
            render_blocking: true,
        },
        base_url: url,
    }
}

#[test]
fn a_string_takes_over_what_its_script_was_fetched_with() {
    let taken = initiating_script_fetch_info(Some(fetch_info("n", "script:")), fetch_info("", "api:"));
    assert_eq!(
        taken,
        InitiatingScriptFetchInfo {
            fetch_options: ScriptFetchOptions {
                cryptographic_nonce: String::from("n"),
                integrity_metadata: String::new(),
                parser_metadata: ParserMetadata::NotParserInserted,
                credentials_mode: 1,
                referrer_policy: 2,
                render_blocking: false,
            },
            base_url: "script:",
        }
    );
    assert_eq!(
        initiating_script_fetch_info(None, fetch_info("", "api:")),
        fetch_info("", "api:")
    );
}

#[test]
fn suspended_timers_can_be_cleared_with_one_event_left() {
    let clock = clock_at(10);
    let mut timers = OneshotTimers::new();
    let callback = || OneshotTimerCallback::TestBindingCallback("late");
    let (late, _) = timers.schedule_callback(callback(), TimeSpan(9), WINDOW, &clock);
    let (next, _) = timers.schedule_callback(callback(), TimeSpan(5), WINDOW, &clock);
    grant(&mut timers, 7);
    timers.expected_event_id = TimerEventId(u32::MAX - 2);
    assert!(timers.suspend(&clock).0);
    assert_eq!(timers.expected_event_id, TimerEventId(u32::MAX - 1));
    assert_eq!(timers.unschedule_callback(next, &clock), NO_CALL);
    assert_eq!(timers.expected_event_id, TimerEventId(u32::MAX));
    assert_eq!(timers.timers.len(), 1);
    assert_eq!(timers.timers[0].handle, late);
}

#[test]
fn clearing_the_last_timer_uses_one_event() {
    let clock = clock_at(10);
    let mut timers = OneshotTimers::new();
    let (handle, _) = timers
        .set_timeout_or_interval(function("once"), TimeSpan(5), IsInterval::NonInterval, WINDOW, false, &clock)
        .unwrap();
    grant(&mut timers, 7);
    timers.expected_event_id = TimerEventId(u32::MAX - 1);
    assert_eq!(
        timers.clear_timeout_or_interval(handle, &clock),
        TimerCall { cancel: Some(TimerId(7)), request: None }
    );
    assert_eq!(timers.expected_event_id, TimerEventId(u32::MAX));
    assert!(timers.timers.is_empty());
}

#[test]
fn suspensions_add_up_to_no_more_than_the_longest_span() {
    let duration = std::time::Duration::MAX;
    assert_eq!(MAX_SPAN, duration.as_nanos());
    let start = DocumentTime::from_nanos(MAX_SPAN);
    let suspended = TimerTimebase {
        suspended_at: Some(start),
        suspension_offset: TimeSpan(MAX_SPAN - 1),
    };
    let mut timebase = suspended;
    assert_eq!(timebase.resume(&clock_at(MAX_SPAN + 2)), Err(DocumentClockError::Overflow));
    assert_eq!(timebase, suspended);
    assert_eq!(timebase.resume(&clock_at(MAX_SPAN + 1)), Ok(true));
    assert_eq!(timebase.suspension_offset, TimeSpan(MAX_SPAN));
    assert_eq!(timebase.suspended_at, None);
    assert_eq!(timebase.now(&clock_at(MAX_SPAN + 1)), suspended.now(&clock_at(MAX_SPAN + 1)));
}

#[test]
fn a_clock_that_cannot_be_read_changes_nothing() {
    let error = DocumentClockError::Overflow;
    let mut clock = DocumentClock { id: DocumentClockId(1), reading: Err(error) };
    assert_eq!(clock.try_now(), Err(error));
    assert_eq!(clock.advance_to(DocumentTime(9)), Err(error));
    let mut running = TimerTimebase::default();
    assert_eq!(running.now(&clock), Err(error));
    assert_eq!(running.suspend(&clock), Err(error));
    assert_eq!(running.resume(&clock), Ok(false));
    assert_eq!(running, TimerTimebase::default());
    let suspended = TimerTimebase {
        suspended_at: Some(DocumentTime(5)),
        suspension_offset: TimeSpan(1),
    };
    let mut timebase = suspended;
    assert_eq!(timebase.now(&clock), Err(error));
    assert_eq!(timebase.suspend(&clock), Ok(false));
    assert_eq!(timebase.resume(&clock), Err(error));
    assert_eq!(timebase, suspended);
}

#[test]
fn a_span_between_points_is_pinned_to_spans() {
    let early = DocumentTime(3);
    let late = DocumentTime(u128::MAX);
    assert_eq!(early.saturating_duration_since(late), TimeSpan(0));
    assert_eq!(late.saturating_duration_since(early), TimeSpan(MAX_SPAN));
    assert_eq!(TimeSpan(MAX_SPAN).checked_add(TimeSpan(1)), None);
    assert_eq!(TimeSpan(2).checked_add(TimeSpan(3)), Some(TimeSpan(5)));
    assert!(TimeSpan::from_millis(u64::MAX).0 <= MAX_SPAN);
}
