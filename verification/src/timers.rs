//! The timers of a document: `setTimeout`, `setInterval` and the steps that run after a timeout.
pub mod deadline_laws;
pub mod fetch_info;
pub mod laws;
pub mod oneshot;

use crate::clock::{DocumentClock, DocumentClockError, DocumentTime, TimeSpan, MAX_SPAN};
use crate::ids::PipelineId;
use std::cmp::Ordering;
use vstd::prelude::*;

verus! {

/// Who asked for a timer event.
#[derive(Clone, Copy, Debug, PartialEq, Eq, Structural)]
pub enum TimerSource {
    /// A window.
    FromWindow(PipelineId),
    /// A dedicated worker.
    FromWorker,
}

/// Names one request for a timer event.
#[derive(Clone, Copy, Debug, PartialEq, Eq, Structural)]
pub struct TimerEventId(pub u32);

/// A timer has fired.
#[derive(Clone, Copy, Debug, PartialEq, Eq, Structural)]
pub struct TimerEvent(pub TimerSource, pub TimerEventId);

/// What kind of global a timer event reaches.
#[derive(Clone, Copy, Debug, PartialEq, Eq, Structural)]
pub enum TimerGlobal {
    Window(PipelineId),
    Worker,
}

impl TimerEvent {
    /// The event has reached the global that asked for it: an event of a worker any worker, an
    /// event of a window the window of the same pipeline.
    pub fn is_delivered_to(&self, global: TimerGlobal) -> (delivered: bool)
        ensures
            delivered == (match self.0 {
                TimerSource::FromWorker => global is Worker,
                TimerSource::FromWindow(pipeline) => global == TimerGlobal::Window(pipeline),
            }),
    {
        match self.0 {
            TimerSource::FromWorker => match global {
                TimerGlobal::Worker => true,
                TimerGlobal::Window(_) => false,
            },
            TimerSource::FromWindow(pipeline) => match global {
                TimerGlobal::Worker => false,
                TimerGlobal::Window(receiver) => receiver == pipeline,
            },
        }
    }
}

/// The time that timers go by: document time without the spans for which they were suspended.
#[derive(Clone, Copy, Debug, PartialEq, Eq)]
pub struct TimerTimebase {
    pub suspended_at: Option<DocumentTime>,
    pub suspension_offset: TimeSpan,
}

impl Default for TimerTimebase {
    fn default() -> (timebase: Self)
        ensures
            timebase.suspended_at is None,
            timebase.suspension_offset == TimeSpan(0),
            timebase.wf(),
    {
        TimerTimebase { suspended_at: None, suspension_offset: TimeSpan::zero() }
    }
}

impl TimerTimebase {
    /// The suspensions add up to a span.
    pub open spec fn wf(self) -> bool {
        self.suspension_offset.wf()
    }

    /// The point of document time that timers have reached.
    pub open spec fn reached(self, clock_time: DocumentTime) -> DocumentTime {
        match self.suspended_at {
            Some(time) => time,
            None => clock_time,
        }
    }

    /// There is a timer time: the suspensions do not add up to more than the time there has been.
    pub open spec fn has_time(self, clock_time: DocumentTime) -> bool {
        self.reached(clock_time).0 >= self.suspension_offset.0
    }

    /// The timer time.
    pub open spec fn time(self, clock_time: DocumentTime) -> DocumentTime {
        DocumentTime((self.reached(clock_time).0 - self.suspension_offset.0) as u128)
    }

    /// A clock can be read, and there is a timer time by it.
    pub open spec fn has_time_on(self, clock: DocumentClock) -> bool {
        clock.reading is Ok && self.has_time(clock.now())
    }

    /// The current timer time. Where the clock cannot be read there is none, even while timers are
    /// suspended.
    pub fn now(self, clock: &DocumentClock) -> (time: Result<DocumentTime, DocumentClockError>)
        ensures
            time == (match clock.reading {
                Err(error) => Err(error),
                Ok(reading) => if self.has_time(reading) {
                    Ok(self.time(reading))
                } else {
                    Err(DocumentClockError::Underflow)
                },
            }),
            time is Ok <==> self.has_time_on(*clock),
    {
        let clock_time = match clock.try_now() {
            Ok(time) => time,
            Err(error) => return Err(error),
        };
        let reached = match self.suspended_at {
            Some(time) => time,
            None => clock_time,
        };
        reached.checked_sub(self.suspension_offset)
    }

    /// The timebase once timer time has been stopped, and what stopping it gives.
    pub open spec fn suspended(self, clock: DocumentClock) -> (
        TimerTimebase,
        Result<bool, DocumentClockError>,
    ) {
        match (self.suspended_at, clock.reading) {
            (Some(_), _) => (self, Ok(false)),
            (None, Ok(reading)) => (
                TimerTimebase { suspended_at: Some(reading), ..self },
                Ok(true),
            ),
            (None, Err(error)) => (self, Err(error)),
        }
    }

    /// The timebase once timer time runs on, and what letting it gives.
    pub open spec fn resumed(self, clock: DocumentClock) -> (
        TimerTimebase,
        Result<bool, DocumentClockError>,
    ) {
        match (self.suspended_at, clock.reading) {
            (None, _) => (self, Ok(false)),
            (Some(_), Err(error)) => (self, Err(error)),
            (Some(_), Ok(reading)) => if self.offset_after(reading) <= MAX_SPAN {
                (
                    TimerTimebase {
                        suspended_at: None,
                        suspension_offset: TimeSpan(self.offset_after(reading) as u128),
                    },
                    Ok(true),
                )
            } else {
                (self, Err(DocumentClockError::Overflow))
            },
        }
    }

    /// Stops timer time. Says whether it was running.
    pub fn suspend(&mut self, clock: &DocumentClock) -> (suspended: Result<
        bool,
        DocumentClockError,
    >)
        ensures
            (*final(self), suspended) == old(self).suspended(*clock),
            old(self).suspended_at is Some ==> suspended == Ok::<bool, DocumentClockError>(false)
                && *final(self) == *old(self),
            old(self).suspended_at is None ==> match clock.reading {
                Ok(reading) => {
                    &&& suspended == Ok::<bool, DocumentClockError>(true)
                    &&& *final(self) == (TimerTimebase {
                        suspended_at: Some(reading),
                        ..*old(self)
                    })
                },
                Err(error) => {
                    &&& suspended == Err::<bool, DocumentClockError>(error)
                    &&& *final(self) == *old(self)
                },
            },
            old(self).wf() ==> final(self).wf(),
    {
        if self.suspended_at.is_some() {
            return Ok(false);
        }
        match clock.try_now() {
            Ok(time) => {
                self.suspended_at = Some(time);
                Ok(true)
            },
            Err(error) => Err(error),
        }
    }

    /// How long timer time has stood still in all, at the end of the current suspension.
    pub open spec fn offset_after(self, clock_time: DocumentTime) -> int {
        self.suspension_offset.0 + clock_time.saturating_duration_since(
            self.suspended_at->Some_0,
        ).0
    }

    /// Lets timer time run on from where it stopped. Says whether it stood still.
    pub fn resume(&mut self, clock: &DocumentClock) -> (resumed: Result<bool, DocumentClockError>)
        ensures
            (*final(self), resumed) == old(self).resumed(*clock),
            old(self).suspended_at is None ==> resumed == Ok::<bool, DocumentClockError>(false)
                && *final(self) == *old(self),
            old(self).suspended_at is Some && clock.reading is Ok && old(self).offset_after(
                clock.now(),
            ) <= MAX_SPAN ==> {
                &&& resumed == Ok::<bool, DocumentClockError>(true)
                &&& *final(self) == (TimerTimebase {
                    suspended_at: None,
                    suspension_offset: TimeSpan(old(self).offset_after(clock.now()) as u128),
                })
            },
            old(self).suspended_at is Some && clock.reading is Ok && old(self).offset_after(
                clock.now(),
            ) > MAX_SPAN ==> {
                &&& resumed == Err::<bool, DocumentClockError>(DocumentClockError::Overflow)
                &&& *final(self) == *old(self)
            },
            old(self).suspended_at is Some ==> (clock.reading matches Err(error) ==> {
                &&& resumed == Err::<bool, DocumentClockError>(error)
                &&& *final(self) == *old(self)
            }),
            old(self).wf() ==> final(self).wf(),
    {
        match self.suspended_at {
            None => Ok(false),
            Some(suspended_at) => {
                let clock_time = match clock.try_now() {
                    Ok(time) => time,
                    Err(error) => return Err(error),
                };
                let paused_for = clock_time.saturating_duration_since(suspended_at);
                match self.suspension_offset.checked_add(paused_for) {
                    Some(offset) => {
                        self.suspension_offset = offset;
                        self.suspended_at = None;
                        Ok(true)
                    },
                    None => Err(DocumentClockError::Overflow),
                }
            },
        }
    }
}

/// Timers fire by deadline, and by the order of their creation where deadlines are equal.
pub open spec fn fires_before(
    left_deadline: DocumentTime,
    left_sequence: u64,
    right_deadline: DocumentTime,
    right_sequence: u64,
) -> bool {
    left_deadline.0 < right_deadline.0 || (left_deadline == right_deadline && left_sequence
        < right_sequence)
}

/// Orders two timers with the one that fires first as the greater.
pub fn compare_timer_order(
    left_deadline: DocumentTime,
    left_sequence: u64,
    right_deadline: DocumentTime,
    right_sequence: u64,
) -> (order: Ordering)
    ensures
        order == (if fires_before(left_deadline, left_sequence, right_deadline, right_sequence) {
            Ordering::Greater
        } else if fires_before(right_deadline, right_sequence, left_deadline, left_sequence) {
            Ordering::Less
        } else {
            Ordering::Equal
        }),
{
    if left_deadline.0 < right_deadline.0 {
        Ordering::Greater
    } else if right_deadline.0 < left_deadline.0 {
        Ordering::Less
    } else if left_sequence < right_sequence {
        Ordering::Greater
    } else if right_sequence < left_sequence {
        Ordering::Less
    } else {
        Ordering::Equal
    }
}

/// The shortest delay at a nesting level: four milliseconds above level five.
pub open spec fn nesting_floor(nesting_level: u32) -> TimeSpan {
    if nesting_level > 5 {
        TimeSpan(4_000_000)
    } else {
        TimeSpan(0)
    }
}

/// The delay of a timer that is set at a nesting level.
pub fn clamp_duration(nesting_level: u32, unclamped: TimeSpan) -> (duration: TimeSpan)
    ensures
        duration == unclamped.at_least(nesting_floor(nesting_level)),
{
    let lower_bound_ms: u64 = if nesting_level > 5 {
        4
    } else {
        0
    };
    unclamped.at_least(TimeSpan::from_millis(lower_bound_ms))
}

/// While timers are suspended, timer time stands still however far the clock moves on.
pub proof fn law_suspension_freezes_timer_time(
    timebase: TimerTimebase,
    suspended_at: DocumentTime,
    later: DocumentTime,
)
    requires
        timebase.suspended_at is None,
        timebase.has_time(suspended_at),
    ensures
        ({
            let suspended = TimerTimebase { suspended_at: Some(suspended_at), ..timebase };
            suspended.has_time(later) && suspended.time(later) == timebase.time(suspended_at)
        }),
{
}

/// A suspension shifts timer time by exactly its own length: what elapses outside of it counts, and
/// nothing else.
pub proof fn law_resume_excludes_the_pause(
    timebase: TimerTimebase,
    suspended_at: DocumentTime,
    resumed_at: DocumentTime,
    later: DocumentTime,
)
    requires
        timebase.suspended_at is None,
        timebase.has_time(suspended_at),
        suspended_at.0 <= resumed_at.0 <= later.0,
        timebase.suspension_offset.0 + (resumed_at.0 - suspended_at.0) <= MAX_SPAN,
    ensures
        ({
            let suspended = TimerTimebase { suspended_at: Some(suspended_at), ..timebase };
            let resumed = TimerTimebase {
                suspended_at: None,
                suspension_offset: TimeSpan(suspended.offset_after(resumed_at) as u128),
            };
            &&& resumed.has_time(later)
            &&& resumed.time(later).0 - timebase.time(suspended_at).0 == later.0 - resumed_at.0
        }),
{
}

/// At the moment at which timers resume, timer time is where it stopped.
pub proof fn law_resume_does_not_jump(timebase: TimerTimebase, resumed_at: DocumentTime)
    requires
        timebase.suspended_at matches Some(suspended_at) && suspended_at.0 <= resumed_at.0
            && resumed_at.0 - suspended_at.0 <= MAX_SPAN,
        timebase.offset_after(resumed_at) <= MAX_SPAN,
    ensures
        ({
            let resumed = TimerTimebase {
                suspended_at: None,
                suspension_offset: TimeSpan(timebase.offset_after(resumed_at) as u128),
            };
            &&& resumed.has_time(resumed_at) == timebase.has_time(resumed_at)
            &&& timebase.has_time(resumed_at) ==> resumed.time(resumed_at) == timebase.time(
                resumed_at,
            )
        }),
{
}

/// Stopping timer time twice is stopping it once: timer time stays where it was when it was stopped,
/// whatever the clock says later, until it is let run on. It then runs on from there, and the time in
/// between counts for nothing.
pub proof fn law_timer_time_stands_still_between_suspend_and_resume(
    timebase: TimerTimebase,
    stopped: DocumentClock,
    between: DocumentClock,
    going: DocumentClock,
    later: DocumentTime,
)
    requires
        timebase.suspended_at is None,
        stopped.reading is Ok,
        between.reading is Ok,
        going.reading is Ok,
        timebase.suspension_offset.0 <= stopped.now().0 <= between.now().0 <= going.now().0
            <= later.0,
        timebase.suspension_offset.0 + (going.now().0 - stopped.now().0) <= MAX_SPAN,
    ensures
        ({
            let reached = stopped.now().0 - timebase.suspension_offset.0;
            let (suspended, first) = timebase.suspended(stopped);
            let (again, second) = suspended.suspended(between);
            let (resumed, third) = again.resumed(going);
            let (running, fourth) = resumed.resumed(going);
            &&& first == Ok::<bool, DocumentClockError>(true)
            &&& second == Ok::<bool, DocumentClockError>(false)
            &&& third == Ok::<bool, DocumentClockError>(true)
            &&& fourth == Ok::<bool, DocumentClockError>(false)
            &&& suspended.time(between.now()).0 == reached
            &&& again.time(going.now()).0 == reached
            &&& resumed.time(going.now()).0 == reached
            &&& running.time(later).0 == reached + (later.0 - going.now().0)
        }),
{
}

/// Where a clock cannot be read, or the suspensions would add up to more than the longest span, timer
/// time is neither stopped nor let run on, and the reason is given.
pub proof fn law_failed_suspensions_change_nothing(timebase: TimerTimebase, clock: DocumentClock)
    ensures
        timebase.suspended(clock).1 is Err ==> timebase.suspended(clock).0 == timebase
            && clock.reading is Err && timebase.suspended(clock).1->Err_0 == clock.reading->Err_0,
        timebase.resumed(clock).1 is Err ==> timebase.resumed(clock).0 == timebase
            && timebase.suspended_at is Some,
        timebase.suspended_at is Some && clock.reading is Err ==> timebase.resumed(clock).1
            == Err::<bool, DocumentClockError>(clock.reading->Err_0),
        timebase.suspended_at is Some && clock.reading is Ok && (timebase.suspended_at->0).0
            <= clock.now().0 ==> (timebase.resumed(clock).1 is Err
            <==> timebase.suspension_offset.0 + vstd::math::min(
            clock.now().0 - (timebase.suspended_at->0).0,
            18_446_744_073_709_551_615_999_999_999,
        ) > 18_446_744_073_709_551_615_999_999_999),
{
}

} // verus!
