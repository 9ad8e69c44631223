//! Document time, and the accounting of controlled execution.
use vstd::prelude::*;

verus! {

/// The longest span: as many seconds as 64 bits count, and a nanosecond less than one more.
pub const MAX_SPAN: u128 = 18_446_744_073_709_551_615_999_999_999;

/// A span of time in whole nanoseconds, no longer than [`MAX_SPAN`].
#[derive(Clone, Copy, Debug, PartialEq, Eq, PartialOrd, Ord, Hash, Structural)]
pub struct TimeSpan(pub u128);

impl TimeSpan {
    /// The span is not longer than the longest.
    pub open spec fn wf(self) -> bool {
        self.0 <= MAX_SPAN
    }

    /// No time at all.
    pub fn zero() -> (span: Self)
        ensures
            span == TimeSpan(0),
            span.wf(),
    {
        TimeSpan(0)
    }

    pub fn from_nanos(nanos: u64) -> (span: Self)
        ensures
            span == TimeSpan(nanos as u128),
            span.wf(),
    {
        TimeSpan(nanos as u128)
    }

    pub fn from_millis(milliseconds: u64) -> (span: Self)
        ensures
            span.0 == milliseconds * 1_000_000,
            span.wf(),
    {
        TimeSpan(milliseconds as u128 * 1_000_000)
    }

    /// Both spans together, where they are not longer than the longest.
    pub fn checked_add(self, span: TimeSpan) -> (total: Option<TimeSpan>)
        ensures
            total == (if self.0 + span.0 <= MAX_SPAN {
                Some(TimeSpan((self.0 + span.0) as u128))
            } else {
                None
            }),
    {
        match self.0.checked_add(span.0) {
            Some(nanos) if nanos <= MAX_SPAN => Some(TimeSpan(nanos)),
            _ => None,
        }
    }

    pub open spec fn spec_at_least(self, floor: TimeSpan) -> TimeSpan {
        if self.0 < floor.0 {
            floor
        } else {
            self
        }
    }

    /// The longer of two spans.
    #[verifier::when_used_as_spec(spec_at_least)]
    pub fn at_least(self, floor: TimeSpan) -> (span: TimeSpan)
        ensures
            span == self.spec_at_least(floor),
            self.wf() && floor.wf() ==> span.wf(),
    {
        if self.0 < floor.0 {
            floor
        } else {
            self
        }
    }
}

/// Why a reading or a calculation of document time failed.
#[derive(Clone, Copy, Debug, PartialEq, Eq, Structural)]
pub enum DocumentClockError {
    /// The result does not fit.
    Overflow,
    /// The result lies before the start of document time.
    Underflow,
    /// The clock would run backwards.
    NotMonotonic,
}

/// A point of document time: nanoseconds since its start.
#[derive(Clone, Copy, Debug, Eq, PartialOrd, Ord, Hash)]
pub struct DocumentTime(pub u128);

impl PartialEq for DocumentTime {
    fn eq(&self, other: &Self) -> (same: bool) {
        self.0 == other.0
    }
}

impl vstd::std_specs::cmp::PartialEqSpecImpl for DocumentTime {
    open spec fn obeys_eq_spec() -> bool {
        true
    }

    open spec fn eq_spec(&self, other: &Self) -> bool {
        self.0 == other.0
    }
}

impl DocumentTime {
    pub fn from_nanos(nanos: u128) -> (time: Self)
        ensures
            time == DocumentTime(nanos),
    {
        DocumentTime(nanos)
    }

    pub fn as_nanos(self) -> (nanos: u128)
        ensures
            nanos == self.0,
    {
        self.0
    }

    /// The point `span` later, where it can be told.
    pub open spec fn later(self, span: TimeSpan) -> Result<DocumentTime, DocumentClockError> {
        if self.0 + span.0 <= u128::MAX {
            Ok(DocumentTime((self.0 + span.0) as u128))
        } else {
            Err(DocumentClockError::Overflow)
        }
    }

    /// The point `span` earlier, where it can be told.
    pub open spec fn earlier(self, span: TimeSpan) -> Result<DocumentTime, DocumentClockError> {
        if self.0 >= span.0 {
            Ok(DocumentTime((self.0 - span.0) as u128))
        } else {
            Err(DocumentClockError::Underflow)
        }
    }

    /// The point `span` later.
    pub fn checked_add(self, span: TimeSpan) -> (time: Result<DocumentTime, DocumentClockError>)
        ensures
            time == self.later(span),
            time == (if self.0 + span.0 <= u128::MAX {
                Ok(DocumentTime((self.0 + span.0) as u128))
            } else {
                Err(DocumentClockError::Overflow)
            }),
    {
        match self.0.checked_add(span.0) {
            Some(nanos) => Ok(DocumentTime(nanos)),
            None => Err(DocumentClockError::Overflow),
        }
    }

    /// The point `span` earlier.
    pub fn checked_sub(self, span: TimeSpan) -> (time: Result<DocumentTime, DocumentClockError>)
        ensures
            time == self.earlier(span),
            time == (if self.0 >= span.0 {
                Ok(DocumentTime((self.0 - span.0) as u128))
            } else {
                Err(DocumentClockError::Underflow)
            }),
    {
        if self.0 >= span.0 {
            Ok(DocumentTime(self.0 - span.0))
        } else {
            Err(DocumentClockError::Underflow)
        }
    }

    pub open spec fn spec_since(self, earlier: DocumentTime) -> TimeSpan {
        if self.0 < earlier.0 {
            TimeSpan(0)
        } else if self.0 - earlier.0 > MAX_SPAN {
            TimeSpan(MAX_SPAN)
        } else {
            TimeSpan((self.0 - earlier.0) as u128)
        }
    }

    /// The span since `earlier`: none where that is later, and the longest where it is too long for
    /// a span.
    #[verifier::when_used_as_spec(spec_since)]
    pub fn saturating_duration_since(self, earlier: DocumentTime) -> (span: TimeSpan)
        ensures
            span == self.spec_since(earlier),
            span.wf(),
    {
        if self.0 < earlier.0 {
            TimeSpan(0)
        } else if self.0 - earlier.0 > MAX_SPAN {
            TimeSpan(MAX_SPAN)
        } else {
            TimeSpan(self.0 - earlier.0)
        }
    }
}

/// A clock that only moves when it is told to. It holds what a reading gives: the time, or why there
/// is none.
#[derive(Clone, Copy, Debug, PartialEq, Eq)]
pub struct DocumentClock {
    pub id: DocumentClockId,
    pub reading: Result<DocumentTime, DocumentClockError>,
}

impl DocumentClock {
    pub fn new(id: DocumentClockId, initial_time: DocumentTime) -> (clock: Self)
        ensures
            clock == (DocumentClock { id, reading: Ok(initial_time) }),
    {
        DocumentClock { id, reading: Ok(initial_time) }
    }

    /// The current time, where the clock can be read.
    pub open spec fn now(self) -> DocumentTime {
        self.reading->Ok_0
    }

    /// The current time, or why there is none.
    pub fn try_now(&self) -> (reading: Result<DocumentTime, DocumentClockError>)
        ensures
            reading == self.reading,
    {
        self.reading
    }

    /// The clock once it was told to move to `time`, and whether it did.
    pub open spec fn advanced(self, time: DocumentTime) -> (
        DocumentClock,
        Result<(), DocumentClockError>,
    ) {
        match self.reading {
            Err(error) => (self, Err(error)),
            Ok(now) => if time.0 < now.0 {
                (self, Err(DocumentClockError::NotMonotonic))
            } else {
                (DocumentClock { reading: Ok(time), ..self }, Ok(()))
            },
        }
    }

    /// Moves the clock forward, where it can be read.
    pub fn advance_to(&mut self, time: DocumentTime) -> (result: Result<(), DocumentClockError>)
        ensures
            (*final(self), result) == old(self).advanced(time),
            final(self).id == old(self).id,
            old(self).reading matches Ok(now) && time.0 >= now.0 ==> {
                &&& result == Ok::<(), DocumentClockError>(())
                &&& final(self).reading == Ok::<DocumentTime, DocumentClockError>(time)
            },
            old(self).reading matches Ok(now) && time.0 < now.0 ==> {
                &&& result == Err::<(), DocumentClockError>(DocumentClockError::NotMonotonic)
                &&& *final(self) == *old(self)
            },
            old(self).reading matches Err(error) ==> {
                &&& result == Err::<(), DocumentClockError>(error)
                &&& *final(self) == *old(self)
            },
    {
        match self.reading {
            Ok(now) => {
                if time.0 < now.0 {
                    return Err(DocumentClockError::NotMonotonic);
                }
                self.reading = Ok(time);
                Ok(())
            },
            Err(error) => Err(error),
        }
    }
}

/// The domain of a document clock.
#[derive(Clone, Copy, Debug, Eq, Hash)]
pub struct DocumentClockId(pub u64);

impl PartialEq for DocumentClockId {
    fn eq(&self, other: &Self) -> (same: bool) {
        self.0 == other.0
    }
}

impl vstd::std_specs::cmp::PartialEqSpecImpl for DocumentClockId {
    open spec fn obeys_eq_spec() -> bool {
        true
    }

    open spec fn eq_spec(&self, other: &Self) -> bool {
        self.0 == other.0
    }
}

/// The timer that is due next, and when.
#[derive(Clone, Copy, Debug, PartialEq, Eq)]
pub struct TimerDeadlineSnapshot {
    pub timer_id: u64,
    pub deadline: DocumentTime,
}

/// The fence that the producers of an event loop share.
#[derive(Clone, Copy, Debug, Eq, Hash)]
pub struct DocumentProducerFenceId(pub u64);

impl PartialEq for DocumentProducerFenceId {
    fn eq(&self, other: &Self) -> (same: bool) {
        self.0 == other.0
    }
}

impl vstd::std_specs::cmp::PartialEqSpecImpl for DocumentProducerFenceId {
    open spec fn obeys_eq_spec() -> bool {
        true
    }

    open spec fn eq_spec(&self, other: &Self) -> bool {
        self.0 == other.0
    }
}

/// The number of completed microtask checkpoints.
#[derive(Clone, Copy, Debug, Eq, PartialOrd, Ord, Hash)]
pub struct DocumentProducerCheckpoint(pub u64);

impl PartialEq for DocumentProducerCheckpoint {
    fn eq(&self, other: &Self) -> (same: bool) {
        self.0 == other.0
    }
}

impl vstd::std_specs::cmp::PartialEqSpecImpl for DocumentProducerCheckpoint {
    open spec fn obeys_eq_spec() -> bool {
        true
    }

    open spec fn eq_spec(&self, other: &Self) -> bool {
        self.0 == other.0
    }
}

impl DocumentProducerCheckpoint {
    /// Before the first checkpoint.
    pub fn zero() -> (checkpoint: Self)
        ensures
            checkpoint == DocumentProducerCheckpoint(0),
    {
        DocumentProducerCheckpoint(0)
    }

    /// The checkpoint after this one, unless the count is exhausted.
    pub fn checked_next(self) -> (next: Option<Self>)
        ensures
            next == (if self.0 < u64::MAX {
                Some(DocumentProducerCheckpoint((self.0 + 1) as u64))
            } else {
                None
            }),
    {
        match self.0.checked_add(1) {
            Some(count) => Some(DocumentProducerCheckpoint(count)),
            None => None,
        }
    }
}

/// How much producers have started and finished.
#[derive(Clone, Copy, Debug, PartialEq, Eq, Structural)]
pub struct DocumentProducerSnapshot {
    pub enqueued: u64,
    pub completed: u64,
    pub pending: u64,
}

impl DocumentProducerSnapshot {
    pub open spec fn spec_is_empty(&self) -> bool {
        self.pending == 0
    }

    /// No producer is live.
    #[verifier::when_used_as_spec(spec_is_empty)]
    pub fn is_empty(&self) -> (empty: bool)
        ensures
            empty == self.spec_is_empty(),
    {
        self.pending == 0
    }
}

/// What controlled execution may use at most.
#[derive(Clone, Copy, Debug, PartialEq, Eq)]
pub struct DocumentExecutionLimits {
    pub ordinary_tasks: u64,
    pub microtasks: u64,
    pub rendering_opportunities: u64,
    pub mutations: u64,
    pub virtual_span: Option<TimeSpan>,
}

/// What controlled execution has used.
#[derive(Clone, Copy, Debug, PartialEq, Eq, Structural)]
pub struct DocumentExecutionCounters {
    pub ordinary_tasks: u64,
    pub microtasks: u64,
    pub rendering_opportunities: u64,
    pub mutations: u64,
}

/// A limit of controlled execution.
#[derive(Clone, Copy, Debug, PartialEq, Eq, Structural)]
pub enum DocumentExecutionBudget {
    OrdinaryTasks,
    Microtasks,
    RenderingOpportunities,
    Mutations,
}

/// Why controlled execution ended.
#[derive(Clone, Copy, Debug, PartialEq, Eq, Structural)]
pub enum DocumentExecutionTerminal {
    BudgetExceeded { budget: DocumentExecutionBudget, limit: u64, observed: u64 },
}

/// The state of controlled execution.
#[derive(Clone, Copy, Debug, PartialEq, Eq)]
pub struct DocumentExecutionObservation {
    pub limits: DocumentExecutionLimits,
    pub counters: DocumentExecutionCounters,
    pub terminal: Option<DocumentExecutionTerminal>,
}

/// Counts what controlled execution uses. The first use beyond a limit ends execution for good.
#[derive(Clone, Copy, Debug, PartialEq, Eq)]
pub struct DocumentExecutionLedger {
    pub limits: DocumentExecutionLimits,
    pub counters: DocumentExecutionCounters,
    pub terminal: Option<DocumentExecutionTerminal>,
}

impl DocumentExecutionLedger {
    /// Nothing is counted beyond its limit.
    pub open spec fn wf(self) -> bool {
        &&& self.counters.microtasks <= self.limits.microtasks
        &&& self.counters.mutations <= self.limits.mutations
    }

    /// Nothing used yet.
    pub fn new(limits: DocumentExecutionLimits) -> (ledger: Self)
        ensures
            ledger.limits == limits,
            ledger.counters == (DocumentExecutionCounters {
                ordinary_tasks: 0,
                microtasks: 0,
                rendering_opportunities: 0,
                mutations: 0,
            }),
            ledger.terminal is None,
            ledger.wf(),
    {
        DocumentExecutionLedger {
            limits,
            counters: DocumentExecutionCounters {
                ordinary_tasks: 0,
                microtasks: 0,
                rendering_opportunities: 0,
                mutations: 0,
            },
            terminal: None,
        }
    }

    /// The current state.
    pub fn observation(&self) -> (observation: DocumentExecutionObservation)
        ensures
            observation == (DocumentExecutionObservation {
                limits: self.limits,
                counters: self.counters,
                terminal: self.terminal,
            }),
    {
        DocumentExecutionObservation {
            limits: self.limits,
            counters: self.counters,
            terminal: self.terminal,
        }
    }

    /// The ledger after one more microtask was asked for.
    pub open spec fn with_microtask(self) -> DocumentExecutionLedger {
        if self.terminal is Some {
            self
        } else if self.counters.microtasks < self.limits.microtasks {
            DocumentExecutionLedger {
                counters: DocumentExecutionCounters {
                    microtasks: (self.counters.microtasks + 1) as u64,
                    ..self.counters
                },
                ..self
            }
        } else {
            DocumentExecutionLedger {
                terminal: Some(
                    DocumentExecutionTerminal::BudgetExceeded {
                        budget: DocumentExecutionBudget::Microtasks,
                        limit: self.limits.microtasks,
                        observed: beyond(self.limits.microtasks),
                    },
                ),
                ..self
            }
        }
    }

    /// Counts one microtask before it runs. One that exceeds the limit, or that comes after the
    /// end of execution, is refused.
    pub fn begin_microtask(&mut self) -> (admitted: Result<(), DocumentExecutionTerminal>)
        requires
            old(self).wf(),
        ensures
            *final(self) == old(self).with_microtask(),
            admitted == (match final(self).terminal {
                Some(terminal) => Err(terminal),
                None => Ok(()),
            }),
            final(self).wf(),
    {
        match self.terminal {
            Some(terminal) => Err(terminal),
            None => {
                if self.counters.microtasks < self.limits.microtasks {
                    self.counters.microtasks = self.counters.microtasks + 1;
                    Ok(())
                } else {
                    let terminal = DocumentExecutionTerminal::BudgetExceeded {
                        budget: DocumentExecutionBudget::Microtasks,
                        limit: self.limits.microtasks,
                        observed: self.limits.microtasks.saturating_add(1),
                    };
                    self.terminal = Some(terminal);
                    Err(terminal)
                }
            },
        }
    }

    /// The ledger after one more mutation record.
    pub open spec fn with_mutation(self) -> DocumentExecutionLedger {
        if self.terminal is Some {
            self
        } else if self.counters.mutations < self.limits.mutations {
            DocumentExecutionLedger {
                counters: DocumentExecutionCounters {
                    mutations: (self.counters.mutations + 1) as u64,
                    ..self.counters
                },
                ..self
            }
        } else {
            DocumentExecutionLedger {
                terminal: Some(
                    DocumentExecutionTerminal::BudgetExceeded {
                        budget: DocumentExecutionBudget::Mutations,
                        limit: self.limits.mutations,
                        observed: beyond(self.limits.mutations),
                    },
                ),
                ..self
            }
        }
    }

    /// Counts one mutation record. It is not refused; one that exceeds the limit ends execution.
    pub fn record_mutation_record(&mut self)
        requires
            old(self).wf(),
        ensures
            *final(self) == old(self).with_mutation(),
            final(self).wf(),
    {
        if self.terminal.is_none() {
            if self.counters.mutations < self.limits.mutations {
                self.counters.mutations = self.counters.mutations + 1;
            } else {
                self.terminal = Some(
                    DocumentExecutionTerminal::BudgetExceeded {
                        budget: DocumentExecutionBudget::Mutations,
                        limit: self.limits.mutations,
                        observed: self.limits.mutations.saturating_add(1),
                    },
                );
            }
        }
    }
}

/// The count that first exceeds a limit.
pub open spec fn beyond(limit: u64) -> u64 {
    if limit < u64::MAX {
        (limit + 1) as u64
    } else {
        u64::MAX
    }
}

/// A clock that can be read never runs backwards and never stops being readable: told a time that is
/// not earlier it reads that time, told an earlier one it says so and stays. One that cannot be read
/// stays so, for the same reason. Told two times one after the other, it reads the later one of those
/// that it took.
pub proof fn law_clock_never_runs_backwards(
    clock: DocumentClock,
    first: DocumentTime,
    second: DocumentTime,
)
    ensures
        ({
            let (once, moved) = clock.advanced(first);
            let (twice, moved_again) = once.advanced(second);
            &&& once.id == clock.id
            &&& once.reading is Ok <==> clock.reading is Ok
            &&& moved is Err ==> once == clock
            &&& clock.reading matches Err(error) ==> moved == Err::<(), DocumentClockError>(error)
            &&& clock.reading matches Ok(now) ==> {
                &&& now.0 <= once.now().0
                &&& moved is Ok <==> now.0 <= first.0
                &&& moved is Ok ==> once.now().0 == first.0
                &&& moved is Err ==> moved == Err::<(), DocumentClockError>(
                    DocumentClockError::NotMonotonic,
                )
                &&& first.0 <= second.0 && moved is Ok ==> moved_again is Ok
                &&& second.0 < first.0 && moved is Ok ==> moved_again is Err
            }
        }),
{
}

/// A span later and the same span earlier is the same point again, and so the other way round. A
/// later point lies as far ahead as the span is long, and is told unless it cannot be counted; an
/// earlier one is told unless it lies before the start.
pub proof fn law_later_and_earlier_undo_each_other(time: DocumentTime, span: TimeSpan)
    requires
        span.wf(),
    ensures
        time.later(span) matches Ok(reached) ==> {
            &&& reached.0 - time.0 == span.0
            &&& reached.earlier(span) == Ok::<DocumentTime, DocumentClockError>(time)
            &&& reached.spec_since(time) == span
            &&& time.spec_since(reached).0 == 0
        },
        time.earlier(span) matches Ok(reached) ==> {
            &&& time.0 - reached.0 == span.0
            &&& reached.later(span) == Ok::<DocumentTime, DocumentClockError>(time)
        },
        time.later(span) == Err::<DocumentTime, DocumentClockError>(DocumentClockError::Overflow)
            <==> time.0 + span.0 > u128::MAX,
        time.later(span) is Ok <==> time.0 + span.0 <= u128::MAX,
        time.earlier(span) == Err::<DocumentTime, DocumentClockError>(
            DocumentClockError::Underflow,
        ) <==> span.0 > time.0,
        time.earlier(span) is Ok <==> span.0 <= time.0,
{
}

/// The longer of two spans is one of them and not shorter than either.
pub proof fn law_longer_span_is_one_of_both(left: TimeSpan, right: TimeSpan)
    ensures
        left.spec_at_least(right) == left || left.spec_at_least(right) == right,
        left.spec_at_least(right).0 >= left.0,
        left.spec_at_least(right).0 >= right.0,
{
}

} // verus!
