//! Microtask queues and the checkpoints that run them.
//!
//! A checkpoint alternates between deciding what comes next, which is done here, and running a job,
//! which is left to the event loop.
use crate::clock::DocumentExecutionLedger;
use crate::ids::PipelineId;
use std::collections::VecDeque;
use vstd::prelude::*;

verus! {

/// Controlled-session accounting, shared by the main queue and every nested interrupt queue.
#[derive(Clone, Copy, Debug, PartialEq, Eq)]
pub struct MicrotaskExecutionLedgerSlot {
    pub ledger: Option<DocumentExecutionLedger>,
}

impl MicrotaskExecutionLedgerSlot {
    /// A slot without accounting.
    pub fn empty() -> (slot: Self)
        ensures
            slot.ledger is None,
            slot.wf(),
    {
        MicrotaskExecutionLedgerSlot { ledger: None }
    }

    pub open spec fn wf(self) -> bool {
        self.ledger matches Some(ledger) ==> ledger.wf()
    }

    /// The slot after one more job was asked for.
    pub open spec fn with_job(self) -> MicrotaskExecutionLedgerSlot {
        MicrotaskExecutionLedgerSlot {
            ledger: match self.ledger {
                Some(ledger) => Some(ledger.with_microtask()),
                None => None,
            },
        }
    }

    /// Execution has ended.
    pub open spec fn spec_execution_is_terminal(&self) -> bool {
        self.ledger matches Some(ledger) && ledger.terminal is Some
    }

    /// Execution has ended.
    #[verifier::when_used_as_spec(spec_execution_is_terminal)]
    pub fn execution_is_terminal(&self) -> (terminal: bool)
        ensures
            terminal == self.spec_execution_is_terminal(),
    {
        match &self.ledger {
            Some(ledger) => ledger.observation().terminal.is_some(),
            None => false,
        }
    }

    /// Counts one job before it runs and says whether it may run.
    pub fn begin_microtask_job(&mut self) -> (admitted: bool)
        requires
            old(self).wf(),
        ensures
            *final(self) == old(self).with_job(),
            admitted == !final(self).execution_is_terminal(),
            final(self).wf(),
    {
        match self.ledger {
            Some(ledger) => {
                let mut counted = ledger;
                let admitted = counted.begin_microtask().is_ok();
                self.ledger = Some(counted);
                admitted
            },
            None => true,
        }
    }
}

/// Outcome of attempting one checkpoint.
#[derive(Clone, Copy, Debug, PartialEq, Eq, Structural)]
pub enum MicrotaskCheckpointResult {
    /// A surrounding checkpoint already owns this queue; nothing was done.
    AlreadyPerforming,
    /// The queue drained and all end-of-checkpoint steps completed.
    Completed,
    /// Controlled execution ended and all remaining work was discarded.
    ExecutionTerminated,
}

/// A promise callback that runs in the next checkpoint.
#[derive(Clone, Copy, Debug, PartialEq, Eq)]
pub struct EnqueuedPromiseCallback<C> {
    pub callback: C,
    pub pipeline: PipelineId,
    pub is_user_interacting: bool,
}

/// A microtask that a script queued.
#[derive(Clone, Copy, Debug, PartialEq, Eq)]
pub struct UserMicrotask<C> {
    pub callback: C,
    pub pipeline: PipelineId,
}

/// A microtask. `C` stands for what it calls.
#[derive(Clone, Copy, Debug, PartialEq, Eq)]
pub enum Microtask<C> {
    Promise(EnqueuedPromiseCallback<C>),
    User(UserMicrotask<C>),
    MediaElement(C),
    ImageElement(C),
    TrackElement(C),
    ReadableStreamTeeReadRequest(C),
    WaitForAllSuccessSteps(C),
    ReadableStreamByteTeeReadRequest(C),
    ReadableStreamByteTeeReadIntoRequest(C),
    CustomElementReaction,
    NotifyMutationObservers,
}

impl<C> Microtask<C> {
    /// The document that must still be there for the job to run, if the job asks for one.
    pub fn target_pipeline(&self) -> (target: Option<PipelineId>)
        ensures
            target == (match self {
                Microtask::Promise(job) => Some(job.pipeline),
                Microtask::User(job) => Some(job.pipeline),
                _ => None,
            }),
    {
        match self {
            Microtask::Promise(job) => Some(job.pipeline),
            Microtask::User(job) => Some(job.pipeline),
            _ => None,
        }
    }
}

/// What a checkpoint does next.
#[derive(Clone, Copy, Debug, PartialEq, Eq)]
pub enum CheckpointStep<C> {
    /// It runs a job, after telling the engine that its queue is empty where that is said.
    Run { job: Microtask<C>, notify_queue_empty: bool },
    /// Nothing is left: it notifies about rejected promises, cleans up, and completes.
    Drained,
    /// Controlled execution has ended: it aborts.
    Abort,
}

/// Microtasks in the order in which they were queued.
#[derive(Debug)]
pub struct MicrotaskQueue<C> {
    /// Jobs queued since the running checkpoint last took a batch.
    pub microtask_queue: VecDeque<Microtask<C>>,
    /// What is left of the batch that the running checkpoint has taken.
    pub pending: VecDeque<Microtask<C>>,
    /// A checkpoint owns this queue.
    pub performing_a_microtask_checkpoint: bool,
}

impl<C> MicrotaskQueue<C> {
    /// Only a checkpoint has a batch.
    pub open spec fn wf(&self) -> bool {
        !self.performing_a_microtask_checkpoint ==> self.pending@.len() == 0
    }

    /// Every job that has not run, in order.
    pub open spec fn jobs(&self) -> Seq<Microtask<C>> {
        self.pending@ + self.microtask_queue@
    }

    /// An empty queue.
    pub fn new() -> (queue: Self)
        ensures
            queue.jobs().len() == 0,
            !queue.performing_a_microtask_checkpoint,
            queue.wf(),
    {
        MicrotaskQueue {
            microtask_queue: VecDeque::new(),
            pending: VecDeque::new(),
            performing_a_microtask_checkpoint: false,
        }
    }

    /// Installs accounting, before any job is queued.
    pub fn install_execution_ledger(
        &self,
        slot: &mut MicrotaskExecutionLedgerSlot,
        ledger: Option<DocumentExecutionLedger>,
    )
        requires
            self.microtask_queue@.len() == 0,
            !self.performing_a_microtask_checkpoint,
        ensures
            final(slot).ledger == ledger,
    {
        slot.ledger = ledger;
    }

    /// Adds a job behind all others.
    pub fn enqueue(&mut self, job: Microtask<C>)
        requires
            old(self).wf(),
        ensures
            final(self).microtask_queue@ == old(self).microtask_queue@.push(job),
            final(self).pending@ == old(self).pending@,
            final(self).jobs() == old(self).jobs().push(job),
            final(self).performing_a_microtask_checkpoint == old(
                self,
            ).performing_a_microtask_checkpoint,
            final(self).wf(),
    {
        let ghost before = self.jobs();
        self.microtask_queue.push_back(job);
        assert(self.jobs() =~= before.push(job));
    }

    /// Starts a checkpoint unless one is running.
    pub fn begin_checkpoint(&mut self) -> (result: Result<(), MicrotaskCheckpointResult>)
        requires
            old(self).wf(),
        ensures
            old(self).performing_a_microtask_checkpoint ==> result == Err::<(), _>(
                MicrotaskCheckpointResult::AlreadyPerforming,
            ) && *final(self) == *old(self),
            !old(self).performing_a_microtask_checkpoint ==> {
                &&& result is Ok
                &&& final(self).microtask_queue == old(self).microtask_queue
                &&& final(self).pending == old(self).pending
            },
            final(self).performing_a_microtask_checkpoint,
            final(self).wf(),
    {
        if self.performing_a_microtask_checkpoint {
            return Err(MicrotaskCheckpointResult::AlreadyPerforming);
        }
        self.performing_a_microtask_checkpoint = true;
        Ok(())
    }

    /// The next step of a running checkpoint, on the jobs of a queue, with the jobs and the slot that
    /// it leaves.
    pub open spec fn stepped(
        jobs: Seq<Microtask<C>>,
        slot: MicrotaskExecutionLedgerSlot,
        after_job: bool,
    ) -> (Seq<Microtask<C>>, MicrotaskExecutionLedgerSlot, CheckpointStep<C>) {
        if after_job && slot.execution_is_terminal() {
            (jobs, slot, CheckpointStep::Abort)
        } else if jobs.len() == 0 {
            (jobs, slot, CheckpointStep::Drained)
        } else if slot.with_job().execution_is_terminal() {
            (jobs.drop_first(), slot.with_job(), CheckpointStep::Abort)
        } else {
            (
                jobs.drop_first(),
                slot.with_job(),
                CheckpointStep::Run { job: jobs[0], notify_queue_empty: jobs.len() == 1 },
            )
        }
    }

    /// The next step of a running checkpoint, at its start or after a job has run. A job is counted
    /// before it is handed out; once execution has ended, by that count or within a job, no further
    /// job is.
    pub fn checkpoint(
        &mut self,
        slot: &mut MicrotaskExecutionLedgerSlot,
        after_job: bool,
    ) -> (step: CheckpointStep<C>)
        requires
            old(self).wf(),
            old(self).performing_a_microtask_checkpoint,
            old(slot).wf(),
        ensures
            (final(self).jobs(), *final(slot), step) == MicrotaskQueue::stepped(
                old(self).jobs(),
                *old(slot),
                after_job,
            ),
            final(self).performing_a_microtask_checkpoint,
            final(self).wf(),
            final(slot).wf(),
            ({
                let jobs = old(self).jobs();
                if after_job && old(slot).execution_is_terminal() {
                    &&& step is Abort
                    &&& *final(slot) == *old(slot)
                    &&& *final(self) == *old(self)
                } else if jobs.len() == 0 {
                    &&& step is Drained
                    &&& *final(slot) == *old(slot)
                    &&& *final(self) == *old(self)
                } else {
                    &&& *final(slot) == old(slot).with_job()
                    &&& step == (if final(slot).execution_is_terminal() {
                        CheckpointStep::Abort
                    } else {
                        CheckpointStep::Run {
                            job: jobs[0],
                            notify_queue_empty: jobs.len() == 1,
                        }
                    })
                    &&& final(self).jobs() == jobs.drop_first()
                    &&& final(self).microtask_queue@ == (if old(self).pending@.len() == 0 {
                        Seq::empty()
                    } else {
                        old(self).microtask_queue@
                    })
                }
            }),
    {
        if after_job && slot.execution_is_terminal() {
            return CheckpointStep::Abort;
        }
        let ghost jobs = self.jobs();
        if self.pending.len() == 0 {
            if self.microtask_queue.len() == 0 {
                return CheckpointStep::Drained;
            }
            std::mem::swap(&mut self.pending, &mut self.microtask_queue);
            assert(self.microtask_queue@ =~= Seq::empty());
            assert(self.jobs() =~= jobs);
        }
        let ghost batch = self.pending@;
        match self.pending.pop_front() {
            Some(job) => {
                assert(job == jobs[0]);
                assert(self.jobs() =~= jobs.drop_first());
                if !slot.begin_microtask_job() {
                    return CheckpointStep::Abort;
                }
                let notify_queue_empty = self.pending.len() == 0 && self.microtask_queue.len() == 0;
                CheckpointStep::Run { job, notify_queue_empty }
            },
            None => CheckpointStep::Drained,
        }
    }

    /// Ends a checkpoint whose steps are all done.
    pub fn complete_checkpoint(&mut self) -> (result: MicrotaskCheckpointResult)
        requires
            old(self).pending@.len() == 0,
        ensures
            result is Completed,
            !final(self).performing_a_microtask_checkpoint,
            final(self).microtask_queue == old(self).microtask_queue,
            final(self).pending == old(self).pending,
            final(self).wf(),
    {
        self.performing_a_microtask_checkpoint = false;
        MicrotaskCheckpointResult::Completed
    }

    /// Ends a checkpoint whose execution has ended: discards every job, also those that the last
    /// job queued, and notifies that the queue is empty.
    pub fn abort_terminal_checkpoint<F: FnOnce()>(&mut self, notify_job_queue_empty: F) -> (result:
        MicrotaskCheckpointResult)
        requires
            call_requires(notify_job_queue_empty, ()),
        ensures
            result is ExecutionTerminated,
            final(self).jobs().len() == 0,
            !final(self).performing_a_microtask_checkpoint,
            final(self).wf(),
            call_ensures(notify_job_queue_empty, (), ()),
    {
        self.pending.clear();
        self.microtask_queue.clear();
        notify_job_queue_empty();
        self.performing_a_microtask_checkpoint = false;
        MicrotaskCheckpointResult::ExecutionTerminated
    }

    /// No job has been queued since the running checkpoint last took a batch.
    pub fn empty(&self) -> (empty: bool)
        ensures
            empty == (self.microtask_queue@.len() == 0),
    {
        self.microtask_queue.len() == 0
    }

    /// Discards the queued jobs; a running checkpoint keeps its batch.
    pub fn clear(&mut self)
        requires
            old(self).wf(),
        ensures
            final(self).microtask_queue@.len() == 0,
            final(self).pending@ == old(self).pending@,
            final(self).performing_a_microtask_checkpoint == old(
                self,
            ).performing_a_microtask_checkpoint,
            final(self).wf(),
    {
        self.microtask_queue.clear();
    }
}

/// The ledger after `count` jobs were asked for.
pub open spec fn after_jobs(ledger: DocumentExecutionLedger, count: nat) -> DocumentExecutionLedger
    decreases count,
{
    if count == 0 {
        ledger
    } else {
        after_jobs(ledger, (count - 1) as nat).with_microtask()
    }
}

/// A job that queues itself again and again is cut off: of `count` jobs that are asked for, those
/// within the limit run, and the first one beyond it ends execution.
pub proof fn law_microtask_budget_cuts_off(ledger: DocumentExecutionLedger, count: nat)
    requires
        ledger.wf(),
        ledger.terminal is None,
    ensures
        after_jobs(ledger, count).wf(),
        after_jobs(ledger, count).limits == ledger.limits,
        ledger.counters.microtasks + count <= ledger.limits.microtasks ==> {
            &&& after_jobs(ledger, count).terminal is None
            &&& after_jobs(ledger, count).counters.microtasks == ledger.counters.microtasks + count
        },
        ledger.counters.microtasks + count > ledger.limits.microtasks ==> {
            &&& after_jobs(ledger, count).terminal == Some(
                crate::clock::DocumentExecutionTerminal::BudgetExceeded {
                    budget: crate::clock::DocumentExecutionBudget::Microtasks,
                    limit: ledger.limits.microtasks,
                    observed: crate::clock::beyond(ledger.limits.microtasks),
                },
            )
            &&& after_jobs(ledger, count).counters.microtasks == ledger.limits.microtasks
        },
    decreases count,
{
    if count > 0 {
        law_microtask_budget_cuts_off(ledger, (count - 1) as nat);
    }
}

/// An execution that has ended stays ended, for the reason that ended it, and counts nothing more.
pub proof fn law_end_of_execution_is_final(ledger: DocumentExecutionLedger)
    requires
        ledger.terminal is Some,
    ensures
        ledger.with_microtask() == ledger,
        ledger.with_mutation() == ledger,
{
}

/// A checkpoint runs jobs in the order in which they were queued, those that are queued meanwhile
/// behind all that were there, and is done exactly when none is left. Only the last job that is there
/// leaves the queue empty.
pub proof fn law_jobs_run_in_the_order_they_were_queued<C>(
    jobs: Seq<Microtask<C>>,
    queued_meanwhile: Seq<Microtask<C>>,
    slot: MicrotaskExecutionLedgerSlot,
)
    requires
        slot.ledger is None,
    ensures
        ({
            let (left, same, step) = MicrotaskQueue::stepped(jobs, slot, false);
            let (more, _, next) = MicrotaskQueue::stepped(left + queued_meanwhile, same, true);
            &&& same == slot
            &&& step is Drained <==> jobs.len() == 0
            &&& !(step is Abort)
            &&& jobs.len() > 0 ==> {
                &&& step matches CheckpointStep::Run { job, notify_queue_empty } && job == jobs[0]
                    && notify_queue_empty == (jobs.len() == 1)
                &&& left.len() == jobs.len() - 1
                &&& jobs.len() > 1 ==> next is Run && next->job == jobs[1]
                &&& jobs.len() == 1 && queued_meanwhile.len() > 0 ==> next is Run && next->job
                    == queued_meanwhile[0]
                &&& jobs.len() == 1 && queued_meanwhile.len() == 0 ==> next is Drained
                &&& forall|i: int|
                    0 <= i < left.len() ==> #[trigger] left[i] == jobs[i + 1]
            }
        }),
{
    let (left, same, step) = MicrotaskQueue::stepped(jobs, slot, false);
    if jobs.len() > 1 {
        assert((left + queued_meanwhile)[0] == jobs[1]);
    } else if jobs.len() == 1 && queued_meanwhile.len() > 0 {
        assert((left + queued_meanwhile)[0] == queued_meanwhile[0]);
    }
}

/// Each job that runs is counted before it runs. No job runs once execution has ended, nor the one
/// that would pass the limit: the checkpoint is aborted then.
pub proof fn law_no_job_runs_beyond_the_limit<C>(
    jobs: Seq<Microtask<C>>,
    ledger: DocumentExecutionLedger,
    after_job: bool,
)
    requires
        ledger.wf(),
        jobs.len() > 0,
    ensures
        ({
            let slot = MicrotaskExecutionLedgerSlot { ledger: Some(ledger) };
            let (left, counted, step) = MicrotaskQueue::stepped(jobs, slot, after_job);
            let room = ledger.terminal is None && ledger.counters.microtasks
                < ledger.limits.microtasks;
            &&& counted.ledger is Some
            &&& step is Run <==> room
            &&& step is Abort <==> !room
            &&& room ==> {
                &&& counted.ledger->0.counters.microtasks == ledger.counters.microtasks + 1
                &&& counted.ledger->0.counters.mutations == ledger.counters.mutations
                &&& counted.ledger->0.limits == ledger.limits
                &&& counted.ledger->0.terminal is None
            }
            &&& !room ==> counted.ledger->0.terminal is Some
                && counted.ledger->0.counters.microtasks == ledger.counters.microtasks
            &&& ledger.terminal is Some ==> counted.ledger->0 == ledger
        }),
{
}

/// Mutation records are counted up to their limit, and the first one beyond it ends execution; they
/// leave microtasks uncounted.
pub proof fn law_mutations_are_counted_up_to_their_limit(ledger: DocumentExecutionLedger)
    requires
        ledger.wf(),
        ledger.terminal is None,
    ensures
        ({
            let after = ledger.with_mutation();
            let room = ledger.counters.mutations < ledger.limits.mutations;
            &&& after.counters.microtasks == ledger.counters.microtasks
            &&& after.limits == ledger.limits
            &&& room ==> after.counters.mutations == ledger.counters.mutations + 1
                && after.terminal is None
            &&& !room ==> after.counters.mutations == ledger.counters.mutations
                && after.terminal == Some(
                crate::clock::DocumentExecutionTerminal::BudgetExceeded {
                    budget: crate::clock::DocumentExecutionBudget::Mutations,
                    limit: ledger.limits.mutations,
                    observed: if ledger.limits.mutations < u64::MAX {
                        (ledger.limits.mutations + 1) as u64
                    } else {
                        u64::MAX
                    },
                },
            )
        }),
{
}

} // verus!
