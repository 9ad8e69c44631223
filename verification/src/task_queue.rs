//! The task queue of an event loop: tasks of inactive documents are held back, low-priority tasks
//! are throttled while the loop is busy, and everything else runs in the order of arrival.
pub mod laws;
pub mod order_laws;
pub mod waking;

use crate::fx::holds_key;
use crate::ids::PipelineId;
use crate::task_queue::waking::{wake, SentWakeUp};
use crossbeam_channel::{Receiver, Sender};
use rustc_hash::FxHashSet;
use std::collections::VecDeque;
use vstd::prelude::*;

verus! {

/// More tasks than this in one iteration make the loop busy.
pub const PER_ITERATION_MAX: u64 = 5;

/// How many wake-ups one controlled turn looks past.
pub const WAKE_SCAN_LIMIT: usize = 64;

/// The end of a channel that messages arrive at.
#[verifier::external_type_specification]
#[verifier::external_body]
#[verifier::reject_recursive_types(T)]
pub struct ExReceiver<T>(crossbeam_channel::Receiver<T>);

/// The next message that is ready on a port, by `crossbeam_channel::Receiver::try_recv`. Which
/// message that is, and whether there is one, depends on the senders; nothing is claimed of it.
#[verifier::external_body]
fn try_receive<P>(port: &Receiver<TaskMessage<P>>) -> (message: Option<TaskMessage<P>>) {
    port.try_recv().ok()
}

/// All messages that are ready on a port, by `crossbeam_channel::Receiver::try_iter`. What has
/// been sent depends on the senders; nothing is claimed of it.
#[verifier::external_body]
fn receive_ready<P>(port: &Receiver<TaskMessage<P>>) -> (messages: VecDeque<TaskMessage<P>>) {
    port.try_iter().collect()
}

/// Where a task comes from. Of all sources only the performance timeline is throttled, and only
/// rendering runs in inactive documents.
#[derive(Clone, Copy, Debug, PartialEq, Eq, Structural)]
pub enum TaskSourceName {
    PerformanceTimeline,
    Rendering,
    Timer,
    Other(u32),
}

/// A task, with the document and the source that it belongs to.
#[derive(Debug, PartialEq, Eq)]
pub struct QueuedTask<P> {
    pub task: P,
    pub pipeline_id: Option<PipelineId>,
    pub task_source: TaskSourceName,
}

/// What arrives at an event loop.
#[derive(Debug, PartialEq, Eq)]
pub enum TaskMessage<P> {
    /// A task to run.
    Task(QueuedTask<P>),
    /// A task has been held back; there is nothing to run.
    Inactive,
    /// The loop is to look at its queues again.
    WakeUp,
    /// Something else, which the queues pass on as it is.
    Other(P),
}

impl<P> TaskMessage<P> {
    pub open spec fn spec_is_wake_up(&self) -> bool {
        self is WakeUp
    }

    #[verifier::when_used_as_spec(spec_is_wake_up)]
    pub fn is_wake_up(&self) -> (wake_up: bool)
        ensures
            wake_up == self.spec_is_wake_up(),
    {
        match self {
            TaskMessage::WakeUp => true,
            _ => false,
        }
    }

    pub open spec fn spec_task_source_name(&self) -> Option<TaskSourceName> {
        match self {
            TaskMessage::Task(queued) => Some(queued.task_source),
            _ => None,
        }
    }

    #[verifier::when_used_as_spec(spec_task_source_name)]
    pub fn task_source_name(&self) -> (source: Option<TaskSourceName>)
        ensures
            source == self.spec_task_source_name(),
    {
        match self {
            TaskMessage::Task(queued) => Some(queued.task_source),
            _ => None,
        }
    }
}

/// Tasks that are held back for one document.
#[derive(Debug)]
pub struct HeldTasks<P> {
    pub pipeline_id: PipelineId,
    pub tasks: VecDeque<QueuedTask<P>>,
}

/// The queues of an event loop.
#[derive(Debug)]
pub struct TaskQueueState<P> {
    /// What the loop takes next.
    pub msg_queue: VecDeque<TaskMessage<P>>,
    /// How many tasks this iteration has been given.
    pub taken_task_counter: u64,
    /// Tasks that wait while the loop is busy.
    pub throttled: VecDeque<QueuedTask<P>>,
    /// Tasks that wait until their document is fully active.
    pub inactive: Vec<HeldTasks<P>>,
}

/// The queues as mathematical sequences.
#[verifier::ext_equal]
pub struct QueueView<P> {
    pub messages: Seq<TaskMessage<P>>,
    pub taken: int,
    pub throttled: Seq<QueuedTask<P>>,
    pub inactive: Seq<(PipelineId, Seq<QueuedTask<P>>)>,
}

impl<P> View for TaskQueueState<P> {
    type V = QueueView<P>;

    open spec fn view(&self) -> QueueView<P> {
        QueueView {
            messages: self.msg_queue@,
            taken: self.taken_task_counter as int,
            throttled: self.throttled@,
            inactive: held_view(self.inactive@),
        }
    }
}

pub open spec fn held_view<P>(held: Seq<HeldTasks<P>>) -> Seq<(PipelineId, Seq<QueuedTask<P>>)> {
    held.map_values(|entry: HeldTasks<P>| (entry.pipeline_id, entry.tasks@))
}

/// The first entry, from `index` on, for a document.
pub open spec fn held_index<P>(
    held: Seq<(PipelineId, Seq<QueuedTask<P>>)>,
    index: int,
    pipeline: PipelineId,
) -> Option<int>
    decreases held.len() - index,
{
    if index < 0 || index >= held.len() {
        None
    } else if held[index].0 == pipeline {
        Some(index)
    } else {
        held_index(held, index + 1, pipeline)
    }
}

/// The tasks that the first `count` entries hold for active documents, in order.
pub open spec fn released<P>(
    held: Seq<(PipelineId, Seq<QueuedTask<P>>)>,
    count: int,
    active: Set<u64>,
) -> Seq<TaskMessage<P>>
    decreases count,
{
    if count <= 0 || count > held.len() {
        Seq::empty()
    } else {
        let before = released(held, count - 1, active);
        if active.contains(held[count - 1].0.0) {
            before + held[count - 1].1.map_values(|task: QueuedTask<P>| TaskMessage::Task(task))
        } else {
            before
        }
    }
}

/// The entries once the tasks of active documents are gone.
pub open spec fn without_released<P>(
    held: Seq<(PipelineId, Seq<QueuedTask<P>>)>,
    active: Set<u64>,
) -> Seq<(PipelineId, Seq<QueuedTask<P>>)> {
    Seq::new(
        held.len(),
        |i: int|
            if active.contains(held[i].0.0) {
                (held[i].0, Seq::empty())
            } else {
                held[i]
            },
    )
}

/// The first `count` messages that are no wake-ups.
pub open spec fn without_wake_ups<P>(messages: Seq<TaskMessage<P>>, count: int) -> Seq<
    TaskMessage<P>,
>
    decreases count,
{
    if count <= 0 || count > messages.len() {
        Seq::empty()
    } else {
        let before = without_wake_ups(messages, count - 1);
        if messages[count - 1].is_wake_up() {
            before
        } else {
            before.push(messages[count - 1])
        }
    }
}

/// Among the first `count` messages, the tasks that are throttled.
pub open spec fn to_throttle<P>(messages: Seq<TaskMessage<P>>, count: int) -> Seq<QueuedTask<P>>
    decreases count,
{
    if count <= 0 || count > messages.len() {
        Seq::empty()
    } else {
        let before = to_throttle(messages, count - 1);
        match messages[count - 1] {
            TaskMessage::Task(queued) => if queued.task_source is PerformanceTimeline {
                before.push(queued)
            } else {
                before
            },
            _ => before,
        }
    }
}

/// One task more. The count only tells a busy loop from an idle one, so it stops at its ceiling.
pub open spec fn counted(taken: int) -> int {
    if taken < u64::MAX {
        taken + 1
    } else {
        taken
    }
}

impl<P> QueueView<P> {
    /// A task waits for its document. Where the loop would find nothing, it finds a note of that.
    pub open spec fn holding(self, task: QueuedTask<P>, pipeline: PipelineId) -> QueueView<P> {
        QueueView {
            messages: if self.messages.len() == 0 {
                seq![TaskMessage::Inactive]
            } else {
                self.messages
            },
            inactive: match held_index(self.inactive, 0, pipeline) {
                Some(index) => self.inactive.update(
                    index,
                    (pipeline, self.inactive[index].1.push(task)),
                ),
                None => self.inactive.push((pipeline, seq![task])),
            },
            ..self
        }
    }

    /// A message is ready to run.
    pub open spec fn with_message(self, message: TaskMessage<P>) -> QueueView<P> {
        QueueView { messages: self.messages.push(message), ..self }
    }

    /// A task that is not throttled goes to the loop, or waits for its document.
    pub open spec fn with_incoming(self, message: TaskMessage<P>, active: Set<u64>) -> QueueView<P> {
        match message {
            TaskMessage::Task(queued) => match queued.pipeline_id {
                Some(pipeline) => if queued.task_source is Rendering || active.contains(
                    pipeline.0,
                ) {
                    self.with_message(message)
                } else {
                    self.holding(queued, pipeline)
                },
                None => self.with_message(message),
            },
            _ => self.with_message(message),
        }
    }

    /// The messages from `index` on that are not throttled are taken in, in order; each task among
    /// them has been counted.
    pub open spec fn with_all_incoming(
        self,
        messages: Seq<TaskMessage<P>>,
        index: int,
        active: Set<u64>,
    ) -> QueueView<P>
        decreases messages.len() - index,
    {
        if index < 0 || index >= messages.len() {
            self
        } else {
            let next = match messages[index] {
                TaskMessage::Task(queued) => if queued.task_source is PerformanceTimeline {
                    self
                } else {
                    QueueView { taken: counted(self.taken), ..self }.with_incoming(
                        messages[index],
                        active,
                    )
                },
                _ => self.with_incoming(messages[index], active),
            };
            next.with_all_incoming(messages, index + 1, active)
        }
    }

    /// The messages of one intake, in order: tasks whose document has become active, the first
    /// message, and those that were ready; wake-ups are left out.
    pub open spec fn intake(
        self,
        first: TaskMessage<P>,
        ready: Seq<TaskMessage<P>>,
        active: Set<u64>,
    ) -> Seq<TaskMessage<P>> {
        released(self.inactive, self.inactive.len() as int, active) + (if first.is_wake_up() {
            Seq::empty()
        } else {
            seq![first]
        }) + without_wake_ups(ready, ready.len() as int)
    }

    /// One intake: released and new messages go to the loop, wait for their document, or are
    /// throttled.
    pub open spec fn with_intake(
        self,
        first: TaskMessage<P>,
        ready: Seq<TaskMessage<P>>,
        active: Set<u64>,
    ) -> QueueView<P> {
        let messages = self.intake(first, ready, active);
        let taken_in = QueueView {
            inactive: without_released(self.inactive, active),
            ..self
        }.with_all_incoming(messages, 0, active);
        QueueView {
            throttled: taken_in.throttled + to_throttle(messages, messages.len() as int),
            ..taken_in
        }
    }

    /// Throttled tasks go to the loop until it is busy. Gives whether some are left, for which the
    /// loop must wake up again.
    pub open spec fn with_throttles_released(self, active: Set<u64>) -> (QueueView<P>, bool)
        decreases self.throttled.len(),
    {
        if self.throttled.len() == 0 {
            (self, false)
        } else if self.taken > PER_ITERATION_MAX {
            (self, true)
        } else {
            let queued = self.throttled[0];
            let rest = QueueView { throttled: self.throttled.drop_first(), ..self };
            match queued.pipeline_id {
                Some(pipeline) => if active.contains(pipeline.0) {
                    QueueView { taken: counted(rest.taken), ..rest }.with_message(
                        TaskMessage::Task(queued),
                    ).with_throttles_released(active)
                } else {
                    rest.holding(queued, pipeline).with_throttles_released(active)
                },
                None => QueueView { taken: counted(rest.taken), ..rest }.with_message(
                    TaskMessage::Task(queued),
                ).with_throttles_released(active),
            }
        }
    }

    /// No document has two entries.
    pub open spec fn wf(self) -> bool {
        forall|i: int, j: int|
            0 <= i < j < self.inactive.len() ==> (#[trigger] self.inactive[i]).0 != (
            #[trigger] self.inactive[j]).0
    }
}

pub proof fn lemma_held_index<P>(
    held: Seq<(PipelineId, Seq<QueuedTask<P>>)>,
    from: int,
    pipeline: PipelineId,
)
    requires
        0 <= from <= held.len(),
    ensures
        held_index(held, from, pipeline) matches Some(index) ==> from <= index < held.len()
            && held[index].0 == pipeline,
        held_index(held, from, pipeline) is None ==> forall|i: int|
            from <= i < held.len() ==> (#[trigger] held[i]).0 != pipeline,
    decreases held.len() - from,
{
    if from < held.len() && held[from].0 != pipeline {
        lemma_held_index(held, from + 1, pipeline);
    }
}

impl<P> TaskQueueState<P> {
    /// Empty queues.
    pub fn new() -> (queue: Self)
        ensures
            queue@.messages.len() == 0,
            queue@.taken == 0,
            queue@.throttled.len() == 0,
            queue@.inactive.len() == 0,
            queue@.wf(),
    {
        TaskQueueState {
            msg_queue: VecDeque::new(),
            taken_task_counter: 0,
            throttled: VecDeque::new(),
            inactive: Vec::new(),
        }
    }

    /// Holds a task back until its document is fully active.
    fn store_task_for_inactive_pipeline(&mut self, task: QueuedTask<P>, pipeline_id: PipelineId)
        requires
            old(self)@.wf(),
        ensures
            final(self)@ == old(self)@.holding(task, pipeline_id),
            final(self)@.wf(),
    {
        let ghost before = self@;
        let mut index: usize = 0;
        while index < self.inactive.len() && self.inactive[index].pipeline_id != pipeline_id
            invariant
                self@ == before,
                index <= self.inactive@.len(),
                held_index(before.inactive, index as int, pipeline_id) == held_index(
                    before.inactive,
                    0,
                    pipeline_id,
                ),
            decreases self.inactive.len() - index,
        {
            assert(before.inactive[index as int].0 == self.inactive@[index as int].pipeline_id);
            index = index + 1;
        }
        proof {
            lemma_held_index(before.inactive, 0, pipeline_id);
        }
        if index < self.inactive.len() {
            assert(before.inactive[index as int].0 == self.inactive@[index as int].pipeline_id);
            self.inactive[index].tasks.push_back(task);
        } else {
            let mut tasks: VecDeque<QueuedTask<P>> = VecDeque::new();
            tasks.push_back(task);
            assert(tasks@ =~= seq![task]);
            self.inactive.push(HeldTasks { pipeline_id, tasks });
        }
        if self.msg_queue.len() == 0 {
            self.msg_queue.push_back(TaskMessage::Inactive);
            assert(self.msg_queue@ =~= seq![TaskMessage::<P>::Inactive]);
        }
        assert(self@.inactive =~= before.holding(task, pipeline_id).inactive);
        assert(self@ =~= before.holding(task, pipeline_id));
    }

    /// Releases the tasks of documents that have become fully active.
    fn release_tasks_for_fully_active_documents(&mut self, fully_active: &FxHashSet<u64>) -> (tasks:
        VecDeque<TaskMessage<P>>)
        requires
            old(self)@.wf(),
        ensures
            tasks@ == released(
                old(self)@.inactive,
                old(self)@.inactive.len() as int,
                fully_active@,
            ),
            final(self)@ == (QueueView {
                inactive: without_released(old(self)@.inactive, fully_active@),
                ..old(self)@
            }),
            final(self)@.wf(),
    {
        let ghost before = self@;
        let mut tasks: VecDeque<TaskMessage<P>> = VecDeque::new();
        let mut index: usize = 0;
        while index < self.inactive.len()
            invariant
                before.wf(),
                index <= self.inactive@.len(),
                self.inactive@.len() == before.inactive.len(),
                self@.messages == before.messages,
                self@.taken == before.taken,
                self@.throttled == before.throttled,
                tasks@ == released(before.inactive, index as int, fully_active@),
                forall|i: int|
                    index <= i < before.inactive.len() ==> (
                    #[trigger] self@.inactive[i]) == before.inactive[i],
                forall|i: int|
                    0 <= i < index ==> (#[trigger] self@.inactive[i]) == without_released(
                        before.inactive,
                        fully_active@,
                    )[i],
            decreases self.inactive.len() - index,
        {
            assert(self@.inactive[index as int] == before.inactive[index as int]);
            assert(self.inactive@[index as int].pipeline_id == before.inactive[index as int].0);
            if holds_key(fully_active, self.inactive[index].pipeline_id.0) {
                let mut held: VecDeque<QueuedTask<P>> = VecDeque::new();
                let ghost prior = self.inactive@;
                std::mem::swap(&mut held, &mut self.inactive[index].tasks);
                assert(self.inactive@[index as int].tasks@ =~= Seq::empty());
                assert(forall|i: int|
                    0 <= i < prior.len() && i != index ==> self.inactive@[i] == #[trigger] prior[i]);
                assert(forall|i: int|
                    0 <= i < prior.len() && i != index ==> #[trigger] self@.inactive[i] == held_view(
                        prior,
                    )[i]);
                let ghost waiting = held@;
                let ghost sofar = tasks@;
                assert(waiting == before.inactive[index as int].1);
                while held.len() > 0
                    invariant
                        held@.len() <= waiting.len(),
                        held@ == waiting.skip(waiting.len() - held@.len()),
                        tasks@ == sofar + waiting.take(waiting.len() - held@.len()).map_values(
                            |task: QueuedTask<P>| TaskMessage::Task(task),
                        ),
                    decreases held@.len(),
                {
                    let ghost done = waiting.len() - held@.len();
                    match held.pop_front() {
                        Some(task) => {
                            assert(task == waiting[done]);
                            tasks.push_back(TaskMessage::Task(task));
                            assert(waiting.take(done + 1) =~= waiting.take(done).push(task));
                            assert(held@ =~= waiting.skip(done + 1));
                            assert(tasks@ =~= sofar + waiting.take(done + 1).map_values(
                                |task: QueuedTask<P>| TaskMessage::Task(task),
                            ));
                        },
                        None => {},
                    }
                }
                assert(waiting.take(waiting.len() as int) =~= waiting);
            }
            index = index + 1;
        }
        assert(self@.inactive =~= without_released(before.inactive, fully_active@));
        tasks
    }

    /// Counts a task that this iteration has been given.
    fn count_task(&mut self)
        ensures
            final(self)@ == (QueueView { taken: counted(old(self)@.taken), ..old(self)@ }),
    {
        if self.taken_task_counter < u64::MAX {
            self.taken_task_counter = self.taken_task_counter + 1;
        }
    }

    /// Takes in one message that is not throttled.
    fn take_in(&mut self, message: TaskMessage<P>, fully_active: &FxHashSet<u64>)
        requires
            old(self)@.wf(),
        ensures
            final(self)@ == old(self)@.with_incoming(message, fully_active@),
            final(self)@.wf(),
    {
        let ghost before = self@;
        match message {
            TaskMessage::Task(queued) => {
                if queued.task_source != TaskSourceName::Rendering {
                    if let Some(pipeline_id) = queued.pipeline_id {
                        if !holds_key(fully_active, pipeline_id.0) {
                            self.store_task_for_inactive_pipeline(queued, pipeline_id);
                            return ;
                        }
                    }
                }
                self.msg_queue.push_back(TaskMessage::Task(queued));
            },
            other => {
                self.msg_queue.push_back(other);
            },
        }
        assert(self@.inactive == before.inactive);
    }

    /// One intake: sends priority tasks to the loop and sorts out those that wait.
    pub fn process_incoming_tasks(
        &mut self,
        first_msg: TaskMessage<P>,
        ready: VecDeque<TaskMessage<P>>,
        fully_active: &FxHashSet<u64>,
    )
        requires
            old(self)@.wf(),
        ensures
            final(self)@ == old(self)@.with_intake(first_msg, ready@, fully_active@),
            final(self)@.wf(),
    {
        let ghost before = self@;
        let mut incoming = self.release_tasks_for_fully_active_documents(fully_active);
        let ghost cleared = self@;
        let ghost first_part = if first_msg.is_wake_up() {
            Seq::<TaskMessage<P>>::empty()
        } else {
            seq![first_msg]
        };
        let ghost released_part = incoming@;
        if !first_msg.is_wake_up() {
            incoming.push_back(first_msg);
        }
        assert(incoming@ =~= released_part + first_part);
        let ghost base = incoming@;
        let ghost all_ready = ready@;
        let mut ready = ready;
        while ready.len() > 0
            invariant
                ready@.len() <= all_ready.len(),
                ready@ == all_ready.skip(all_ready.len() - ready@.len()),
                incoming@ == base + without_wake_ups(all_ready, all_ready.len() - ready@.len()),
            decreases ready@.len(),
        {
            let ghost done = all_ready.len() - ready@.len();
            match ready.pop_front() {
                Some(message) => {
                    assert(message == all_ready[done]);
                    assert(ready@ =~= all_ready.skip(done + 1));
                    if !message.is_wake_up() {
                        incoming.push_back(message);
                    }
                    assert(incoming@ =~= base + without_wake_ups(all_ready, done + 1));
                },
                None => {},
            }
        }
        let ghost messages = incoming@;
        assert(messages =~= before.intake(first_msg, all_ready, fully_active@));
        let mut throttled: VecDeque<QueuedTask<P>> = VecDeque::new();
        while incoming.len() > 0
            invariant
                self@.wf(),
                incoming@.len() <= messages.len(),
                incoming@ == messages.skip(messages.len() - incoming@.len()),
                throttled@ == to_throttle(messages, messages.len() - incoming@.len()),
                self@.throttled == cleared.throttled,
                self@.with_all_incoming(
                    messages,
                    messages.len() - incoming@.len(),
                    fully_active@,
                ) == cleared.with_all_incoming(messages, 0, fully_active@),
            decreases incoming@.len(),
        {
            let ghost done = messages.len() - incoming@.len();
            match incoming.pop_front() {
                Some(message) => {
                    assert(message == messages[done]);
                    assert(incoming@ =~= messages.skip(done + 1));
                    match message {
                        TaskMessage::Task(queued) => {
                            if queued.task_source == TaskSourceName::PerformanceTimeline {
                                throttled.push_back(queued);
                            } else {
                                self.count_task();
                                self.take_in(TaskMessage::Task(queued), fully_active);
                            }
                        },
                        other => {
                            self.take_in(other, fully_active);
                        },
                    }
                },
                None => {},
            }
        }
        self.throttled.append(&mut throttled);
        assert(self@ =~= before.with_intake(first_msg, all_ready, fully_active@));
    }

    /// Releases throttled tasks until the loop is busy. Says whether some are left, for which the
    /// loop must be woken.
    pub fn release_throttles(&mut self, fully_active: &FxHashSet<u64>) -> (wake_up: bool)
        requires
            old(self)@.wf(),
        ensures
            (final(self)@, wake_up) == old(self)@.with_throttles_released(fully_active@),
            final(self)@.wf(),
    {
        let ghost start = self@;
        while self.throttled.len() > 0
            invariant
                self@.wf(),
                start == old(self)@,
                self@.with_throttles_released(fully_active@) == start.with_throttles_released(
                    fully_active@,
                ),
            decreases self.throttled.len(),
        {
            if self.taken_task_counter > PER_ITERATION_MAX {
                return true;
            }
            let ghost before = self@;
            match self.throttled.pop_front() {
                Some(queued) => {
                    assert(self.throttled@ =~= before.throttled.drop_first());
                    let held_for = match queued.pipeline_id {
                        Some(pipeline_id) => if holds_key(fully_active, pipeline_id.0) {
                            None
                        } else {
                            Some(pipeline_id)
                        },
                        None => None,
                    };
                    match held_for {
                        Some(pipeline_id) => {
                            self.store_task_for_inactive_pipeline(queued, pipeline_id);
                        },
                        None => {
                            self.count_task();
                            self.msg_queue.push_back(TaskMessage::Task(queued));
                        },
                    }
                },
                None => {},
            }
        }
        false
    }

    /// Starts a new iteration of the loop, which is not busy.
    pub fn start_event_loop_iteration(&mut self)
        ensures
            final(self)@ == (QueueView { taken: 0, ..old(self)@ }),
    {
        self.taken_task_counter = 0;
    }

    /// Takes the next message.
    pub fn recv(&mut self) -> (message: Option<TaskMessage<P>>)
        ensures
            final(self)@ == old(self)@.after_recv(),
            message matches Some(message) ==> message == old(self)@.next_or_wake_up(),
            old(self)@.messages.len() == 0 ==> message is None && final(self)@ == old(self)@,
            old(self)@.messages.len() > 0 ==> {
                &&& message == Some(old(self)@.messages[0])
                &&& final(self)@ == (QueueView {
                    messages: old(self)@.messages.drop_first(),
                    ..old(self)@
                })
            },
    {
        let message = self.msg_queue.pop_front();
        assert(old(self)@.messages.len() > 0 ==> self.msg_queue@ =~= old(
            self,
        )@.messages.drop_first());
        message
    }
}

impl<P> QueueView<P> {
    /// One intake followed, where asked for, by the release of throttled tasks. Gives whether the
    /// loop must be woken again.
    pub open spec fn with_tasks(
        self,
        first: TaskMessage<P>,
        ready: Seq<TaskMessage<P>>,
        release: bool,
        active: Set<u64>,
    ) -> (QueueView<P>, bool) {
        let taken_in = self.with_intake(first, ready, active);
        if release {
            taken_in.with_throttles_released(active)
        } else {
            (taken_in, false)
        }
    }

    /// The queues once the next message has been taken.
    pub open spec fn after_recv(self) -> QueueView<P> {
        if self.messages.len() == 0 {
            self
        } else {
            QueueView { messages: self.messages.drop_first(), ..self }
        }
    }

    /// The next message, or a wake-up where there is none.
    pub open spec fn next_or_wake_up(self) -> TaskMessage<P> {
        if self.messages.len() == 0 {
            TaskMessage::WakeUp
        } else {
            self.messages[0]
        }
    }

    /// One step of a controlled turn, on what the port gave: a task is taken in alone, a wake-up
    /// asks the port again while the scan limit lasts, and an empty port lets retained work go.
    pub open spec fn controlled_step(
        self,
        message: Option<TaskMessage<P>>,
        wake_index: int,
        active: Set<u64>,
    ) -> (QueueView<P>, ControlledStep<P>) {
        match message {
            None => {
                let (taken, wake_up) = self.with_tasks(
                    TaskMessage::WakeUp,
                    Seq::empty(),
                    true,
                    active,
                );
                (
                    taken.after_recv(),
                    ControlledStep::Done { message: taken.next_or_wake_up(), wake_up },
                )
            },
            Some(message) => if !message.is_wake_up() {
                let taken = self.with_intake(message, Seq::empty(), active);
                (
                    taken.after_recv(),
                    ControlledStep::Done { message: taken.next_or_wake_up(), wake_up: false },
                )
            } else if wake_index + 1 >= WAKE_SCAN_LIMIT {
                (self, ControlledStep::Done { message: TaskMessage::WakeUp, wake_up: false })
            } else {
                (self, ControlledStep::Receive)
            },
        }
    }

    /// A controlled turn that starts with a message, when the port gives the messages in `received`
    /// from `wake_index` on and has no more. Gives what the turn hands to the loop, and whether it
    /// wakes the loop.
    pub open spec fn controlled_turn(
        self,
        message: Option<TaskMessage<P>>,
        received: Seq<TaskMessage<P>>,
        wake_index: int,
        active: Set<u64>,
    ) -> (QueueView<P>, TaskMessage<P>, bool)
        decreases WAKE_SCAN_LIMIT - wake_index,
    {
        let (next, step) = self.controlled_step(message, wake_index, active);
        match step {
            ControlledStep::Done { message, wake_up } => (next, message, wake_up),
            ControlledStep::Receive => next.controlled_turn(
                if 0 <= wake_index < received.len() {
                    Some(received[wake_index])
                } else {
                    None
                },
                received,
                wake_index + 1,
                active,
            ),
        }
    }

    /// A turn of an empty queue: `first` and `second` are what the port has ready at the start and
    /// after retained work has been promoted, `received` what it gives after that. The promotion and
    /// what follows it may each wake the loop.
    pub open spec fn one_task_turn(
        self,
        first: Option<TaskMessage<P>>,
        second: Option<TaskMessage<P>>,
        received: Seq<TaskMessage<P>>,
        active: Set<u64>,
    ) -> (QueueView<P>, Result<TaskMessage<P>, ()>, nat) {
        if first is Some {
            let (next, message, wake_up) = self.controlled_turn(first, received, 0, active);
            (next, Ok(message), wake_ups(wake_up))
        } else {
            let (promoted, wake_up) = self.with_tasks(
                TaskMessage::WakeUp,
                Seq::empty(),
                true,
                active,
            );
            if promoted.messages.len() > 0 {
                (promoted.after_recv(), Ok(promoted.messages[0]), wake_ups(wake_up))
            } else if second is Some {
                let (next, message, again) = promoted.controlled_turn(second, received, 0, active);
                (next, Ok(message), wake_ups(wake_up) + wake_ups(again))
            } else {
                (promoted, Err(()), wake_ups(wake_up))
            }
        }
    }
}

/// How many wake-ups are sent: one or none.
pub open spec fn wake_ups(wake_up: bool) -> nat {
    if wake_up {
        1
    } else {
        0
    }
}

/// What a controlled turn does next.
#[derive(Debug, PartialEq, Eq)]
pub enum ControlledStep<P> {
    /// It asks the port for another message.
    Receive,
    /// It hands a message to the loop, after waking the loop where throttled tasks are left.
    Done { message: TaskMessage<P>, wake_up: bool },
}

impl<P> TaskQueueState<P> {
    /// Takes in a message and those that were ready, and releases throttled tasks where asked for.
    /// Says whether the loop must be woken.
    pub fn take_tasks_with_options(
        &mut self,
        first_msg: TaskMessage<P>,
        ready: VecDeque<TaskMessage<P>>,
        fully_active: &FxHashSet<u64>,
        release_throttles: bool,
    ) -> (wake_up: bool)
        requires
            old(self)@.wf(),
        ensures
            (final(self)@, wake_up) == old(self)@.with_tasks(
                first_msg,
                ready@,
                release_throttles,
                fully_active@,
            ),
            final(self)@.wf(),
    {
        self.process_incoming_tasks(first_msg, ready, fully_active);
        if !release_throttles {
            return false;
        }
        self.release_throttles(fully_active)
    }

    fn recv_or_wake_up(&mut self) -> (message: TaskMessage<P>)
        ensures
            message == old(self)@.next_or_wake_up(),
            final(self)@ == old(self)@.after_recv(),
    {
        match self.recv() {
            Some(message) => message,
            None => TaskMessage::WakeUp,
        }
    }

    /// One step of a controlled turn, on what the port gave.
    pub fn controlled_step(
        &mut self,
        message: Option<TaskMessage<P>>,
        wake_index: usize,
        fully_active: &FxHashSet<u64>,
    ) -> (step: ControlledStep<P>)
        requires
            old(self)@.wf(),
            wake_index < WAKE_SCAN_LIMIT,
        ensures
            (final(self)@, step) == old(self)@.controlled_step(
                message,
                wake_index as int,
                fully_active@,
            ),
            final(self)@.wf(),
    {
        let none: VecDeque<TaskMessage<P>> = VecDeque::new();
        assert(none@ =~= Seq::empty());
        match message {
            None => {
                let wake_up = self.take_tasks_with_options(
                    TaskMessage::WakeUp,
                    none,
                    fully_active,
                    true,
                );
                ControlledStep::Done { message: self.recv_or_wake_up(), wake_up }
            },
            Some(message) => {
                if !message.is_wake_up() {
                    self.process_incoming_tasks(message, none, fully_active);
                    ControlledStep::Done { message: self.recv_or_wake_up(), wake_up: false }
                } else if wake_index + 1 == WAKE_SCAN_LIMIT {
                    ControlledStep::Done { message: TaskMessage::WakeUp, wake_up: false }
                } else {
                    ControlledStep::Receive
                }
            },
        }
    }
}

/// The task queue of an event loop, with the port that messages arrive at and the sender that
/// wakes the loop.
#[verifier::reject_recursive_types(P)]
pub struct TaskQueue<P> {
    port: Receiver<TaskMessage<P>>,
    wake_up_sender: Sender<TaskMessage<P>>,
    state: TaskQueueState<P>,
    /// The wake-ups that the last intake sent.
    woken: Vec<SentWakeUp>,
}

impl<P> View for TaskQueue<P> {
    type V = QueueView<P>;

    closed spec fn view(&self) -> QueueView<P> {
        self.state@
    }
}

impl<P> TaskQueue<P> {
    /// An empty queue on a port.
    pub fn new(
        port: Receiver<TaskMessage<P>>,
        wake_up_sender: Sender<TaskMessage<P>>,
    ) -> (queue: TaskQueue<P>)
        ensures
            queue@.messages.len() == 0,
            queue@.taken == 0,
            queue@.throttled.len() == 0,
            queue@.inactive.len() == 0,
            queue@.wf(),
            queue.port() == port,
            queue.wakes() == wake_up_sender,
            queue.wake_ups_sent() == 0,
    {
        TaskQueue { port, wake_up_sender, state: TaskQueueState::new(), woken: Vec::new() }
    }

    /// The port of the queue.
    pub closed spec fn port(&self) -> Receiver<TaskMessage<P>> {
        self.port
    }

    /// The sender that wakes the loop.
    pub closed spec fn wakes(&self) -> Sender<TaskMessage<P>> {
        self.wake_up_sender
    }

    /// How many wake-ups the last intake sent to the loop.
    pub closed spec fn wake_ups_sent(&self) -> nat {
        self.woken@.len()
    }

    /// How many wake-ups the last intake sent to the loop.
    pub fn woken(&self) -> (count: usize)
        ensures
            count == self.wake_ups_sent(),
    {
        self.woken.len()
    }

    /// Wakes the loop where asked to.
    fn wake_if(&mut self, wake_up: bool)
        requires
            old(self).wake_ups_sent() < usize::MAX,
        ensures
            final(self)@ == old(self)@,
            final(self).port() == old(self).port(),
            final(self).wakes() == old(self).wakes(),
            final(self).wake_ups_sent() == old(self).wake_ups_sent() + wake_ups(wake_up),
    {
        if wake_up {
            let sent = wake(&self.wake_up_sender);
            self.woken.push(sent);
        }
    }

    /// Starts a new iteration of the loop and gives the port whose readiness it waits for.
    pub fn select(&mut self) -> (port: &Receiver<TaskMessage<P>>)
        ensures
            final(self)@ == (QueueView { taken: 0, ..old(self)@ }),
            *port == old(self).port(),
            final(self).port() == old(self).port(),
            final(self).wakes() == old(self).wakes(),
            final(self).wake_ups_sent() == old(self).wake_ups_sent(),
    {
        self.state.start_event_loop_iteration();
        &self.port
    }

    /// Starts a new iteration of the loop, which is not busy.
    pub fn start_event_loop_iteration(&mut self)
        ensures
            final(self)@ == (QueueView { taken: 0, ..old(self)@ }),
            final(self).port() == old(self).port(),
            final(self).wakes() == old(self).wakes(),
            final(self).wake_ups_sent() == old(self).wake_ups_sent(),
    {
        self.state.start_event_loop_iteration();
    }

    /// Takes the next message, without waiting.
    pub fn recv(&mut self) -> (message: Result<TaskMessage<P>, ()>)
        ensures
            message == (if old(self)@.messages.len() == 0 {
                Err(())
            } else {
                Ok(old(self)@.messages[0])
            }),
            final(self)@ == old(self)@.after_recv(),
            final(self).port() == old(self).port(),
            final(self).wakes() == old(self).wakes(),
            final(self).wake_ups_sent() == old(self).wake_ups_sent(),
    {
        match self.state.recv() {
            Some(message) => Ok(message),
            None => Err(()),
        }
    }

    /// Takes in a message together with all that are ready on the port, and releases throttled
    /// tasks while the loop is not busy. Wakes the loop where some are left.
    pub fn take_tasks(&mut self, first_msg: TaskMessage<P>, fully_active: &FxHashSet<u64>)
        requires
            old(self)@.wf(),
        ensures
            exists|ready: Seq<TaskMessage<P>>|
                {
                    let taken = #[trigger] old(self)@.with_tasks(
                        first_msg,
                        ready,
                        true,
                        fully_active@,
                    );
                    final(self)@ == taken.0 && final(self).wake_ups_sent() == wake_ups(taken.1)
                },
            final(self)@.wf(),
            final(self).port() == old(self).port(),
            final(self).wakes() == old(self).wakes(),
    {
        let ready = receive_ready(&self.port);
        let ghost received = ready@;
        let wake_up = self.state.take_tasks_with_options(first_msg, ready, fully_active, true);
        self.woken = Vec::new();
        self.wake_if(wake_up);
        assert((self@, wake_up) == old(self)@.with_tasks(
            first_msg,
            received,
            true,
            fully_active@,
        ));
    }

    /// Takes in one message without looking at the port, and releases throttled tasks while the
    /// loop is not busy. Wakes the loop where some are left.
    pub fn take_one_task(&mut self, first_msg: TaskMessage<P>, fully_active: &FxHashSet<u64>)
        requires
            old(self)@.wf(),
        ensures
            ({
                let taken = old(self)@.with_tasks(first_msg, Seq::empty(), true, fully_active@);
                final(self)@ == taken.0 && final(self).wake_ups_sent() == wake_ups(taken.1)
            }),
            final(self)@.wf(),
            final(self).port() == old(self).port(),
            final(self).wakes() == old(self).wakes(),
    {
        let none: VecDeque<TaskMessage<P>> = VecDeque::new();
        assert(none@ =~= Seq::empty());
        let wake_up = self.state.take_tasks_with_options(first_msg, none, fully_active, true);
        self.woken = Vec::new();
        self.wake_if(wake_up);
    }

    /// Takes in all that is ready and hands out the next message.
    pub fn take_tasks_and_recv(&mut self, fully_active: &FxHashSet<u64>) -> (message: Result<
        TaskMessage<P>,
        (),
    >)
        requires
            old(self)@.wf(),
        ensures
            exists|ready: Seq<TaskMessage<P>>|
                {
                    let (taken, wake_up) = #[trigger] old(self)@.with_tasks(
                        TaskMessage::WakeUp,
                        ready,
                        true,
                        fully_active@,
                    );
                    &&& final(self).wake_ups_sent() == wake_ups(wake_up)
                    &&& final(self)@ == taken.after_recv()
                    &&& message == (if taken.messages.len() == 0 {
                        Err(())
                    } else {
                        Ok(taken.messages[0])
                    })
                },
            final(self)@.wf(),
            final(self).port() == old(self).port(),
            final(self).wakes() == old(self).wakes(),
    {
        self.take_tasks(TaskMessage::WakeUp, fully_active);
        self.recv()
    }

    /// A controlled turn on a message that the port gave: stale wake-ups do not overtake a ready
    /// task, and no more than [`WAKE_SCAN_LIMIT`] messages are looked at.
    pub fn take_controlled_task_and_recv(
        &mut self,
        first_msg: TaskMessage<P>,
        fully_active: &FxHashSet<u64>,
    ) -> (message: TaskMessage<P>)
        requires
            old(self)@.wf(),
        ensures
            exists|received: Seq<TaskMessage<P>>|
                {
                    let turn = #[trigger] old(self)@.controlled_turn(
                        Some(first_msg),
                        received,
                        0,
                        fully_active@,
                    );
                    &&& (final(self)@, message) == (turn.0, turn.1)
                    &&& final(self).wake_ups_sent() == wake_ups(turn.2)
                },
            !first_msg.is_wake_up() ==> {
                let taken = old(self)@.with_intake(first_msg, Seq::empty(), fully_active@);
                &&& final(self)@ == taken.after_recv()
                &&& message == taken.next_or_wake_up()
                &&& final(self).wake_ups_sent() == 0
            },
            final(self)@.wf(),
            final(self).port() == old(self).port(),
            final(self).wakes() == old(self).wakes(),
    {
        self.woken = Vec::new();
        let ghost start = self@;
        let ghost mut received: Seq<TaskMessage<P>> = Seq::empty();
        let mut next: Option<TaskMessage<P>> = Some(first_msg);
        let mut wake_index: usize = 0;
        loop
            invariant
                wake_index < WAKE_SCAN_LIMIT,
                self@ == start,
                self.wake_ups_sent() == 0,
                start.wf(),
                start == old(self)@,
                self.port() == old(self).port(),
                self.wakes() == old(self).wakes(),
                wake_index > 0 ==> first_msg.is_wake_up(),
                wake_index == 0 ==> next == Some(first_msg),
                next is None ==> received.len() < wake_index,
                next is Some ==> received.len() == wake_index,
                start.controlled_turn(next, received, wake_index as int, fully_active@)
                    == start.controlled_turn(Some(first_msg), received, 0, fully_active@),
                forall|more: Seq<TaskMessage<P>>|
                    next is Some && #[trigger] received.is_prefix_of(more)
                        ==> start.controlled_turn(next, more, wake_index as int, fully_active@)
                        == start.controlled_turn(Some(first_msg), more, 0, fully_active@),
            decreases WAKE_SCAN_LIMIT - wake_index,
        {
            let step = self.state.controlled_step(next, wake_index, fully_active);
            match step {
                ControlledStep::Done { message, wake_up } => {
                    self.wake_if(wake_up);
                    assert((self@, message, wake_up) == start.controlled_turn(
                        Some(first_msg),
                        received,
                        0,
                        fully_active@,
                    ));
                    return message;
                },
                ControlledStep::Receive => {
                    next = try_receive(&self.port);
                    wake_index = wake_index + 1;
                    proof {
                        let before = received;
                        if next is Some {
                            received = received.push(next->Some_0);
                            assert(before.is_prefix_of(received));
                            assert forall|more: Seq<TaskMessage<P>>| #[trigger]
                                received.is_prefix_of(more) implies start.controlled_turn(
                                next,
                                more,
                                wake_index as int,
                                fully_active@,
                            ) == start.controlled_turn(Some(first_msg), more, 0, fully_active@) by {
                                assert(before.is_prefix_of(more));
                                assert(more[wake_index - 1] == received[wake_index - 1]);
                            }
                        }
                        assert(received.is_prefix_of(received));
                    }
                },
            }
        }
    }

    /// Hands out the next message, taking in at most one task from the port: what is queued, else
    /// what the port has ready, else retained work, else what the port has ready by now.
    pub fn take_one_task_and_recv(&mut self, fully_active: &FxHashSet<u64>) -> (message: Result<
        TaskMessage<P>,
        (),
    >)
        requires
            old(self)@.wf(),
        ensures
            old(self)@.messages.len() > 0 ==> {
                &&& message == Ok::<_, ()>(old(self)@.messages[0])
                &&& final(self)@ == old(self)@.after_recv()
                &&& final(self).wake_ups_sent() == 0
            },
            old(self)@.messages.len() == 0 ==> exists|
                first: Option<TaskMessage<P>>,
                second: Option<TaskMessage<P>>,
                received: Seq<TaskMessage<P>>,
            |
                (final(self)@, message, final(self).wake_ups_sent()) == #[trigger] old(
                    self,
                )@.one_task_turn(first, second, received, fully_active@),
            final(self)@.wf(),
            final(self).port() == old(self).port(),
            final(self).wakes() == old(self).wakes(),
    {
        self.woken = Vec::new();
        if let Ok(message) = self.recv() {
            return Ok(message);
        }
        let ghost start = self@;
        if let Some(first_msg) = try_receive(&self.port) {
            let message = self.take_controlled_task_and_recv(first_msg, fully_active);
            proof {
                let received = choose|received: Seq<TaskMessage<P>>|
                    {
                        let turn = #[trigger] start.controlled_turn(
                            Some(first_msg),
                            received,
                            0,
                            fully_active@,
                        );
                        &&& (self@, message) == (turn.0, turn.1)
                        &&& self.wake_ups_sent() == wake_ups(turn.2)
                    };
                assert((self@, Ok::<_, ()>(message), self.wake_ups_sent()) == start.one_task_turn(
                    Some(first_msg),
                    None,
                    received,
                    fully_active@,
                ));
            }
            return Ok(message);
        }
        self.take_one_task(TaskMessage::WakeUp, fully_active);
        if let Ok(message) = self.recv() {
            assert((self@, Ok::<_, ()>(message), self.wake_ups_sent()) == start.one_task_turn(
                None,
                None,
                Seq::empty(),
                fully_active@,
            ));
            return Ok(message);
        }
        let ghost promoted = self@;
        match try_receive(&self.port) {
            Some(first_msg) => {
                let mut woken: Vec<SentWakeUp> = Vec::new();
                std::mem::swap(&mut woken, &mut self.woken);
                let message = self.take_controlled_task_and_recv(first_msg, fully_active);
                let ghost again = self.wake_ups_sent();
                woken.append(&mut self.woken);
                self.woken = woken;
                proof {
                    let received = choose|received: Seq<TaskMessage<P>>|
                        {
                            let turn = #[trigger] promoted.controlled_turn(
                                Some(first_msg),
                                received,
                                0,
                                fully_active@,
                            );
                            &&& (self@, message) == (turn.0, turn.1)
                            &&& again == wake_ups(turn.2)
                        };
                    assert((self@, Ok::<_, ()>(message), self.wake_ups_sent()) == start.one_task_turn(
                        None,
                        Some(first_msg),
                        received,
                        fully_active@,
                    ));
                }
                Ok(message)
            },
            None => {
                assert((self@, Err::<TaskMessage<P>, ()>(()), self.wake_ups_sent()) == start.one_task_turn(
                    None,
                    None,
                    Seq::empty(),
                    fully_active@,
                ));
                Err(())
            },
        }
    }
}

} // verus!
