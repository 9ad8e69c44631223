//! What holds of the task queue as a whole.
use super::{
    held_index, lemma_held_index, released, to_throttle, without_released, without_wake_ups,
    ControlledStep, QueueView, QueuedTask, TaskMessage, PER_ITERATION_MAX, WAKE_SCAN_LIMIT,
};
use crate::ids::PipelineId;
use vstd::multiset::Multiset;
use vstd::prelude::*;

verus! {

/// The task of a message, if it is one.
pub open spec fn task_of<P>(message: TaskMessage<P>) -> Multiset<QueuedTask<P>> {
    match message {
        TaskMessage::Task(queued) => Multiset::singleton(queued),
        _ => Multiset::empty(),
    }
}

/// The tasks among messages.
pub open spec fn tasks_of<P>(messages: Seq<TaskMessage<P>>) -> Multiset<QueuedTask<P>>
    decreases messages.len(),
{
    if messages.len() == 0 {
        Multiset::empty()
    } else {
        tasks_of(messages.drop_last()).add(task_of(messages.last()))
    }
}

/// The tasks of a sequence.
pub open spec fn bag_of<P>(tasks: Seq<QueuedTask<P>>) -> Multiset<QueuedTask<P>>
    decreases tasks.len(),
{
    if tasks.len() == 0 {
        Multiset::empty()
    } else {
        bag_of(tasks.drop_last()).insert(tasks.last())
    }
}

/// The tasks that the first `count` documents hold back.
pub open spec fn held_tasks<P>(
    held: Seq<(PipelineId, Seq<QueuedTask<P>>)>,
    count: int,
) -> Multiset<QueuedTask<P>>
    decreases count,
{
    if count <= 0 || count > held.len() {
        Multiset::empty()
    } else {
        held_tasks(held, count - 1).add(bag_of(held[count - 1].1))
    }
}

impl<P> QueueView<P> {
    /// Every task that the queues hold, wherever it waits.
    pub open spec fn all_tasks(self) -> Multiset<QueuedTask<P>> {
        tasks_of(self.messages).add(bag_of(self.throttled)).add(
            held_tasks(self.inactive, self.inactive.len() as int),
        )
    }
}

proof fn lemma_tasks_push<P>(messages: Seq<TaskMessage<P>>, message: TaskMessage<P>)
    ensures
        tasks_of(messages.push(message)) == tasks_of(messages).add(task_of(message)),
{
    assert(messages.push(message).drop_last() =~= messages);
}

proof fn lemma_bag_push<P>(tasks: Seq<QueuedTask<P>>, task: QueuedTask<P>)
    ensures
        bag_of(tasks.push(task)) == bag_of(tasks).insert(task),
{
    assert(tasks.push(task).drop_last() =~= tasks);
}

proof fn lemma_tasks_concat<P>(left: Seq<TaskMessage<P>>, right: Seq<TaskMessage<P>>)
    ensures
        tasks_of(left + right) == tasks_of(left).add(tasks_of(right)),
    decreases right.len(),
{
    if right.len() == 0 {
        assert(left + right =~= left);
        assert(tasks_of(left).add(tasks_of(right)) =~= tasks_of(left));
    } else {
        lemma_tasks_concat(left, right.drop_last());
        assert((left + right).drop_last() =~= left + right.drop_last());
        assert(tasks_of(left + right) =~= tasks_of(left).add(tasks_of(right)));
    }
}

proof fn lemma_bag_concat<P>(left: Seq<QueuedTask<P>>, right: Seq<QueuedTask<P>>)
    ensures
        bag_of(left + right) == bag_of(left).add(bag_of(right)),
    decreases right.len(),
{
    if right.len() == 0 {
        assert(left + right =~= left);
        assert(bag_of(left).add(bag_of(right)) =~= bag_of(left));
    } else {
        lemma_bag_concat(left, right.drop_last());
        assert((left + right).drop_last() =~= left + right.drop_last());
        assert(bag_of(left + right) =~= bag_of(left).add(bag_of(right)));
    }
}

proof fn lemma_bag_first<P>(tasks: Seq<QueuedTask<P>>)
    requires
        tasks.len() > 0,
    ensures
        bag_of(tasks) == bag_of(tasks.drop_first()).insert(tasks[0]),
{
    let first = seq![tasks[0]];
    lemma_bag_push(Seq::empty(), tasks[0]);
    assert(first =~= Seq::empty().push(tasks[0]));
    assert(tasks =~= first + tasks.drop_first());
    lemma_bag_concat(first, tasks.drop_first());
    assert(bag_of(first) =~= Multiset::singleton(tasks[0]));
    assert(bag_of(tasks) =~= bag_of(tasks.drop_first()).insert(tasks[0]));
}

/// Messages made of tasks hold those tasks.
proof fn lemma_tasks_of_map<P>(tasks: Seq<QueuedTask<P>>)
    ensures
        tasks_of(tasks.map_values(|task: QueuedTask<P>| TaskMessage::Task(task))) == bag_of(tasks),
    decreases tasks.len(),
{
    let messages = tasks.map_values(|task: QueuedTask<P>| TaskMessage::Task(task));
    if tasks.len() > 0 {
        lemma_tasks_of_map(tasks.drop_last());
        assert(messages.drop_last() =~= tasks.drop_last().map_values(
            |task: QueuedTask<P>| TaskMessage::Task(task),
        ));
        assert(tasks_of(messages) =~= bag_of(tasks));
    }
}

proof fn lemma_held_same<P>(
    left: Seq<(PipelineId, Seq<QueuedTask<P>>)>,
    right: Seq<(PipelineId, Seq<QueuedTask<P>>)>,
    count: int,
)
    requires
        0 <= count <= left.len(),
        count <= right.len(),
        forall|i: int| 0 <= i < count ==> left[i] == right[i],
    ensures
        held_tasks(left, count) == held_tasks(right, count),
    decreases count,
{
    if count > 0 {
        lemma_held_same(left, right, count - 1);
    }
}

proof fn lemma_held_update<P>(
    held: Seq<(PipelineId, Seq<QueuedTask<P>>)>,
    index: int,
    task: QueuedTask<P>,
    count: int,
)
    requires
        0 <= index < count <= held.len(),
    ensures
        held_tasks(held.update(index, (held[index].0, held[index].1.push(task))), count)
            == held_tasks(held, count).insert(task),
    decreases count,
{
    let changed = held.update(index, (held[index].0, held[index].1.push(task)));
    if index == count - 1 {
        lemma_held_same(changed, held, count - 1);
        lemma_bag_push(held[index].1, task);
    } else {
        lemma_held_update(held, index, task, count - 1);
    }
    assert(held_tasks(changed, count) =~= held_tasks(held, count).insert(task));
}

/// Holding a task back adds it to the tasks, and adds nothing else.
proof fn lemma_holding_keeps<P>(view: QueueView<P>, task: QueuedTask<P>, pipeline: PipelineId)
    ensures
        view.holding(task, pipeline).all_tasks() == view.all_tasks().insert(task),
{
    let after = view.holding(task, pipeline);
    lemma_held_index(view.inactive, 0, pipeline);
    match held_index(view.inactive, 0, pipeline) {
        Some(index) => {
            lemma_held_update(view.inactive, index, task, view.inactive.len() as int);
        },
        None => {
            lemma_held_same(after.inactive, view.inactive, view.inactive.len() as int);
            lemma_bag_push(Seq::empty(), task);
            assert(seq![task] =~= Seq::empty().push(task));
            assert(bag_of(seq![task]) =~= Multiset::singleton(task));
        },
    }
    assert(held_tasks(after.inactive, after.inactive.len() as int) =~= held_tasks(
        view.inactive,
        view.inactive.len() as int,
    ).insert(task));
    if view.messages.len() == 0 {
        let note = seq![TaskMessage::<P>::Inactive];
        lemma_tasks_push(Seq::empty(), TaskMessage::<P>::Inactive);
        assert(note =~= Seq::empty().push(TaskMessage::<P>::Inactive));
        assert(tasks_of(note) =~= Multiset::empty());
    }
    assert(after.all_tasks() =~= view.all_tasks().insert(task));
}

proof fn lemma_with_message_keeps<P>(view: QueueView<P>, message: TaskMessage<P>)
    ensures
        view.with_message(message).all_tasks() == view.all_tasks().add(task_of(message)),
{
    lemma_tasks_push(view.messages, message);
    assert(view.with_message(message).all_tasks() =~= view.all_tasks().add(task_of(message)));
}

proof fn lemma_incoming_keeps<P>(view: QueueView<P>, message: TaskMessage<P>, active: Set<u64>)
    ensures
        view.with_incoming(message, active).all_tasks() == view.all_tasks().add(task_of(message)),
        view.with_incoming(message, active).throttled == view.throttled,
{
    lemma_with_message_keeps(view, message);
    if let TaskMessage::Task(queued) = message {
        if let Some(pipeline) = queued.pipeline_id {
            lemma_holding_keeps(view, queued, pipeline);
            assert(view.all_tasks().insert(queued) =~= view.all_tasks().add(task_of(message)));
        }
    }
}

proof fn lemma_all_incoming_keeps<P>(
    view: QueueView<P>,
    messages: Seq<TaskMessage<P>>,
    index: int,
    active: Set<u64>,
)
    requires
        0 <= index <= messages.len(),
    ensures
        view.with_all_incoming(messages, index, active).all_tasks().add(
            tasks_of(messages.take(index)),
        ).add(bag_of(to_throttle(messages, messages.len() as int))) == view.all_tasks().add(
            tasks_of(messages),
        ).add(bag_of(to_throttle(messages, index))),
        view.with_all_incoming(messages, index, active).throttled == view.throttled,
    decreases messages.len() - index,
{
    let result = view.with_all_incoming(messages, index, active);
    let whole = bag_of(to_throttle(messages, messages.len() as int));
    if index == messages.len() {
        assert(messages.take(index) =~= messages);
    } else {
        let message = messages[index];
        let next = match message {
            TaskMessage::Task(queued) => if queued.task_source is PerformanceTimeline {
                view
            } else {
                QueueView { taken: super::counted(view.taken), ..view }.with_incoming(
                    message,
                    active,
                )
            },
            _ => view.with_incoming(message, active),
        };
        let counted = QueueView { taken: super::counted(view.taken), ..view };
        assert(counted.all_tasks() == view.all_tasks());
        lemma_incoming_keeps(view, message, active);
        lemma_incoming_keeps(counted, message, active);
        lemma_all_incoming_keeps(next, messages, index + 1, active);
        assert(messages.take(index + 1) =~= messages.take(index).push(message));
        lemma_tasks_push(messages.take(index), message);
        if let TaskMessage::Task(queued) = message {
            lemma_bag_push(to_throttle(messages, index), queued);
        }
        let left = result.all_tasks().add(tasks_of(messages.take(index))).add(whole);
        let right = view.all_tasks().add(tasks_of(messages)).add(
            bag_of(to_throttle(messages, index)),
        );
        assert(left.add(task_of(message)) =~= result.all_tasks().add(
            tasks_of(messages.take(index + 1)),
        ).add(whole));
        assert(left.add(task_of(message)) =~= right.add(task_of(message)));
        assert forall|task: QueuedTask<P>| left.count(task) == right.count(task) by {
            assert(left.add(task_of(message)).count(task) == left.count(task) + task_of(
                message,
            ).count(task));
            assert(right.add(task_of(message)).count(task) == right.count(task) + task_of(
                message,
            ).count(task));
        }
        assert(left =~= right);
    }
}

proof fn lemma_released_keeps<P>(
    held: Seq<(PipelineId, Seq<QueuedTask<P>>)>,
    count: int,
    active: Set<u64>,
)
    requires
        0 <= count <= held.len(),
    ensures
        tasks_of(released(held, count, active)).add(
            held_tasks(without_released(held, active), count),
        ) == held_tasks(held, count),
    decreases count,
{
    let kept = without_released(held, active);
    if count > 0 {
        lemma_released_keeps(held, count - 1, active);
        if active.contains(held[count - 1].0.0) {
            let tasks = held[count - 1].1;
            lemma_tasks_of_map(tasks);
            lemma_tasks_concat(
                released(held, count - 1, active),
                tasks.map_values(|task: QueuedTask<P>| TaskMessage::Task(task)),
            );
        }
    }
    assert(tasks_of(released(held, count, active)).add(held_tasks(kept, count)) =~= held_tasks(
        held,
        count,
    ));
}

proof fn lemma_without_wake_ups_keeps<P>(messages: Seq<TaskMessage<P>>, count: int)
    requires
        0 <= count <= messages.len(),
    ensures
        tasks_of(without_wake_ups(messages, count)) == tasks_of(messages.take(count)),
    decreases count,
{
    if count > 0 {
        lemma_without_wake_ups_keeps(messages, count - 1);
        let message = messages[count - 1];
        assert(messages.take(count) =~= messages.take(count - 1).push(message));
        lemma_tasks_push(messages.take(count - 1), message);
        lemma_tasks_push(without_wake_ups(messages, count - 1), message);
        assert(tasks_of(without_wake_ups(messages, count)) =~= tasks_of(messages.take(count)));
    } else {
        assert(messages.take(count) =~= Seq::empty());
    }
}

/// An intake loses no task and invents none: afterwards the queues hold what they held before, the
/// first message's task and the tasks that were ready.
pub proof fn law_intake_keeps_every_task<P>(
    view: QueueView<P>,
    first: TaskMessage<P>,
    ready: Seq<TaskMessage<P>>,
    active: Set<u64>,
)
    ensures
        view.with_intake(first, ready, active).all_tasks() == view.all_tasks().add(
            task_of(first),
        ).add(tasks_of(ready)),
{
    let messages = view.intake(first, ready, active);
    let cleared = QueueView { inactive: without_released(view.inactive, active), ..view };
    let taken_in = cleared.with_all_incoming(messages, 0, active);
    let throttled = to_throttle(messages, messages.len() as int);
    let freed = released(view.inactive, view.inactive.len() as int, active);
    let first_part = if first.is_wake_up() {
        Seq::empty()
    } else {
        seq![first]
    };
    let rest = without_wake_ups(ready, ready.len() as int);
    lemma_all_incoming_keeps(cleared, messages, 0, active);
    lemma_released_keeps(view.inactive, view.inactive.len() as int, active);
    lemma_without_wake_ups_keeps(ready, ready.len() as int);
    assert(ready.take(ready.len() as int) =~= ready);
    assert(messages.take(0) =~= Seq::empty());
    assert(to_throttle(messages, 0) =~= Seq::empty());
    lemma_tasks_concat(freed, first_part);
    lemma_tasks_concat(freed + first_part, rest);
    lemma_tasks_push(Seq::empty(), first);
    assert(Seq::empty().push(first) =~= seq![first]);
    assert(tasks_of(first_part) =~= task_of(first));
    lemma_bag_concat(taken_in.throttled, throttled);
    let result = view.with_intake(first, ready, active);
    assert(result.all_tasks() =~= taken_in.all_tasks().add(bag_of(throttled)));
    assert(tasks_of(messages.take(0)) =~= Multiset::empty());
    assert(bag_of(to_throttle(messages, 0)) =~= Multiset::empty());
    assert(taken_in.all_tasks().add(bag_of(throttled)) =~= taken_in.all_tasks().add(
        tasks_of(messages.take(0)),
    ).add(bag_of(throttled)));
    assert(taken_in.all_tasks().add(bag_of(throttled)) =~= cleared.all_tasks().add(
        tasks_of(messages),
    ));
    assert(cleared.all_tasks().add(tasks_of(freed)) =~= view.all_tasks());
    assert(result.all_tasks() =~= view.all_tasks().add(task_of(first)).add(tasks_of(ready)));
}

/// Releasing throttled tasks loses none and invents none.
pub proof fn law_release_keeps_every_task<P>(view: QueueView<P>, active: Set<u64>)
    ensures
        view.with_throttles_released(active).0.all_tasks() == view.all_tasks(),
    decreases view.throttled.len(),
{
    if view.throttled.len() > 0 && view.taken <= PER_ITERATION_MAX {
        let queued = view.throttled[0];
        let rest = QueueView { throttled: view.throttled.drop_first(), ..view };
        let counted = QueueView { taken: super::counted(rest.taken), ..rest };
        lemma_bag_first(view.throttled);
        assert(view.all_tasks() =~= rest.all_tasks().insert(queued));
        lemma_with_message_keeps(counted, TaskMessage::Task(queued));
        assert(counted.all_tasks() == rest.all_tasks());
        assert(rest.all_tasks().add(task_of(TaskMessage::Task(queued)))
            =~= rest.all_tasks().insert(queued));
        law_release_keeps_every_task(counted.with_message(TaskMessage::Task(queued)), active);
        if let Some(pipeline) = queued.pipeline_id {
            lemma_holding_keeps(rest, queued, pipeline);
            law_release_keeps_every_task(rest.holding(queued, pipeline), active);
        }
    }
}

/// After a release either nothing is throttled any more, or the loop is busy and is woken again:
/// no throttled task is forgotten.
pub proof fn law_throttled_tasks_get_a_wake_up<P>(view: QueueView<P>, active: Set<u64>)
    ensures
        ({
            let (after, wake_up) = view.with_throttles_released(active);
            &&& wake_up <==> after.throttled.len() > 0
            &&& wake_up ==> after.taken > PER_ITERATION_MAX
        }),
    decreases view.throttled.len(),
{
    if view.throttled.len() > 0 && view.taken <= PER_ITERATION_MAX {
        let queued = view.throttled[0];
        let rest = QueueView { throttled: view.throttled.drop_first(), ..view };
        let counted = QueueView { taken: super::counted(rest.taken), ..rest };
        law_throttled_tasks_get_a_wake_up(
            counted.with_message(TaskMessage::Task(queued)),
            active,
        );
        if let Some(pipeline) = queued.pipeline_id {
            law_throttled_tasks_get_a_wake_up(rest.holding(queued, pipeline), active);
        }
    }
}

/// A message goes straight to the loop: it is no wake-up, is not throttled, and its document is
/// active if it has one.
pub open spec fn runs_at_once<P>(message: TaskMessage<P>, active: Set<u64>) -> bool {
    match message {
        TaskMessage::Task(queued) => !(queued.task_source is PerformanceTimeline) && (
        queued.task_source is Rendering || match queued.pipeline_id {
            Some(pipeline) => active.contains(pipeline.0),
            None => true,
        }),
        TaskMessage::Inactive => true,
        TaskMessage::WakeUp => false,
        TaskMessage::Other(_) => true,
    }
}

proof fn lemma_runs_in_order<P>(
    view: QueueView<P>,
    messages: Seq<TaskMessage<P>>,
    index: int,
    active: Set<u64>,
)
    requires
        0 <= index <= messages.len(),
        forall|i: int|
            0 <= i < messages.len() ==> runs_at_once(#[trigger] messages[i], active),
    ensures
        view.with_all_incoming(messages, index, active).messages == view.messages + messages.skip(
            index,
        ),
        view.with_all_incoming(messages, index, active).inactive == view.inactive,
        view.with_all_incoming(messages, index, active).throttled == view.throttled,
    decreases messages.len() - index,
{
    if index < messages.len() {
        let message = messages[index];
        assert(runs_at_once(message, active));
        let counted = QueueView { taken: super::counted(view.taken), ..view };
        lemma_runs_in_order(view.with_message(message), messages, index + 1, active);
        lemma_runs_in_order(counted.with_message(message), messages, index + 1, active);
        assert(view.messages.push(message) + messages.skip(index + 1) =~= view.messages
            + messages.skip(index));
    } else {
        assert(view.messages + messages.skip(index) =~= view.messages);
    }
}

proof fn lemma_nothing_throttled<P>(messages: Seq<TaskMessage<P>>, count: int, active: Set<u64>)
    requires
        0 <= count <= messages.len(),
        forall|i: int|
            0 <= i < messages.len() ==> runs_at_once(#[trigger] messages[i], active),
    ensures
        to_throttle(messages, count) == Seq::<QueuedTask<P>>::empty(),
    decreases count,
{
    if count > 0 {
        lemma_nothing_throttled(messages, count - 1, active);
        assert(runs_at_once(messages[count - 1], active));
    }
}

/// Messages of active documents that are not throttled reach the loop in the order in which they
/// arrived, behind what it already had.
pub proof fn law_active_tasks_run_in_order<P>(
    view: QueueView<P>,
    first: TaskMessage<P>,
    ready: Seq<TaskMessage<P>>,
    active: Set<u64>,
)
    requires
        forall|i: int|
            0 <= i < view.intake(first, ready, active).len() ==> runs_at_once(
                #[trigger] view.intake(first, ready, active)[i],
                active,
            ),
    ensures
        view.with_intake(first, ready, active).messages == view.messages + view.intake(
            first,
            ready,
            active,
        ),
        view.with_intake(first, ready, active).throttled == view.throttled,
{
    let messages = view.intake(first, ready, active);
    let cleared = QueueView { inactive: without_released(view.inactive, active), ..view };
    lemma_runs_in_order(cleared, messages, 0, active);
    lemma_nothing_throttled(messages, messages.len() as int, active);
    assert(messages.skip(0) =~= messages);
    assert(view.throttled + Seq::empty() =~= view.throttled);
}

/// The messages that are neither tasks nor notes of the queues, in order.
pub open spec fn others_of<P>(messages: Seq<TaskMessage<P>>) -> Seq<TaskMessage<P>>
    decreases messages.len(),
{
    if messages.len() == 0 {
        Seq::empty()
    } else if messages.last() is Other {
        others_of(messages.drop_last()).push(messages.last())
    } else {
        others_of(messages.drop_last())
    }
}

proof fn lemma_others_push<P>(messages: Seq<TaskMessage<P>>, message: TaskMessage<P>)
    ensures
        others_of(messages.push(message)) == if message is Other {
            others_of(messages).push(message)
        } else {
            others_of(messages)
        },
{
    assert(messages.push(message).drop_last() =~= messages);
}

proof fn lemma_others_concat<P>(left: Seq<TaskMessage<P>>, right: Seq<TaskMessage<P>>)
    ensures
        others_of(left + right) == others_of(left) + others_of(right),
    decreases right.len(),
{
    if right.len() == 0 {
        assert(left + right =~= left);
    } else {
        lemma_others_concat(left, right.drop_last());
        assert((left + right).drop_last() =~= left + right.drop_last());
    }
    assert(others_of(left + right) =~= others_of(left) + others_of(right));
}

proof fn lemma_no_others<P>(messages: Seq<TaskMessage<P>>)
    requires
        forall|i: int| 0 <= i < messages.len() ==> !(#[trigger] messages[i] is Other),
    ensures
        others_of(messages) == Seq::<TaskMessage<P>>::empty(),
    decreases messages.len(),
{
    if messages.len() > 0 {
        lemma_no_others(messages.drop_last());
    }
}

proof fn lemma_others_released<P>(
    held: Seq<(PipelineId, Seq<QueuedTask<P>>)>,
    count: int,
    active: Set<u64>,
)
    requires
        0 <= count <= held.len(),
    ensures
        others_of(released(held, count, active)) == Seq::<TaskMessage<P>>::empty(),
    decreases count,
{
    if count > 0 {
        lemma_others_released(held, count - 1, active);
        let tasks = held[count - 1].1.map_values(|task: QueuedTask<P>| TaskMessage::Task(task));
        lemma_no_others(tasks);
        lemma_others_concat(released(held, count - 1, active), tasks);
        assert(others_of(released(held, count, active)) =~= Seq::empty());
    }
}

proof fn lemma_others_without_wake_ups<P>(messages: Seq<TaskMessage<P>>, count: int)
    requires
        0 <= count <= messages.len(),
    ensures
        others_of(without_wake_ups(messages, count)) == others_of(messages.take(count)),
    decreases count,
{
    if count > 0 {
        let message = messages[count - 1];
        lemma_others_without_wake_ups(messages, count - 1);
        lemma_others_push(without_wake_ups(messages, count - 1), message);
        lemma_others_push(messages.take(count - 1), message);
        assert(messages.take(count) =~= messages.take(count - 1).push(message));
    } else {
        assert(messages.take(count) =~= Seq::empty());
    }
}

proof fn lemma_others_incoming<P>(
    view: QueueView<P>,
    messages: Seq<TaskMessage<P>>,
    index: int,
    active: Set<u64>,
)
    requires
        0 <= index <= messages.len(),
    ensures
        others_of(view.with_all_incoming(messages, index, active).messages) == others_of(
            view.messages,
        ) + others_of(messages.skip(index)),
    decreases messages.len() - index,
{
    if index < messages.len() {
        let message = messages[index];
        let counted = QueueView { taken: super::counted(view.taken), ..view };
        let next = match message {
            TaskMessage::Task(queued) => if queued.task_source is PerformanceTimeline {
                view
            } else {
                counted.with_incoming(message, active)
            },
            _ => view.with_incoming(message, active),
        };
        lemma_others_incoming(next, messages, index + 1, active);
        let first = seq![message];
        assert(messages.skip(index) =~= first + messages.skip(index + 1));
        lemma_others_concat(first, messages.skip(index + 1));
        lemma_others_push(Seq::empty(), message);
        assert(first =~= Seq::empty().push(message));
        lemma_others_push(view.messages, message);
        lemma_no_others(seq![TaskMessage::<P>::Inactive]);
        assert(others_of(next.messages) =~= others_of(view.messages) + others_of(first));
        assert(others_of(view.messages) + others_of(first) + others_of(messages.skip(index + 1))
            =~= others_of(view.messages) + others_of(messages.skip(index)));
    } else {
        assert(messages.skip(index) =~= Seq::empty());
        assert(others_of(view.messages) + Seq::empty() =~= others_of(view.messages));
    }
}

/// Messages that are neither tasks nor notes of the queues all reach the loop, in the order in which
/// they arrived, whatever is held back or throttled meanwhile.
pub proof fn law_other_messages_reach_the_loop<P>(
    view: QueueView<P>,
    first: TaskMessage<P>,
    ready: Seq<TaskMessage<P>>,
    active: Set<u64>,
)
    ensures
        others_of(view.with_intake(first, ready, active).messages) == others_of(view.messages)
            + others_of(seq![first] + ready),
{
    let messages = view.intake(first, ready, active);
    let cleared = QueueView { inactive: without_released(view.inactive, active), ..view };
    let freed = released(view.inactive, view.inactive.len() as int, active);
    let first_part = if first.is_wake_up() {
        Seq::empty()
    } else {
        seq![first]
    };
    let rest = without_wake_ups(ready, ready.len() as int);
    lemma_others_incoming(cleared, messages, 0, active);
    assert(messages.skip(0) =~= messages);
    lemma_others_released(view.inactive, view.inactive.len() as int, active);
    lemma_others_without_wake_ups(ready, ready.len() as int);
    assert(ready.take(ready.len() as int) =~= ready);
    lemma_others_concat(freed, first_part);
    lemma_others_concat(freed + first_part, rest);
    lemma_others_concat(seq![first], ready);
    lemma_others_push(Seq::empty(), first);
    assert(Seq::empty().push(first) =~= seq![first]);
    assert(others_of(first_part) =~= others_of(seq![first]));
    assert(others_of(messages) =~= others_of(seq![first] + ready));
}

/// A ready task of an active document is what a controlled turn hands out, whatever is throttled:
/// a throttled task does not overtake it.
pub proof fn law_ready_task_is_not_overtaken<P>(
    view: QueueView<P>,
    message: TaskMessage<P>,
    wake_index: int,
    active: Set<u64>,
)
    requires
        view.messages.len() == 0,
        runs_at_once(message, active),
        released(view.inactive, view.inactive.len() as int, active).len() == 0,
    ensures
        view.controlled_step(Some(message), wake_index, active).1 == (ControlledStep::Done {
            message,
            wake_up: false,
        }),
        view.controlled_step(Some(message), wake_index, active).0.throttled == view.throttled,
{
    let none = Seq::<TaskMessage<P>>::empty();
    assert(view.intake(message, none, active) =~= seq![message]);
    assert(without_wake_ups(none, 0) =~= Seq::empty());
    assert forall|i: int| 0 <= i < view.intake(message, none, active).len() implies runs_at_once(
        #[trigger] view.intake(message, none, active)[i],
        active,
    ) by {
        assert(seq![message][i] == message);
    }
    law_active_tasks_run_in_order(view, message, none, active);
    assert(view.messages + seq![message] =~= seq![message]);
}

/// The message that a controlled turn takes in: the first that is no wake-up, if the turn gets to
/// it before it has looked at as many wake-ups as it may.
pub open spec fn taken_in<P>(
    message: Option<TaskMessage<P>>,
    received: Seq<TaskMessage<P>>,
    wake_index: int,
) -> Option<TaskMessage<P>>
    decreases WAKE_SCAN_LIMIT - wake_index,
{
    match message {
        None => None,
        Some(first) => if !first.is_wake_up() {
            Some(first)
        } else if wake_index + 1 >= WAKE_SCAN_LIMIT {
            None
        } else {
            taken_in(
                if 0 <= wake_index < received.len() {
                    Some(received[wake_index])
                } else {
                    None
                },
                received,
                wake_index + 1,
            )
        },
    }
}

/// The task of a message, if there is one.
pub open spec fn task_of_any<P>(message: Option<TaskMessage<P>>) -> Multiset<QueuedTask<P>> {
    match message {
        Some(message) => task_of(message),
        None => Multiset::empty(),
    }
}

proof fn lemma_tasks_first<P>(messages: Seq<TaskMessage<P>>)
    requires
        messages.len() > 0,
    ensures
        tasks_of(messages) == tasks_of(messages.drop_first()).add(task_of(messages[0])),
{
    let first = seq![messages[0]];
    lemma_tasks_push(Seq::empty(), messages[0]);
    assert(first =~= Seq::empty().push(messages[0]));
    assert(messages =~= first + messages.drop_first());
    lemma_tasks_concat(first, messages.drop_first());
    assert(tasks_of(first) =~= task_of(messages[0]));
    assert(tasks_of(messages) =~= tasks_of(messages.drop_first()).add(task_of(messages[0])));
}

pub proof fn lemma_recv_keeps<P>(view: QueueView<P>)
    ensures
        view.after_recv().all_tasks().add(task_of(view.next_or_wake_up())) == view.all_tasks(),
{
    if view.messages.len() > 0 {
        lemma_tasks_first(view.messages);
    }
    assert(view.after_recv().all_tasks().add(task_of(view.next_or_wake_up()))
        =~= view.all_tasks());
}

/// A controlled turn takes in at most one task, however many are ready, and drops none: what it
/// hands out and what is left are what there was and that one task.
pub proof fn law_controlled_turn_takes_one_task<P>(
    view: QueueView<P>,
    message: Option<TaskMessage<P>>,
    received: Seq<TaskMessage<P>>,
    wake_index: int,
    active: Set<u64>,
)
    ensures
        ({
            let (after, handed, _) = view.controlled_turn(message, received, wake_index, active);
            after.all_tasks().add(task_of(handed)) == view.all_tasks().add(
                task_of_any(taken_in(message, received, wake_index)),
            )
        }),
    decreases WAKE_SCAN_LIMIT - wake_index,
{
    let none = Seq::<TaskMessage<P>>::empty();
    match message {
        None => {
            let intake = view.with_intake(TaskMessage::WakeUp, none, active);
            let taken = intake.with_throttles_released(active).0;
            law_intake_keeps_every_task(view, TaskMessage::WakeUp, none, active);
            law_release_keeps_every_task(intake, active);
            lemma_recv_keeps(taken);
            assert(view.all_tasks().add(task_of(TaskMessage::<P>::WakeUp)).add(tasks_of(none))
                =~= view.all_tasks());
            assert(view.all_tasks().add(Multiset::empty()) =~= view.all_tasks());
        },
        Some(first) => {
            if !first.is_wake_up() {
                let taken = view.with_intake(first, none, active);
                law_intake_keeps_every_task(view, first, none, active);
                lemma_recv_keeps(taken);
                assert(view.all_tasks().add(task_of(first)).add(tasks_of(none))
                    =~= view.all_tasks().add(task_of(first)));
            } else if wake_index + 1 >= WAKE_SCAN_LIMIT {
                assert(view.all_tasks().add(task_of(TaskMessage::<P>::WakeUp))
                    =~= view.all_tasks().add(Multiset::empty()));
            } else {
                law_controlled_turn_takes_one_task(
                    view,
                    if 0 <= wake_index < received.len() {
                        Some(received[wake_index])
                    } else {
                        None
                    },
                    received,
                    wake_index + 1,
                    active,
                );
            }
        },
    }
}

} // verus!
