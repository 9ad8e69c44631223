//! In which order tasks reach the loop, document by document.
use crate::ids::PipelineId;
use crate::task_queue::{
    counted, held_index, lemma_held_index, released, to_throttle, without_released,
    without_wake_ups, ControlledStep, QueueView, QueuedTask, TaskMessage, TaskSourceName,
};
use super::laws::{
    law_controlled_turn_takes_one_task, law_intake_keeps_every_task, law_release_keeps_every_task,
    lemma_recv_keeps, task_of, task_of_any, taken_in, tasks_of,
};
use vstd::multiset::Multiset;
use vstd::prelude::*;

verus! {

/// The chosen tasks of a sequence, in order.
pub open spec fn chosen<P>(
    tasks: Seq<QueuedTask<P>>,
    choice: spec_fn(QueuedTask<P>) -> bool,
) -> Seq<QueuedTask<P>>
    decreases tasks.len(),
{
    if tasks.len() == 0 {
        Seq::empty()
    } else if choice(tasks.last()) {
        chosen(tasks.drop_last(), choice).push(tasks.last())
    } else {
        chosen(tasks.drop_last(), choice)
    }
}

/// The chosen tasks among messages, in order.
pub open spec fn tasks_among<P>(
    messages: Seq<TaskMessage<P>>,
    choice: spec_fn(QueuedTask<P>) -> bool,
) -> Seq<QueuedTask<P>>
    decreases messages.len(),
{
    if messages.len() == 0 {
        Seq::empty()
    } else {
        match messages.last() {
            TaskMessage::Task(task) => if choice(task) {
                tasks_among(messages.drop_last(), choice).push(task)
            } else {
                tasks_among(messages.drop_last(), choice)
            },
            _ => tasks_among(messages.drop_last(), choice),
        }
    }
}

/// The tasks that are held back for a document, in order.
pub open spec fn held_for<P>(
    held: Seq<(PipelineId, Seq<QueuedTask<P>>)>,
    document: PipelineId,
) -> Seq<QueuedTask<P>>
    decreases held.len(),
{
    if held.len() == 0 {
        Seq::empty()
    } else if held.last().0 == document {
        held_for(held.drop_last(), document) + held.last().1
    } else {
        held_for(held.drop_last(), document)
    }
}

/// Every task that is held back is held for its own document.
pub open spec fn held_in_place<P>(held: Seq<(PipelineId, Seq<QueuedTask<P>>)>) -> bool {
    forall|i: int, j: int|
        0 <= i < held.len() && 0 <= j < held[i].1.len() ==> (#[trigger]
        held[i].1[j]).pipeline_id == Some(held[i].0)
}

/// A task is throttled while the loop is busy.
pub open spec fn is_throttled<P>(task: QueuedTask<P>) -> bool {
    task.task_source == TaskSourceName::PerformanceTimeline
}

/// The document of a task is active, or it has none, or the task renders, which is always done.
pub open spec fn may_run<P>(task: QueuedTask<P>, active: Set<u64>) -> bool {
    ||| task.task_source == TaskSourceName::Rendering
    ||| task.pipeline_id is None
    ||| active.contains((task.pipeline_id->0).0)
}

/// A message goes to the loop at once.
pub open spec fn passes<P>(message: TaskMessage<P>, active: Set<u64>) -> bool {
    match message {
        TaskMessage::Task(task) => !is_throttled(task) && may_run(task, active),
        TaskMessage::WakeUp => false,
        TaskMessage::Inactive => true,
        TaskMessage::Other(_) => true,
    }
}

/// The messages that go to the loop at once, in order.
pub open spec fn passing<P>(messages: Seq<TaskMessage<P>>, active: Set<u64>) -> Seq<TaskMessage<P>>
    decreases messages.len(),
{
    if messages.len() == 0 {
        Seq::empty()
    } else if passes(messages.last(), active) {
        passing(messages.drop_last(), active).push(messages.last())
    } else {
        passing(messages.drop_last(), active)
    }
}

proof fn lemma_chosen_push<P>(
    tasks: Seq<QueuedTask<P>>,
    task: QueuedTask<P>,
    choice: spec_fn(QueuedTask<P>) -> bool,
)
    ensures
        chosen(tasks.push(task), choice) == if choice(task) {
            chosen(tasks, choice).push(task)
        } else {
            chosen(tasks, choice)
        },
{
    assert(tasks.push(task).drop_last() =~= tasks);
}

proof fn lemma_chosen_concat<P>(
    left: Seq<QueuedTask<P>>,
    right: Seq<QueuedTask<P>>,
    choice: spec_fn(QueuedTask<P>) -> bool,
)
    ensures
        chosen(left + right, choice) == chosen(left, choice) + chosen(right, choice),
    decreases right.len(),
{
    if right.len() == 0 {
        assert(left + right =~= left);
    } else {
        lemma_chosen_concat(left, right.drop_last(), choice);
        assert((left + right).drop_last() =~= left + right.drop_last());
    }
    assert(chosen(left + right, choice) =~= chosen(left, choice) + chosen(right, choice));
}

proof fn lemma_tasks_push<P>(
    messages: Seq<TaskMessage<P>>,
    message: TaskMessage<P>,
    choice: spec_fn(QueuedTask<P>) -> bool,
)
    ensures
        tasks_among(messages.push(message), choice) == match message {
            TaskMessage::Task(task) => if choice(task) {
                tasks_among(messages, choice).push(task)
            } else {
                tasks_among(messages, choice)
            },
            _ => tasks_among(messages, choice),
        },
{
    assert(messages.push(message).drop_last() =~= messages);
}

proof fn lemma_tasks_concat<P>(
    left: Seq<TaskMessage<P>>,
    right: Seq<TaskMessage<P>>,
    choice: spec_fn(QueuedTask<P>) -> bool,
)
    ensures
        tasks_among(left + right, choice) == tasks_among(left, choice) + tasks_among(
            right,
            choice,
        ),
    decreases right.len(),
{
    if right.len() == 0 {
        assert(left + right =~= left);
    } else {
        lemma_tasks_concat(left, right.drop_last(), choice);
        assert((left + right).drop_last() =~= left + right.drop_last());
    }
    assert(tasks_among(left + right, choice) =~= tasks_among(left, choice) + tasks_among(
        right,
        choice,
    ));
}

/// The tasks among the messages from `index` on: the first, and those behind it.
proof fn lemma_tasks_skip<P>(
    messages: Seq<TaskMessage<P>>,
    index: int,
    choice: spec_fn(QueuedTask<P>) -> bool,
)
    requires
        0 <= index < messages.len(),
    ensures
        tasks_among(messages.skip(index), choice) == match messages[index] {
            TaskMessage::Task(task) => if choice(task) {
                seq![task] + tasks_among(messages.skip(index + 1), choice)
            } else {
                tasks_among(messages.skip(index + 1), choice)
            },
            _ => tasks_among(messages.skip(index + 1), choice),
        },
{
    let first = Seq::<TaskMessage<P>>::empty().push(messages[index]);
    assert(messages.skip(index) =~= first + messages.skip(index + 1));
    lemma_tasks_concat(first, messages.skip(index + 1), choice);
    lemma_tasks_push(Seq::empty(), messages[index], choice);
    assert(tasks_among(Seq::<TaskMessage<P>>::empty(), choice) =~= Seq::empty());
    assert(tasks_among(messages.skip(index), choice) =~= match messages[index] {
        TaskMessage::Task(task) => if choice(task) {
            seq![task] + tasks_among(messages.skip(index + 1), choice)
        } else {
            tasks_among(messages.skip(index + 1), choice)
        },
        _ => tasks_among(messages.skip(index + 1), choice),
    });
}

proof fn lemma_passing_concat<P>(
    left: Seq<TaskMessage<P>>,
    right: Seq<TaskMessage<P>>,
    active: Set<u64>,
)
    ensures
        passing(left + right, active) == passing(left, active) + passing(right, active),
    decreases right.len(),
{
    if right.len() == 0 {
        assert(left + right =~= left);
    } else {
        lemma_passing_concat(left, right.drop_last(), active);
        assert((left + right).drop_last() =~= left + right.drop_last());
    }
    assert(passing(left + right, active) =~= passing(left, active) + passing(right, active));
}

proof fn lemma_passing_skip<P>(messages: Seq<TaskMessage<P>>, index: int, active: Set<u64>)
    requires
        0 <= index < messages.len(),
    ensures
        passing(messages.skip(index), active) == if passes(messages[index], active) {
            seq![messages[index]] + passing(messages.skip(index + 1), active)
        } else {
            passing(messages.skip(index + 1), active)
        },
{
    let first = Seq::<TaskMessage<P>>::empty().push(messages[index]);
    assert(messages.skip(index) =~= first + messages.skip(index + 1));
    lemma_passing_concat(first, messages.skip(index + 1), active);
    assert(first.drop_last() =~= Seq::empty());
    assert(passing(Seq::<TaskMessage<P>>::empty(), active) =~= Seq::empty());
    assert(passing(messages.skip(index), active) =~= if passes(messages[index], active) {
        seq![messages[index]] + passing(messages.skip(index + 1), active)
    } else {
        passing(messages.skip(index + 1), active)
    });
}

proof fn lemma_held_none<P>(held: Seq<(PipelineId, Seq<QueuedTask<P>>)>, document: PipelineId)
    requires
        forall|i: int| 0 <= i < held.len() ==> (#[trigger] held[i]).0 != document,
    ensures
        held_for(held, document) == Seq::<QueuedTask<P>>::empty(),
    decreases held.len(),
{
    if held.len() > 0 {
        lemma_held_none(held.drop_last(), document);
    }
}

proof fn lemma_held_at<P>(
    held: Seq<(PipelineId, Seq<QueuedTask<P>>)>,
    document: PipelineId,
    index: int,
)
    requires
        0 <= index < held.len(),
        held[index].0 == document,
        forall|i: int| 0 <= i < held.len() && i != index ==> (#[trigger] held[i]).0 != document,
    ensures
        held_for(held, document) == held[index].1,
    decreases held.len(),
{
    if index == held.len() - 1 {
        lemma_held_none(held.drop_last(), document);
        assert(Seq::empty() + held[index].1 =~= held[index].1);
    } else {
        lemma_held_at(held.drop_last(), document, index);
        assert(held.last() == held[held.len() - 1]);
    }
}

/// A task that is held back comes last among those of its document.
proof fn lemma_holding<P>(
    view: QueueView<P>,
    task: QueuedTask<P>,
    pipeline: PipelineId,
    document: PipelineId,
)
    requires
        view.wf(),
    ensures
        view.holding(task, pipeline).wf(),
        held_for(view.holding(task, pipeline).inactive, document) == if pipeline == document {
            held_for(view.inactive, document).push(task)
        } else {
            held_for(view.inactive, document)
        },
{
    let after = view.holding(task, pipeline);
    lemma_held_index(view.inactive, 0, pipeline);
    match held_index(view.inactive, 0, pipeline) {
        Some(index) => {
            if pipeline == document {
                lemma_held_at(view.inactive, document, index);
                lemma_held_at(after.inactive, document, index);
            } else {
                lemma_held_same(view.inactive, after.inactive, document);
            }
        },
        None => {
            assert(after.inactive.drop_last() =~= view.inactive);
            assert(after.inactive.last() == (pipeline, seq![task]));
            assert(held_for(view.inactive, document) + seq![task] =~= held_for(
                view.inactive,
                document,
            ).push(task));
        },
    }
}

proof fn lemma_held_same<P>(
    left: Seq<(PipelineId, Seq<QueuedTask<P>>)>,
    right: Seq<(PipelineId, Seq<QueuedTask<P>>)>,
    document: PipelineId,
)
    requires
        left.len() == right.len(),
        forall|i: int| 0 <= i < left.len() ==> (#[trigger] left[i]).0 == right[i].0,
        forall|i: int|
            0 <= i < left.len() && (#[trigger] left[i]).0 == document ==> left[i].1 == right[i].1,
    ensures
        held_for(left, document) == held_for(right, document),
    decreases left.len(),
{
    if left.len() > 0 {
        lemma_held_same(left.drop_last(), right.drop_last(), document);
        assert(left[left.len() - 1].0 == right[right.len() - 1].0);
    }
}

/// What an intake of messages does to the tasks of one document, or of none.
proof fn lemma_all_incoming<P>(
    view: QueueView<P>,
    messages: Seq<TaskMessage<P>>,
    index: int,
    active: Set<u64>,
    document: Option<PipelineId>,
)
    requires
        view.wf(),
        0 <= index <= messages.len(),
    ensures
        ({
            let after = view.with_all_incoming(messages, index, active);
            let rest = messages.skip(index);
            let own = |task: QueuedTask<P>| task.pipeline_id == document;
            let runs = |task: QueuedTask<P>|
                task.pipeline_id == document && !is_throttled(task) && may_run(task, active);
            let waits = |task: QueuedTask<P>|
                task.pipeline_id == document && !is_throttled(task) && !may_run(task, active);
            &&& after.wf()
            &&& after.throttled == view.throttled
            &&& tasks_among(after.messages, own) == tasks_among(view.messages, own)
                + tasks_among(rest, runs)
            &&& document is Some ==> held_for(after.inactive, document->0) == held_for(
                view.inactive,
                document->0,
            ) + tasks_among(rest, waits)
        }),
    decreases messages.len() - index,
{
    let after = view.with_all_incoming(messages, index, active);
    let rest = messages.skip(index);
    let own = |task: QueuedTask<P>| task.pipeline_id == document;
    let runs = |task: QueuedTask<P>|
        task.pipeline_id == document && !is_throttled(task) && may_run(task, active);
    let waits = |task: QueuedTask<P>|
        task.pipeline_id == document && !is_throttled(task) && !may_run(task, active);
    if index >= messages.len() {
        assert(rest =~= Seq::empty());
        assert(tasks_among(view.messages, own) + tasks_among(rest, runs) =~= tasks_among(
            view.messages,
            own,
        ));
        if document is Some {
            assert(held_for(view.inactive, document->0) + tasks_among(rest, waits) =~= held_for(
                view.inactive,
                document->0,
            ));
        }
    } else {
        let message = messages[index];
        let next = match message {
            TaskMessage::Task(queued) => if queued.task_source is PerformanceTimeline {
                view
            } else {
                QueueView { taken: counted(view.taken), ..view }.with_incoming(message, active)
            },
            _ => view.with_incoming(message, active),
        };
        lemma_tasks_push(view.messages, message, own);
        lemma_tasks_skip(messages, index, runs);
        lemma_tasks_skip(messages, index, waits);
        if let TaskMessage::Task(queued) = message {
            if let Some(pipeline) = queued.pipeline_id {
                let base = QueueView { taken: counted(view.taken), ..view };
                lemma_holding(base, queued, pipeline, pipeline);
                if document is Some {
                    lemma_holding(base, queued, pipeline, document->0);
                }
                let note = Seq::<TaskMessage<P>>::empty().push(TaskMessage::Inactive);
                assert(seq![TaskMessage::<P>::Inactive] =~= note);
                lemma_tasks_push(Seq::empty(), TaskMessage::Inactive, own);
            }
        }
        assert(next.wf());
        lemma_all_incoming(next, messages, index + 1, active, document);
        let tail = messages.skip(index + 1);
        assert(tasks_among(after.messages, own) =~= tasks_among(view.messages, own)
            + tasks_among(rest, runs));
        if document is Some {
            assert(held_for(after.inactive, document->0) =~= held_for(view.inactive, document->0)
                + tasks_among(rest, waits));
        }
    }
}

/// Only the tasks of active documents are released, those of a document in the order in which they
/// were held back.
proof fn lemma_released<P>(
    held: Seq<(PipelineId, Seq<QueuedTask<P>>)>,
    count: int,
    active: Set<u64>,
    document: Option<PipelineId>,
    choice: spec_fn(QueuedTask<P>) -> bool,
)
    requires
        0 <= count <= held.len(),
        held_in_place(held),
        forall|task: QueuedTask<P>| #[trigger] choice(task) ==> task.pipeline_id == document,
    ensures
        tasks_among(released(held, count, active), choice) == if document is Some
            && active.contains((document->0).0) {
            chosen(held_for(held.take(count), document->0), choice)
        } else {
            Seq::empty()
        },
    decreases count,
{
    if count <= 0 {
        assert(held.take(count) =~= Seq::empty());
        assert(tasks_among(released(held, count, active), choice) =~= Seq::empty());
    } else {
        lemma_released(held, count - 1, active, document, choice);
        assert(held.take(count).drop_last() =~= held.take(count - 1));
        let entry = held[count - 1];
        assert(held.take(count).last() == entry);
        let messages = entry.1.map_values(|task: QueuedTask<P>| TaskMessage::Task(task));
        lemma_tasks_concat(released(held, count - 1, active), messages, choice);
        lemma_tasks_of_map(entry.1, choice);
        if document == Some(entry.0) {
            lemma_chosen_concat(held_for(held.take(count - 1), entry.0), entry.1, choice);
        } else {
            assert forall|j: int| 0 <= j < entry.1.len() implies !choice(
                #[trigger] entry.1[j],
            ) by {
                assert(held[count - 1].1[j].pipeline_id == Some(entry.0));
            }
            lemma_none_chosen(entry.1, choice);
        }
        assert(tasks_among(released(held, count, active), choice) =~= if document is Some
            && active.contains((document->0).0) {
            chosen(held_for(held.take(count), document->0), choice)
        } else {
            Seq::empty()
        });
    }
}

proof fn lemma_tasks_of_map<P>(
    tasks: Seq<QueuedTask<P>>,
    choice: spec_fn(QueuedTask<P>) -> bool,
)
    ensures
        tasks_among(tasks.map_values(|task: QueuedTask<P>| TaskMessage::Task(task)), choice)
            == chosen(tasks, choice),
    decreases tasks.len(),
{
    let messages = tasks.map_values(|task: QueuedTask<P>| TaskMessage::Task(task));
    if tasks.len() > 0 {
        lemma_tasks_of_map(tasks.drop_last(), choice);
        assert(messages.drop_last() =~= tasks.drop_last().map_values(
            |task: QueuedTask<P>| TaskMessage::Task(task),
        ));
    }
}

proof fn lemma_none_chosen<P>(
    tasks: Seq<QueuedTask<P>>,
    choice: spec_fn(QueuedTask<P>) -> bool,
)
    requires
        forall|j: int| 0 <= j < tasks.len() ==> !choice(#[trigger] tasks[j]),
    ensures
        chosen(tasks, choice) == Seq::<QueuedTask<P>>::empty(),
    decreases tasks.len(),
{
    if tasks.len() > 0 {
        lemma_none_chosen(tasks.drop_last(), choice);
    }
}

proof fn lemma_without_wake_ups<P>(
    messages: Seq<TaskMessage<P>>,
    count: int,
    choice: spec_fn(QueuedTask<P>) -> bool,
    active: Set<u64>,
)
    requires
        0 <= count <= messages.len(),
    ensures
        tasks_among(without_wake_ups(messages, count), choice) == tasks_among(
            messages.take(count),
            choice,
        ),
        passing(without_wake_ups(messages, count), active) == passing(
            messages.take(count),
            active,
        ),
    decreases count,
{
    if count > 0 {
        let message = messages[count - 1];
        let before = without_wake_ups(messages, count - 1);
        lemma_without_wake_ups(messages, count - 1, choice, active);
        assert(messages.take(count) =~= messages.take(count - 1).push(message));
        lemma_tasks_push(before, message, choice);
        lemma_tasks_push(messages.take(count - 1), message, choice);
        assert(before.push(message).drop_last() =~= before);
        assert(messages.take(count).drop_last() =~= messages.take(count - 1));
    } else {
        assert(messages.take(count) =~= Seq::empty());
    }
}

/// The tasks among the messages of an intake: those that are released, then those that arrive.
proof fn lemma_intake<P>(
    view: QueueView<P>,
    first: TaskMessage<P>,
    ready: Seq<TaskMessage<P>>,
    active: Set<u64>,
    choice: spec_fn(QueuedTask<P>) -> bool,
)
    ensures
        ({
            let messages = view.intake(first, ready, active);
            let freed = released(view.inactive, view.inactive.len() as int, active);
            let arrivals = seq![first] + ready;
            &&& tasks_among(messages, choice) == tasks_among(freed, choice) + tasks_among(
                arrivals,
                choice,
            )
            &&& passing(messages, active) == passing(freed, active) + passing(arrivals, active)
        }),
{
    let freed = released(view.inactive, view.inactive.len() as int, active);
    let first_part = if first.is_wake_up() {
        Seq::empty()
    } else {
        seq![first]
    };
    let rest = without_wake_ups(ready, ready.len() as int);
    lemma_tasks_concat(freed, first_part, choice);
    lemma_tasks_concat(freed + first_part, rest, choice);
    lemma_tasks_concat(seq![first], ready, choice);
    lemma_passing_concat(freed, first_part, active);
    lemma_passing_concat(freed + first_part, rest, active);
    lemma_passing_concat(seq![first], ready, active);
    lemma_without_wake_ups(ready, ready.len() as int, choice, active);
    assert(ready.take(ready.len() as int) =~= ready);
    let one = Seq::<TaskMessage<P>>::empty().push(first);
    assert(seq![first] =~= one);
    lemma_tasks_push(Seq::empty(), first, choice);
    assert(one.drop_last() =~= Seq::empty());
    let messages = view.intake(first, ready, active);
    let arrivals = seq![first] + ready;
    assert(tasks_among(messages, choice) =~= tasks_among(freed, choice) + tasks_among(
        arrivals,
        choice,
    ));
    assert(passing(messages, active) =~= passing(freed, active) + passing(arrivals, active));
}

proof fn lemma_throttled<P>(
    messages: Seq<TaskMessage<P>>,
    count: int,
    document: Option<PipelineId>,
)
    requires
        0 <= count <= messages.len(),
    ensures
        chosen(
            to_throttle(messages, count),
            |task: QueuedTask<P>| task.pipeline_id == document,
        ) == tasks_among(
            messages.take(count),
            |task: QueuedTask<P>| task.pipeline_id == document && is_throttled(task),
        ),
    decreases count,
{
    let own = |task: QueuedTask<P>| task.pipeline_id == document;
    let slow = |task: QueuedTask<P>| task.pipeline_id == document && is_throttled(task);
    if count > 0 {
        lemma_throttled(messages, count - 1, document);
        let message = messages[count - 1];
        assert(messages.take(count) =~= messages.take(count - 1).push(message));
        lemma_tasks_push(messages.take(count - 1), message, slow);
        if let TaskMessage::Task(task) = message {
            lemma_chosen_push(to_throttle(messages, count - 1), task, own);
        }
    } else {
        assert(messages.take(count) =~= Seq::empty());
    }
}

/// The tasks of a document reach the loop in the order in which they arrived: where it is active,
/// first those that were held back for it, in the order in which they were, and behind them those
/// that arrive. Tasks of a document that is not active are held back, behind those that are already;
/// only those that render reach the loop. Throttled tasks are kept in the same order, by themselves.
pub proof fn law_tasks_of_a_document_keep_their_order<P>(
    view: QueueView<P>,
    first: TaskMessage<P>,
    ready: Seq<TaskMessage<P>>,
    active: Set<u64>,
    document: PipelineId,
)
    requires
        view.wf(),
        held_in_place(view.inactive),
    ensures
        ({
            let after = view.with_intake(first, ready, active);
            let arrivals = seq![first] + ready;
            let own = |task: QueuedTask<P>| task.pipeline_id == Some(document);
            let runs = |task: QueuedTask<P>|
                task.pipeline_id == Some(document) && !is_throttled(task) && may_run(task, active);
            let waits = |task: QueuedTask<P>|
                task.pipeline_id == Some(document) && !is_throttled(task) && !may_run(
                    task,
                    active,
                );
            let slow = |task: QueuedTask<P>|
                task.pipeline_id == Some(document) && is_throttled(task);
            let held = held_for(view.inactive, document);
            if active.contains(document.0) {
                &&& tasks_among(after.messages, own) == tasks_among(view.messages, own) + chosen(
                    held,
                    runs,
                ) + tasks_among(arrivals, runs)
                &&& chosen(after.throttled, own) == chosen(view.throttled, own) + chosen(held, slow)
                    + tasks_among(arrivals, slow)
                &&& held_for(after.inactive, document) == Seq::<QueuedTask<P>>::empty()
            } else {
                &&& tasks_among(after.messages, own) == tasks_among(view.messages, own)
                    + tasks_among(arrivals, runs)
                &&& chosen(after.throttled, own) == chosen(view.throttled, own) + tasks_among(
                    arrivals,
                    slow,
                )
                &&& held_for(after.inactive, document) == held + tasks_among(arrivals, waits)
            }
        }),
{
    let some = Some(document);
    let own = |task: QueuedTask<P>| task.pipeline_id == some;
    let runs = |task: QueuedTask<P>|
        task.pipeline_id == some && !is_throttled(task) && may_run(task, active);
    let waits = |task: QueuedTask<P>|
        task.pipeline_id == some && !is_throttled(task) && !may_run(task, active);
    let slow = |task: QueuedTask<P>| task.pipeline_id == some && is_throttled(task);
    let messages = view.intake(first, ready, active);
    let cleared = QueueView { inactive: without_released(view.inactive, active), ..view };
    let count = view.inactive.len() as int;
    let arrivals = seq![first] + ready;
    assert(cleared.wf());
    lemma_all_incoming(cleared, messages, 0, active, some);
    assert(messages.skip(0) =~= messages);
    lemma_intake(view, first, ready, active, runs);
    lemma_intake(view, first, ready, active, waits);
    lemma_intake(view, first, ready, active, slow);
    assert(view.inactive.take(count) =~= view.inactive);
    lemma_released(view.inactive, count, active, some, runs);
    lemma_released(view.inactive, count, active, some, waits);
    lemma_released(view.inactive, count, active, some, slow);
    lemma_throttled(messages, messages.len() as int, some);
    assert(messages.take(messages.len() as int) =~= messages);
    let taken_in = cleared.with_all_incoming(messages, 0, active);
    lemma_chosen_concat(taken_in.throttled, to_throttle(messages, messages.len() as int), own);
    let after = view.with_intake(first, ready, active);
    let held = held_for(view.inactive, document);
    lemma_cleared(view.inactive, active, document);
    if active.contains(document.0) {
        lemma_waits_nothing(arrivals, waits);
        lemma_none_waits(held, waits);
        assert(tasks_among(after.messages, own) =~= tasks_among(view.messages, own) + chosen(
            held,
            runs,
        ) + tasks_among(arrivals, runs));
        assert(chosen(after.throttled, own) =~= chosen(view.throttled, own) + chosen(held, slow)
            + tasks_among(arrivals, slow));
        assert(held_for(after.inactive, document) =~= Seq::empty());
    } else {
        assert(tasks_among(after.messages, own) =~= tasks_among(view.messages, own)
            + tasks_among(arrivals, runs));
        assert(chosen(after.throttled, own) =~= chosen(view.throttled, own) + tasks_among(
            arrivals,
            slow,
        ));
        assert(held_for(after.inactive, document) =~= held + tasks_among(arrivals, waits));
    }
}

proof fn lemma_waits_nothing<P>(
    messages: Seq<TaskMessage<P>>,
    choice: spec_fn(QueuedTask<P>) -> bool,
)
    requires
        forall|task: QueuedTask<P>| !#[trigger] choice(task),
    ensures
        tasks_among(messages, choice) == Seq::<QueuedTask<P>>::empty(),
    decreases messages.len(),
{
    if messages.len() > 0 {
        lemma_waits_nothing(messages.drop_last(), choice);
    }
}

proof fn lemma_none_waits<P>(
    tasks: Seq<QueuedTask<P>>,
    choice: spec_fn(QueuedTask<P>) -> bool,
)
    requires
        forall|task: QueuedTask<P>| !#[trigger] choice(task),
    ensures
        chosen(tasks, choice) == Seq::<QueuedTask<P>>::empty(),
    decreases tasks.len(),
{
    if tasks.len() > 0 {
        lemma_none_waits(tasks.drop_last(), choice);
    }
}

/// Behind a release nothing is held for an active document, and for another what was.
proof fn lemma_cleared<P>(
    held: Seq<(PipelineId, Seq<QueuedTask<P>>)>,
    active: Set<u64>,
    document: PipelineId,
)
    ensures
        held_for(without_released(held, active), document) == if active.contains(document.0) {
            Seq::empty()
        } else {
            held_for(held, document)
        },
    decreases held.len(),
{
    let left = without_released(held, active);
    if held.len() > 0 {
        lemma_cleared(held.drop_last(), active, document);
        assert(left.drop_last() =~= without_released(held.drop_last(), active));
        assert(left.last() == left[held.len() - 1]);
        assert(Seq::<QueuedTask<P>>::empty() + Seq::empty() =~= Seq::<QueuedTask<P>>::empty());
    }
}

/// Tasks without a document are never held back: they reach the loop in the order in which they
/// arrive, and the throttled ones wait in that order.
pub proof fn law_tasks_without_a_document_are_never_held_back<P>(
    view: QueueView<P>,
    first: TaskMessage<P>,
    ready: Seq<TaskMessage<P>>,
    active: Set<u64>,
)
    requires
        view.wf(),
        held_in_place(view.inactive),
    ensures
        ({
            let after = view.with_intake(first, ready, active);
            let arrivals = seq![first] + ready;
            let own = |task: QueuedTask<P>| task.pipeline_id is None;
            let runs = |task: QueuedTask<P>| task.pipeline_id is None && !is_throttled(task);
            let slow = |task: QueuedTask<P>| task.pipeline_id is None && is_throttled(task);
            &&& tasks_among(after.messages, own) == tasks_among(view.messages, own) + tasks_among(
                arrivals,
                runs,
            )
            &&& chosen(after.throttled, own) == chosen(view.throttled, own) + tasks_among(
                arrivals,
                slow,
            )
        }),
{
    let none: Option<PipelineId> = None;
    let own = |task: QueuedTask<P>| task.pipeline_id == none;
    let runs = |task: QueuedTask<P>|
        task.pipeline_id == none && !is_throttled(task) && may_run(task, active);
    let slow = |task: QueuedTask<P>| task.pipeline_id == none && is_throttled(task);
    let messages = view.intake(first, ready, active);
    let cleared = QueueView { inactive: without_released(view.inactive, active), ..view };
    let count = view.inactive.len() as int;
    let arrivals = seq![first] + ready;
    assert(cleared.wf());
    lemma_all_incoming(cleared, messages, 0, active, none);
    assert(messages.skip(0) =~= messages);
    lemma_intake(view, first, ready, active, runs);
    lemma_intake(view, first, ready, active, slow);
    lemma_released(view.inactive, count, active, none, runs);
    lemma_released(view.inactive, count, active, none, slow);
    lemma_throttled(messages, messages.len() as int, none);
    assert(messages.take(messages.len() as int) =~= messages);
    let taken_in = cleared.with_all_incoming(messages, 0, active);
    lemma_chosen_concat(taken_in.throttled, to_throttle(messages, messages.len() as int), own);
    let after = view.with_intake(first, ready, active);
    let own2 = |task: QueuedTask<P>| task.pipeline_id is None;
    let runs2 = |task: QueuedTask<P>| task.pipeline_id is None && !is_throttled(task);
    let slow2 = |task: QueuedTask<P>| task.pipeline_id is None && is_throttled(task);
    assert(own =~= own2);
    assert(runs =~= runs2);
    assert(slow =~= slow2);
    assert(tasks_among(after.messages, own) =~= tasks_among(view.messages, own) + tasks_among(
        arrivals,
        runs,
    ));
    assert(chosen(after.throttled, own) =~= chosen(view.throttled, own) + tasks_among(
        arrivals,
        slow,
    ));
}

proof fn lemma_passing_incoming<P>(
    view: QueueView<P>,
    messages: Seq<TaskMessage<P>>,
    index: int,
    active: Set<u64>,
)
    requires
        0 <= index <= messages.len(),
        0 <= view.taken,
        view.taken + messages.len() - index < u64::MAX,
        forall|i: int| 0 <= i < messages.len() ==> !(#[trigger] messages[i] is WakeUp),
    ensures
        ({
            let after = view.with_all_incoming(messages, index, active);
            let rest = messages.skip(index);
            let work = tasks_among(rest, |task: QueuedTask<P>| !is_throttled(task));
            &&& view.messages.len() > 0 ==> after.messages == view.messages + passing(rest, active)
            &&& after.taken == view.taken + work.len()
            &&& work.len() <= rest.len()
            &&& work.len() > 0 || view.messages.len() > 0 ==> after.messages.len() > 0
        }),
    decreases messages.len() - index,
{
    let busy = |task: QueuedTask<P>| !is_throttled(task);
    let after = view.with_all_incoming(messages, index, active);
    let rest = messages.skip(index);
    if index >= messages.len() {
        assert(rest =~= Seq::empty());
        assert(view.messages + passing(rest, active) =~= view.messages);
    } else {
        let message = messages[index];
        let next = match message {
            TaskMessage::Task(queued) => if queued.task_source is PerformanceTimeline {
                view
            } else {
                QueueView { taken: counted(view.taken), ..view }.with_incoming(message, active)
            },
            _ => view.with_incoming(message, active),
        };
        lemma_tasks_skip(messages, index, busy);
        lemma_passing_skip(messages, index, active);
        lemma_passing_incoming(next, messages, index + 1, active);
        let tail = messages.skip(index + 1);
        if view.messages.len() > 0 {
            assert(view.messages + passing(rest, active) =~= if passes(message, active) {
                view.messages.push(message) + passing(tail, active)
            } else {
                view.messages + passing(tail, active)
            });
        }
    }
}

/// No wake-up is taken in.
proof fn lemma_no_wake_up<P>(
    view: QueueView<P>,
    first: TaskMessage<P>,
    ready: Seq<TaskMessage<P>>,
    active: Set<u64>,
)
    ensures
        ({
            let messages = view.intake(first, ready, active);
            &&& forall|i: int| 0 <= i < messages.len() ==> !(#[trigger] messages[i] is WakeUp)
            &&& messages.len() <= released(
                view.inactive,
                view.inactive.len() as int,
                active,
            ).len() + ready.len() + 1
        }),
{
    let freed = released(view.inactive, view.inactive.len() as int, active);
    lemma_released_tasks(view.inactive, view.inactive.len() as int, active);
    lemma_no_wake_up_among(ready, ready.len() as int);
    let messages = view.intake(first, ready, active);
    let rest = without_wake_ups(ready, ready.len() as int);
    assert forall|i: int| 0 <= i < messages.len() implies !(#[trigger] messages[i] is WakeUp) by {
        if i < freed.len() {
            assert(messages[i] == freed[i]);
        } else if messages.len() - rest.len() <= i {
            assert(messages[i] == rest[i - (messages.len() - rest.len())]);
        } else {
            assert(messages[i] == first);
        }
    }
}

proof fn lemma_no_wake_up_among<P>(messages: Seq<TaskMessage<P>>, count: int)
    requires
        0 <= count <= messages.len(),
    ensures
        without_wake_ups(messages, count).len() <= count,
        forall|i: int|
            0 <= i < without_wake_ups(messages, count).len() ==> !(#[trigger] without_wake_ups(
                messages,
                count,
            )[i] is WakeUp),
    decreases count,
{
    if count > 0 {
        lemma_no_wake_up_among(messages, count - 1);
        let before = without_wake_ups(messages, count - 1);
        let after = without_wake_ups(messages, count);
        assert forall|i: int| 0 <= i < after.len() implies !(#[trigger] after[i] is WakeUp) by {
            if i < before.len() {
                assert(after[i] == before[i]);
            }
        }
    }
}

/// A message is one of the tasks that are held back.
pub open spec fn is_held<P>(
    message: TaskMessage<P>,
    held: Seq<(PipelineId, Seq<QueuedTask<P>>)>,
    active: Set<u64>,
) -> bool {
    exists|i: int, j: int|
        0 <= i < held.len() && 0 <= j < held[i].1.len() && active.contains(held[i].0.0) && message
            == TaskMessage::Task(#[trigger] held[i].1[j])
}

proof fn lemma_released_tasks<P>(
    held: Seq<(PipelineId, Seq<QueuedTask<P>>)>,
    count: int,
    active: Set<u64>,
)
    requires
        0 <= count <= held.len(),
    ensures
        forall|k: int|
            0 <= k < released(held, count, active).len() ==> is_held(
                #[trigger] released(held, count, active)[k],
                held,
                active,
            ),
    decreases count,
{
    if count > 0 {
        lemma_released_tasks(held, count - 1, active);
        let before = released(held, count - 1, active);
        let after = released(held, count, active);
        assert forall|k: int| 0 <= k < after.len() implies is_held(
            #[trigger] after[k],
            held,
            active,
        ) by {
            if k < before.len() {
                assert(after[k] == before[k]);
            } else {
                assert(after[k] == TaskMessage::Task(held[count - 1].1[k - before.len()]));
            }
        }
    }
}

/// Messages that may go to the loop at once reach it behind what it already has: first tasks that
/// were held back, then what arrives, in the order of arrival; nothing else does. Each task that is
/// not throttled counts, and where there is one the loop finds a message.
pub proof fn law_arrivals_reach_the_loop_in_order<P>(
    view: QueueView<P>,
    first: TaskMessage<P>,
    ready: Seq<TaskMessage<P>>,
    active: Set<u64>,
) -> (freed: Seq<TaskMessage<P>>)
    requires
        0 <= view.taken,
        view.taken + ready.len() + 1 + released(
            view.inactive,
            view.inactive.len() as int,
            active,
        ).len() < u64::MAX,
    ensures
        forall|k: int|
            0 <= k < freed.len() ==> is_held(#[trigger] freed[k], view.inactive, active),
        ({
            let after = view.with_intake(first, ready, active);
            let arrivals = seq![first] + ready;
            let busy = |task: QueuedTask<P>| !is_throttled(task);
            let work = tasks_among(freed, busy).len() + tasks_among(arrivals, busy).len();
            &&& view.messages.len() > 0 ==> after.messages == view.messages + passing(freed, active)
                + passing(arrivals, active)
            &&& after.taken == view.taken + work
            &&& work > 0 || view.messages.len() > 0 ==> after.messages.len() > 0
        }),
{
    let freed = released(view.inactive, view.inactive.len() as int, active);
    let messages = view.intake(first, ready, active);
    let busy = |task: QueuedTask<P>| !is_throttled(task);
    lemma_released_tasks(view.inactive, view.inactive.len() as int, active);
    lemma_no_wake_up(view, first, ready, active);
    lemma_intake(view, first, ready, active, busy);
    let cleared = QueueView { inactive: without_released(view.inactive, active), ..view };
    lemma_passing_incoming(cleared, messages, 0, active);
    assert(messages.skip(0) =~= messages);
    let after = view.with_intake(first, ready, active);
    if view.messages.len() > 0 {
        assert(after.messages =~= view.messages + passing(freed, active) + passing(
            seq![first] + ready,
            active,
        ));
    }
    freed
}

/// What is held back for a document stays in its place when more is taken in.
pub proof fn law_tasks_are_held_for_their_own_document<P>(
    view: QueueView<P>,
    first: TaskMessage<P>,
    ready: Seq<TaskMessage<P>>,
    active: Set<u64>,
)
    requires
        held_in_place(view.inactive),
    ensures
        held_in_place(view.with_intake(first, ready, active).inactive),
{
    let cleared = QueueView { inactive: without_released(view.inactive, active), ..view };
    let messages = view.intake(first, ready, active);
    assert(held_in_place(cleared.inactive)) by {
        assert forall|i: int, j: int| 0 <= i < cleared.inactive.len() && 0 <= j
            < cleared.inactive[i].1.len() implies (#[trigger]
        cleared.inactive[i].1[j]).pipeline_id == Some(cleared.inactive[i].0) by {
            assert(view.inactive[i].1[j].pipeline_id == Some(view.inactive[i].0));
        }
    }
    lemma_incoming_in_place(cleared, messages, 0, active);
}

proof fn lemma_holding_in_place<P>(view: QueueView<P>, task: QueuedTask<P>, pipeline: PipelineId)
    requires
        held_in_place(view.inactive),
        task.pipeline_id == Some(pipeline),
    ensures
        held_in_place(view.holding(task, pipeline).inactive),
{
    lemma_held_index(view.inactive, 0, pipeline);
    let after = view.holding(task, pipeline).inactive;
    assert forall|i: int, j: int| 0 <= i < after.len() && 0 <= j < after[i].1.len() implies (
    #[trigger] after[i].1[j]).pipeline_id == Some(after[i].0) by {
        if i < view.inactive.len() && j < view.inactive[i].1.len() {
            assert(view.inactive[i].1[j].pipeline_id == Some(view.inactive[i].0));
        }
    }
}

proof fn lemma_incoming_in_place<P>(
    view: QueueView<P>,
    messages: Seq<TaskMessage<P>>,
    index: int,
    active: Set<u64>,
)
    requires
        held_in_place(view.inactive),
        0 <= index,
    ensures
        held_in_place(view.with_all_incoming(messages, index, active).inactive),
    decreases messages.len() - index,
{
    if index < messages.len() {
        let message = messages[index];
        let next = match message {
            TaskMessage::Task(queued) => if queued.task_source is PerformanceTimeline {
                view
            } else {
                QueueView { taken: counted(view.taken), ..view }.with_incoming(message, active)
            },
            _ => view.with_incoming(message, active),
        };
        if let TaskMessage::Task(queued) = message {
            if let Some(pipeline) = queued.pipeline_id {
                lemma_holding_in_place(
                    QueueView { taken: counted(view.taken), ..view },
                    queued,
                    pipeline,
                );
            }
        }
        lemma_incoming_in_place(next, messages, index + 1, active);
    }
}

/// A throttled task may run: its document is active, or it has none.
pub open spec fn may_be_released<P>(task: QueuedTask<P>, active: Set<u64>) -> bool {
    task.pipeline_id is None || active.contains((task.pipeline_id->0).0)
}

/// Throttled tasks are released first come, first served, as long as the loop has been given no more
/// than five tasks: those of active documents go to the loop and count, the others wait for their
/// document. The loop is woken exactly where some are left, and then it is busy.
pub proof fn law_throttled_tasks_are_released_in_order<P>(
    view: QueueView<P>,
    active: Set<u64>,
    document: PipelineId,
) -> (gone: int)
    requires
        view.wf(),
        0 <= view.taken,
        view.taken + view.throttled.len() < u64::MAX,
    ensures
        ({
            let (after, wake_up) = view.with_throttles_released(active);
            let all = |task: QueuedTask<P>| true;
            let runs = |task: QueuedTask<P>| may_be_released(task, active);
            let waits = |task: QueuedTask<P>|
                task.pipeline_id == Some(document) && !may_be_released(task, active);
            let part = view.throttled.take(gone);
            &&& 0 <= gone <= view.throttled.len()
            &&& after.throttled == view.throttled.skip(gone)
            &&& wake_up <==> after.throttled.len() > 0
            &&& wake_up ==> after.taken > 5
            &&& gone > 0 ==> view.taken + chosen(
                view.throttled.take(gone - 1),
                runs,
            ).len() <= 5
            &&& after.taken == view.taken + chosen(part, runs).len()
            &&& tasks_among(after.messages, all) == tasks_among(view.messages, all) + chosen(
                part,
                runs,
            )
            &&& held_for(after.inactive, document) == held_for(view.inactive, document) + chosen(
                part,
                waits,
            )
            &&& after.wf()
        }),
    decreases view.throttled.len(),
{
    let (after, wake_up) = view.with_throttles_released(active);
    let all = |task: QueuedTask<P>| true;
    let runs = |task: QueuedTask<P>| may_be_released(task, active);
    let waits = |task: QueuedTask<P>|
        task.pipeline_id == Some(document) && !may_be_released(task, active);
    if view.throttled.len() == 0 || view.taken > 5 {
        assert(view.throttled.take(0) =~= Seq::empty());
        assert(view.throttled.skip(0) =~= view.throttled);
        assert(tasks_among(view.messages, all) + Seq::empty() =~= tasks_among(
            view.messages,
            all,
        ));
        assert(held_for(view.inactive, document) + Seq::empty() =~= held_for(
            view.inactive,
            document,
        ));
        0
    } else {
        let queued = view.throttled[0];
        let rest = QueueView { throttled: view.throttled.drop_first(), ..view };
        let free = may_be_released(queued, active);
        let next = if free {
            QueueView { taken: counted(rest.taken), ..rest }.with_message(
                TaskMessage::Task(queued),
            )
        } else {
            rest.holding(queued, queued.pipeline_id->0)
        };
        assert(view.with_throttles_released(active) == next.with_throttles_released(active));
        if !free {
            lemma_holding(rest, queued, queued.pipeline_id->0, document);
            let note = Seq::<TaskMessage<P>>::empty().push(TaskMessage::Inactive);
            assert(seq![TaskMessage::<P>::Inactive] =~= note);
            lemma_tasks_push(Seq::empty(), TaskMessage::Inactive, all);
        } else {
            lemma_tasks_push(view.messages, TaskMessage::Task(queued), all);
        }
        let tail = view.throttled.drop_first();
        let more = law_throttled_tasks_are_released_in_order(next, active, document);
        let gone = more + 1;
        let first = Seq::<QueuedTask<P>>::empty().push(queued);
        assert(view.throttled.take(gone) =~= first + tail.take(more));
        assert(view.throttled.skip(gone) =~= tail.skip(more));
        lemma_chosen_concat(first, tail.take(more), runs);
        lemma_chosen_concat(first, tail.take(more), waits);
        lemma_chosen_push(Seq::empty(), queued, runs);
        lemma_chosen_push(Seq::empty(), queued, waits);
        assert(chosen(Seq::<QueuedTask<P>>::empty(), runs) =~= Seq::empty());
        if more > 0 {
            assert(view.throttled.take(gone - 1) =~= first + tail.take(more - 1));
            lemma_chosen_concat(first, tail.take(more - 1), runs);
        } else {
            assert(view.throttled.take(0) =~= Seq::empty());
        }
        assert(tasks_among(after.messages, all) =~= tasks_among(view.messages, all) + chosen(
            view.throttled.take(gone),
            runs,
        ));
        assert(held_for(after.inactive, document) =~= held_for(view.inactive, document) + chosen(
            view.throttled.take(gone),
            waits,
        ));
        gone
    }
}

/// A step of a controlled turn on a message that is no wake-up takes in that message alone, releases
/// nothing that is throttled, and hands out what comes first then. On a wake-up it asks again and
/// changes nothing, but for the sixty-fourth, which it hands out. Where there is no message, retained
/// work is let go, and the loop is woken exactly where throttled tasks are left.
pub proof fn law_controlled_step_looks_at_one_message<P>(
    view: QueueView<P>,
    message: Option<TaskMessage<P>>,
    wake_index: int,
    active: Set<u64>,
)
    requires
        0 <= wake_index < 64,
    ensures
        ({
            let (after, step) = view.controlled_step(message, wake_index, active);
            match message {
                Some(TaskMessage::WakeUp) => {
                    &&& after == view
                    &&& step == if wake_index == 63 {
                        ControlledStep::Done {
                            message: TaskMessage::<P>::WakeUp,
                            wake_up: false,
                        }
                    } else {
                        ControlledStep::Receive
                    }
                },
                Some(arrived) => {
                    let taken = view.with_intake(arrived, Seq::empty(), active);
                    &&& step matches ControlledStep::Done { message: handed, wake_up } && !wake_up
                        && (taken.messages.len() > 0 ==> handed == taken.messages[0]) && (
                    taken.messages.len() == 0 ==> handed is WakeUp)
                    &&& after.throttled == taken.throttled
                    &&& after.inactive == taken.inactive
                    &&& after.taken == taken.taken
                    &&& taken.messages.len() > 0 ==> after.messages == taken.messages.drop_first()
                    &&& taken.messages.len() == 0 ==> after.messages.len() == 0
                },
                None => {
                    let (taken, woken) = view.with_intake(
                        TaskMessage::WakeUp,
                        Seq::empty(),
                        active,
                    ).with_throttles_released(active);
                    &&& step matches ControlledStep::Done { message: handed, wake_up } && wake_up
                        == woken && (taken.messages.len() > 0 ==> handed == taken.messages[0]) && (
                    taken.messages.len() == 0 ==> handed is WakeUp)
                    &&& after.throttled == taken.throttled
                    &&& after.inactive == taken.inactive
                    &&& taken.messages.len() > 0 ==> after.messages == taken.messages.drop_first()
                },
            }
        }),
{
}

/// Messages leave in the order in which they came: one that comes last leaves after all the others,
/// and changes neither what leaves next nor what is held back or throttled.
pub proof fn law_messages_leave_in_the_order_they_came<P>(view: QueueView<P>, message: TaskMessage<P>)
    ensures
        ({
            let later = view.with_message(message);
            &&& view.messages.len() > 0 ==> {
                &&& later.next_or_wake_up() == view.next_or_wake_up()
                &&& later.after_recv().messages == view.after_recv().messages.push(message)
                &&& view.messages == seq![view.next_or_wake_up()] + view.after_recv().messages
            }
            &&& view.messages.len() == 0 ==> {
                &&& view.next_or_wake_up() is WakeUp
                &&& later.next_or_wake_up() == message
                &&& later.after_recv().messages.len() == 0
                &&& view.after_recv() == view
            }
            &&& later.after_recv().inactive == view.inactive
            &&& later.after_recv().throttled == view.throttled
            &&& later.after_recv().taken == view.taken
        }),
{
}

/// A turn that may take one task takes in the message that is ready at its start, where there is one.
/// Where there is none, retained work goes first: only where none of it can go does the turn take in
/// what is ready by then, and only where nothing is does it hand out nothing. It drops no task.
pub proof fn law_turn_takes_retained_work_before_later_arrivals<P>(
    view: QueueView<P>,
    first: Option<TaskMessage<P>>,
    second: Option<TaskMessage<P>>,
    received: Seq<TaskMessage<P>>,
    active: Set<u64>,
)
    ensures
        ({
            let (after, handed, _) = view.one_task_turn(first, second, received, active);
            let promoted = view.with_intake(
                TaskMessage::WakeUp,
                Seq::empty(),
                active,
            ).with_throttles_released(active).0;
            let arrived = if first is Some {
                taken_in(first, received, 0)
            } else if promoted.messages.len() > 0 {
                None
            } else {
                taken_in(second, received, 0)
            };
            let out = match handed {
                Ok(message) => task_of(message),
                Err(_) => Multiset::empty(),
            };
            &&& handed is Err <==> first is None && second is None && promoted.messages.len() == 0
            &&& first is None && promoted.messages.len() > 0 ==> handed == Ok::<TaskMessage<P>, ()>(
                promoted.messages[0],
            ) && after.messages == promoted.messages.drop_first()
            &&& after.all_tasks().add(out) == view.all_tasks().add(task_of_any(arrived))
        }),
{
    let none = Seq::<TaskMessage<P>>::empty();
    if first is Some {
        law_controlled_turn_takes_one_task(view, first, received, 0, active);
    } else {
        let intake = view.with_intake(TaskMessage::WakeUp, none, active);
        let promoted = intake.with_throttles_released(active).0;
        law_intake_keeps_every_task(view, TaskMessage::WakeUp, none, active);
        law_release_keeps_every_task(intake, active);
        assert(view.all_tasks().add(task_of(TaskMessage::<P>::WakeUp)).add(tasks_of(none))
            =~= view.all_tasks());
        assert(view.all_tasks().add(Multiset::empty()) =~= view.all_tasks());
        assert(promoted.all_tasks() == view.all_tasks());
        if promoted.messages.len() > 0 {
            lemma_recv_keeps(promoted);
        } else if second is Some {
            law_controlled_turn_takes_one_task(promoted, second, received, 0, active);
        } else {
            assert(promoted.all_tasks().add(Multiset::empty()) =~= promoted.all_tasks());
        }
    }
}

} // verus!
