use std::collections::VecDeque;

use crossbeam_channel::unbounded;
use pliego_core::ids::PipelineId;
use pliego_core::task_queue::{
    ControlledStep, QueuedTask, TaskMessage, TaskQueue, TaskQueueState, TaskSourceName,
};
use rustc_hash::FxHashSet;

const TEST_PIPELINE_ID: PipelineId = PipelineId(5678);

fn task(task_source: TaskSourceName) -> TaskMessage<u32> {
    TaskMessage::Task(QueuedTask { task: 0, pipeline_id: None, task_source })
}

fn numbered(
    number: u32,
    task_source: TaskSourceName,
    pipeline_id: Option<PipelineId>,
) -> TaskMessage<u32> {
    TaskMessage::Task(QueuedTask { task: number, pipeline_id, task_source })
}

#[test]
fn controlled_poll_promotes_newly_active_retained_tasks_without_fresh_input() {
    let (sender, receiver) = unbounded();
    let mut queue = TaskQueue::new(receiver, sender.clone());
    let mut fully_active = FxHashSet::default();
    sender
        .send(numbered(0, TaskSourceName::Timer, Some(TEST_PIPELINE_ID)))
        .unwrap();

    assert!(matches!(
        queue.take_one_task_and_recv(&fully_active),
        Ok(TaskMessage::Inactive)
    ));

    fully_active.insert(TEST_PIPELINE_ID.0);
    assert!(matches!(
        queue.take_one_task_and_recv(&fully_active),
        Ok(TaskMessage::Task(QueuedTask {
            task_source: TaskSourceName::Timer,
            pipeline_id: Some(TEST_PIPELINE_ID),
            ..
        }))
    ));
}

#[test]
fn controlled_poll_skips_duplicate_throttle_wakeups_without_false_empty() {
    let (sender, receiver) = unbounded();
    let mut queue = TaskQueue::new(receiver, sender.clone());
    let fully_active = FxHashSet::default();
    queue.start_event_loop_iteration();

    for _ in 0..6 {
        sender.send(task(TaskSourceName::Timer)).unwrap();
        assert!(matches!(
            queue.take_one_task_and_recv(&fully_active),
            Ok(TaskMessage::Task(QueuedTask { task_source: TaskSourceName::Timer, .. }))
        ));
    }

    sender.send(task(TaskSourceName::PerformanceTimeline)).unwrap();
    assert!(matches!(
        queue.take_one_task_and_recv(&fully_active),
        Ok(TaskMessage::WakeUp)
    ));
    sender.send(task(TaskSourceName::Timer)).unwrap();
    assert!(matches!(
        queue.take_one_task_and_recv(&fully_active),
        Ok(TaskMessage::Task(QueuedTask { task_source: TaskSourceName::Timer, .. }))
    ));
    sender.send(TaskMessage::WakeUp).unwrap();
    sender.send(TaskMessage::WakeUp).unwrap();

    queue.start_event_loop_iteration();
    assert!(matches!(
        queue.take_one_task_and_recv(&fully_active),
        Ok(TaskMessage::Task(QueuedTask {
            task_source: TaskSourceName::PerformanceTimeline,
            ..
        }))
    ));

    assert!(queue.take_one_task_and_recv(&fully_active).is_err());
}

#[test]
fn controlled_poll_keeps_ready_ordinary_tasks_ahead_of_released_throttles() {
    let (sender, receiver) = unbounded();
    let mut queue = TaskQueue::new(receiver, sender.clone());
    let fully_active = FxHashSet::default();
    queue.start_event_loop_iteration();

    for _ in 0..6 {
        sender.send(task(TaskSourceName::Timer)).unwrap();
        assert!(matches!(
            queue.take_one_task_and_recv(&fully_active),
            Ok(TaskMessage::Task(QueuedTask { task_source: TaskSourceName::Timer, .. }))
        ));
    }
    sender.send(task(TaskSourceName::PerformanceTimeline)).unwrap();
    assert!(matches!(
        queue.take_one_task_and_recv(&fully_active),
        Ok(TaskMessage::WakeUp)
    ));

    queue.start_event_loop_iteration();
    sender.send(TaskMessage::WakeUp).unwrap();
    sender.send(task(TaskSourceName::Timer)).unwrap();
    sender.send(task(TaskSourceName::Timer)).unwrap();
    assert!(matches!(
        queue.take_one_task_and_recv(&fully_active),
        Ok(TaskMessage::Task(QueuedTask { task_source: TaskSourceName::Timer, .. }))
    ));
    assert!(matches!(
        queue.take_one_task_and_recv(&fully_active),
        Ok(TaskMessage::Task(QueuedTask { task_source: TaskSourceName::Timer, .. }))
    ));
    assert!(matches!(
        queue.take_one_task_and_recv(&fully_active),
        Ok(TaskMessage::Task(QueuedTask {
            task_source: TaskSourceName::PerformanceTimeline,
            ..
        }))
    ));
}

#[test]
fn controlled_poll_does_not_drop_task_after_exact_wake_scan_limit() {
    let (sender, receiver) = unbounded();
    let mut queue = TaskQueue::new(receiver, sender.clone());
    let fully_active = FxHashSet::default();

    for _ in 0..64 {
        sender.send(TaskMessage::WakeUp).unwrap();
    }
    sender.send(task(TaskSourceName::Timer)).unwrap();

    assert!(matches!(
        queue.take_one_task_and_recv(&fully_active),
        Ok(TaskMessage::WakeUp)
    ));
    assert!(matches!(
        queue.take_one_task_and_recv(&fully_active),
        Ok(TaskMessage::Task(QueuedTask { task_source: TaskSourceName::Timer, .. }))
    ));
}

#[test]
fn ordinary_intake_keeps_the_order_of_arrival_and_drops_wake_ups() {
    let (sender, receiver) = unbounded();
    let mut queue = TaskQueue::new(receiver, sender.clone());
    let fully_active = FxHashSet::default();
    sender.send(numbered(1, TaskSourceName::Timer, None)).unwrap();
    sender.send(TaskMessage::WakeUp).unwrap();
    sender.send(numbered(2, TaskSourceName::Other(9), None)).unwrap();
    queue.take_tasks(numbered(0, TaskSourceName::Timer, None), &fully_active);
    for expected in 0..3 {
        assert!(matches!(
            queue.recv(),
            Ok(TaskMessage::Task(QueuedTask { task, .. })) if task == expected
        ));
    }
    assert_eq!(queue.recv(), Err(()));
    assert_eq!(queue.take_tasks_and_recv(&fully_active), Err(()));
}

#[test]
fn a_busy_loop_is_woken_for_what_is_throttled() {
    let (sender, receiver) = unbounded();
    let mut queue = TaskQueue::new(receiver, sender.clone());
    let fully_active = FxHashSet::default();
    for number in 0..8 {
        sender
            .send(numbered(number, TaskSourceName::PerformanceTimeline, None))
            .unwrap();
    }
    queue.take_tasks(TaskMessage::WakeUp, &fully_active);
    assert_eq!(queue.woken(), 1);
    for expected in 0..6 {
        assert!(matches!(
            queue.recv(),
            Ok(TaskMessage::Task(QueuedTask { task, .. })) if task == expected
        ));
    }
    assert!(queue.recv().is_err());
    // The two that are left come with the next iteration, for which a wake-up was sent.
    assert_eq!(queue.select().try_recv(), Ok(TaskMessage::WakeUp));
    queue.take_one_task(TaskMessage::WakeUp, &fully_active);
    assert_eq!(queue.woken(), 0);
    for expected in 6..8 {
        assert!(matches!(
            queue.recv(),
            Ok(TaskMessage::Task(QueuedTask { task, .. })) if task == expected
        ));
    }
}

#[test]
fn rendering_runs_in_inactive_documents_and_nothing_else_does() {
    let mut state = TaskQueueState::new();
    let mut fully_active = FxHashSet::default();
    state.process_incoming_tasks(
        numbered(1, TaskSourceName::Timer, Some(TEST_PIPELINE_ID)),
        VecDeque::from(vec![
            numbered(2, TaskSourceName::Rendering, Some(TEST_PIPELINE_ID)),
            numbered(3, TaskSourceName::PerformanceTimeline, Some(TEST_PIPELINE_ID)),
        ]),
        &fully_active,
    );
    assert_eq!(state.recv(), Some(TaskMessage::Inactive));
    assert_eq!(
        state.recv(),
        Some(numbered(2, TaskSourceName::Rendering, Some(TEST_PIPELINE_ID)))
    );
    assert_eq!(state.recv(), None);
    // A throttled task of an inactive document is held back as well.
    assert!(!state.release_throttles(&fully_active));
    assert_eq!(state.recv(), Some(TaskMessage::Inactive));
    fully_active.insert(TEST_PIPELINE_ID.0);
    state.process_incoming_tasks(TaskMessage::WakeUp, VecDeque::new(), &fully_active);
    assert_eq!(
        state.recv(),
        Some(numbered(1, TaskSourceName::Timer, Some(TEST_PIPELINE_ID)))
    );
    // The held performance task is throttled again when it is released.
    assert_eq!(state.recv(), None);
    assert_eq!(state.throttled.len(), 1);
}

#[test]
fn a_controlled_turn_asks_the_port_again_until_the_scan_limit() {
    let mut state: TaskQueueState<u32> = TaskQueueState::new();
    let fully_active = FxHashSet::default();
    assert_eq!(
        state.controlled_step(Some(TaskMessage::WakeUp), 62, &fully_active),
        ControlledStep::Receive
    );
    assert_eq!(
        state.controlled_step(Some(TaskMessage::WakeUp), 63, &fully_active),
        ControlledStep::Done { message: TaskMessage::WakeUp, wake_up: false }
    );
    assert_eq!(
        state.controlled_step(None, 0, &fully_active),
        ControlledStep::Done { message: TaskMessage::WakeUp, wake_up: false }
    );
}

#[test]
fn messages_say_where_they_come_from() {
    assert_eq!(
        task(TaskSourceName::Rendering).task_source_name(),
        Some(TaskSourceName::Rendering)
    );
    assert_eq!(TaskMessage::<u32>::Inactive.task_source_name(), None);
    assert!(TaskMessage::<u32>::WakeUp.is_wake_up());
    assert!(!TaskMessage::<u32>::Inactive.is_wake_up());
}

#[test]
fn other_messages_pass_through() {
    let fully_active: FxHashSet<u64> = FxHashSet::default();
    let mut state = TaskQueueState::<u32>::new();
    let held = TaskMessage::Task(QueuedTask {
        task: 1,
        pipeline_id: Some(PipelineId(9)),
        task_source: TaskSourceName::Timer,
    });
    let ready = VecDeque::from([held, TaskMessage::WakeUp, TaskMessage::Other(3)]);
    state.process_incoming_tasks(TaskMessage::Other(2), ready, &fully_active);
    assert_eq!(state.recv(), Some(TaskMessage::Other(2)));
    assert_eq!(state.recv(), Some(TaskMessage::Other(3)));
    assert_eq!(state.recv(), None);
    assert_eq!(TaskMessage::Other(2).task_source_name(), None);
    assert!(!TaskMessage::Other(2).is_wake_up());
}

#[test]
fn a_turn_says_how_often_it_woke_the_loop() {
    let (sender, receiver) = unbounded();
    let mut queue = TaskQueue::new(receiver, sender.clone());
    let fully_active = FxHashSet::default();
    for number in 0..7 {
        sender
            .send(numbered(number, TaskSourceName::PerformanceTimeline, None))
            .unwrap();
        assert_eq!(queue.take_one_task_and_recv(&fully_active), Ok(TaskMessage::WakeUp));
        assert_eq!(queue.woken(), 0);
    }
    // Six tasks are released, and the loop is woken for the seventh.
    assert_eq!(
        queue.take_one_task_and_recv(&fully_active),
        Ok(numbered(0, TaskSourceName::PerformanceTimeline, None))
    );
    assert_eq!(queue.woken(), 1);
    for expected in 1..6 {
        assert_eq!(
            queue.take_one_task_and_recv(&fully_active),
            Ok(numbered(expected, TaskSourceName::PerformanceTimeline, None))
        );
        assert_eq!(queue.woken(), 0);
    }
    // The wake-up is on the port: the loop is still busy and is woken again.
    assert_eq!(queue.take_one_task_and_recv(&fully_active), Ok(TaskMessage::WakeUp));
    assert_eq!(queue.woken(), 1);
    queue.start_event_loop_iteration();
    assert_eq!(
        queue.take_one_task_and_recv(&fully_active),
        Ok(numbered(6, TaskSourceName::PerformanceTimeline, None))
    );
    assert_eq!(queue.woken(), 0);
    assert_eq!(queue.take_tasks_and_recv(&fully_active), Err(()));
}
