use std::cell::Cell;
use std::collections::VecDeque;

use pliego_core::clock::{
    DocumentExecutionBudget, DocumentExecutionLedger, DocumentExecutionLimits,
    DocumentExecutionTerminal,
};
use pliego_core::ids::PipelineId;
use pliego_core::microtask::{
    CheckpointStep, EnqueuedPromiseCallback, Microtask, MicrotaskCheckpointResult,
    MicrotaskExecutionLedgerSlot, MicrotaskQueue, UserMicrotask,
};

fn execution_limits(microtasks: u64) -> DocumentExecutionLimits {
    DocumentExecutionLimits {
        ordinary_tasks: 1,
        microtasks,
        rendering_opportunities: 1,
        mutations: 1,
        virtual_span: None,
    }
}

#[test]
fn self_rescheduling_microtask_is_cut_off_inside_one_checkpoint() {
    let queue: MicrotaskQueue<()> = MicrotaskQueue::new();
    let mut slot = MicrotaskExecutionLedgerSlot::empty();
    let ledger = DocumentExecutionLedger::new(execution_limits(3));
    queue.install_execution_ledger(&mut slot, Some(ledger));

    let mut pending = VecDeque::from([()]);
    let mut invoked = 0;
    while pending.pop_front().is_some() {
        if !slot.begin_microtask_job() {
            break;
        }
        invoked += 1;
        pending.push_back(());
    }

    assert_eq!(invoked, 3);
    let ledger = slot.ledger.unwrap();
    assert_eq!(ledger.observation().counters.microtasks, 3);
    assert!(matches!(
        ledger.observation().terminal,
        Some(DocumentExecutionTerminal::BudgetExceeded {
            budget: DocumentExecutionBudget::Microtasks,
            limit: 3,
            observed: 4,
        })
    ));
}

#[test]
fn interrupt_queue_created_before_install_shares_the_exact_ledger() {
    let main_queue: MicrotaskQueue<()> = MicrotaskQueue::new();
    let mut interrupt_queue: MicrotaskQueue<()> = MicrotaskQueue::new();
    let mut slot = MicrotaskExecutionLedgerSlot::empty();
    let ledger = DocumentExecutionLedger::new(execution_limits(2));
    main_queue.install_execution_ledger(&mut slot, Some(ledger));

    let mut main_queue = main_queue;
    for queue in [&mut main_queue, &mut interrupt_queue] {
        queue.enqueue(Microtask::CustomElementReaction);
        queue.enqueue(Microtask::CustomElementReaction);
        assert_eq!(queue.begin_checkpoint(), Ok(()));
    }
    assert!(matches!(
        interrupt_queue.checkpoint(&mut slot, false),
        CheckpointStep::Run { .. }
    ));
    assert!(matches!(main_queue.checkpoint(&mut slot, false), CheckpointStep::Run { .. }));
    assert!(matches!(interrupt_queue.checkpoint(&mut slot, true), CheckpointStep::Abort));
    let ledger = slot.ledger.unwrap();
    assert_eq!(ledger.observation().counters.microtasks, 2);
    assert!(matches!(
        ledger.observation().terminal,
        Some(DocumentExecutionTerminal::BudgetExceeded {
            budget: DocumentExecutionBudget::Microtasks,
            limit: 2,
            observed: 3,
        })
    ));
}

#[test]
fn reentrant_checkpoint_reports_already_performing() {
    let mut queue: MicrotaskQueue<()> = MicrotaskQueue::new();
    assert_eq!(queue.begin_checkpoint(), Ok(()));
    assert_eq!(
        queue.begin_checkpoint(),
        Err(MicrotaskCheckpointResult::AlreadyPerforming)
    );
}

#[test]
fn terminal_abort_discards_work_requeued_by_the_last_admitted_job() {
    let mut queue: MicrotaskQueue<()> = MicrotaskQueue::new();
    let mut slot = MicrotaskExecutionLedgerSlot::empty();
    let ledger = DocumentExecutionLedger::new(DocumentExecutionLimits {
        mutations: 0,
        ..execution_limits(1)
    });
    queue.install_execution_ledger(&mut slot, Some(ledger));
    queue.performing_a_microtask_checkpoint = true;

    assert!(slot.begin_microtask_job());
    queue.microtask_queue.push_back(Microtask::CustomElementReaction);
    if let Some(ledger) = slot.ledger.as_mut() {
        ledger.record_mutation_record();
    }
    assert!(slot.execution_is_terminal());

    let empty_notifications = Cell::new(0);
    assert_eq!(
        queue.abort_terminal_checkpoint(|| {
            empty_notifications.set(empty_notifications.get() + 1)
        }),
        MicrotaskCheckpointResult::ExecutionTerminated
    );
    assert!(queue.empty());
    assert!(!queue.performing_a_microtask_checkpoint);
    assert_eq!(empty_notifications.get(), 1);
}

#[test]
fn a_checkpoint_runs_jobs_in_order_until_none_is_left() {
    let mut queue: MicrotaskQueue<u32> = MicrotaskQueue::new();
    let mut slot = MicrotaskExecutionLedgerSlot::empty();
    queue.enqueue(Microtask::MediaElement(1));
    queue.enqueue(Microtask::ImageElement(2));
    assert_eq!(queue.begin_checkpoint(), Ok(()));
    assert_eq!(
        queue.checkpoint(&mut slot, false),
        CheckpointStep::Run { job: Microtask::MediaElement(1), notify_queue_empty: false }
    );
    // A job may queue another while it runs; that one comes last.
    assert!(queue.empty());
    queue.enqueue(Microtask::TrackElement(3));
    assert_eq!(
        queue.checkpoint(&mut slot, true),
        CheckpointStep::Run { job: Microtask::ImageElement(2), notify_queue_empty: false }
    );
    assert_eq!(
        queue.checkpoint(&mut slot, true),
        CheckpointStep::Run { job: Microtask::TrackElement(3), notify_queue_empty: true }
    );
    assert_eq!(queue.checkpoint(&mut slot, true), CheckpointStep::Drained);
    assert_eq!(queue.complete_checkpoint(), MicrotaskCheckpointResult::Completed);
    assert!(!queue.performing_a_microtask_checkpoint);
}

#[test]
fn clearing_discards_what_is_queued() {
    let mut queue: MicrotaskQueue<u32> = MicrotaskQueue::new();
    queue.enqueue(Microtask::MediaElement(1));
    assert!(!queue.empty());
    queue.clear();
    assert!(queue.empty());
}

#[test]
fn only_callbacks_of_scripts_need_their_document() {
    let promise = Microtask::Promise(EnqueuedPromiseCallback {
        callback: (),
        pipeline: PipelineId(4),
        is_user_interacting: false,
    });
    let user = Microtask::User(UserMicrotask { callback: (), pipeline: PipelineId(5) });
    assert_eq!(promise.target_pipeline(), Some(PipelineId(4)));
    assert_eq!(user.target_pipeline(), Some(PipelineId(5)));
    assert_eq!(Microtask::<()>::NotifyMutationObservers.target_pipeline(), None);
}
