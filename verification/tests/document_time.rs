use std::time::Duration;

use crossbeam_channel::{unbounded, Receiver, RecvTimeoutError, Sender, TryRecvError};
use pliego_core::clock::{
    DocumentClock, DocumentClockError, DocumentClockId, DocumentExecutionBudget,
    DocumentExecutionLedger, DocumentExecutionLimits, DocumentExecutionTerminal,
    DocumentProducerCheckpoint, DocumentProducerFenceId, DocumentProducerSnapshot, DocumentTime,
    TimeSpan, TimerDeadlineSnapshot,
};
use pliego_core::document_time::{
    DocumentProducerStability, DocumentTimeAdvanceToken, DocumentTimeAdvanceTokenId,
    DocumentTimeControlCancellationId, DocumentTimeControlCommand, DocumentTimeControlError,
    DocumentTimeControlOutcome, DocumentTimeControlReceiveOutcome, DocumentTimeControlReceiver,
    DocumentTimeControlRequestId, DocumentTimeControlResolution, DocumentTimeControlTarget,
    DocumentTimeControlTransportFailure, DocumentTimeControlTryReceiveOutcome,
    DocumentTimeProducerObservation, TryReceiveError,
};
use pliego_core::generation_capture::protocol::{
    DocumentCaptureConsumeRequest, DocumentCaptureDocumentEpoch, DocumentCapturePrecondition,
    DocumentCapturePreconditionId, DocumentPaintPresentationTicket,
    DocumentPaintPresentationTicketId,
};
use pliego_core::generation_capture::snapshot::{
    DocumentSettlementSourceEpoch, DocumentSettlementSourceSnapshot,
};
use pliego_core::generation_capture::surface::{
    DeviceIndependentIntRect, DeviceIndependentIntSize, DocumentCaptureSurfaceFingerprint,
};
use pliego_core::ids::{Epoch, PipelineId, ScriptEventLoopId, WebViewId};

const TEST_PIPELINE_ID: PipelineId = PipelineId(5678);
const TEST_WEBVIEW_ID: WebViewId = WebViewId(1234);
const TEST_SCRIPT_EVENT_LOOP_ID: ScriptEventLoopId = ScriptEventLoopId(91011);

type Answers = (Sender<DocumentTimeControlOutcome>, Receiver<DocumentTimeControlOutcome>);

/// Waits for an answer, and gives the end that the receiver comes to.
fn recv_timeout(
    receiver: DocumentTimeControlReceiver,
    answers: &Receiver<DocumentTimeControlOutcome>,
    timeout: Duration,
) -> DocumentTimeControlResolution {
    receiver.resolve(answers.recv_timeout(timeout).map_err(|error| match error {
        RecvTimeoutError::Timeout => TryReceiveError::Empty,
        RecvTimeoutError::Disconnected => TryReceiveError::Disconnected,
    }))
}

/// Looks for an answer without waiting.
fn try_recv(
    receiver: DocumentTimeControlReceiver,
    answers: &Receiver<DocumentTimeControlOutcome>,
) -> DocumentTimeControlTryReceiveOutcome {
    receiver.resolve_nonblocking(answers.try_recv().map_err(|error| match error {
        TryRecvError::Empty => TryReceiveError::Empty,
        TryRecvError::Disconnected => TryReceiveError::Disconnected,
    }))
}

fn corruption() -> TryReceiveError {
    TryReceiveError::DeserializationFailed("test corruption".to_owned())
}

fn target() -> DocumentTimeControlTarget {
    DocumentTimeControlTarget {
        webview_id: TEST_WEBVIEW_ID,
        event_loop_id: TEST_SCRIPT_EVENT_LOOP_ID,
        webview_epoch: Epoch::default(),
        pipelines: vec![TEST_PIPELINE_ID],
        fully_active_pipelines: vec![TEST_PIPELINE_ID],
    }
}

fn producers(checkpoint: DocumentProducerCheckpoint) -> DocumentTimeProducerObservation {
    DocumentTimeProducerObservation {
        fence_id: DocumentProducerFenceId(6),
        checkpoint,
        snapshot: DocumentProducerSnapshot { enqueued: 0, completed: 0, pending: 0 },
        stability: DocumentProducerStability::StableEmpty,
    }
}

fn advance_token() -> DocumentTimeAdvanceToken {
    DocumentTimeAdvanceToken::new_internal(
        DocumentTimeAdvanceTokenId::new(3),
        target(),
        DocumentClockId(1),
        DocumentTime::from_nanos(0),
        TimerDeadlineSnapshot { timer_id: 1, deadline: DocumentTime::from_nanos(10) },
        0,
        0,
        false,
        producers(DocumentProducerCheckpoint::zero()),
    )
}

fn capture_surface() -> DocumentCaptureSurfaceFingerprint {
    DocumentCaptureSurfaceFingerprint::new(
        DeviceIndependentIntSize { width: 800, height: 600 },
        DeviceIndependentIntRect { min_x: 0, min_y: 0, max_x: 800, max_y: 600 },
        1.0_f32.to_bits(),
    )
    .unwrap()
}

fn capture_consume_fixture() -> (
    DocumentTimeControlCommand,
    DocumentCapturePreconditionId,
    DocumentPaintPresentationTicketId,
) {
    let surface = capture_surface();
    let ledger = DocumentExecutionLedger::new(DocumentExecutionLimits {
        ordinary_tasks: 100,
        microtasks: 100,
        rendering_opportunities: 100,
        mutations: 100,
        virtual_span: None,
    });
    let checkpoint = DocumentProducerCheckpoint::zero()
        .checked_next()
        .expect("test checkpoint is representable");
    let sources = DocumentSettlementSourceSnapshot::new_internal(
        DocumentSettlementSourceEpoch::new(3),
        Vec::new(),
    );
    let script_rendering_epoch = Epoch(11);
    let candidate_id = DocumentCapturePreconditionId::new(41);
    let ticket_id = DocumentPaintPresentationTicketId::new(97);
    let precondition = DocumentCapturePrecondition::new_internal(
        candidate_id,
        target(),
        DocumentClockId(1),
        DocumentTime::from_nanos(7),
        13,
        0,
        false,
        producers(checkpoint),
        ledger.observation(),
        None,
        sources,
        vec![DocumentCaptureDocumentEpoch {
            pipeline_id: TEST_PIPELINE_ID,
            script_rendering_epoch,
            readiness_blockers: Vec::new(),
        }],
        surface,
    );
    let ticket = DocumentPaintPresentationTicket::new_internal(
        ticket_id,
        candidate_id,
        target(),
        TEST_PIPELINE_ID,
        script_rendering_epoch,
        surface,
        5,
        8,
    );
    let command = DocumentTimeControlCommand::ConsumeCapture(Box::new(
        DocumentCaptureConsumeRequest::new_internal(Box::new(precondition), ticket),
    ));
    (command, candidate_id, ticket_id)
}

fn assert_capture_consume_indeterminate(
    resolution: DocumentTimeControlResolution,
    candidate_id: DocumentCapturePreconditionId,
    ticket_id: DocumentPaintPresentationTicketId,
) {
    assert!(matches!(
        resolution.outcome,
        DocumentTimeControlReceiveOutcome::CommandOutcome(
            DocumentTimeControlOutcome::CaptureConsumeOutcomeIndeterminate {
                candidate_id: observed_candidate,
                ticket_id: observed_ticket,
                target: observed_target,
            }
        ) if observed_candidate == candidate_id && observed_ticket == ticket_id &&
            *observed_target == target()
    ));
}

#[test]
fn every_lost_capture_consume_response_is_indeterminate_and_identity_bound() {
    let (command, candidate_id, ticket_id) = capture_consume_fixture();
    let (response, answers): Answers = unbounded();
    let receiver = DocumentTimeControlReceiver::new(&command);
    drop(response);
    assert_capture_consume_indeterminate(
        recv_timeout(receiver, &answers, Duration::from_secs(1)),
        candidate_id,
        ticket_id,
    );

    let (_response, answers): Answers = unbounded();
    let receiver = DocumentTimeControlReceiver::new(&command);
    assert_capture_consume_indeterminate(
        recv_timeout(receiver, &answers, Duration::ZERO),
        candidate_id,
        ticket_id,
    );

    let receiver = DocumentTimeControlReceiver::new(&command);
    assert_capture_consume_indeterminate(
        receiver.resolve(Err(corruption())),
        candidate_id,
        ticket_id,
    );
}

fn assert_indeterminate(
    resolution: DocumentTimeControlResolution,
    token: &DocumentTimeAdvanceToken,
) {
    assert!(matches!(
        resolution.outcome,
        DocumentTimeControlReceiveOutcome::CommandOutcome(
            DocumentTimeControlOutcome::AdvanceOutcomeIndeterminate {
                token_id,
                target: observed_target,
                deadline,
            }
        ) if token_id == token.id() && *observed_target == *token.target() &&
                deadline == token.deadline()
    ));
}

#[test]
fn observe_timeout_cannot_hide_page_work_or_clock_mutation() {
    let command = DocumentTimeControlCommand::Observe;
    let (_response, answers): Answers = unbounded();
    let receiver = DocumentTimeControlReceiver::new(&command);

    assert_eq!(
        recv_timeout(receiver, &answers, Duration::ZERO).outcome,
        DocumentTimeControlReceiveOutcome::ObserveTransportFailure(
            DocumentTimeControlTransportFailure::TimedOut
        )
    );
}

#[test]
fn receiver_cancels_on_timeout_or_drop_but_not_after_a_terminal_outcome() {
    let (_response, answers): Answers = unbounded();
    let receiver =
        DocumentTimeControlReceiver::new_cancellable(&DocumentTimeControlCommand::Observe);
    let timed_out = recv_timeout(receiver, &answers, Duration::ZERO);
    assert!(matches!(
        timed_out.outcome,
        DocumentTimeControlReceiveOutcome::ObserveTransportFailure(
            DocumentTimeControlTransportFailure::TimedOut
        )
    ));
    assert!(timed_out.cancel);

    let dropped =
        DocumentTimeControlReceiver::new_cancellable(&DocumentTimeControlCommand::DriveOneTurn);
    assert!(dropped.abandon());

    let (response, answers): Answers = unbounded();
    let receiver =
        DocumentTimeControlReceiver::new_cancellable(&DocumentTimeControlCommand::Observe);
    response
        .send(DocumentTimeControlOutcome::Rejected(DocumentTimeControlError::ChannelClosed))
        .expect("test terminal outcome should be sent");
    let completed = recv_timeout(receiver, &answers, Duration::from_secs(1));
    assert!(matches!(
        completed.outcome,
        DocumentTimeControlReceiveOutcome::CommandOutcome(
            DocumentTimeControlOutcome::Rejected(DocumentTimeControlError::ChannelClosed)
        )
    ));
    assert!(!completed.cancel);
}

#[test]
fn nonblocking_receiver_stays_armed_from_empty_to_success() {
    let (response, answers): Answers = unbounded();
    let receiver =
        DocumentTimeControlReceiver::new_cancellable(&DocumentTimeControlCommand::Observe);

    let receiver = match try_recv(receiver, &answers) {
        DocumentTimeControlTryReceiveOutcome::Pending(receiver) => receiver,
        DocumentTimeControlTryReceiveOutcome::Complete(_) => {
            panic!("an empty callback channel must remain pending")
        },
    };
    assert!(receiver.cancellation);

    response
        .send(DocumentTimeControlOutcome::Rejected(DocumentTimeControlError::ChannelClosed))
        .expect("test terminal outcome should be sent");
    assert!(matches!(
        try_recv(receiver, &answers),
        DocumentTimeControlTryReceiveOutcome::Complete(DocumentTimeControlResolution {
            outcome: DocumentTimeControlReceiveOutcome::CommandOutcome(
                DocumentTimeControlOutcome::Rejected(DocumentTimeControlError::ChannelClosed)
            ),
            cancel: false,
        })
    ));
}

#[test]
fn dropping_a_pending_nonblocking_receiver_cancels_exactly_once() {
    let (_response, answers): Answers = unbounded();
    let receiver =
        DocumentTimeControlReceiver::new_cancellable(&DocumentTimeControlCommand::DriveOneTurn);

    let receiver = match try_recv(receiver, &answers) {
        DocumentTimeControlTryReceiveOutcome::Pending(receiver) => receiver,
        DocumentTimeControlTryReceiveOutcome::Complete(_) => {
            panic!("an empty callback channel must remain pending")
        },
    };
    assert!(receiver.abandon());
    let plain = DocumentTimeControlReceiver::new(&DocumentTimeControlCommand::DriveOneTurn);
    assert!(!plain.abandon());
}

#[test]
fn nonblocking_disconnect_completes_with_each_command_transport_semantics() {
    let (observe_response, observe_answers): Answers = unbounded();
    let observe_receiver = DocumentTimeControlReceiver::new(&DocumentTimeControlCommand::Observe);
    drop(observe_response);
    assert!(matches!(
        try_recv(observe_receiver, &observe_answers),
        DocumentTimeControlTryReceiveOutcome::Complete(DocumentTimeControlResolution {
            outcome: DocumentTimeControlReceiveOutcome::ObserveTransportFailure(
                DocumentTimeControlTransportFailure::Disconnected
            ),
            ..
        })
    ));

    let (drive_response, drive_answers): Answers = unbounded();
    let drive_receiver =
        DocumentTimeControlReceiver::new(&DocumentTimeControlCommand::DriveOneTurn);
    drop(drive_response);
    assert!(matches!(
        try_recv(drive_receiver, &drive_answers),
        DocumentTimeControlTryReceiveOutcome::Complete(DocumentTimeControlResolution {
            outcome: DocumentTimeControlReceiveOutcome::DriveOneTurnOutcomeIndeterminate(
                DocumentTimeControlTransportFailure::Disconnected
            ),
            ..
        })
    ));

    let (capture_response, capture_answers): Answers = unbounded();
    let capture_receiver = DocumentTimeControlReceiver::new(
        &DocumentTimeControlCommand::PrepareCapture(capture_surface()),
    );
    drop(capture_response);
    assert!(matches!(
        try_recv(capture_receiver, &capture_answers),
        DocumentTimeControlTryReceiveOutcome::Complete(DocumentTimeControlResolution {
            outcome: DocumentTimeControlReceiveOutcome::CapturePreparationTransportFailure(
                DocumentTimeControlTransportFailure::Disconnected
            ),
            ..
        })
    ));

    let token = advance_token();
    let command = DocumentTimeControlCommand::AdvanceTo(Box::new(token.clone()));
    let (advance_response, advance_answers): Answers = unbounded();
    let advance_receiver = DocumentTimeControlReceiver::new(&command);
    drop(advance_response);
    match try_recv(advance_receiver, &advance_answers) {
        DocumentTimeControlTryReceiveOutcome::Complete(resolution) => {
            assert_indeterminate(resolution, &token)
        },
        DocumentTimeControlTryReceiveOutcome::Pending(_) => {
            panic!("a disconnected callback channel must complete")
        },
    }
}

#[test]
fn nonblocking_transport_error_is_terminal_and_runs_cancellation_once() {
    let receiver =
        DocumentTimeControlReceiver::new_cancellable(&DocumentTimeControlCommand::Observe);

    assert!(matches!(
        receiver.resolve_nonblocking(Err(corruption())),
        DocumentTimeControlTryReceiveOutcome::Complete(DocumentTimeControlResolution {
            outcome: DocumentTimeControlReceiveOutcome::ObserveTransportFailure(
                DocumentTimeControlTransportFailure::DeserializationFailed(message)
            ),
            cancel: true,
        }) if message == "test corruption"
    ));
}

#[test]
fn drive_one_turn_timeout_is_indeterminate() {
    let command = DocumentTimeControlCommand::DriveOneTurn;
    let (_response, answers): Answers = unbounded();
    let receiver = DocumentTimeControlReceiver::new(&command);

    assert_eq!(
        recv_timeout(receiver, &answers, Duration::ZERO).outcome,
        DocumentTimeControlReceiveOutcome::DriveOneTurnOutcomeIndeterminate(
            DocumentTimeControlTransportFailure::TimedOut
        )
    );
}

#[test]
fn capture_preparation_timeout_is_a_distinct_transport_failure() {
    let command = DocumentTimeControlCommand::PrepareCapture(capture_surface());
    let (_response, answers): Answers = unbounded();
    let receiver = DocumentTimeControlReceiver::new(&command);

    assert_eq!(
        recv_timeout(receiver, &answers, Duration::ZERO).outcome,
        DocumentTimeControlReceiveOutcome::CapturePreparationTransportFailure(
            DocumentTimeControlTransportFailure::TimedOut
        )
    );
}

#[test]
fn ordinary_disconnects_remain_distinct_from_timeout() {
    let (observe_response, observe_answers): Answers = unbounded();
    let observe_receiver = DocumentTimeControlReceiver::new(&DocumentTimeControlCommand::Observe);
    drop(observe_response);
    assert_eq!(
        recv_timeout(observe_receiver, &observe_answers, Duration::from_secs(1)).outcome,
        DocumentTimeControlReceiveOutcome::ObserveTransportFailure(
            DocumentTimeControlTransportFailure::Disconnected
        )
    );

    let (drive_response, drive_answers): Answers = unbounded();
    let drive_receiver =
        DocumentTimeControlReceiver::new(&DocumentTimeControlCommand::DriveOneTurn);
    drop(drive_response);
    assert_eq!(
        recv_timeout(drive_receiver, &drive_answers, Duration::from_secs(1)).outcome,
        DocumentTimeControlReceiveOutcome::DriveOneTurnOutcomeIndeterminate(
            DocumentTimeControlTransportFailure::Disconnected
        )
    );
}

#[test]
fn ordinary_decode_and_io_failures_keep_their_transport_identity() {
    let receiver = DocumentTimeControlReceiver::new(&DocumentTimeControlCommand::Observe);
    assert_eq!(
        receiver.resolve(Err(corruption())).outcome,
        DocumentTimeControlReceiveOutcome::ObserveTransportFailure(
            DocumentTimeControlTransportFailure::DeserializationFailed(
                "test corruption".to_owned()
            )
        )
    );

    let receiver = DocumentTimeControlReceiver::new(&DocumentTimeControlCommand::DriveOneTurn);
    assert_eq!(
        receiver
            .resolve(Err(TryReceiveError::Io {
                kind: "BrokenPipe".to_owned(),
                message: "test pipe".to_owned(),
            }))
            .outcome,
        DocumentTimeControlReceiveOutcome::DriveOneTurnOutcomeIndeterminate(
            DocumentTimeControlTransportFailure::Io {
                kind: "BrokenPipe".to_owned(),
                message: "test pipe".to_owned(),
            }
        )
    );
}

#[test]
fn late_drive_result_has_no_second_receive_path_after_timeout() {
    let (response, answers): Answers = unbounded();
    let receiver = DocumentTimeControlReceiver::new(&DocumentTimeControlCommand::DriveOneTurn);

    assert_eq!(
        recv_timeout(receiver, &answers, Duration::ZERO).outcome,
        DocumentTimeControlReceiveOutcome::DriveOneTurnOutcomeIndeterminate(
            DocumentTimeControlTransportFailure::TimedOut
        )
    );
    // The receiver is gone, so that a late answer finds nobody who could take it for a second one.
    let _ = response
        .send(DocumentTimeControlOutcome::Rejected(DocumentTimeControlError::ChannelClosed));
}

#[test]
fn guarded_timeout_is_terminal_and_consumes_the_receiver() {
    let token = advance_token();
    let command = DocumentTimeControlCommand::AdvanceTo(Box::new(token.clone()));
    let (_response, answers): Answers = unbounded();
    let receiver = DocumentTimeControlReceiver::new(&command);

    assert_indeterminate(recv_timeout(receiver, &answers, Duration::ZERO), &token);
}

#[test]
fn guarded_execution_terminal_response_is_a_definitive_rejection() {
    let token = advance_token();
    let command = DocumentTimeControlCommand::AdvanceTo(Box::new(token));
    let (response, answers): Answers = unbounded();
    let receiver = DocumentTimeControlReceiver::new(&command);
    let terminal = DocumentExecutionTerminal::BudgetExceeded {
        budget: DocumentExecutionBudget::OrdinaryTasks,
        limit: 1,
        observed: 2,
    };
    response
        .send(DocumentTimeControlOutcome::Rejected(
            DocumentTimeControlError::ExecutionTerminated(terminal),
        ))
        .unwrap();

    assert_eq!(
        recv_timeout(receiver, &answers, Duration::from_secs(1)).outcome,
        DocumentTimeControlReceiveOutcome::CommandOutcome(
            DocumentTimeControlOutcome::Rejected(
                DocumentTimeControlError::ExecutionTerminated(terminal)
            )
        )
    );
}

#[test]
fn guarded_disconnect_is_indeterminate() {
    let token = advance_token();
    let command = DocumentTimeControlCommand::AdvanceTo(Box::new(token.clone()));
    let (response, answers): Answers = unbounded();
    let receiver = DocumentTimeControlReceiver::new(&command);
    drop(response);

    assert_indeterminate(recv_timeout(receiver, &answers, Duration::from_secs(1)), &token);
}

#[test]
fn guarded_deserialization_failure_is_indeterminate() {
    let token = advance_token();
    let command = DocumentTimeControlCommand::AdvanceTo(Box::new(token.clone()));
    let receiver = DocumentTimeControlReceiver::new(&command);

    assert_indeterminate(receiver.resolve(Err(corruption())), &token);
}

#[test]
fn identities_keep_their_numbers() {
    assert_eq!(DocumentTimeControlRequestId::new(5).get(), 5);
    assert_eq!(DocumentTimeControlCancellationId::new(6).get(), 6);
    assert_eq!(DocumentTimeAdvanceTokenId::new(7).get(), 7);
    assert_eq!(DocumentCapturePreconditionId::new(8).get(), 8);
    assert_eq!(DocumentPaintPresentationTicketId::new(9).get(), 9);
}

#[test]
fn documents_of_a_candidate_are_put_in_order() {
    let (command, _, _) = capture_consume_fixture();
    let DocumentTimeControlCommand::ConsumeCapture(request) = command else {
        panic!("the fixture consumes a capture");
    };
    let of = request.precondition();
    let epoch = |pipeline: u64| DocumentCaptureDocumentEpoch {
        pipeline_id: PipelineId(pipeline),
        script_rendering_epoch: Epoch(1),
        readiness_blockers: Vec::new(),
    };
    let candidate = DocumentCapturePrecondition::new_internal(
        of.id(),
        of.target().clone(),
        of.clock_id(),
        of.now(),
        of.input_revision(),
        of.pending_events(),
        of.input_batch_saturated(),
        of.producers(),
        of.execution(),
        of.next_deadline(),
        of.sources().clone(),
        vec![epoch(3), epoch(1), epoch(2)],
        of.surface(),
    );
    assert_eq!(candidate.documents(), &[epoch(1), epoch(2), epoch(3)]);
}

#[test]
fn clocks_only_run_forward_and_their_arithmetic_is_checked() {
    let mut clock = DocumentClock::new(DocumentClockId(1), DocumentTime::from_nanos(5));
    assert_eq!(
        clock.advance_to(DocumentTime::from_nanos(4)),
        Err(DocumentClockError::NotMonotonic)
    );
    assert_eq!(clock.advance_to(DocumentTime::from_nanos(9)), Ok(()));
    assert_eq!(clock.try_now(), Ok(DocumentTime::from_nanos(9)));
    let last = DocumentTime::from_nanos(u128::MAX);
    assert_eq!(last.checked_add(TimeSpan(1)), Err(DocumentClockError::Overflow));
    assert_eq!(
        DocumentTime::from_nanos(1).checked_sub(TimeSpan(2)),
        Err(DocumentClockError::Underflow)
    );
    assert_eq!(DocumentTime::from_nanos(7).as_nanos(), 7);
    assert_eq!(DocumentProducerCheckpoint(u64::MAX).checked_next(), None);
}
