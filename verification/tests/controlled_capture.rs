use std::cell::Cell;

use pliego_core::controlled_capture::{
    frame_pending, perform_after_validation, require_exact_epoch, require_exact_renderer_epoch,
    require_no_pending_or_animation, require_root_and_surface, terminal, ControlledCaptureLedger,
    ControlledDocumentCaptureError, ControlledDocumentCaptureFailure,
    ControlledDocumentCaptureRetry,
};
use pliego_core::document_time::DocumentTimeControlTarget;
use pliego_core::generation_capture::protocol::{
    DocumentCapturePreconditionId, DocumentPaintPresentationTicket,
    DocumentPaintPresentationTicketId,
};
use pliego_core::generation_capture::surface::{
    DeviceIndependentIntRect, DeviceIndependentIntSize, DocumentCaptureSurfaceFingerprint,
};
use pliego_core::ids::{Epoch, PipelineId, ScriptEventLoopId, WebViewId};

const TEST_PIPELINE_ID: PipelineId = PipelineId(5678);
const TEST_SCRIPT_EVENT_LOOP_ID: ScriptEventLoopId = ScriptEventLoopId(1234);

fn ticket_for(owner: WebViewId, sequence: u64) -> DocumentPaintPresentationTicket {
    let surface = DocumentCaptureSurfaceFingerprint::new(
        DeviceIndependentIntSize { width: 200, height: 160 },
        DeviceIndependentIntRect { min_x: 0, min_y: 0, max_x: 200, max_y: 160 },
        1.0_f32.to_bits(),
    )
    .expect("test capture surface should be valid");
    DocumentPaintPresentationTicket::new_internal(
        DocumentPaintPresentationTicketId::new(sequence),
        DocumentCapturePreconditionId::new(sequence),
        DocumentTimeControlTarget {
            webview_id: owner,
            event_loop_id: TEST_SCRIPT_EVENT_LOOP_ID,
            webview_epoch: Epoch::default(),
            pipelines: vec![TEST_PIPELINE_ID],
            fully_active_pipelines: vec![TEST_PIPELINE_ID],
        },
        TEST_PIPELINE_ID,
        Epoch::default(),
        surface,
        sequence,
        sequence,
    )
}

#[test]
fn exact_epoch_issues_without_retry() {
    assert_eq!(require_exact_epoch(Some(7), 7), Ok(()));
}

#[test]
fn missing_or_behind_epoch_is_retryable_frame_pending() {
    assert_eq!(require_exact_epoch(None, 7), Err(frame_pending()));
    assert_eq!(require_exact_epoch(Some(6), 7), Err(frame_pending()));
}

#[test]
fn newer_epoch_is_terminal() {
    assert_eq!(
        require_exact_epoch(Some(8), 7),
        Err(terminal(ControlledDocumentCaptureFailure::NewerDisplayListEpoch))
    );
    assert_eq!(
        require_exact_renderer_epoch(Some(8), 7),
        Err(terminal(ControlledDocumentCaptureFailure::RendererEpochMismatch))
    );
}

#[test]
fn renderer_epoch_behind_or_missing_is_pending() {
    assert_eq!(require_exact_renderer_epoch(Some(7), 7), Ok(()));
    assert_eq!(require_exact_renderer_epoch(None, 7), Err(frame_pending()));
    assert_eq!(require_exact_renderer_epoch(Some(6), 7), Err(frame_pending()));
}

#[test]
fn root_or_surface_mismatch_is_terminal() {
    assert_eq!(
        require_root_and_surface(false, true),
        Err(terminal(ControlledDocumentCaptureFailure::RootPipelineMismatch))
    );
    assert_eq!(
        require_root_and_surface(true, false),
        Err(terminal(ControlledDocumentCaptureFailure::SurfaceMismatch))
    );
}

#[test]
fn root_mismatch_comes_before_surface_mismatch() {
    assert_eq!(
        require_root_and_surface(false, false),
        Err(terminal(ControlledDocumentCaptureFailure::RootPipelineMismatch))
    );
    assert_eq!(require_root_and_surface(true, true), Ok(()));
}

#[test]
fn pending_frame_is_retryable() {
    assert_eq!(
        require_no_pending_or_animation(true, false),
        Err(frame_pending())
    );
}

#[test]
fn animation_is_terminal_once_no_frame_is_pending() {
    assert_eq!(require_no_pending_or_animation(true, true), Err(frame_pending()));
    assert_eq!(
        require_no_pending_or_animation(false, true),
        Err(terminal(ControlledDocumentCaptureFailure::AnimationActive))
    );
    assert_eq!(require_no_pending_or_animation(false, false), Ok(()));
}

#[test]
fn mutation_invalidates_a_reservation() {
    let mut ledger = ControlledCaptureLedger::default();
    assert_eq!(ledger.retain(11_u64), Ok(()));
    assert_eq!(ledger.note_mutation(), Ok(1));
    assert_eq!(
        ledger.retain(12),
        Err(ControlledDocumentCaptureError::Retryable(
            ControlledDocumentCaptureRetry::ReservationOccupied
        ))
    );
    assert_eq!(ledger.revision(), Ok(1));
    assert_eq!(ledger.take_matching(&11), Ok(11));
    assert_eq!(
        ledger.take_matching(&11),
        Err(terminal(ControlledDocumentCaptureFailure::TicketNotReserved))
    );
}

#[test]
fn one_reservation_is_retained_and_abort_is_idempotent() {
    let mut ledger = ControlledCaptureLedger::default();
    assert_eq!(ledger.retain(11_u64), Ok(()));
    assert_eq!(
        ledger.retain(12_u64),
        Err(ControlledDocumentCaptureError::Retryable(
            ControlledDocumentCaptureRetry::ReservationOccupied
        ))
    );
    assert!(ledger.abort_where(|ticket| *ticket == 11));
    assert!(!ledger.abort_where(|ticket| *ticket == 11));
    assert_eq!(ledger.retain(12_u64), Ok(()));
    assert_eq!(ledger.note_mutation(), Ok(1));
    assert!(ledger.abort_where(|ticket| *ticket == 12));
    assert!(!ledger.abort_where(|ticket| *ticket == 12));
}

#[test]
fn shared_framebuffer_abort_clears_only_the_matching_webview() {
    let mut ledger = ControlledCaptureLedger::default();
    let owner = WebViewId(8765);
    let sibling = WebViewId(8766);
    assert_ne!(owner, sibling);
    let owner_ticket = ticket_for(owner, 11);
    let sibling_ticket = ticket_for(sibling, 12);

    assert_eq!(ledger.retain(owner_ticket), Ok(()));
    assert!(!ledger.abort_for_webview(sibling));
    assert!(ledger.has_reservation());
    assert!(ledger.abort_for_webview(owner));
    assert!(!ledger.abort_for_webview(owner));
    assert_eq!(ledger.retain(sibling_ticket), Ok(()));
}

#[test]
fn a_ticket_matches_only_one_that_says_the_same_throughout() {
    let owner = WebViewId(8765);
    let mut ledger = ControlledCaptureLedger::default();
    assert_eq!(ledger.retain(ticket_for(owner, 11)), Ok(()));
    assert_eq!(ledger.take_matching(&ticket_for(owner, 11)), Ok(ticket_for(owner, 11)));

    let mut other = ticket_for(owner, 11);
    other.target.fully_active_pipelines.clear();
    assert_eq!(ledger.retain(ticket_for(owner, 11)), Ok(()));
    assert_eq!(
        ledger.take_matching(&other),
        Err(terminal(ControlledDocumentCaptureFailure::TicketMismatch))
    );
    assert!(!ledger.has_reservation());
}

#[test]
fn pending_or_ambiguous_publish_cannot_issue() {
    let mut ledger = ControlledCaptureLedger::<u64>::default();
    assert_eq!(ledger.publish_generation(), Err(frame_pending()));
    ledger.note_publish_generation(2);
    ledger.note_publish_generation(1);
    assert_eq!(
        ledger.publish_generation(),
        Err(terminal(ControlledDocumentCaptureFailure::PublishGenerationAmbiguous))
    );
    let mut skipped = ControlledCaptureLedger::<u64>::default();
    skipped.note_publish_generation(4);
    skipped.note_publish_generation(6);
    assert_eq!(skipped.publish_generation(), Ok(6));

    let mut invalidated = ControlledCaptureLedger::default();
    assert_eq!(invalidated.retain(11_u64), Ok(()));
    invalidated.mark_publish_generation_ambiguous();
    assert_eq!(
        invalidated.publish_generation(),
        Err(terminal(ControlledDocumentCaptureFailure::PublishGenerationAmbiguous))
    );
    assert_eq!(invalidated.take_matching(&11), Ok(11));
}

#[test]
fn generation_zero_is_no_frame() {
    let mut ledger = ControlledCaptureLedger::<u64>::default();
    ledger.note_publish_generation(0);
    assert_eq!(ledger.publish_generation(), Err(frame_pending()));
}

#[test]
fn processed_publish_generation_is_retained_exactly_and_a_later_frame_invalidates() {
    let mut ledger = ControlledCaptureLedger::default();
    let generation = u64::from(u32::MAX) + 23;
    ledger.note_publish_generation(generation);
    assert_eq!(ledger.publish_generation(), Ok(generation));
    assert_eq!(ledger.retain(11_u64), Ok(()));
    assert_eq!(ledger.note_mutation(), Ok(1));
    ledger.note_publish_generation(generation + 1);
    assert_eq!(ledger.publish_generation(), Ok(generation + 1));
    assert_eq!(ledger.revision(), Ok(1));
    assert_eq!(ledger.take_matching(&11), Ok(11));
}

#[test]
fn finalization_mismatch_consumes_and_replay_fails() {
    let mut ledger = ControlledCaptureLedger::default();
    assert_eq!(ledger.retain(11_u64), Ok(()));
    assert_eq!(
        ledger.take_matching(&12),
        Err(terminal(ControlledDocumentCaptureFailure::TicketMismatch))
    );
    assert_eq!(
        ledger.take_matching(&11),
        Err(terminal(ControlledDocumentCaptureFailure::TicketNotReserved))
    );
}

#[test]
fn revision_overflow_latches_terminal() {
    let mut ledger = ControlledCaptureLedger::<u64>::default();
    ledger.presentation_revision = u64::MAX;
    let overflow = Err(terminal(ControlledDocumentCaptureFailure::PresentationRevisionOverflow));
    assert_eq!(ledger.note_mutation(), overflow);
    assert_eq!(ledger.note_mutation(), overflow);
    assert_eq!(ledger.revision(), overflow);
}

#[test]
fn readback_operation_runs_only_after_matching_validation() {
    let readbacks = Cell::new(0);
    let validation_error = terminal(ControlledDocumentCaptureFailure::CommitMismatch);

    let rejected = perform_after_validation::<(), (), _, _>(
        || Err(validation_error),
        |_| {
            readbacks.set(readbacks.get() + 1);
            Ok(())
        },
    );
    assert_eq!(rejected, Err(validation_error));
    assert_eq!(readbacks.get(), 0);

    let accepted = perform_after_validation(
        || Ok(23_u64),
        |validated| {
            readbacks.set(readbacks.get() + 1);
            Ok(validated)
        },
    );
    assert_eq!(accepted, Ok(23));
    assert_eq!(readbacks.get(), 1);
}
