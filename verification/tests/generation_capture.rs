use pliego_core::clock::{
    DocumentExecutionLedger, DocumentExecutionLimits, DocumentProducerCheckpoint, DocumentProducerFenceId, DocumentProducerSnapshot, DocumentTime,
};
use pliego_core::document_time::{
    DocumentProducerStability, DocumentTimeControlTarget, DocumentTimeProducerObservation,
};
use pliego_core::dyadic::exact_difference_ceiling_nanos;
use pliego_core::generation_capture::blockers::{
    capture_blockers_internal, capture_producers_internal, CaptureQualificationFacts, DocumentCaptureBlocker,
};
use pliego_core::generation_capture::fence::DocumentCaptureQuietFence;
use pliego_core::generation_capture::snapshot::{
    DocumentCanvasCaptureBindingError, DocumentSettlementSourceEpoch,
    DocumentSettlementSourceSnapshot,
};
use pliego_core::generation_capture::sources::{
    finite_deadline_from_seconds, DocumentCanvasCaptureStatus, DocumentCanvasImageKey,
    DocumentCssAnimationState, DocumentCssIterationState, DocumentOpenEndedSourceReason,
    DocumentSettlementSource, DocumentSettlementSourceDisposition, DocumentSettlementSourceState,
    DocumentTrackedSourceKind,
    DocumentUnsupportedSourceReason,
};
use pliego_core::generation_capture::surface::{
    DeviceIndependentIntRect, DeviceIndependentIntSize, DocumentCaptureSurfaceError,
    DocumentCaptureSurfaceFingerprint,
};
use pliego_core::ids::{Epoch, PipelineId, ScriptEventLoopId, WebViewId};

const TEST_PIPELINE_ID: PipelineId = PipelineId(5678);

fn surface() -> DocumentCaptureSurfaceFingerprint {
    surface_of(0, 800, 2.0).unwrap()
}

fn surface_of(
    min_x: i32,
    max_x: i32,
    device_pixel_scale: f32,
) -> Result<DocumentCaptureSurfaceFingerprint, DocumentCaptureSurfaceError> {
    DocumentCaptureSurfaceFingerprint::new(
        DeviceIndependentIntSize { width: 800, height: 600 },
        DeviceIndependentIntRect { min_x, min_y: 0, max_x, max_y: 600 },
        device_pixel_scale.to_bits(),
    )
}

/// A CSS animation, timed by numbers; its end is rounded once.
fn css_animation(
    node_id: usize,
    name: &str,
    state: DocumentCssAnimationState,
    iteration: DocumentCssIterationState,
    started_at: f64,
    duration: f64,
    delay: f64,
    timeline_now: f64,
    document_now: DocumentTime,
) -> DocumentSettlementSource {
    let terminal = match iteration {
        DocumentCssIterationState::Finite { current_bits, max_bits } => duration.mul_add(
            f64::from_bits(max_bits) - f64::from_bits(current_bits),
            started_at,
        ),
        DocumentCssIterationState::Infinite { .. } => f64::INFINITY,
    };
    DocumentSettlementSource::css_animation_internal(
        TEST_PIPELINE_ID,
        node_id,
        None,
        0,
        name.to_owned(),
        state,
        iteration,
        started_at.to_bits(),
        duration.to_bits(),
        delay.to_bits(),
        terminal.to_bits(),
        timeline_now.to_bits(),
        document_now,
    )
}

/// A CSS transition of the opacity, timed by numbers.
fn css_transition(
    node_id: usize,
    state: DocumentCssAnimationState,
    start_time: f64,
    duration: f64,
    delay: f64,
    timeline_now: f64,
    document_now: DocumentTime,
) -> DocumentSettlementSource {
    DocumentSettlementSource::css_transition_internal(
        TEST_PIPELINE_ID,
        node_id,
        None,
        0,
        "opacity".to_owned(),
        state,
        start_time.to_bits(),
        duration.to_bits(),
        delay.to_bits(),
        (start_time + duration).to_bits(),
        timeline_now.to_bits(),
        document_now,
    )
}

fn deadline_from_seconds(
    document_now: DocumentTime,
    timeline_now: f64,
    terminal_time: f64,
) -> Option<DocumentTime> {
    finite_deadline_from_seconds(document_now, timeline_now.to_bits(), terminal_time.to_bits())
}

fn difference_nanos(timeline_now: f64, terminal_time: f64) -> Option<u128> {
    exact_difference_ceiling_nanos(timeline_now.to_bits(), terminal_time.to_bits())
}

fn animation(
    state: DocumentCssAnimationState,
    iteration: DocumentCssIterationState,
    started_at: f64,
    duration: f64,
    timeline_now: f64,
) -> DocumentSettlementSourceDisposition {
    css_animation(
        7,
        "pulse",
        state,
        iteration,
        started_at,
        duration,
        0.0,
        timeline_now,
        DocumentTime::from_nanos(10_000_000_000),
    )
    .disposition()
}

#[test]
fn css_animation_classification_is_table_driven_and_fail_closed() {
    let finite = DocumentCssIterationState::Finite {
        current_bits: 0.0f64.to_bits(),
        max_bits: 2.0f64.to_bits(),
    };
    let cases = [
        (
            DocumentCssAnimationState::Finished,
            finite,
            0.0,
            1.0,
            0.0,
            DocumentSettlementSourceDisposition::Inert,
        ),
        (
            DocumentCssAnimationState::Canceled,
            finite,
            0.0,
            1.0,
            0.0,
            DocumentSettlementSourceDisposition::Inert,
        ),
        (
            DocumentCssAnimationState::Paused(0.5f64.to_bits()),
            finite,
            0.0,
            1.0,
            0.0,
            DocumentSettlementSourceDisposition::Inert,
        ),
        (
            DocumentCssAnimationState::Paused(0.5f64.to_bits()),
            DocumentCssIterationState::Infinite {
                current_bits: 3.0f64.to_bits(),
            },
            0.0,
            1.0,
            0.0,
            DocumentSettlementSourceDisposition::Inert,
        ),
        (
            DocumentCssAnimationState::Running,
            DocumentCssIterationState::Infinite {
                current_bits: 3.0f64.to_bits(),
            },
            0.0,
            1.0,
            0.0,
            DocumentSettlementSourceDisposition::OpenEnded(
                DocumentOpenEndedSourceReason::InfiniteCssAnimation,
            ),
        ),
        (
            DocumentCssAnimationState::Pending,
            finite,
            9.0,
            1.0,
            10.0,
            DocumentSettlementSourceDisposition::FiniteDeadline(DocumentTime::from_nanos(
                11_000_000_000,
            )),
        ),
        (
            DocumentCssAnimationState::Running,
            finite,
            f64::NAN,
            1.0,
            0.0,
            DocumentSettlementSourceDisposition::Unsupported(
                DocumentUnsupportedSourceReason::InvalidCssTiming,
            ),
        ),
    ];

    for (state, iteration, started_at, duration, timeline_now, expected) in cases {
        assert_eq!(
            animation(state, iteration, started_at, duration, timeline_now),
            expected
        );
    }
}

#[test]
fn timer_raf_and_transition_sources_distinguish_finite_open_and_inert() {
    let deadline = DocumentTime::from_nanos(20);
    let timeout =
        DocumentSettlementSource::timer_internal(TEST_PIPELINE_ID, 1, 2, 3, deadline, false);
    let interval =
        DocumentSettlementSource::timer_internal(TEST_PIPELINE_ID, 4, 5, 6, deadline, true);
    let active_raf =
        DocumentSettlementSource::animation_frame_internal(TEST_PIPELINE_ID, 7, true);
    let canceled_raf =
        DocumentSettlementSource::animation_frame_internal(TEST_PIPELINE_ID, 8, false);
    let transition = css_transition(
        9,
        DocumentCssAnimationState::Running,
        5.0,
        2.0,
        0.0,
        6.0,
        DocumentTime::from_nanos(10_000_000_000),
    );

    assert_eq!(
        timeout.disposition(),
        DocumentSettlementSourceDisposition::FiniteDeadline(deadline)
    );
    assert!(matches!(
        interval.disposition(),
        DocumentSettlementSourceDisposition::OpenEnded(DocumentOpenEndedSourceReason::Interval)
    ));
    assert_eq!(
        active_raf.disposition(),
        DocumentSettlementSourceDisposition::FiniteRenderingOpportunity
    );
    assert_eq!(
        canceled_raf.disposition(),
        DocumentSettlementSourceDisposition::Inert
    );
    assert_eq!(
        transition.disposition(),
        DocumentSettlementSourceDisposition::FiniteDeadline(DocumentTime::from_nanos(
            11_000_000_000
        ))
    );
}

#[test]
fn css_delay_is_retained_but_not_added_twice_to_stylo_start_times() {
    let animation = css_animation(
        7,
        "delayed",
        DocumentCssAnimationState::Pending,
        DocumentCssIterationState::Finite {
            current_bits: 0.0f64.to_bits(),
            max_bits: 1.0f64.to_bits(),
        },
        12.0,
        2.0,
        5.0,
        10.0,
        DocumentTime::from_nanos(20_000_000_000),
    );
    let transition = css_transition(
        8,
        DocumentCssAnimationState::Pending,
        12.0,
        2.0,
        5.0,
        10.0,
        DocumentTime::from_nanos(20_000_000_000),
    );

    let expected = DocumentSettlementSourceDisposition::FiniteDeadline(
        DocumentTime::from_nanos(24_000_000_000),
    );
    assert_eq!(animation.disposition(), expected);
    assert_eq!(transition.disposition(), expected);
}

#[test]
fn css_deadlines_round_up_to_the_next_document_nanosecond() {
    let document_now = DocumentTime::from_nanos(50);
    assert_eq!(
        deadline_from_seconds(document_now, 0.0, 0.000_000_000_1),
        Some(DocumentTime::from_nanos(51)),
        "a positive sub-nanosecond remainder must not become immediately eligible"
    );
    assert_eq!(
        deadline_from_seconds(document_now, 0.0, 0.000_000_001_1),
        Some(DocumentTime::from_nanos(52)),
        "a deadline just beyond one nanosecond must round to two"
    );
    assert_eq!(
        deadline_from_seconds(document_now, 1.0, 1.0),
        Some(document_now),
        "an already-reached deadline remains at the current document time"
    );
    let multiplication_rounds_down = f64::from_bits(0x408a_4582_1ac2_8a3a);
    assert_eq!(
        difference_nanos(0.0, multiplication_rounds_down),
        Some(840_688_527_604),
        "the exact rational remainder must survive f64 multiplication round-down"
    );
    assert_eq!(
        deadline_from_seconds(document_now, 0.0, multiplication_rounds_down),
        Some(DocumentTime::from_nanos(840_688_527_654)),
        "the production deadline path must use the exact ceiling"
    );
    assert_eq!(
        multiplication_rounds_down * 1_000_000_000.0,
        840_688_527_603.0,
        "the adversarial value must exercise the old early-deadline path"
    );
    const WIDE_DURATION_SECONDS: u128 = 20_000_000_000;
    const WIDE_DURATION_NANOS: u128 = WIDE_DURATION_SECONDS * 1_000_000_000;
    assert_eq!(
        deadline_from_seconds(document_now, 0.0, WIDE_DURATION_SECONDS as f64),
        Some(DocumentTime::from_nanos(
            WIDE_DURATION_NANOS + document_now.as_nanos()
        )),
        "an exactly representable deadline beyond u64 nanoseconds must remain representable"
    );
    assert_eq!(
        deadline_from_seconds(DocumentTime::from_nanos(u128::MAX), 0.0, 0.000_000_001),
        None,
        "checked addition must reject the widened DocumentTime boundary"
    );
    assert_eq!(
        deadline_from_seconds(document_now, 0.0, f64::MAX),
        None,
        "an unrepresentable finite duration must fail closed"
    );
}

#[test]
fn css_deadline_difference_is_exact_before_nanosecond_ceiling() {
    let timeline = f64::from_bits(0x424a_a15d_115c_fa35);
    let terminal = f64::from_bits(0x4485_a225_941a_92da);
    assert_eq!(
        difference_nanos(timeline, terminal),
        Some(12_770_097_062_108_432_031_046_045_257_569),
        "represented-input subtraction must not round the deadline down"
    );
    assert_eq!(
        deadline_from_seconds(DocumentTime::from_nanos(0), timeline, terminal),
        Some(DocumentTime::from_nanos(
            12_770_097_062_108_432_031_046_045_257_569
        ))
    );

    assert_eq!(difference_nanos(0.0, -0.0), Some(0));
    assert_eq!(difference_nanos(-0.0, 0.0), Some(0));
    assert_eq!(
        difference_nanos(0.0, f64::from_bits(1)),
        Some(1),
        "the smallest positive subnormal still reaches the next nanosecond"
    );
    assert_eq!(difference_nanos(1.0, -1.0), Some(0));
    assert_eq!(
        difference_nanos(-0.25, 0.25),
        Some(500_000_000)
    );
    assert_eq!(
        difference_nanos(-1.0, -0.25),
        Some(750_000_000)
    );
    assert_eq!(difference_nanos(f64::NAN, 1.0), None);
    assert_eq!(difference_nanos(0.0, f64::INFINITY), None);
    assert_eq!(
        difference_nanos(0.0, f64::from_bits(0x4611_2e0b_e826_d694)),
        Some(340_282_366_920_938_414_287_957_786_624_000_000_000)
    );
    assert_eq!(
        difference_nanos(0.0, f64::from_bits(0x4611_2e0b_e826_d695)),
        None,
        "the next represented duration exceeds the u128 nanosecond domain"
    );
}

#[test]
fn tracked_external_open_and_close_transitions_change_the_canonical_vector() {
    let cases = [
        (
            DocumentTrackedSourceKind::WebSocket,
            DocumentOpenEndedSourceReason::WebSocket,
        ),
        (
            DocumentTrackedSourceKind::EventSource,
            DocumentOpenEndedSourceReason::EventSource,
        ),
        (
            DocumentTrackedSourceKind::BroadcastChannel,
            DocumentOpenEndedSourceReason::BroadcastChannel,
        ),
        (
            DocumentTrackedSourceKind::MessagePort,
            DocumentOpenEndedSourceReason::MessagePort,
        ),
        (
            DocumentTrackedSourceKind::EmbedderControl,
            DocumentOpenEndedSourceReason::EmbedderControl,
        ),
        (
            DocumentTrackedSourceKind::MediaSessionActionHandler,
            DocumentOpenEndedSourceReason::MediaSessionActionHandler,
        ),
        (
            DocumentTrackedSourceKind::StorageEventListener,
            DocumentOpenEndedSourceReason::StorageEventListener,
        ),
    ];

    for (kind, reason) in cases {
        let closed =
            DocumentSettlementSource::tracked_presence_internal(TEST_PIPELINE_ID, kind, 0);
        let open =
            DocumentSettlementSource::tracked_presence_internal(TEST_PIPELINE_ID, kind, 1);
        assert_ne!(closed, open);
        assert_eq!(
            closed.disposition(),
            DocumentSettlementSourceDisposition::Inert
        );
        assert_eq!(
            open.disposition(),
            DocumentSettlementSourceDisposition::OpenEnded(reason)
        );
    }
}

#[test]
fn tracked_unsupported_presence_is_fail_closed() {
    let cases = [
        (
            DocumentTrackedSourceKind::DedicatedWorker,
            DocumentUnsupportedSourceReason::DedicatedWorker,
        ),
        (
            DocumentTrackedSourceKind::Worklet,
            DocumentUnsupportedSourceReason::Worklet,
        ),
        (
            DocumentTrackedSourceKind::IndexedDb,
            DocumentUnsupportedSourceReason::IndexedDb,
        ),
        (
            DocumentTrackedSourceKind::GpuDevice,
            DocumentUnsupportedSourceReason::GpuDevice,
        ),
        (
            DocumentTrackedSourceKind::CookieStorePending,
            DocumentUnsupportedSourceReason::CookieStorePending,
        ),
        (
            DocumentTrackedSourceKind::ServiceWorkerPending,
            DocumentUnsupportedSourceReason::ServiceWorkerPending,
        ),
        (
            DocumentTrackedSourceKind::ServiceWorkerMessaging,
            DocumentUnsupportedSourceReason::ServiceWorkerMessaging,
        ),
        (
            DocumentTrackedSourceKind::WebXr,
            DocumentUnsupportedSourceReason::WebXr,
        ),
        (
            DocumentTrackedSourceKind::StorageManager,
            DocumentUnsupportedSourceReason::StorageManager,
        ),
        (
            DocumentTrackedSourceKind::Bluetooth,
            DocumentUnsupportedSourceReason::Bluetooth,
        ),
        (
            DocumentTrackedSourceKind::RtcPeerConnection,
            DocumentUnsupportedSourceReason::RtcPeerConnection,
        ),
        (
            DocumentTrackedSourceKind::MediaStream,
            DocumentUnsupportedSourceReason::MediaStream,
        ),
        (
            DocumentTrackedSourceKind::WebAudio,
            DocumentUnsupportedSourceReason::WebAudio,
        ),
        (
            DocumentTrackedSourceKind::Notification,
            DocumentUnsupportedSourceReason::Notification,
        ),
        (
            DocumentTrackedSourceKind::WebGpuApi,
            DocumentUnsupportedSourceReason::WebGpuApi,
        ),
        (
            DocumentTrackedSourceKind::OffscreenCanvas,
            DocumentUnsupportedSourceReason::OffscreenCanvas,
        ),
    ];

    for (kind, reason) in cases {
        let absent =
            DocumentSettlementSource::tracked_presence_internal(TEST_PIPELINE_ID, kind, 0);
        let present =
            DocumentSettlementSource::tracked_presence_internal(TEST_PIPELINE_ID, kind, 1);
        assert_eq!(
            absent.disposition(),
            DocumentSettlementSourceDisposition::Inert
        );
        assert_eq!(
            present.disposition(),
            DocumentSettlementSourceDisposition::Unsupported(reason)
        );
    }
}

#[test]
fn ready_canvas_sources_produce_one_canonical_capture_binding() {
    let first = DocumentSettlementSource::canvas_2d_internal(
        TEST_PIPELINE_ID,
        8,
        3,
        Some(DocumentCanvasImageKey::new_internal(4, 9)),
        320,
        200,
        Some(17),
        DocumentCanvasCaptureStatus::Ready,
    );
    let second = DocumentSettlementSource::canvas_2d_internal(
        TEST_PIPELINE_ID,
        9,
        4,
        Some(DocumentCanvasImageKey::new_internal(4, 2)),
        100,
        50,
        Some(17),
        DocumentCanvasCaptureStatus::Ready,
    );
    let snapshot = DocumentSettlementSourceSnapshot::new_internal(
        DocumentSettlementSourceEpoch::new(2),
        vec![first, second],
    );

    assert!(snapshot.is_settled());
    let binding = snapshot.canvas_capture_binding().unwrap().unwrap();
    assert_eq!(binding.registry_generation(), 17);
    assert_eq!(
        binding.image_keys(),
        &[
            DocumentCanvasImageKey::new_internal(4, 2),
            DocumentCanvasImageKey::new_internal(4, 9),
        ]
    );
}

#[test]
fn unsupported_and_mixed_canvas_sources_fail_closed() {
    let unsupported = DocumentSettlementSource::canvas_2d_internal(
        TEST_PIPELINE_ID,
        8,
        3,
        Some(DocumentCanvasImageKey::new_internal(4, 9)),
        320,
        200,
        Some(17),
        DocumentCanvasCaptureStatus::UnsupportedTranscript,
    );
    assert_eq!(
        unsupported.disposition(),
        DocumentSettlementSourceDisposition::Unsupported(
            DocumentUnsupportedSourceReason::Canvas2d
        )
    );

    let first = DocumentSettlementSource::canvas_2d_internal(
        TEST_PIPELINE_ID,
        8,
        3,
        Some(DocumentCanvasImageKey::new_internal(4, 9)),
        320,
        200,
        Some(17),
        DocumentCanvasCaptureStatus::Ready,
    );
    let second = DocumentSettlementSource::canvas_2d_internal(
        TEST_PIPELINE_ID,
        9,
        4,
        Some(DocumentCanvasImageKey::new_internal(4, 10)),
        320,
        200,
        Some(18),
        DocumentCanvasCaptureStatus::Ready,
    );
    let snapshot = DocumentSettlementSourceSnapshot::new_internal(
        DocumentSettlementSourceEpoch::new(2),
        vec![first, second],
    );
    assert_eq!(
        snapshot.canvas_capture_binding(),
        Err(DocumentCanvasCaptureBindingError::MixedGeneration)
    );
}

#[test]
fn snapshots_sort_full_identities_without_collapsing_duplicates() {
    let later = DocumentSettlementSource::animation_frame_internal(TEST_PIPELINE_ID, 2, false);
    let earlier =
        DocumentSettlementSource::animation_frame_internal(TEST_PIPELINE_ID, 1, false);
    let snapshot = DocumentSettlementSourceSnapshot::new_internal(
        DocumentSettlementSourceEpoch::new(4),
        vec![later, earlier.clone(), earlier],
    );

    assert_eq!(snapshot.sources().len(), 3);
    assert_eq!(snapshot.sources()[0], snapshot.sources()[1]);
    assert!(snapshot.sources()[1] < snapshot.sources()[2]);
    assert!(snapshot.is_settled());
}

#[test]
fn quiet_fence_needs_two_fresh_identical_checkpoints_and_resets_on_change() {
    let checkpoint_1 = DocumentProducerCheckpoint::zero().checked_next().unwrap();
    let checkpoint_2 = checkpoint_1.checked_next().unwrap();
    let checkpoint_3 = checkpoint_2.checked_next().unwrap();
    let checkpoint_4 = checkpoint_3.checked_next().unwrap();
    let mut fence = DocumentCaptureQuietFence::new();
    let initial_revision = (DocumentTime::from_nanos(0), 0_u64, 0_u64);

    assert!(!fence.observe(checkpoint_1, initial_revision, true));
    assert!(
        !fence.observe(checkpoint_1, initial_revision, true),
        "same-checkpoint Observe or PrepareCapture cannot strengthen candidate one"
    );
    assert!(fence.observe(checkpoint_2, initial_revision, true));

    let changed_source_revision = (DocumentTime::from_nanos(0), 0_u64, 1_u64);
    assert!(
        !fence.observe(checkpoint_2, changed_source_revision, true),
        "work or a source change at the same checkpoint clears the stable revision"
    );
    assert!(
        !fence.observe(checkpoint_3, changed_source_revision, true),
        "the first fresh quiet checkpoint after the change is only candidate one"
    );
    assert!(fence.observe(checkpoint_4, changed_source_revision, true));
}

#[test]
fn quiet_fence_treats_clock_movement_and_mechanical_failure_as_changes() {
    let checkpoint_1 = DocumentProducerCheckpoint::zero().checked_next().unwrap();
    let checkpoint_2 = checkpoint_1.checked_next().unwrap();
    let checkpoint_3 = checkpoint_2.checked_next().unwrap();
    let checkpoint_4 = checkpoint_3.checked_next().unwrap();
    let mut fence = DocumentCaptureQuietFence::new();
    let at_zero = (DocumentTime::from_nanos(0), 0_u64);

    assert!(!fence.observe(checkpoint_1, at_zero, true));
    assert!(fence.observe(checkpoint_2, at_zero, true));

    let after_advance = (DocumentTime::from_nanos(1), 0_u64);
    assert!(!fence.observe(checkpoint_2, after_advance, true));
    assert!(!fence.observe(checkpoint_3, after_advance, false));
    assert!(
        !fence.observe(checkpoint_4, after_advance, true),
        "a failed mechanical observation cannot be one of the two quiet checkpoints"
    );
}

#[test]
fn same_checkpoint_preparation_preserves_but_never_creates_stable_empty() {
    let checkpoint = DocumentProducerCheckpoint::zero().checked_next().unwrap();
    let observation = |stability| DocumentTimeProducerObservation {
        fence_id: DocumentProducerFenceId(1),
        checkpoint,
        snapshot: empty_producers(),
        stability,
    };

    let cases = [
        (
            DocumentProducerStability::FirstEmpty,
            true,
            DocumentProducerStability::FirstEmpty,
        ),
        (
            DocumentProducerStability::UnchangedCheckpoint,
            false,
            DocumentProducerStability::UnchangedCheckpoint,
        ),
        (
            DocumentProducerStability::UnchangedCheckpoint,
            true,
            DocumentProducerStability::StableEmpty,
        ),
        (
            DocumentProducerStability::StableEmpty,
            true,
            DocumentProducerStability::StableEmpty,
        ),
    ];
    for (observed, quiet_qualified, expected) in cases {
        assert_eq!(
            capture_producers_internal(observation(observed), quiet_qualified).stability,
            expected
        );
    }
}

#[test]
fn qualification_blockers_are_canonical_and_complete() {
    let cases = [
        (
            CaptureQualificationFacts::default(),
            Vec::<DocumentCaptureBlocker>::new(),
        ),
        (
            CaptureQualificationFacts {
                pending_input: true,
                open_ended_source: true,
                invalid_surface: true,
                ..CaptureQualificationFacts::default()
            },
            vec![
                DocumentCaptureBlocker::PendingInput,
                DocumentCaptureBlocker::OpenEndedSource,
                DocumentCaptureBlocker::InvalidSurface,
            ],
        ),
        (
            CaptureQualificationFacts {
                multiple_fully_active_pipelines: true,
                execution_policy_unavailable: true,
                document_epoch_unavailable: true,
                finite_timer_deadline: true,
                active_finite_source: true,
                unsupported_source: true,
                ..CaptureQualificationFacts::default()
            },
            vec![
                DocumentCaptureBlocker::MultipleFullyActivePipelines,
                DocumentCaptureBlocker::ExecutionPolicyUnavailable,
                DocumentCaptureBlocker::DocumentEpochUnavailable,
                DocumentCaptureBlocker::FiniteTimerDeadline,
                DocumentCaptureBlocker::ActiveFiniteSource,
                DocumentCaptureBlocker::UnsupportedSource,
            ],
        ),
    ];

    for (facts, expected) in cases {
        assert_eq!(facts.blockers(), expected);
    }
}

#[test]
fn surface_validation_rejects_nonfinite_and_out_of_bounds_values() {
    assert!(surface().validate().is_ok());
    assert_eq!(
        surface_of(0, 801, 1.0),
        Err(DocumentCaptureSurfaceError::CaptureRectOutsideViewport)
    );
    assert_eq!(
        surface_of(-1, 800, 1.0),
        Err(DocumentCaptureSurfaceError::InvalidCaptureRect)
    );
    assert_eq!(
        surface_of(0, 800, f32::NAN),
        Err(DocumentCaptureSurfaceError::InvalidDevicePixelScale)
    );
}

fn empty_producers() -> DocumentProducerSnapshot {
    DocumentProducerSnapshot { enqueued: 4, completed: 4, pending: 0 }
}

#[test]
fn an_empty_viewport_is_no_surface() {
    for (width, height) in [(0, 600), (800, 0), (-1, 600)] {
        assert_eq!(
            DocumentCaptureSurfaceFingerprint::new(
                DeviceIndependentIntSize { width, height },
                DeviceIndependentIntRect { min_x: 0, min_y: 0, max_x: 1, max_y: 1 },
                1.0_f32.to_bits(),
            ),
            Err(DocumentCaptureSurfaceError::EmptyViewport)
        );
    }
}

#[test]
fn transitions_that_have_ended_or_make_no_sense_have_no_deadline() {
    let now = DocumentTime::from_nanos(0);
    for state in [
        DocumentCssAnimationState::Finished,
        DocumentCssAnimationState::Canceled,
        DocumentCssAnimationState::Paused(0),
    ] {
        assert_eq!(
            css_transition(1, state, 0.0, 1.0, 0.0, 0.0, now).disposition(),
            DocumentSettlementSourceDisposition::Inert
        );
    }
    for (start_time, duration, delay) in
        [(f64::INFINITY, 1.0, 0.0), (0.0, f64::NAN, 0.0), (0.0, 1.0, f64::NAN), (0.0, -1.0, 0.0)]
    {
        assert_eq!(
            css_transition(
                1,
                DocumentCssAnimationState::Running,
                start_time,
                duration,
                delay,
                0.0,
                now
            )
            .disposition(),
            DocumentSettlementSourceDisposition::Unsupported(
                DocumentUnsupportedSourceReason::InvalidCssTiming
            )
        );
    }
}

#[test]
fn iterations_that_run_backwards_are_unsupported() {
    assert_eq!(
        animation(
            DocumentCssAnimationState::Running,
            DocumentCssIterationState::Finite {
                current_bits: 2.0f64.to_bits(),
                max_bits: 1.0f64.to_bits(),
            },
            0.0,
            1.0,
            0.0
        ),
        DocumentSettlementSourceDisposition::Unsupported(
            DocumentUnsupportedSourceReason::InvalidCssTiming
        )
    );
}

fn canvas(
    node_id: usize,
    image_key: Option<DocumentCanvasImageKey>,
    generation: Option<u64>,
    status: DocumentCanvasCaptureStatus,
) -> DocumentSettlementSource {
    DocumentSettlementSource::canvas_2d_internal(
        TEST_PIPELINE_ID,
        node_id,
        3,
        image_key,
        320,
        200,
        generation,
        status,
    )
}

fn binding_error(sources: Vec<DocumentSettlementSource>) -> DocumentCanvasCaptureBindingError {
    DocumentSettlementSourceSnapshot::new_internal(DocumentSettlementSourceEpoch::new(1), sources)
        .canvas_capture_binding()
        .expect_err("the sources bind no generation")
}

#[test]
fn each_fault_of_a_canvas_source_has_its_error() {
    let key = Some(DocumentCanvasImageKey::new_internal(4, 9));
    let ready = DocumentCanvasCaptureStatus::Ready;
    assert_eq!(
        binding_error(vec![canvas(
            1,
            key,
            Some(1),
            DocumentCanvasCaptureStatus::RetentionDisabled
        )]),
        DocumentCanvasCaptureBindingError::SourceNotReady
    );
    let mut without_key = canvas(1, None, Some(1), ready);
    without_key.disposition = DocumentSettlementSourceDisposition::Inert;
    assert_eq!(
        binding_error(vec![without_key]),
        DocumentCanvasCaptureBindingError::MissingImageKey
    );
    let mut without_generation = canvas(1, key, None, ready);
    without_generation.disposition = DocumentSettlementSourceDisposition::Inert;
    assert_eq!(
        binding_error(vec![without_generation]),
        DocumentCanvasCaptureBindingError::MissingGeneration
    );
    assert_eq!(
        binding_error(vec![canvas(1, key, Some(1), ready), canvas(2, key, Some(1), ready)]),
        DocumentCanvasCaptureBindingError::DuplicateImageKey
    );
    let mut malformed = canvas(1, key, Some(1), ready);
    malformed.state = DocumentSettlementSourceState::UnsupportedDomNode;
    assert_eq!(
        binding_error(vec![malformed]),
        DocumentCanvasCaptureBindingError::MalformedSource
    );
    let none = DocumentSettlementSourceSnapshot::new_internal(
        DocumentSettlementSourceEpoch::new(1),
        Vec::new(),
    );
    assert_eq!(none.canvas_capture_binding(), Ok(None));
    assert_eq!(none.source_epoch().get(), 1);
}

#[test]
fn remaining_work_tells_the_kinds_apart() {
    let of = |sources: Vec<DocumentSettlementSource>| {
        DocumentSettlementSourceSnapshot::new_internal(
            DocumentSettlementSourceEpoch::new(1),
            sources,
        )
    };
    let deadline = DocumentTime::from_nanos(20);
    let timeout =
        DocumentSettlementSource::timer_internal(TEST_PIPELINE_ID, 1, 2, 3, deadline, false);
    let interval =
        DocumentSettlementSource::timer_internal(TEST_PIPELINE_ID, 4, 5, 6, deadline, true);
    let unsupported = DocumentSettlementSource::unsupported_timer_internal(
        TEST_PIPELINE_ID,
        7,
        8,
        deadline,
        DocumentUnsupportedSourceReason::NonWindowTimer,
    );
    assert_eq!(of(vec![timeout]).remaining_work(), (true, false, false));
    assert_eq!(of(vec![interval]).remaining_work(), (false, true, false));
    assert_eq!(of(vec![unsupported]).remaining_work(), (false, false, true));
    let idle = DocumentSettlementSource::animation_frame_internal(TEST_PIPELINE_ID, 1, false);
    let settled = of(vec![idle]);
    assert_eq!(settled.remaining_work(), (false, false, false));
    assert!(settled.is_settled());
}

#[test]
fn snapshots_are_the_same_in_whatever_order_sources_come() {
    let frame = |id: u32| {
        DocumentSettlementSource::animation_frame_internal(TEST_PIPELINE_ID, id, id % 2 == 0)
    };
    let of = |ids: [u32; 4]| {
        DocumentSettlementSourceSnapshot::new_internal(
            DocumentSettlementSourceEpoch::new(1),
            ids.map(frame).to_vec(),
        )
    };
    assert_eq!(of([1, 2, 3, 4]), of([4, 2, 1, 3]));
    assert_ne!(of([1, 2, 3, 4]), of([1, 2, 3, 3]));
}

#[test]
fn an_invalidated_revision_needs_two_fresh_checkpoints_again() {
    let checkpoint = |number: u64| DocumentProducerCheckpoint(number);
    let mut fence = DocumentCaptureQuietFence::new();
    assert!(!fence.observe(checkpoint(1), 7_u64, true));
    assert!(fence.observe(checkpoint(2), 7_u64, true));
    assert!(fence.is_qualified(&7));
    assert!(!fence.is_qualified(&8));
    fence.invalidate_revision();
    assert!(!fence.is_qualified(&7));
    assert!(!fence.observe(checkpoint(2), 7_u64, true));
    assert!(!fence.observe(checkpoint(3), 7_u64, true));
    assert!(fence.observe(checkpoint(4), 7_u64, true));
}

#[test]
fn an_observation_gives_every_reason_that_it_holds() {
    let target = DocumentTimeControlTarget {
        webview_id: WebViewId(1),
        event_loop_id: ScriptEventLoopId(2),
        webview_epoch: Epoch(3),
        pipelines: vec![TEST_PIPELINE_ID],
        fully_active_pipelines: vec![TEST_PIPELINE_ID],
    };
    let quiet = DocumentTimeProducerObservation {
        fence_id: DocumentProducerFenceId(1),
        checkpoint: DocumentProducerCheckpoint(2),
        snapshot: empty_producers(),
        stability: DocumentProducerStability::StableEmpty,
    };
    let ledger = DocumentExecutionLedger::new(DocumentExecutionLimits {
        ordinary_tasks: 1,
        microtasks: 0,
        rendering_opportunities: 1,
        mutations: 1,
        virtual_span: None,
    });
    let settled = DocumentSettlementSourceSnapshot::new_internal(
        DocumentSettlementSourceEpoch::new(1),
        Vec::new(),
    );
    assert_eq!(
        capture_blockers_internal(
            &target,
            &surface(),
            0,
            false,
            quiet,
            &[],
            Some(ledger.observation()),
            false,
            &settled,
            true
        ),
        Vec::new()
    );
    let mut ended = ledger;
    assert!(ended.begin_microtask().is_err());
    let busy = DocumentTimeProducerObservation {
        snapshot: DocumentProducerSnapshot { enqueued: 5, completed: 4, pending: 1 },
        ..quiet
    };
    let mut bad_surface = surface();
    bad_surface.capture_rect.max_x = 900;
    assert_eq!(
        capture_blockers_internal(
            &target,
            &bad_surface,
            2,
            true,
            busy,
            &[],
            Some(ended.observation()),
            true,
            &settled,
            false
        ),
        vec![
            DocumentCaptureBlocker::PendingInput,
            DocumentCaptureBlocker::InputBatchSaturated,
            DocumentCaptureBlocker::ProducerNotStableEmpty,
            DocumentCaptureBlocker::QuietCheckpointsUnqualified,
            DocumentCaptureBlocker::ExecutionTerminated,
            DocumentCaptureBlocker::FiniteTimerDeadline,
            DocumentCaptureBlocker::InvalidSurface,
        ]
    );
}

#[test]
fn epochs_compare_as_their_numbers() {
    let early = DocumentSettlementSourceEpoch::new(3);
    let late = DocumentSettlementSourceEpoch::new(40);
    assert_eq!(early.get(), 3);
    assert!(early < late);
    assert!(!(late < early));
    assert_eq!(early, DocumentSettlementSourceEpoch::new(3));
    assert_eq!(late.max(early), late);
}

#[test]
fn image_keys_compare_by_namespace_first() {
    let first = DocumentCanvasImageKey::new_internal(1, 9);
    let second = DocumentCanvasImageKey::new_internal(2, 3);
    let third = DocumentCanvasImageKey::new_internal(2, 4);
    assert_eq!((first.namespace(), first.key()), (1, 9));
    assert!(first < second && second < third && first < third);
    assert!(!(second < first) && !(third < second));
    assert_eq!(third.min(second), second);
}

#[test]
fn asking_for_a_revision_does_not_advance_the_fence() {
    let first = DocumentProducerCheckpoint::zero().checked_next().unwrap();
    let second = first.checked_next().unwrap();
    let mut fence = DocumentCaptureQuietFence::default();
    let revision = (DocumentTime::from_nanos(5), 1_u64);
    let other = (DocumentTime::from_nanos(6), 1_u64);
    assert!(!fence.observe(first, revision, true));
    assert!(!fence.is_qualified(&revision));
    assert!(!fence.is_qualified(&revision));
    assert!(fence.observe(second, revision, true));
    assert!(fence.is_qualified(&revision));
    assert!(!fence.is_qualified(&other));
    assert!(fence.observe(second, revision, true));
    assert!(!fence.observe(second, revision, false));
    assert!(!fence.is_qualified(&revision));
    assert!(!fence.observe(second, revision, true));
    assert!(!fence.observe(second, other, true));
    assert!(!fence.is_qualified(&revision));
}
