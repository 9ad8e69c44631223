//! The sources that may still change a document, each with its identity, its exact state, and how
//! it settles.
use crate::clock::DocumentTime;
use crate::dyadic::{
    at_most, exact_difference_ceiling_nanos, is_finite, nanoseconds_until, value_units,
};
use crate::ids::PipelineId;
use std::cmp::Ordering;
use vstd::prelude::*;
use vstd::std_specs::cmp::PartialOrdIs;

verus! {

/// A class of live objects whose presence is part of capture preparation.
#[derive(Clone, Copy, Debug, PartialEq, Eq, PartialOrd, Ord, Hash, Structural)]
pub enum DocumentTrackedSourceKind {
    WebSocket,
    EventSource,
    BroadcastChannel,
    MessagePort,
    EmbedderControl,
    MediaSessionActionHandler,
    DedicatedWorker,
    Worklet,
    IndexedDb,
    GpuDevice,
    StorageEventListener,
    CookieStorePending,
    ServiceWorkerPending,
    ServiceWorkerMessaging,
    WebXr,
    StorageManager,
    Bluetooth,
    RtcPeerConnection,
    MediaStream,
    WebAudio,
    Notification,
    WebGpuApi,
    OffscreenCanvas,
}

impl DocumentTrackedSourceKind {
    pub open spec fn spec_rank(self) -> u128 {
        match self {
            DocumentTrackedSourceKind::WebSocket => 0,
            DocumentTrackedSourceKind::EventSource => 1,
            DocumentTrackedSourceKind::BroadcastChannel => 2,
            DocumentTrackedSourceKind::MessagePort => 3,
            DocumentTrackedSourceKind::EmbedderControl => 4,
            DocumentTrackedSourceKind::MediaSessionActionHandler => 5,
            DocumentTrackedSourceKind::DedicatedWorker => 6,
            DocumentTrackedSourceKind::Worklet => 7,
            DocumentTrackedSourceKind::IndexedDb => 8,
            DocumentTrackedSourceKind::GpuDevice => 9,
            DocumentTrackedSourceKind::StorageEventListener => 10,
            DocumentTrackedSourceKind::CookieStorePending => 11,
            DocumentTrackedSourceKind::ServiceWorkerPending => 12,
            DocumentTrackedSourceKind::ServiceWorkerMessaging => 13,
            DocumentTrackedSourceKind::WebXr => 14,
            DocumentTrackedSourceKind::StorageManager => 15,
            DocumentTrackedSourceKind::Bluetooth => 16,
            DocumentTrackedSourceKind::RtcPeerConnection => 17,
            DocumentTrackedSourceKind::MediaStream => 18,
            DocumentTrackedSourceKind::WebAudio => 19,
            DocumentTrackedSourceKind::Notification => 20,
            DocumentTrackedSourceKind::WebGpuApi => 21,
            DocumentTrackedSourceKind::OffscreenCanvas => 22,
        }
    }

    /// The place among the variants.
    #[verifier::when_used_as_spec(spec_rank)]
    pub fn rank(self) -> (rank: u128)
        ensures
            rank == self.spec_rank(),
    {
        match self {
            DocumentTrackedSourceKind::WebSocket => 0,
            DocumentTrackedSourceKind::EventSource => 1,
            DocumentTrackedSourceKind::BroadcastChannel => 2,
            DocumentTrackedSourceKind::MessagePort => 3,
            DocumentTrackedSourceKind::EmbedderControl => 4,
            DocumentTrackedSourceKind::MediaSessionActionHandler => 5,
            DocumentTrackedSourceKind::DedicatedWorker => 6,
            DocumentTrackedSourceKind::Worklet => 7,
            DocumentTrackedSourceKind::IndexedDb => 8,
            DocumentTrackedSourceKind::GpuDevice => 9,
            DocumentTrackedSourceKind::StorageEventListener => 10,
            DocumentTrackedSourceKind::CookieStorePending => 11,
            DocumentTrackedSourceKind::ServiceWorkerPending => 12,
            DocumentTrackedSourceKind::ServiceWorkerMessaging => 13,
            DocumentTrackedSourceKind::WebXr => 14,
            DocumentTrackedSourceKind::StorageManager => 15,
            DocumentTrackedSourceKind::Bluetooth => 16,
            DocumentTrackedSourceKind::RtcPeerConnection => 17,
            DocumentTrackedSourceKind::MediaStream => 18,
            DocumentTrackedSourceKind::WebAudio => 19,
            DocumentTrackedSourceKind::Notification => 20,
            DocumentTrackedSourceKind::WebGpuApi => 21,
            DocumentTrackedSourceKind::OffscreenCanvas => 22,
        }
    }
}

/// Why a source can go on producing work without a last opportunity.
#[derive(Clone, Copy, Debug, PartialEq, Eq, PartialOrd, Ord, Hash, Structural)]
pub enum DocumentOpenEndedSourceReason {
    InfiniteCssAnimation,
    Interval,
    WebSocket,
    EventSource,
    BroadcastChannel,
    MessagePort,
    EmbedderControl,
    MediaSessionActionHandler,
    StorageEventListener,
}

impl DocumentOpenEndedSourceReason {
    pub open spec fn spec_rank(self) -> u128 {
        match self {
            DocumentOpenEndedSourceReason::InfiniteCssAnimation => 0,
            DocumentOpenEndedSourceReason::Interval => 1,
            DocumentOpenEndedSourceReason::WebSocket => 2,
            DocumentOpenEndedSourceReason::EventSource => 3,
            DocumentOpenEndedSourceReason::BroadcastChannel => 4,
            DocumentOpenEndedSourceReason::MessagePort => 5,
            DocumentOpenEndedSourceReason::EmbedderControl => 6,
            DocumentOpenEndedSourceReason::MediaSessionActionHandler => 7,
            DocumentOpenEndedSourceReason::StorageEventListener => 8,
        }
    }

    /// The place among the variants.
    #[verifier::when_used_as_spec(spec_rank)]
    pub fn rank(self) -> (rank: u128)
        ensures
            rank == self.spec_rank(),
    {
        match self {
            DocumentOpenEndedSourceReason::InfiniteCssAnimation => 0,
            DocumentOpenEndedSourceReason::Interval => 1,
            DocumentOpenEndedSourceReason::WebSocket => 2,
            DocumentOpenEndedSourceReason::EventSource => 3,
            DocumentOpenEndedSourceReason::BroadcastChannel => 4,
            DocumentOpenEndedSourceReason::MessagePort => 5,
            DocumentOpenEndedSourceReason::EmbedderControl => 6,
            DocumentOpenEndedSourceReason::MediaSessionActionHandler => 7,
            DocumentOpenEndedSourceReason::StorageEventListener => 8,
        }
    }
}

/// Why it cannot be shown how a source settles.
#[derive(Clone, Copy, Debug, PartialEq, Eq, PartialOrd, Ord, Hash, Structural)]
pub enum DocumentUnsupportedSourceReason {
    InvalidCssTiming,
    NonWindowTimer,
    NonDomTimerCallback,
    MediaElement,
    Canvas2d,
    BitmapRendererCanvas,
    WebGlCanvas,
    WebGpuCanvas,
    OffscreenCanvas,
    DedicatedWorker,
    Worklet,
    IndexedDb,
    GpuDevice,
    CookieStorePending,
    ServiceWorkerPending,
    ServiceWorkerMessaging,
    WebXr,
    StorageManager,
    Bluetooth,
    RtcPeerConnection,
    MediaStream,
    WebAudio,
    Notification,
    WebGpuApi,
}

impl DocumentUnsupportedSourceReason {
    pub open spec fn spec_rank(self) -> u128 {
        match self {
            DocumentUnsupportedSourceReason::InvalidCssTiming => 0,
            DocumentUnsupportedSourceReason::NonWindowTimer => 1,
            DocumentUnsupportedSourceReason::NonDomTimerCallback => 2,
            DocumentUnsupportedSourceReason::MediaElement => 3,
            DocumentUnsupportedSourceReason::Canvas2d => 4,
            DocumentUnsupportedSourceReason::BitmapRendererCanvas => 5,
            DocumentUnsupportedSourceReason::WebGlCanvas => 6,
            DocumentUnsupportedSourceReason::WebGpuCanvas => 7,
            DocumentUnsupportedSourceReason::OffscreenCanvas => 8,
            DocumentUnsupportedSourceReason::DedicatedWorker => 9,
            DocumentUnsupportedSourceReason::Worklet => 10,
            DocumentUnsupportedSourceReason::IndexedDb => 11,
            DocumentUnsupportedSourceReason::GpuDevice => 12,
            DocumentUnsupportedSourceReason::CookieStorePending => 13,
            DocumentUnsupportedSourceReason::ServiceWorkerPending => 14,
            DocumentUnsupportedSourceReason::ServiceWorkerMessaging => 15,
            DocumentUnsupportedSourceReason::WebXr => 16,
            DocumentUnsupportedSourceReason::StorageManager => 17,
            DocumentUnsupportedSourceReason::Bluetooth => 18,
            DocumentUnsupportedSourceReason::RtcPeerConnection => 19,
            DocumentUnsupportedSourceReason::MediaStream => 20,
            DocumentUnsupportedSourceReason::WebAudio => 21,
            DocumentUnsupportedSourceReason::Notification => 22,
            DocumentUnsupportedSourceReason::WebGpuApi => 23,
        }
    }

    /// The place among the variants.
    #[verifier::when_used_as_spec(spec_rank)]
    pub fn rank(self) -> (rank: u128)
        ensures
            rank == self.spec_rank(),
    {
        match self {
            DocumentUnsupportedSourceReason::InvalidCssTiming => 0,
            DocumentUnsupportedSourceReason::NonWindowTimer => 1,
            DocumentUnsupportedSourceReason::NonDomTimerCallback => 2,
            DocumentUnsupportedSourceReason::MediaElement => 3,
            DocumentUnsupportedSourceReason::Canvas2d => 4,
            DocumentUnsupportedSourceReason::BitmapRendererCanvas => 5,
            DocumentUnsupportedSourceReason::WebGlCanvas => 6,
            DocumentUnsupportedSourceReason::WebGpuCanvas => 7,
            DocumentUnsupportedSourceReason::OffscreenCanvas => 8,
            DocumentUnsupportedSourceReason::DedicatedWorker => 9,
            DocumentUnsupportedSourceReason::Worklet => 10,
            DocumentUnsupportedSourceReason::IndexedDb => 11,
            DocumentUnsupportedSourceReason::GpuDevice => 12,
            DocumentUnsupportedSourceReason::CookieStorePending => 13,
            DocumentUnsupportedSourceReason::ServiceWorkerPending => 14,
            DocumentUnsupportedSourceReason::ServiceWorkerMessaging => 15,
            DocumentUnsupportedSourceReason::WebXr => 16,
            DocumentUnsupportedSourceReason::StorageManager => 17,
            DocumentUnsupportedSourceReason::Bluetooth => 18,
            DocumentUnsupportedSourceReason::RtcPeerConnection => 19,
            DocumentUnsupportedSourceReason::MediaStream => 20,
            DocumentUnsupportedSourceReason::WebAudio => 21,
            DocumentUnsupportedSourceReason::Notification => 22,
            DocumentUnsupportedSourceReason::WebGpuApi => 23,
        }
    }
}

/// How a canvas context stands to its retained state.
#[derive(Clone, Copy, Debug, PartialEq, Eq, PartialOrd, Ord, Hash, Structural)]
pub enum DocumentCanvasCaptureStatus {
    Ready,
    RetentionDisabled,
    MissingCanvas,
    MissingImageKey,
    ImageKeyMismatch,
    SizeMismatch,
    RetentionBudgetExceeded,
    UnsupportedTranscript,
    ObservationUnavailable,
    MixedGeneration,
}

impl DocumentCanvasCaptureStatus {
    pub open spec fn spec_rank(self) -> u128 {
        match self {
            DocumentCanvasCaptureStatus::Ready => 0,
            DocumentCanvasCaptureStatus::RetentionDisabled => 1,
            DocumentCanvasCaptureStatus::MissingCanvas => 2,
            DocumentCanvasCaptureStatus::MissingImageKey => 3,
            DocumentCanvasCaptureStatus::ImageKeyMismatch => 4,
            DocumentCanvasCaptureStatus::SizeMismatch => 5,
            DocumentCanvasCaptureStatus::RetentionBudgetExceeded => 6,
            DocumentCanvasCaptureStatus::UnsupportedTranscript => 7,
            DocumentCanvasCaptureStatus::ObservationUnavailable => 8,
            DocumentCanvasCaptureStatus::MixedGeneration => 9,
        }
    }

    /// The place among the variants.
    #[verifier::when_used_as_spec(spec_rank)]
    pub fn rank(self) -> (rank: u128)
        ensures
            rank == self.spec_rank(),
    {
        match self {
            DocumentCanvasCaptureStatus::Ready => 0,
            DocumentCanvasCaptureStatus::RetentionDisabled => 1,
            DocumentCanvasCaptureStatus::MissingCanvas => 2,
            DocumentCanvasCaptureStatus::MissingImageKey => 3,
            DocumentCanvasCaptureStatus::ImageKeyMismatch => 4,
            DocumentCanvasCaptureStatus::SizeMismatch => 5,
            DocumentCanvasCaptureStatus::RetentionBudgetExceeded => 6,
            DocumentCanvasCaptureStatus::UnsupportedTranscript => 7,
            DocumentCanvasCaptureStatus::ObservationUnavailable => 8,
            DocumentCanvasCaptureStatus::MixedGeneration => 9,
        }
    }
}

/// Where a CSS animation or transition stands.
#[derive(Clone, Copy, Debug, PartialEq, Eq, PartialOrd, Ord, Hash, Structural)]
pub enum DocumentCssAnimationState {
    /// Created, or in its delay.
    Pending,
    /// Advancing with the timeline.
    Running,
    /// Held at a progress, given by the bits of the number.
    Paused(u64),
    /// Completed.
    Finished,
    /// Canceled.
    Canceled,
}

/// The iteration of a CSS animation; the values are given by the bits of the numbers.
#[derive(Clone, Copy, Debug, PartialEq, Eq, PartialOrd, Ord, Hash, Structural)]
pub enum DocumentCssIterationState {
    Finite { current_bits: u64, max_bits: u64 },
    Infinite { current_bits: u64 },
}

/// The identity of a canvas image.
#[derive(Clone, Copy, Debug, PartialEq, Eq, Ord, Hash, Structural)]
pub struct DocumentCanvasImageKey {
    pub namespace: u32,
    pub key: u32,
}

impl PartialOrd for DocumentCanvasImageKey {
    fn partial_cmp(&self, other: &Self) -> (order: Option<Ordering>) {
        if self.namespace < other.namespace || (self.namespace == other.namespace && self.key
            < other.key) {
            Some(Ordering::Less)
        } else if self.namespace > other.namespace || (self.namespace == other.namespace && self.key
            > other.key) {
            Some(Ordering::Greater)
        } else {
            Some(Ordering::Equal)
        }
    }
}

impl vstd::std_specs::cmp::PartialOrdSpecImpl for DocumentCanvasImageKey {
    open spec fn obeys_partial_cmp_spec() -> bool {
        true
    }

    open spec fn partial_cmp_spec(&self, other: &Self) -> Option<Ordering> {
        if self.namespace < other.namespace || (self.namespace == other.namespace && self.key
            < other.key) {
            Some(Ordering::Less)
        } else if self.namespace > other.namespace || (self.namespace == other.namespace && self.key
            > other.key) {
            Some(Ordering::Greater)
        } else {
            Some(Ordering::Equal)
        }
    }
}

impl DocumentCanvasImageKey {
    pub fn new_internal(namespace: u32, key: u32) -> (image_key: Self)
        ensures
            image_key == (DocumentCanvasImageKey { namespace, key }),
    {
        DocumentCanvasImageKey { namespace, key }
    }

    pub fn namespace(self) -> (namespace: u32)
        ensures
            namespace == self.namespace,
    {
        self.namespace
    }

    pub fn key(self) -> (key: u32)
        ensures
            key == self.key,
    {
        self.key
    }
}

/// Image keys compare by their namespaces first and by their keys then.
pub proof fn law_image_keys_compare_by_namespace_first(
    left: DocumentCanvasImageKey,
    right: DocumentCanvasImageKey,
)
    ensures
        left.is_lt(&right) <==> left.namespace < right.namespace || (left.namespace
            == right.namespace && left.key < right.key),
        left.is_lt(&right) || left == right || right.is_lt(&left),
{
}

/// How a source settles.
#[derive(Clone, Copy, Debug, PartialEq, Eq, PartialOrd, Ord, Hash)]
pub enum DocumentSettlementSourceDisposition {
    /// There is nothing left to do.
    Inert,
    /// There is work at one exact time.
    FiniteDeadline(DocumentTime),
    /// There is work at the next rendering opportunity.
    FiniteRenderingOpportunity,
    /// There can be work forever.
    OpenEnded(DocumentOpenEndedSourceReason),
    /// It cannot be shown.
    Unsupported(DocumentUnsupportedSourceReason),
}

/// Which source it is.
#[derive(Clone, Debug, PartialEq, Eq, PartialOrd, Ord, Hash)]
pub enum DocumentSettlementSourceIdentity {
    CssAnimation {
        pipeline_id: PipelineId,
        node_id: usize,
        pseudo_element: Option<u16>,
        slot: u64,
        name: String,
    },
    CssTransition {
        pipeline_id: PipelineId,
        node_id: usize,
        pseudo_element: Option<u16>,
        slot: u64,
        property: String,
    },
    Timer {
        pipeline_id: PipelineId,
        scheduler_handle: i32,
        dom_handle: Option<i32>,
        creation_sequence: u64,
    },
    AnimationFrame { pipeline_id: PipelineId, callback_id: u32 },
    TrackedPresence { pipeline_id: PipelineId, kind: DocumentTrackedSourceKind },
    Canvas2d { pipeline_id: PipelineId, node_id: usize, canvas_id: u64 },
    UnsupportedDomNode {
        pipeline_id: PipelineId,
        node_id: usize,
        reason: DocumentUnsupportedSourceReason,
    },
}

/// The exact state of a source.
#[derive(Clone, Copy, Debug, PartialEq, Eq, PartialOrd, Ord, Hash)]
pub enum DocumentSettlementSourceState {
    CssAnimation {
        state: DocumentCssAnimationState,
        iteration: DocumentCssIterationState,
        started_at_bits: u64,
        duration_bits: u64,
        delay_bits: u64,
        timeline_now_bits: u64,
    },
    CssTransition {
        state: DocumentCssAnimationState,
        start_time_bits: u64,
        duration_bits: u64,
        delay_bits: u64,
        timeline_now_bits: u64,
    },
    Timer { deadline: DocumentTime, is_interval: bool },
    AnimationFrame { active: bool },
    TrackedPresence { blocking_count: u64 },
    Canvas2d {
        image_key: Option<DocumentCanvasImageKey>,
        width: u32,
        height: u32,
        registry_generation: Option<u64>,
        status: DocumentCanvasCaptureStatus,
    },
    UnsupportedDomNode,
}

/// A source.
#[derive(Clone, Debug, PartialEq, Eq, PartialOrd, Ord, Hash)]
pub struct DocumentSettlementSource {
    pub identity: DocumentSettlementSourceIdentity,
    pub state: DocumentSettlementSourceState,
    pub disposition: DocumentSettlementSourceDisposition,
}

/// The document time at which a timeline that now reads `timeline` reaches `terminal`, both in
/// seconds; none where there is no such time.
pub open spec fn finite_deadline(document_now: DocumentTime, timeline: u64, terminal: u64) -> Option<
    DocumentTime,
> {
    match nanoseconds_until(timeline, terminal) {
        Some(nanos) => if document_now.0 + nanos <= u128::MAX {
            Some(DocumentTime((document_now.0 + nanos) as u128))
        } else {
            None
        },
        None => None,
    }
}

/// Computes [`finite_deadline`].
pub fn finite_deadline_from_seconds(
    document_now: DocumentTime,
    timeline_now: u64,
    terminal_time: u64,
) -> (deadline: Option<DocumentTime>)
    ensures
        deadline == finite_deadline(document_now, timeline_now, terminal_time),
{
    match exact_difference_ceiling_nanos(timeline_now, terminal_time) {
        Some(nanos) => match document_now.0.checked_add(nanos) {
            Some(total) => Some(DocumentTime(total)),
            None => None,
        },
        None => None,
    }
}

/// A source with a deadline, or one with timing that makes no sense.
pub open spec fn by_deadline(deadline: Option<DocumentTime>) -> DocumentSettlementSourceDisposition {
    match deadline {
        Some(time) => DocumentSettlementSourceDisposition::FiniteDeadline(time),
        None => DocumentSettlementSourceDisposition::Unsupported(
            DocumentUnsupportedSourceReason::InvalidCssTiming,
        ),
    }
}

fn settle_by_deadline(deadline: Option<DocumentTime>) -> (disposition:
    DocumentSettlementSourceDisposition)
    ensures
        disposition == by_deadline(deadline),
{
    match deadline {
        Some(time) => DocumentSettlementSourceDisposition::FiniteDeadline(time),
        None => DocumentSettlementSourceDisposition::Unsupported(
            DocumentUnsupportedSourceReason::InvalidCssTiming,
        ),
    }
}

/// The timing of a finite CSS animation makes sense: every number is finite, the duration and the
/// current iteration are not negative, and the iterations do not run backwards.
pub open spec fn animation_timing_valid(
    started_at: u64,
    duration: u64,
    delay: u64,
    current: u64,
    max: u64,
) -> bool {
    &&& is_finite(started_at)
    &&& is_finite(duration)
    &&& is_finite(delay)
    &&& is_finite(current)
    &&& is_finite(max)
    &&& 0 <= value_units(duration)
    &&& 0 <= value_units(current)
    &&& value_units(current) <= value_units(max)
}

/// How a CSS animation settles. `terminal` is the number at which it ends: the duration times the
/// iterations left, added to the start, rounded once.
pub open spec fn animation_disposition(
    state: DocumentCssAnimationState,
    iteration: DocumentCssIterationState,
    started_at: u64,
    duration: u64,
    delay: u64,
    terminal: u64,
    timeline_now: u64,
    document_now: DocumentTime,
) -> DocumentSettlementSourceDisposition {
    match (state, iteration) {
        (DocumentCssAnimationState::Finished, _) => DocumentSettlementSourceDisposition::Inert,
        (DocumentCssAnimationState::Canceled, _) => DocumentSettlementSourceDisposition::Inert,
        (DocumentCssAnimationState::Paused(_), _) => DocumentSettlementSourceDisposition::Inert,
        (
            _,
            DocumentCssIterationState::Infinite { .. },
        ) => DocumentSettlementSourceDisposition::OpenEnded(
            DocumentOpenEndedSourceReason::InfiniteCssAnimation,
        ),
        (_, DocumentCssIterationState::Finite { current_bits, max_bits }) => by_deadline(
            if animation_timing_valid(started_at, duration, delay, current_bits, max_bits)
                && is_finite(terminal) {
                finite_deadline(document_now, timeline_now, terminal)
            } else {
                None
            },
        ),
    }
}

/// Computes [`animation_disposition`].
pub fn classify_css_animation(
    state: DocumentCssAnimationState,
    iteration: DocumentCssIterationState,
    started_at: u64,
    duration: u64,
    delay: u64,
    terminal: u64,
    timeline_now: u64,
    document_now: DocumentTime,
) -> (disposition: DocumentSettlementSourceDisposition)
    ensures
        disposition == animation_disposition(
            state,
            iteration,
            started_at,
            duration,
            delay,
            terminal,
            timeline_now,
            document_now,
        ),
{
    proof {
        crate::dyadic::lemma_zero();
    }
    match state {
        DocumentCssAnimationState::Finished => {
            return DocumentSettlementSourceDisposition::Inert;
        },
        DocumentCssAnimationState::Canceled => {
            return DocumentSettlementSourceDisposition::Inert;
        },
        DocumentCssAnimationState::Paused(_) => {
            return DocumentSettlementSourceDisposition::Inert;
        },
        _ => {},
    }
    match iteration {
        DocumentCssIterationState::Infinite { current_bits: _ } => {
            DocumentSettlementSourceDisposition::OpenEnded(
                DocumentOpenEndedSourceReason::InfiniteCssAnimation,
            )
        },
        DocumentCssIterationState::Finite { current_bits, max_bits } => {
            if !is_finite(started_at) || !is_finite(duration) || !is_finite(delay) || !is_finite(
                current_bits,
            ) || !is_finite(max_bits) || !at_most(0, duration) || !at_most(0, current_bits)
                || !at_most(current_bits, max_bits) || !is_finite(terminal) {
                return settle_by_deadline(None);
            }
            settle_by_deadline(finite_deadline_from_seconds(document_now, timeline_now, terminal))
        },
    }
}

/// How a CSS transition settles. `terminal` is the number at which it ends: the start plus the
/// duration.
pub open spec fn transition_disposition(
    state: DocumentCssAnimationState,
    start_time: u64,
    duration: u64,
    delay: u64,
    terminal: u64,
    timeline_now: u64,
    document_now: DocumentTime,
) -> DocumentSettlementSourceDisposition {
    match state {
        DocumentCssAnimationState::Finished => DocumentSettlementSourceDisposition::Inert,
        DocumentCssAnimationState::Canceled => DocumentSettlementSourceDisposition::Inert,
        DocumentCssAnimationState::Paused(_) => DocumentSettlementSourceDisposition::Inert,
        _ => by_deadline(
            if is_finite(start_time) && is_finite(duration) && is_finite(delay) && 0
                <= value_units(duration) {
                finite_deadline(document_now, timeline_now, terminal)
            } else {
                None
            },
        ),
    }
}

/// Computes [`transition_disposition`].
pub fn classify_css_transition(
    state: DocumentCssAnimationState,
    start_time: u64,
    duration: u64,
    delay: u64,
    terminal: u64,
    timeline_now: u64,
    document_now: DocumentTime,
) -> (disposition: DocumentSettlementSourceDisposition)
    ensures
        disposition == transition_disposition(
            state,
            start_time,
            duration,
            delay,
            terminal,
            timeline_now,
            document_now,
        ),
{
    proof {
        crate::dyadic::lemma_zero();
    }
    match state {
        DocumentCssAnimationState::Finished => {
            return DocumentSettlementSourceDisposition::Inert;
        },
        DocumentCssAnimationState::Canceled => {
            return DocumentSettlementSourceDisposition::Inert;
        },
        DocumentCssAnimationState::Paused(_) => {
            return DocumentSettlementSourceDisposition::Inert;
        },
        _ => {},
    }
    if !is_finite(start_time) || !is_finite(duration) || !is_finite(delay) || !at_most(
        0,
        duration,
    ) {
        return settle_by_deadline(None);
    }
    settle_by_deadline(finite_deadline_from_seconds(document_now, timeline_now, terminal))
}

impl DocumentTrackedSourceKind {
    pub open spec fn spec_presence(self) -> DocumentSettlementSourceDisposition {
        match self {
            DocumentTrackedSourceKind::WebSocket => DocumentSettlementSourceDisposition::OpenEnded(
                DocumentOpenEndedSourceReason::WebSocket,
            ),
            DocumentTrackedSourceKind::EventSource => DocumentSettlementSourceDisposition::OpenEnded(
                DocumentOpenEndedSourceReason::EventSource,
            ),
            DocumentTrackedSourceKind::BroadcastChannel => DocumentSettlementSourceDisposition::OpenEnded(
                DocumentOpenEndedSourceReason::BroadcastChannel,
            ),
            DocumentTrackedSourceKind::MessagePort => DocumentSettlementSourceDisposition::OpenEnded(
                DocumentOpenEndedSourceReason::MessagePort,
            ),
            DocumentTrackedSourceKind::EmbedderControl => DocumentSettlementSourceDisposition::OpenEnded(
                DocumentOpenEndedSourceReason::EmbedderControl,
            ),
            DocumentTrackedSourceKind::MediaSessionActionHandler => DocumentSettlementSourceDisposition::OpenEnded(
                DocumentOpenEndedSourceReason::MediaSessionActionHandler,
            ),
            DocumentTrackedSourceKind::DedicatedWorker => DocumentSettlementSourceDisposition::Unsupported(
                DocumentUnsupportedSourceReason::DedicatedWorker,
            ),
            DocumentTrackedSourceKind::Worklet => DocumentSettlementSourceDisposition::Unsupported(
                DocumentUnsupportedSourceReason::Worklet,
            ),
            DocumentTrackedSourceKind::IndexedDb => DocumentSettlementSourceDisposition::Unsupported(
                DocumentUnsupportedSourceReason::IndexedDb,
            ),
            DocumentTrackedSourceKind::GpuDevice => DocumentSettlementSourceDisposition::Unsupported(
                DocumentUnsupportedSourceReason::GpuDevice,
            ),
            DocumentTrackedSourceKind::StorageEventListener => DocumentSettlementSourceDisposition::OpenEnded(
                DocumentOpenEndedSourceReason::StorageEventListener,
            ),
            DocumentTrackedSourceKind::CookieStorePending => DocumentSettlementSourceDisposition::Unsupported(
                DocumentUnsupportedSourceReason::CookieStorePending,
            ),
            DocumentTrackedSourceKind::ServiceWorkerPending => DocumentSettlementSourceDisposition::Unsupported(
                DocumentUnsupportedSourceReason::ServiceWorkerPending,
            ),
            DocumentTrackedSourceKind::ServiceWorkerMessaging => DocumentSettlementSourceDisposition::Unsupported(
                DocumentUnsupportedSourceReason::ServiceWorkerMessaging,
            ),
            DocumentTrackedSourceKind::WebXr => DocumentSettlementSourceDisposition::Unsupported(
                DocumentUnsupportedSourceReason::WebXr,
            ),
            DocumentTrackedSourceKind::StorageManager => DocumentSettlementSourceDisposition::Unsupported(
                DocumentUnsupportedSourceReason::StorageManager,
            ),
            DocumentTrackedSourceKind::Bluetooth => DocumentSettlementSourceDisposition::Unsupported(
                DocumentUnsupportedSourceReason::Bluetooth,
            ),
            DocumentTrackedSourceKind::RtcPeerConnection => DocumentSettlementSourceDisposition::Unsupported(
                DocumentUnsupportedSourceReason::RtcPeerConnection,
            ),
            DocumentTrackedSourceKind::MediaStream => DocumentSettlementSourceDisposition::Unsupported(
                DocumentUnsupportedSourceReason::MediaStream,
            ),
            DocumentTrackedSourceKind::WebAudio => DocumentSettlementSourceDisposition::Unsupported(
                DocumentUnsupportedSourceReason::WebAudio,
            ),
            DocumentTrackedSourceKind::Notification => DocumentSettlementSourceDisposition::Unsupported(
                DocumentUnsupportedSourceReason::Notification,
            ),
            DocumentTrackedSourceKind::WebGpuApi => DocumentSettlementSourceDisposition::Unsupported(
                DocumentUnsupportedSourceReason::WebGpuApi,
            ),
            DocumentTrackedSourceKind::OffscreenCanvas => DocumentSettlementSourceDisposition::Unsupported(
                DocumentUnsupportedSourceReason::OffscreenCanvas,
            ),
        }
    }

    /// How a source of this class settles while one is live.
    #[verifier::when_used_as_spec(spec_presence)]
    pub fn presence(self) -> (disposition: DocumentSettlementSourceDisposition)
        ensures
            disposition == self.spec_presence(),
    {
        match self {
            DocumentTrackedSourceKind::WebSocket => DocumentSettlementSourceDisposition::OpenEnded(
                DocumentOpenEndedSourceReason::WebSocket,
            ),
            DocumentTrackedSourceKind::EventSource => DocumentSettlementSourceDisposition::OpenEnded(
                DocumentOpenEndedSourceReason::EventSource,
            ),
            DocumentTrackedSourceKind::BroadcastChannel => DocumentSettlementSourceDisposition::OpenEnded(
                DocumentOpenEndedSourceReason::BroadcastChannel,
            ),
            DocumentTrackedSourceKind::MessagePort => DocumentSettlementSourceDisposition::OpenEnded(
                DocumentOpenEndedSourceReason::MessagePort,
            ),
            DocumentTrackedSourceKind::EmbedderControl => DocumentSettlementSourceDisposition::OpenEnded(
                DocumentOpenEndedSourceReason::EmbedderControl,
            ),
            DocumentTrackedSourceKind::MediaSessionActionHandler => DocumentSettlementSourceDisposition::OpenEnded(
                DocumentOpenEndedSourceReason::MediaSessionActionHandler,
            ),
            DocumentTrackedSourceKind::DedicatedWorker => DocumentSettlementSourceDisposition::Unsupported(
                DocumentUnsupportedSourceReason::DedicatedWorker,
            ),
            DocumentTrackedSourceKind::Worklet => DocumentSettlementSourceDisposition::Unsupported(
                DocumentUnsupportedSourceReason::Worklet,
            ),
            DocumentTrackedSourceKind::IndexedDb => DocumentSettlementSourceDisposition::Unsupported(
                DocumentUnsupportedSourceReason::IndexedDb,
            ),
            DocumentTrackedSourceKind::GpuDevice => DocumentSettlementSourceDisposition::Unsupported(
                DocumentUnsupportedSourceReason::GpuDevice,
            ),
            DocumentTrackedSourceKind::StorageEventListener => DocumentSettlementSourceDisposition::OpenEnded(
                DocumentOpenEndedSourceReason::StorageEventListener,
            ),
            DocumentTrackedSourceKind::CookieStorePending => DocumentSettlementSourceDisposition::Unsupported(
                DocumentUnsupportedSourceReason::CookieStorePending,
            ),
            DocumentTrackedSourceKind::ServiceWorkerPending => DocumentSettlementSourceDisposition::Unsupported(
                DocumentUnsupportedSourceReason::ServiceWorkerPending,
            ),
            DocumentTrackedSourceKind::ServiceWorkerMessaging => DocumentSettlementSourceDisposition::Unsupported(
                DocumentUnsupportedSourceReason::ServiceWorkerMessaging,
            ),
            DocumentTrackedSourceKind::WebXr => DocumentSettlementSourceDisposition::Unsupported(
                DocumentUnsupportedSourceReason::WebXr,
            ),
            DocumentTrackedSourceKind::StorageManager => DocumentSettlementSourceDisposition::Unsupported(
                DocumentUnsupportedSourceReason::StorageManager,
            ),
            DocumentTrackedSourceKind::Bluetooth => DocumentSettlementSourceDisposition::Unsupported(
                DocumentUnsupportedSourceReason::Bluetooth,
            ),
            DocumentTrackedSourceKind::RtcPeerConnection => DocumentSettlementSourceDisposition::Unsupported(
                DocumentUnsupportedSourceReason::RtcPeerConnection,
            ),
            DocumentTrackedSourceKind::MediaStream => DocumentSettlementSourceDisposition::Unsupported(
                DocumentUnsupportedSourceReason::MediaStream,
            ),
            DocumentTrackedSourceKind::WebAudio => DocumentSettlementSourceDisposition::Unsupported(
                DocumentUnsupportedSourceReason::WebAudio,
            ),
            DocumentTrackedSourceKind::Notification => DocumentSettlementSourceDisposition::Unsupported(
                DocumentUnsupportedSourceReason::Notification,
            ),
            DocumentTrackedSourceKind::WebGpuApi => DocumentSettlementSourceDisposition::Unsupported(
                DocumentUnsupportedSourceReason::WebGpuApi,
            ),
            DocumentTrackedSourceKind::OffscreenCanvas => DocumentSettlementSourceDisposition::Unsupported(
                DocumentUnsupportedSourceReason::OffscreenCanvas,
            ),
        }
    }
}

/// How a timer of a script settles.
pub open spec fn timer_disposition(
    deadline: DocumentTime,
    is_interval: bool,
) -> DocumentSettlementSourceDisposition {
    if is_interval {
        DocumentSettlementSourceDisposition::OpenEnded(DocumentOpenEndedSourceReason::Interval)
    } else {
        DocumentSettlementSourceDisposition::FiniteDeadline(deadline)
    }
}

/// How an animation-frame callback settles.
pub open spec fn animation_frame_disposition(active: bool) -> DocumentSettlementSourceDisposition {
    if active {
        DocumentSettlementSourceDisposition::FiniteRenderingOpportunity
    } else {
        DocumentSettlementSourceDisposition::Inert
    }
}

/// How a class of live objects settles.
pub open spec fn tracked_disposition(
    kind: DocumentTrackedSourceKind,
    blocking_count: u64,
) -> DocumentSettlementSourceDisposition {
    if blocking_count == 0 {
        DocumentSettlementSourceDisposition::Inert
    } else {
        kind.presence()
    }
}

/// How a canvas settles.
pub open spec fn canvas_disposition(
    image_key: Option<DocumentCanvasImageKey>,
    registry_generation: Option<u64>,
    status: DocumentCanvasCaptureStatus,
) -> DocumentSettlementSourceDisposition {
    if status is Ready && image_key is Some && registry_generation is Some {
        DocumentSettlementSourceDisposition::Inert
    } else {
        DocumentSettlementSourceDisposition::Unsupported(DocumentUnsupportedSourceReason::Canvas2d)
    }
}

impl DocumentSettlementSource {
    /// A CSS animation. `terminal_bits` is the number at which it ends.
    pub fn css_animation_internal(
        pipeline_id: PipelineId,
        node_id: usize,
        pseudo_element: Option<u16>,
        slot: u64,
        name: String,
        state: DocumentCssAnimationState,
        iteration: DocumentCssIterationState,
        started_at_bits: u64,
        duration_bits: u64,
        delay_bits: u64,
        terminal_bits: u64,
        timeline_now_bits: u64,
        document_now: DocumentTime,
    ) -> (source: Self)
        ensures
            source.identity == (DocumentSettlementSourceIdentity::CssAnimation {
                pipeline_id,
                node_id,
                pseudo_element,
                slot,
                name,
            }),
            source.state == (DocumentSettlementSourceState::CssAnimation {
                state,
                iteration,
                started_at_bits,
                duration_bits,
                delay_bits,
                timeline_now_bits,
            }),
            source.disposition == animation_disposition(
                state,
                iteration,
                started_at_bits,
                duration_bits,
                delay_bits,
                terminal_bits,
                timeline_now_bits,
                document_now,
            ),
    {
        let disposition = classify_css_animation(
            state,
            iteration,
            started_at_bits,
            duration_bits,
            delay_bits,
            terminal_bits,
            timeline_now_bits,
            document_now,
        );
        DocumentSettlementSource {
            identity: DocumentSettlementSourceIdentity::CssAnimation {
                pipeline_id,
                node_id,
                pseudo_element,
                slot,
                name,
            },
            state: DocumentSettlementSourceState::CssAnimation {
                state,
                iteration,
                started_at_bits,
                duration_bits,
                delay_bits,
                timeline_now_bits,
            },
            disposition,
        }
    }

    /// A CSS transition. `terminal_bits` is the number at which it ends.
    pub fn css_transition_internal(
        pipeline_id: PipelineId,
        node_id: usize,
        pseudo_element: Option<u16>,
        slot: u64,
        property: String,
        state: DocumentCssAnimationState,
        start_time_bits: u64,
        duration_bits: u64,
        delay_bits: u64,
        terminal_bits: u64,
        timeline_now_bits: u64,
        document_now: DocumentTime,
    ) -> (source: Self)
        ensures
            source.identity == (DocumentSettlementSourceIdentity::CssTransition {
                pipeline_id,
                node_id,
                pseudo_element,
                slot,
                property,
            }),
            source.state == (DocumentSettlementSourceState::CssTransition {
                state,
                start_time_bits,
                duration_bits,
                delay_bits,
                timeline_now_bits,
            }),
            source.disposition == transition_disposition(
                state,
                start_time_bits,
                duration_bits,
                delay_bits,
                terminal_bits,
                timeline_now_bits,
                document_now,
            ),
    {
        let disposition = classify_css_transition(
            state,
            start_time_bits,
            duration_bits,
            delay_bits,
            terminal_bits,
            timeline_now_bits,
            document_now,
        );
        DocumentSettlementSource {
            identity: DocumentSettlementSourceIdentity::CssTransition {
                pipeline_id,
                node_id,
                pseudo_element,
                slot,
                property,
            },
            state: DocumentSettlementSourceState::CssTransition {
                state,
                start_time_bits,
                duration_bits,
                delay_bits,
                timeline_now_bits,
            },
            disposition,
        }
    }

    /// A timer of a script: an interval can fire forever, any other at its deadline.
    pub fn timer_internal(
        pipeline_id: PipelineId,
        scheduler_handle: i32,
        dom_handle: i32,
        creation_sequence: u64,
        deadline: DocumentTime,
        is_interval: bool,
    ) -> (source: Self)
        ensures
            source.disposition == timer_disposition(deadline, is_interval),
            source == (DocumentSettlementSource {
                identity: DocumentSettlementSourceIdentity::Timer {
                    pipeline_id,
                    scheduler_handle,
                    dom_handle: Some(dom_handle),
                    creation_sequence,
                },
                state: DocumentSettlementSourceState::Timer { deadline, is_interval },
                disposition: if is_interval {
                    DocumentSettlementSourceDisposition::OpenEnded(
                        DocumentOpenEndedSourceReason::Interval,
                    )
                } else {
                    DocumentSettlementSourceDisposition::FiniteDeadline(deadline)
                },
            }),
    {
        DocumentSettlementSource {
            identity: DocumentSettlementSourceIdentity::Timer {
                pipeline_id,
                scheduler_handle,
                dom_handle: Some(dom_handle),
                creation_sequence,
            },
            state: DocumentSettlementSourceState::Timer { deadline, is_interval },
            disposition: if is_interval {
                DocumentSettlementSourceDisposition::OpenEnded(
                    DocumentOpenEndedSourceReason::Interval,
                )
            } else {
                DocumentSettlementSourceDisposition::FiniteDeadline(deadline)
            },
        }
    }

    /// An entry of the timer queue that is no timer of a script.
    pub fn unsupported_timer_internal(
        pipeline_id: PipelineId,
        scheduler_handle: i32,
        creation_sequence: u64,
        deadline: DocumentTime,
        reason: DocumentUnsupportedSourceReason,
    ) -> (source: Self)
        ensures
            source == (DocumentSettlementSource {
                identity: DocumentSettlementSourceIdentity::Timer {
                    pipeline_id,
                    scheduler_handle,
                    dom_handle: None,
                    creation_sequence,
                },
                state: DocumentSettlementSourceState::Timer { deadline, is_interval: false },
                disposition: DocumentSettlementSourceDisposition::Unsupported(reason),
            }),
    {
        DocumentSettlementSource {
            identity: DocumentSettlementSourceIdentity::Timer {
                pipeline_id,
                scheduler_handle,
                dom_handle: None,
                creation_sequence,
            },
            state: DocumentSettlementSourceState::Timer { deadline, is_interval: false },
            disposition: DocumentSettlementSourceDisposition::Unsupported(reason),
        }
    }

    /// An animation-frame callback: it needs a rendering opportunity while it is there.
    pub fn animation_frame_internal(
        pipeline_id: PipelineId,
        callback_id: u32,
        active: bool,
    ) -> (source: Self)
        ensures
            source.disposition == animation_frame_disposition(active),
            source == (DocumentSettlementSource {
                identity: DocumentSettlementSourceIdentity::AnimationFrame {
                    pipeline_id,
                    callback_id,
                },
                state: DocumentSettlementSourceState::AnimationFrame { active },
                disposition: if active {
                    DocumentSettlementSourceDisposition::FiniteRenderingOpportunity
                } else {
                    DocumentSettlementSourceDisposition::Inert
                },
            }),
    {
        DocumentSettlementSource {
            identity: DocumentSettlementSourceIdentity::AnimationFrame { pipeline_id, callback_id },
            state: DocumentSettlementSourceState::AnimationFrame { active },
            disposition: if active {
                DocumentSettlementSourceDisposition::FiniteRenderingOpportunity
            } else {
                DocumentSettlementSourceDisposition::Inert
            },
        }
    }

    /// A class of live objects: inert while there is none.
    pub fn tracked_presence_internal(
        pipeline_id: PipelineId,
        kind: DocumentTrackedSourceKind,
        blocking_count: u64,
    ) -> (source: Self)
        ensures
            source.disposition == tracked_disposition(kind, blocking_count),
            source == (DocumentSettlementSource {
                identity: DocumentSettlementSourceIdentity::TrackedPresence { pipeline_id, kind },
                state: DocumentSettlementSourceState::TrackedPresence { blocking_count },
                disposition: if blocking_count == 0 {
                    DocumentSettlementSourceDisposition::Inert
                } else {
                    kind.presence()
                },
            }),
    {
        let disposition = if blocking_count == 0 {
            DocumentSettlementSourceDisposition::Inert
        } else {
            kind.presence()
        };
        DocumentSettlementSource {
            identity: DocumentSettlementSourceIdentity::TrackedPresence { pipeline_id, kind },
            state: DocumentSettlementSourceState::TrackedPresence { blocking_count },
            disposition,
        }
    }

    /// A canvas: inert once its retained state is ready, with an image and a generation.
    pub fn canvas_2d_internal(
        pipeline_id: PipelineId,
        node_id: usize,
        canvas_id: u64,
        image_key: Option<DocumentCanvasImageKey>,
        width: u32,
        height: u32,
        registry_generation: Option<u64>,
        status: DocumentCanvasCaptureStatus,
    ) -> (source: Self)
        ensures
            source.disposition == canvas_disposition(image_key, registry_generation, status),
            source == (DocumentSettlementSource {
                identity: DocumentSettlementSourceIdentity::Canvas2d {
                    pipeline_id,
                    node_id,
                    canvas_id,
                },
                state: DocumentSettlementSourceState::Canvas2d {
                    image_key,
                    width,
                    height,
                    registry_generation,
                    status,
                },
                disposition: if status is Ready && image_key is Some && registry_generation is Some {
                    DocumentSettlementSourceDisposition::Inert
                } else {
                    DocumentSettlementSourceDisposition::Unsupported(
                        DocumentUnsupportedSourceReason::Canvas2d,
                    )
                },
            }),
    {
        let ready = status == DocumentCanvasCaptureStatus::Ready && image_key.is_some()
            && registry_generation.is_some();
        DocumentSettlementSource {
            identity: DocumentSettlementSourceIdentity::Canvas2d {
                pipeline_id,
                node_id,
                canvas_id,
            },
            state: DocumentSettlementSourceState::Canvas2d {
                image_key,
                width,
                height,
                registry_generation,
                status,
            },
            disposition: if ready {
                DocumentSettlementSourceDisposition::Inert
            } else {
                DocumentSettlementSourceDisposition::Unsupported(
                    DocumentUnsupportedSourceReason::Canvas2d,
                )
            },
        }
    }

    /// A DOM node of a class that cannot be shown to settle.
    pub fn unsupported_dom_node_internal(
        pipeline_id: PipelineId,
        node_id: usize,
        reason: DocumentUnsupportedSourceReason,
    ) -> (source: Self)
        ensures
            source == (DocumentSettlementSource {
                identity: DocumentSettlementSourceIdentity::UnsupportedDomNode {
                    pipeline_id,
                    node_id,
                    reason,
                },
                state: DocumentSettlementSourceState::UnsupportedDomNode,
                disposition: DocumentSettlementSourceDisposition::Unsupported(reason),
            }),
    {
        DocumentSettlementSource {
            identity: DocumentSettlementSourceIdentity::UnsupportedDomNode {
                pipeline_id,
                node_id,
                reason,
            },
            state: DocumentSettlementSourceState::UnsupportedDomNode,
            disposition: DocumentSettlementSourceDisposition::Unsupported(reason),
        }
    }

    /// Which source it is.
    pub fn identity(&self) -> (identity: &DocumentSettlementSourceIdentity)
        ensures
            *identity == self.identity,
    {
        &self.identity
    }

    /// Its exact state.
    pub fn state(&self) -> (state: &DocumentSettlementSourceState)
        ensures
            *state == self.state,
    {
        &self.state
    }

    /// How it settles.
    pub fn disposition(&self) -> (disposition: DocumentSettlementSourceDisposition)
        ensures
            disposition == self.disposition,
    {
        self.disposition
    }
}

} // verus!
