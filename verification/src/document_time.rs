//! The protocol by which an embedder drives one controlled document event loop, and what a caller
//! may conclude from a missing answer.
use crate::clock::{
    DocumentClockError, DocumentClockId, DocumentExecutionObservation, DocumentExecutionTerminal,
    DocumentProducerCheckpoint, DocumentProducerFenceId, DocumentProducerSnapshot, DocumentTime,
    TimerDeadlineSnapshot,
};
use crate::generation_capture::protocol::{
    DocumentCaptureCommit, DocumentCaptureConsumeRequest, DocumentCapturePreconditionId,
    DocumentCapturePreparation, DocumentPaintPresentationTicketId,
};
use crate::generation_capture::surface::DocumentCaptureSurfaceFingerprint;
use crate::ids::{Epoch, PipelineId, ScriptEventLoopId, WebViewId};
use vstd::prelude::*;

verus! {

/// A request that is under way.
#[derive(Clone, Copy, Debug, PartialEq, Eq, Hash, Structural)]
pub struct DocumentTimeControlRequestId(pub u64);

impl DocumentTimeControlRequestId {
    pub fn new(sequence: u64) -> (id: Self)
        ensures
            id == DocumentTimeControlRequestId(sequence),
    {
        DocumentTimeControlRequestId(sequence)
    }

    pub fn get(self) -> (sequence: u64)
        ensures
            sequence == self.0,
    {
        self.0
    }
}

/// The abandonment of one answer.
#[derive(Clone, Copy, Debug, PartialEq, Eq, Hash, Structural)]
pub struct DocumentTimeControlCancellationId(pub u64);

impl DocumentTimeControlCancellationId {
    pub fn new(sequence: u64) -> (id: Self)
        ensures
            id == DocumentTimeControlCancellationId(sequence),
    {
        DocumentTimeControlCancellationId(sequence)
    }

    pub fn get(self) -> (sequence: u64)
        ensures
            sequence == self.0,
    {
        self.0
    }
}

/// A token that permits one advance of the clock.
#[derive(Clone, Copy, Debug, PartialEq, Eq, Hash, Structural)]
pub struct DocumentTimeAdvanceTokenId(pub u64);

impl DocumentTimeAdvanceTokenId {
    pub fn new(sequence: u64) -> (id: Self)
        ensures
            id == DocumentTimeAdvanceTokenId(sequence),
    {
        DocumentTimeAdvanceTokenId(sequence)
    }

    pub fn get(self) -> (sequence: u64)
        ensures
            sequence == self.0,
    {
        self.0
    }
}

/// What a command is meant for; a navigation in between makes it another.
#[derive(Clone, Debug, PartialEq, Eq)]
pub struct DocumentTimeControlTarget {
    pub webview_id: WebViewId,
    pub event_loop_id: ScriptEventLoopId,
    pub webview_epoch: Epoch,
    pub pipelines: Vec<PipelineId>,
    pub fully_active_pipelines: Vec<PipelineId>,
}

/// A target as mathematical values.
#[verifier::ext_equal]
pub struct TargetView {
    pub webview_id: WebViewId,
    pub event_loop_id: ScriptEventLoopId,
    pub webview_epoch: Epoch,
    pub pipelines: Seq<PipelineId>,
    pub fully_active_pipelines: Seq<PipelineId>,
}

impl View for DocumentTimeControlTarget {
    type V = TargetView;

    open spec fn view(&self) -> TargetView {
        TargetView {
            webview_id: self.webview_id,
            event_loop_id: self.event_loop_id,
            webview_epoch: self.webview_epoch,
            pipelines: self.pipelines@,
            fully_active_pipelines: self.fully_active_pipelines@,
        }
    }
}

fn copied_pipelines(pipelines: &Vec<PipelineId>) -> (copy: Vec<PipelineId>)
    ensures
        copy@ == pipelines@,
{
    let mut copy: Vec<PipelineId> = Vec::new();
    let mut index: usize = 0;
    while index < pipelines.len()
        invariant
            index <= pipelines@.len(),
            copy@ == pipelines@.take(index as int),
        decreases pipelines.len() - index,
    {
        copy.push(pipelines[index]);
        index = index + 1;
        assert(copy@ =~= pipelines@.take(index as int));
    }
    assert(pipelines@.take(index as int) =~= pipelines@);
    copy
}

impl DocumentTimeControlTarget {
    /// A copy of the target.
    pub fn copied(&self) -> (copy: Self)
        ensures
            copy@ == self@,
    {
        DocumentTimeControlTarget {
            webview_id: self.webview_id,
            event_loop_id: self.event_loop_id,
            webview_epoch: self.webview_epoch,
            pipelines: copied_pipelines(&self.pipelines),
            fully_active_pipelines: copied_pipelines(&self.fully_active_pipelines),
        }
    }
}

/// How the producers of an event loop stood at the latest checkpoint.
#[derive(Clone, Copy, Debug, PartialEq, Eq, Structural)]
pub enum DocumentProducerStability {
    /// There was no checkpoint yet.
    NotCheckpointed,
    /// A producer is live.
    Busy,
    /// None is live, for the first time at this revision.
    FirstEmpty,
    /// None is live at two fresh checkpoints of this revision.
    StableEmpty,
    /// The checkpoint is not fresh, so nothing can be concluded.
    UnchangedCheckpoint,
}

/// The producers of one event loop.
#[derive(Clone, Copy, Debug, PartialEq, Eq)]
pub struct DocumentTimeProducerObservation {
    pub fence_id: DocumentProducerFenceId,
    pub checkpoint: DocumentProducerCheckpoint,
    pub snapshot: DocumentProducerSnapshot,
    pub stability: DocumentProducerStability,
}

/// Why a document is not ready for a capture.
#[derive(Clone, Copy, Debug, PartialEq, Eq, PartialOrd, Ord, Hash, Structural)]
pub enum DocumentTimeReadinessBlocker {
    DocumentUnavailable,
    NotFullyActive,
    Loading,
    RenderBlocked,
    WaitMarker,
    FontsLoading,
    FontReadyPromise,
    LayoutImages,
    RasterImages,
    RenderingUpdate,
    CanvasImageUpdates,
}

impl DocumentTimeReadinessBlocker {
    pub open spec fn spec_rank(self) -> u128 {
        match self {
            DocumentTimeReadinessBlocker::DocumentUnavailable => 0,
            DocumentTimeReadinessBlocker::NotFullyActive => 1,
            DocumentTimeReadinessBlocker::Loading => 2,
            DocumentTimeReadinessBlocker::RenderBlocked => 3,
            DocumentTimeReadinessBlocker::WaitMarker => 4,
            DocumentTimeReadinessBlocker::FontsLoading => 5,
            DocumentTimeReadinessBlocker::FontReadyPromise => 6,
            DocumentTimeReadinessBlocker::LayoutImages => 7,
            DocumentTimeReadinessBlocker::RasterImages => 8,
            DocumentTimeReadinessBlocker::RenderingUpdate => 9,
            DocumentTimeReadinessBlocker::CanvasImageUpdates => 10,
        }
    }

    /// The place among the variants.
    #[verifier::when_used_as_spec(spec_rank)]
    pub fn rank(self) -> (rank: u128)
        ensures
            rank == self.spec_rank(),
    {
        match self {
            DocumentTimeReadinessBlocker::DocumentUnavailable => 0,
            DocumentTimeReadinessBlocker::NotFullyActive => 1,
            DocumentTimeReadinessBlocker::Loading => 2,
            DocumentTimeReadinessBlocker::RenderBlocked => 3,
            DocumentTimeReadinessBlocker::WaitMarker => 4,
            DocumentTimeReadinessBlocker::FontsLoading => 5,
            DocumentTimeReadinessBlocker::FontReadyPromise => 6,
            DocumentTimeReadinessBlocker::LayoutImages => 7,
            DocumentTimeReadinessBlocker::RasterImages => 8,
            DocumentTimeReadinessBlocker::RenderingUpdate => 9,
            DocumentTimeReadinessBlocker::CanvasImageUpdates => 10,
        }
    }
}

/// The readiness and the rendered generation of one document.
#[derive(Clone, Debug, PartialEq, Eq)]
pub struct DocumentTimeDocumentObservation {
    pub pipeline_id: PipelineId,
    pub script_rendering_epoch: Option<Epoch>,
    pub readiness_blockers: Vec<DocumentTimeReadinessBlocker>,
}

/// Permits one exact advance of the clock, once.
#[derive(Clone, Debug, PartialEq, Eq)]
pub struct DocumentTimeAdvanceToken {
    pub id: DocumentTimeAdvanceTokenId,
    pub target: DocumentTimeControlTarget,
    pub clock_id: DocumentClockId,
    pub now: DocumentTime,
    pub deadline: TimerDeadlineSnapshot,
    pub input_revision: u64,
    pub pending_events: u64,
    pub input_batch_saturated: bool,
    pub producers: DocumentTimeProducerObservation,
}

impl DocumentTimeAdvanceToken {
    pub fn new_internal(
        id: DocumentTimeAdvanceTokenId,
        target: DocumentTimeControlTarget,
        clock_id: DocumentClockId,
        now: DocumentTime,
        deadline: TimerDeadlineSnapshot,
        input_revision: u64,
        pending_events: u64,
        input_batch_saturated: bool,
        producers: DocumentTimeProducerObservation,
    ) -> (value: Self)
        ensures
            value.id == id,
            value.target == target,
            value.clock_id == clock_id,
            value.now == now,
            value.deadline == deadline,
            value.input_revision == input_revision,
            value.pending_events == pending_events,
            value.input_batch_saturated == input_batch_saturated,
            value.producers == producers,
    {
        DocumentTimeAdvanceToken {
            id,
            target,
            clock_id,
            now,
            deadline,
            input_revision,
            pending_events,
            input_batch_saturated,
            producers,
        }
    }

    pub fn id(&self) -> (id: DocumentTimeAdvanceTokenId)
        ensures
            id == self.id,
    {
        self.id
    }

    pub fn target(&self) -> (target: &DocumentTimeControlTarget)
        ensures
            *target == self.target,
    {
        &self.target
    }

    pub fn clock_id(&self) -> (clock_id: DocumentClockId)
        ensures
            clock_id == self.clock_id,
    {
        self.clock_id
    }

    pub fn now(&self) -> (now: DocumentTime)
        ensures
            now == self.now,
    {
        self.now
    }

    pub fn deadline(&self) -> (deadline: TimerDeadlineSnapshot)
        ensures
            deadline == self.deadline,
    {
        self.deadline
    }

    pub fn input_revision(&self) -> (input_revision: u64)
        ensures
            input_revision == self.input_revision,
    {
        self.input_revision
    }

    pub fn pending_events(&self) -> (pending_events: u64)
        ensures
            pending_events == self.pending_events,
    {
        self.pending_events
    }

    pub fn input_batch_saturated(&self) -> (input_batch_saturated: bool)
        ensures
            input_batch_saturated == self.input_batch_saturated,
    {
        self.input_batch_saturated
    }

    pub fn producers(&self) -> (producers: DocumentTimeProducerObservation)
        ensures
            producers == self.producers,
    {
        self.producers
    }
}

/// One mechanical operation on a controlled event loop.
#[derive(Clone, Debug, PartialEq, Eq)]
pub enum DocumentTimeControlCommand {
    /// Observe, without running page work or moving the clock.
    Observe,
    /// Advance to the exact deadline of a token.
    AdvanceTo(Box<DocumentTimeAdvanceToken>),
    /// Process one event of the event loop.
    DriveOneTurn,
    /// Qualify one exact generation for a capture.
    PrepareCapture(DocumentCaptureSurfaceFingerprint),
    /// Consume a capture candidate.
    ConsumeCapture(Box<DocumentCaptureConsumeRequest>),
}

/// What was done before an observation.
#[derive(Clone, Copy, Debug, PartialEq, Eq)]
pub enum DocumentTimeControlAction {
    Observed,
    TimerActivated(TimerDeadlineSnapshot),
    CheckpointTurnProcessed { microtask_checkpoint_advanced: bool },
    TurnProcessed { microtask_checkpoint_advanced: bool },
    ExecutionTerminated,
    CapturePrepared,
    CaptureConsumed,
}

/// What is so after a command.
#[derive(Clone, Debug, PartialEq, Eq)]
pub struct DocumentTimeControlObservation {
    pub target: DocumentTimeControlTarget,
    pub now: DocumentTime,
    pub next_deadline: Option<TimerDeadlineSnapshot>,
    pub advance_token: Option<DocumentTimeAdvanceToken>,
    pub pending_events: u64,
    pub input_batch_saturated: bool,
    pub action: DocumentTimeControlAction,
    pub producers: DocumentTimeProducerObservation,
    pub documents: Vec<DocumentTimeDocumentObservation>,
    pub execution: Option<DocumentExecutionObservation>,
    pub capture_preparation: Option<DocumentCapturePreparation>,
    pub capture_commit: Option<Box<DocumentCaptureCommit>>,
}

/// How a command ended. The two indeterminate ends are no errors: whether the operation happened
/// cannot be known, and what it used up must not be used again.
#[derive(Clone, Debug, PartialEq, Eq)]
pub enum DocumentTimeControlOutcome {
    Completed(Box<DocumentTimeControlObservation>),
    Rejected(DocumentTimeControlError),
    AdvanceOutcomeIndeterminate {
        token_id: DocumentTimeAdvanceTokenId,
        target: Box<DocumentTimeControlTarget>,
        deadline: TimerDeadlineSnapshot,
    },
    CaptureConsumeOutcomeIndeterminate {
        candidate_id: DocumentCapturePreconditionId,
        ticket_id: DocumentPaintPresentationTicketId,
        target: Box<DocumentTimeControlTarget>,
    },
}

/// What reached beyond the controlled event loop.
#[derive(Clone, Copy, Debug, PartialEq, Eq, Structural)]
pub enum DocumentTimeSurface {
    Worker,
    Worklet,
    CrossLoopNavigation,
    HostTimestamp,
}

/// A refusal of the timer scheduler, by its code.
#[derive(Clone, Copy, Debug, PartialEq, Eq, Structural)]
pub struct TimerControlError(pub u32);

/// A failure of the producer fence, by its code.
#[derive(Clone, Copy, Debug, PartialEq, Eq, Structural)]
pub struct DocumentProducerFenceError(pub u32);

/// Why a command was rejected.
#[allow(inconsistent_fields)]
#[derive(Clone, Debug, PartialEq, Eq)]
pub enum DocumentTimeControlError {
    WebViewUnavailable,
    NotControlled,
    EventLoopUnavailable,
    MultipleEventLoops,
    SharedEventLoopWebView,
    CommandAlreadyPending,
    RequestSequenceOverflow,
    AdvanceTokenSequenceOverflow,
    InputRevisionOverflow,
    AdvanceTokenUnavailable { observed: DocumentTimeAdvanceTokenId },
    StaleAdvanceToken {
        expected: DocumentTimeAdvanceTokenId,
        observed: DocumentTimeAdvanceTokenId,
    },
    ExecutionTerminated(DocumentExecutionTerminal),
    AdvanceInputChanged {
        expected_revision: u64,
        observed_revision: u64,
        pending_events: u64,
        input_batch_saturated: bool,
    },
    AdvanceClockChanged {
        expected_id: DocumentClockId,
        observed_id: DocumentClockId,
        expected_now: DocumentTime,
        observed_now: DocumentTime,
    },
    AdvanceProducerChanged {
        expected: Box<DocumentTimeProducerObservation>,
        observed: Box<DocumentTimeProducerObservation>,
    },
    TargetChanged {
        expected: Box<DocumentTimeControlTarget>,
        observed: Option<Box<DocumentTimeControlTarget>>,
    },
    UnsupportedSurface(DocumentTimeSurface),
    Clock(DocumentClockError),
    Timer(TimerControlError),
    ProducerFence(DocumentProducerFenceError),
    QueueLengthOverflow,
    ChannelClosed,
    CancellationSequenceOverflow,
    CapturePreconditionSequenceOverflow,
    CaptureSourceEpochOverflow,
    CapturePreconditionUnavailable { observed: DocumentCapturePreconditionId },
    StaleCapturePrecondition {
        expected: DocumentCapturePreconditionId,
        observed: DocumentCapturePreconditionId,
    },
    CapturePresentationMismatch,
    CaptureStateChanged,
    CaptureLayoutUnavailable,
    CaptureLayoutEpochMismatch { expected: Epoch, observed: Epoch },
}

/// Why nothing was received.
#[derive(Clone, Debug, PartialEq, Eq)]
pub enum TryReceiveError {
    /// There is nothing yet.
    Empty,
    /// The channel is closed.
    Disconnected,
    /// What arrived could not be decoded.
    DeserializationFailed(String),
    /// The transport failed; the category is given by its name.
    Io { kind: String, message: String },
}

/// Why a bounded wait brought no outcome.
#[derive(Clone, Debug, PartialEq, Eq)]
pub enum DocumentTimeControlTransportFailure {
    TimedOut,
    Disconnected,
    DeserializationFailed(String),
    Io { kind: String, message: String },
}

impl DocumentTimeControlTransportFailure {
    /// The failure that a receive error amounts to.
    pub open spec fn spec_of(error: TryReceiveError) -> DocumentTimeControlTransportFailure {
        match error {
            TryReceiveError::Empty => DocumentTimeControlTransportFailure::TimedOut,
            TryReceiveError::Disconnected => DocumentTimeControlTransportFailure::Disconnected,
            TryReceiveError::DeserializationFailed(
                message,
            ) => DocumentTimeControlTransportFailure::DeserializationFailed(message),
            TryReceiveError::Io { kind, message } => DocumentTimeControlTransportFailure::Io {
                kind,
                message,
            },
        }
    }

    #[verifier::when_used_as_spec(spec_of)]
    pub fn of(error: TryReceiveError) -> (failure: Self)
        ensures
            failure == DocumentTimeControlTransportFailure::spec_of(error),
    {
        match error {
            TryReceiveError::Empty => DocumentTimeControlTransportFailure::TimedOut,
            TryReceiveError::Disconnected => DocumentTimeControlTransportFailure::Disconnected,
            TryReceiveError::DeserializationFailed(
                message,
            ) => DocumentTimeControlTransportFailure::DeserializationFailed(message),
            TryReceiveError::Io { kind, message } => DocumentTimeControlTransportFailure::Io {
                kind,
                message,
            },
        }
    }
}

/// What a caller learns at the end of a bounded wait.
#[derive(Clone, Debug, PartialEq, Eq)]
pub enum DocumentTimeControlReceiveOutcome {
    /// The command ended, or it cannot be known whether it did.
    CommandOutcome(DocumentTimeControlOutcome),
    /// No observation arrived; observing runs no page work and moves no clock.
    ObserveTransportFailure(DocumentTimeControlTransportFailure),
    /// It cannot be known whether the turn was processed.
    DriveOneTurnOutcomeIndeterminate(DocumentTimeControlTransportFailure),
    /// No preparation arrived.
    CapturePreparationTransportFailure(DocumentTimeControlTransportFailure),
}

/// What a missing answer means, by the command that was sent.
#[derive(Debug)]
pub enum DocumentTimeControlTransportSemantics {
    Observe,
    DriveOneTurn,
    PrepareCapture,
    GuardedAdvance(DocumentTimeControlOutcome),
    CaptureConsume(DocumentTimeControlOutcome),
}

/// The one answer that a command may get, and whether its abandonment must be announced.
#[derive(Debug)]
pub struct DocumentTimeControlReceiver {
    pub transport_semantics: DocumentTimeControlTransportSemantics,
    pub cancellation: bool,
}

/// The end of a receiver: the outcome, and whether the abandonment is to be announced now.
#[derive(Debug, PartialEq, Eq)]
pub struct DocumentTimeControlResolution {
    pub outcome: DocumentTimeControlReceiveOutcome,
    pub cancel: bool,
}

/// What a receive attempt that does not wait gives.
#[derive(Debug)]
pub enum DocumentTimeControlTryReceiveOutcome {
    /// Nothing yet; the receiver is as it was.
    Pending(DocumentTimeControlReceiver),
    /// The receiver has come to its end.
    Complete(DocumentTimeControlResolution),
}

impl DocumentTimeControlTransportSemantics {
    /// These are the semantics of `command`: a lost answer to an advance or a consumption is an
    /// indeterminate outcome that names exactly what was used up.
    pub open spec fn fits(self, command: DocumentTimeControlCommand) -> bool {
        match command {
            DocumentTimeControlCommand::Observe => self is Observe,
            DocumentTimeControlCommand::DriveOneTurn => self is DriveOneTurn,
            DocumentTimeControlCommand::PrepareCapture(_) => self is PrepareCapture,
            DocumentTimeControlCommand::AdvanceTo(token) => {
                &&& self matches DocumentTimeControlTransportSemantics::GuardedAdvance(outcome)
                &&& outcome matches DocumentTimeControlOutcome::AdvanceOutcomeIndeterminate {
                    token_id,
                    target,
                    deadline,
                }
                &&& token_id == token.id
                &&& target@ == token.target@
                &&& deadline == token.deadline
            },
            DocumentTimeControlCommand::ConsumeCapture(request) => {
                &&& self matches DocumentTimeControlTransportSemantics::CaptureConsume(outcome)
                &&& outcome matches DocumentTimeControlOutcome::CaptureConsumeOutcomeIndeterminate {
                    candidate_id,
                    ticket_id,
                    target,
                }
                &&& candidate_id == request.precondition.id
                &&& ticket_id == request.ticket.id
                &&& target@ == request.precondition.target@
            },
        }
    }

    /// What a caller learns where the answer is missing.
    pub open spec fn lost(self, failure: DocumentTimeControlTransportFailure) ->
        DocumentTimeControlReceiveOutcome {
        match self {
            DocumentTimeControlTransportSemantics::Observe =>
                DocumentTimeControlReceiveOutcome::ObserveTransportFailure(failure),
            DocumentTimeControlTransportSemantics::DriveOneTurn =>
                DocumentTimeControlReceiveOutcome::DriveOneTurnOutcomeIndeterminate(failure),
            DocumentTimeControlTransportSemantics::PrepareCapture =>
                DocumentTimeControlReceiveOutcome::CapturePreparationTransportFailure(failure),
            DocumentTimeControlTransportSemantics::GuardedAdvance(outcome) =>
                DocumentTimeControlReceiveOutcome::CommandOutcome(outcome),
            DocumentTimeControlTransportSemantics::CaptureConsume(outcome) =>
                DocumentTimeControlReceiveOutcome::CommandOutcome(outcome),
        }
    }
}

impl DocumentTimeControlReceiver {
    fn bound_to(command: &DocumentTimeControlCommand, cancellation: bool) -> (receiver: Self)
        ensures
            receiver.transport_semantics.fits(*command),
            receiver.cancellation == cancellation,
    {
        let transport_semantics = match command {
            DocumentTimeControlCommand::AdvanceTo(token) =>
                DocumentTimeControlTransportSemantics::GuardedAdvance(
                    DocumentTimeControlOutcome::AdvanceOutcomeIndeterminate {
                        token_id: token.id,
                        target: Box::new(token.target.copied()),
                        deadline: token.deadline,
                    },
                ),
            DocumentTimeControlCommand::Observe => DocumentTimeControlTransportSemantics::Observe,
            DocumentTimeControlCommand::DriveOneTurn =>
                DocumentTimeControlTransportSemantics::DriveOneTurn,
            DocumentTimeControlCommand::PrepareCapture(_) =>
                DocumentTimeControlTransportSemantics::PrepareCapture,
            DocumentTimeControlCommand::ConsumeCapture(request) =>
                DocumentTimeControlTransportSemantics::CaptureConsume(
                    DocumentTimeControlOutcome::CaptureConsumeOutcomeIndeterminate {
                        candidate_id: request.precondition.id,
                        ticket_id: request.ticket.id,
                        target: Box::new(request.precondition.target.copied()),
                    },
                ),
        };
        DocumentTimeControlReceiver { transport_semantics, cancellation }
    }

    /// A receiver for the answer to `command`.
    pub fn new(command: &DocumentTimeControlCommand) -> (receiver: Self)
        ensures
            receiver.transport_semantics.fits(*command),
            !receiver.cancellation,
    {
        DocumentTimeControlReceiver::bound_to(command, false)
    }

    /// A receiver whose abandonment must be announced.
    pub fn new_cancellable(command: &DocumentTimeControlCommand) -> (receiver: Self)
        ensures
            receiver.transport_semantics.fits(*command),
            receiver.cancellation,
    {
        DocumentTimeControlReceiver::bound_to(command, true)
    }

    /// The end of a bounded wait.
    pub open spec fn resolved(
        self,
        result: Result<DocumentTimeControlOutcome, TryReceiveError>,
    ) -> DocumentTimeControlResolution {
        match result {
            Ok(outcome) => DocumentTimeControlResolution {
                outcome: DocumentTimeControlReceiveOutcome::CommandOutcome(outcome),
                cancel: false,
            },
            Err(error) => DocumentTimeControlResolution {
                outcome: self.transport_semantics.lost(
                    DocumentTimeControlTransportFailure::spec_of(error),
                ),
                cancel: self.cancellation,
            },
        }
    }

    /// The end of a bounded wait. An answer ends the receiver without an announcement; a missing
    /// one is announced, and means what the command makes of it.
    pub fn resolve(self, result: Result<DocumentTimeControlOutcome, TryReceiveError>) -> (resolution:
        DocumentTimeControlResolution)
        ensures
            resolution == self.resolved(result),
            resolution == (match result {
                Ok(outcome) => DocumentTimeControlResolution {
                    outcome: DocumentTimeControlReceiveOutcome::CommandOutcome(outcome),
                    cancel: false,
                },
                Err(error) => DocumentTimeControlResolution {
                    outcome: self.transport_semantics.lost(
                        DocumentTimeControlTransportFailure::spec_of(error),
                    ),
                    cancel: self.cancellation,
                },
            }),
    {
        match result {
            Ok(outcome) => DocumentTimeControlResolution {
                outcome: DocumentTimeControlReceiveOutcome::CommandOutcome(outcome),
                cancel: false,
            },
            Err(error) => {
                let failure = DocumentTimeControlTransportFailure::of(error);
                let cancel = self.cancellation;
                let outcome = match self.transport_semantics {
                    DocumentTimeControlTransportSemantics::Observe =>
                        DocumentTimeControlReceiveOutcome::ObserveTransportFailure(failure),
                    DocumentTimeControlTransportSemantics::DriveOneTurn =>
                        DocumentTimeControlReceiveOutcome::DriveOneTurnOutcomeIndeterminate(
                            failure,
                        ),
                    DocumentTimeControlTransportSemantics::PrepareCapture =>
                        DocumentTimeControlReceiveOutcome::CapturePreparationTransportFailure(
                            failure,
                        ),
                    DocumentTimeControlTransportSemantics::GuardedAdvance(outcome) =>
                        DocumentTimeControlReceiveOutcome::CommandOutcome(outcome),
                    DocumentTimeControlTransportSemantics::CaptureConsume(outcome) =>
                        DocumentTimeControlReceiveOutcome::CommandOutcome(outcome),
                };
                DocumentTimeControlResolution { outcome, cancel }
            },
        }
    }

    /// A receive attempt that does not wait: an empty channel leaves the receiver as it was, all
    /// else is its end.
    pub fn resolve_nonblocking(
        self,
        result: Result<DocumentTimeControlOutcome, TryReceiveError>,
    ) -> (outcome: DocumentTimeControlTryReceiveOutcome)
        ensures
            result == Err::<DocumentTimeControlOutcome, _>(TryReceiveError::Empty) ==> outcome
                == DocumentTimeControlTryReceiveOutcome::Pending(self),
            result != Err::<DocumentTimeControlOutcome, _>(TryReceiveError::Empty) ==> {
                &&& outcome matches DocumentTimeControlTryReceiveOutcome::Complete(resolution)
                &&& resolution == match result {
                    Ok(answer) => DocumentTimeControlResolution {
                        outcome: DocumentTimeControlReceiveOutcome::CommandOutcome(answer),
                        cancel: false,
                    },
                    Err(error) => DocumentTimeControlResolution {
                        outcome: self.transport_semantics.lost(
                            DocumentTimeControlTransportFailure::spec_of(error),
                        ),
                        cancel: self.cancellation,
                    },
                }
            },
    {
        match result {
            Err(TryReceiveError::Empty) => DocumentTimeControlTryReceiveOutcome::Pending(self),
            result => DocumentTimeControlTryReceiveOutcome::Complete(self.resolve(result)),
        }
    }

    /// The receiver is given up. Says whether that is to be announced.
    pub fn abandon(self) -> (cancel: bool)
        ensures
            cancel == self.cancellation,
    {
        self.cancellation
    }
}

/// A lost answer to a command that uses something up is never taken for a failure: it is the
/// indeterminate outcome that names the token, or the candidate and its ticket, with their target.
pub proof fn law_lost_answers_name_what_was_used_up(
    semantics: DocumentTimeControlTransportSemantics,
    command: DocumentTimeControlCommand,
    failure: DocumentTimeControlTransportFailure,
)
    requires
        semantics.fits(command),
    ensures
        command matches DocumentTimeControlCommand::AdvanceTo(token) ==> {
            &&& semantics.lost(failure) matches DocumentTimeControlReceiveOutcome::CommandOutcome(
                outcome,
            )
            &&& outcome matches DocumentTimeControlOutcome::AdvanceOutcomeIndeterminate {
                token_id,
                target,
                deadline,
            }
            &&& token_id == token.id
            &&& target@ == token.target@
            &&& deadline == token.deadline
        },
        command matches DocumentTimeControlCommand::ConsumeCapture(request) ==> {
            &&& semantics.lost(failure) matches DocumentTimeControlReceiveOutcome::CommandOutcome(
                outcome,
            )
            &&& outcome matches DocumentTimeControlOutcome::CaptureConsumeOutcomeIndeterminate {
                candidate_id,
                ticket_id,
                target,
            }
            &&& candidate_id == request.precondition.id
            &&& ticket_id == request.ticket.id
            &&& target@ == request.precondition.target@
        },
{
}

/// An answer is given as it came, and nothing is announced. A missing one is announced where that was
/// asked for, and means what its command makes of it: that nothing was observed or prepared, which
/// can be tried again, or that it cannot be known whether a turn was processed. It is never taken for
/// a completed command.
pub proof fn law_missing_answers_mean_what_their_command_makes_of_them(
    receiver: DocumentTimeControlReceiver,
    command: DocumentTimeControlCommand,
    answer: DocumentTimeControlOutcome,
    error: TryReceiveError,
)
    requires
        receiver.transport_semantics.fits(command),
    ensures
        ({
            let answered = receiver.resolved(Ok(answer));
            let missed = receiver.resolved(Err(error));
            &&& answered.outcome == DocumentTimeControlReceiveOutcome::CommandOutcome(answer)
            &&& !answered.cancel
            &&& missed.cancel == receiver.cancellation
            &&& command is Observe <==> missed.outcome is ObserveTransportFailure
            &&& command is DriveOneTurn <==> missed.outcome is DriveOneTurnOutcomeIndeterminate
            &&& command is PrepareCapture <==> missed.outcome is CapturePreparationTransportFailure
            &&& missed.outcome matches DocumentTimeControlReceiveOutcome::CommandOutcome(outcome)
                ==> !(outcome is Completed) && !(outcome is Rejected)
        }),
{
}

/// Why an answer is missing is told apart: nothing came in time, the other end is gone, or what came
/// could not be read.
pub proof fn law_reasons_for_missing_answers_are_told_apart(
    error: TryReceiveError,
    other: TryReceiveError,
)
    ensures
        DocumentTimeControlTransportFailure::spec_of(error)
            == DocumentTimeControlTransportFailure::spec_of(other) ==> error == other,
        DocumentTimeControlTransportFailure::spec_of(error) is TimedOut <==> error is Empty,
        DocumentTimeControlTransportFailure::spec_of(error) is Disconnected <==> error
            is Disconnected,
{
}

/// Reasons why a document is not ready are told apart by their rank, and come in this order: from a
/// document that is not there, over loading and fonts, to images, rendering and canvases.
pub proof fn law_readiness_blockers_have_their_order(
    left: DocumentTimeReadinessBlocker,
    right: DocumentTimeReadinessBlocker,
)
    ensures
        left.spec_rank() == right.spec_rank() ==> left == right,
        DocumentTimeReadinessBlocker::DocumentUnavailable.spec_rank()
            < DocumentTimeReadinessBlocker::NotFullyActive.spec_rank()
            < DocumentTimeReadinessBlocker::Loading.spec_rank()
            < DocumentTimeReadinessBlocker::RenderBlocked.spec_rank()
            < DocumentTimeReadinessBlocker::WaitMarker.spec_rank()
            < DocumentTimeReadinessBlocker::FontsLoading.spec_rank()
            < DocumentTimeReadinessBlocker::FontReadyPromise.spec_rank()
            < DocumentTimeReadinessBlocker::LayoutImages.spec_rank()
            < DocumentTimeReadinessBlocker::RasterImages.spec_rank()
            < DocumentTimeReadinessBlocker::RenderingUpdate.spec_rank()
            < DocumentTimeReadinessBlocker::CanvasImageUpdates.spec_rank(),
{
}

} // verus!
