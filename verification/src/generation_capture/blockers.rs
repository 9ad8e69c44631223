//! The reasons against a capture.
use crate::clock::DocumentExecutionObservation;
use crate::document_time::{
    DocumentProducerStability, DocumentTimeControlTarget, DocumentTimeDocumentObservation,
    DocumentTimeProducerObservation,
};
use crate::generation_capture::snapshot::DocumentSettlementSourceSnapshot;
use crate::generation_capture::sources::DocumentSettlementSourceDisposition;
use crate::generation_capture::surface::DocumentCaptureSurfaceFingerprint;
use vstd::prelude::*;

verus! {

/// A reason against a capture.
#[derive(Clone, Copy, Debug, PartialEq, Eq, PartialOrd, Ord, Hash, Structural)]
pub enum DocumentCaptureBlocker {
    MultipleFullyActivePipelines,
    PendingInput,
    InputBatchSaturated,
    ProducerNotStableEmpty,
    QuietCheckpointsUnqualified,
    ExecutionPolicyUnavailable,
    ExecutionTerminated,
    DocumentNotReady,
    DocumentEpochUnavailable,
    FiniteTimerDeadline,
    ActiveFiniteSource,
    OpenEndedSource,
    UnsupportedSource,
    InvalidSurface,
}

/// Which reasons there are.
#[derive(Clone, Copy, Debug, PartialEq, Eq, Structural)]
pub struct CaptureQualificationFacts {
    pub multiple_fully_active_pipelines: bool,
    pub pending_input: bool,
    pub input_batch_saturated: bool,
    pub producer_not_stable_empty: bool,
    pub quiet_checkpoints_unqualified: bool,
    pub execution_policy_unavailable: bool,
    pub execution_terminated: bool,
    pub document_not_ready: bool,
    pub document_epoch_unavailable: bool,
    pub finite_timer_deadline: bool,
    pub active_finite_source: bool,
    pub open_ended_source: bool,
    pub unsupported_source: bool,
    pub invalid_surface: bool,
}

impl DocumentCaptureBlocker {
    /// The place in the canonical order.
    pub open spec fn rank(self) -> int {
        match self {
            DocumentCaptureBlocker::MultipleFullyActivePipelines => 0,
            DocumentCaptureBlocker::PendingInput => 1,
            DocumentCaptureBlocker::InputBatchSaturated => 2,
            DocumentCaptureBlocker::ProducerNotStableEmpty => 3,
            DocumentCaptureBlocker::QuietCheckpointsUnqualified => 4,
            DocumentCaptureBlocker::ExecutionPolicyUnavailable => 5,
            DocumentCaptureBlocker::ExecutionTerminated => 6,
            DocumentCaptureBlocker::DocumentNotReady => 7,
            DocumentCaptureBlocker::DocumentEpochUnavailable => 8,
            DocumentCaptureBlocker::FiniteTimerDeadline => 9,
            DocumentCaptureBlocker::ActiveFiniteSource => 10,
            DocumentCaptureBlocker::OpenEndedSource => 11,
            DocumentCaptureBlocker::UnsupportedSource => 12,
            DocumentCaptureBlocker::InvalidSurface => 13,
        }
    }
}

impl Default for CaptureQualificationFacts {
    fn default() -> (facts: Self)
        ensures
            facts == (CaptureQualificationFacts {
                multiple_fully_active_pipelines: false,
                pending_input: false,
                input_batch_saturated: false,
                producer_not_stable_empty: false,
                quiet_checkpoints_unqualified: false,
                execution_policy_unavailable: false,
                execution_terminated: false,
                document_not_ready: false,
                document_epoch_unavailable: false,
                finite_timer_deadline: false,
                active_finite_source: false,
                open_ended_source: false,
                unsupported_source: false,
                invalid_surface: false,
            }),
    {
        CaptureQualificationFacts {
            multiple_fully_active_pipelines: false,
            pending_input: false,
            input_batch_saturated: false,
            producer_not_stable_empty: false,
            quiet_checkpoints_unqualified: false,
            execution_policy_unavailable: false,
            execution_terminated: false,
            document_not_ready: false,
            document_epoch_unavailable: false,
            finite_timer_deadline: false,
            active_finite_source: false,
            open_ended_source: false,
            unsupported_source: false,
            invalid_surface: false,
        }
    }
}

impl CaptureQualificationFacts {
    /// There is this reason.
    pub open spec fn present(self, blocker: DocumentCaptureBlocker) -> bool {
        match blocker {
            DocumentCaptureBlocker::MultipleFullyActivePipelines => self.multiple_fully_active_pipelines,
            DocumentCaptureBlocker::PendingInput => self.pending_input,
            DocumentCaptureBlocker::InputBatchSaturated => self.input_batch_saturated,
            DocumentCaptureBlocker::ProducerNotStableEmpty => self.producer_not_stable_empty,
            DocumentCaptureBlocker::QuietCheckpointsUnqualified => self.quiet_checkpoints_unqualified,
            DocumentCaptureBlocker::ExecutionPolicyUnavailable => self.execution_policy_unavailable,
            DocumentCaptureBlocker::ExecutionTerminated => self.execution_terminated,
            DocumentCaptureBlocker::DocumentNotReady => self.document_not_ready,
            DocumentCaptureBlocker::DocumentEpochUnavailable => self.document_epoch_unavailable,
            DocumentCaptureBlocker::FiniteTimerDeadline => self.finite_timer_deadline,
            DocumentCaptureBlocker::ActiveFiniteSource => self.active_finite_source,
            DocumentCaptureBlocker::OpenEndedSource => self.open_ended_source,
            DocumentCaptureBlocker::UnsupportedSource => self.unsupported_source,
            DocumentCaptureBlocker::InvalidSurface => self.invalid_surface,
        }
    }

    /// The reasons among the first `count` of the canonical order, in that order.
    pub open spec fn listed(self, count: int) -> Seq<DocumentCaptureBlocker>
        decreases count,
    {
        if count <= 0 {
            Seq::empty()
        } else {
            let before = self.listed(count - 1);
            let blocker = blocker_at(count - 1);
            if self.present(blocker) {
                before.push(blocker)
            } else {
                before
            }
        }
    }

    /// The reasons there are, in canonical order.
    pub fn blockers(self) -> (blockers: Vec<DocumentCaptureBlocker>)
        ensures
            blockers@ == self.listed(14),
    {
        let mut blockers: Vec<DocumentCaptureBlocker> = Vec::new();
        assert(blockers@ == self.listed(0));
        if self.multiple_fully_active_pipelines {
            blockers.push(DocumentCaptureBlocker::MultipleFullyActivePipelines);
        }
        assert(blockers@ == self.listed(1));
        if self.pending_input {
            blockers.push(DocumentCaptureBlocker::PendingInput);
        }
        assert(blockers@ == self.listed(2));
        if self.input_batch_saturated {
            blockers.push(DocumentCaptureBlocker::InputBatchSaturated);
        }
        assert(blockers@ == self.listed(3));
        if self.producer_not_stable_empty {
            blockers.push(DocumentCaptureBlocker::ProducerNotStableEmpty);
        }
        assert(blockers@ == self.listed(4));
        if self.quiet_checkpoints_unqualified {
            blockers.push(DocumentCaptureBlocker::QuietCheckpointsUnqualified);
        }
        assert(blockers@ == self.listed(5));
        if self.execution_policy_unavailable {
            blockers.push(DocumentCaptureBlocker::ExecutionPolicyUnavailable);
        }
        assert(blockers@ == self.listed(6));
        if self.execution_terminated {
            blockers.push(DocumentCaptureBlocker::ExecutionTerminated);
        }
        assert(blockers@ == self.listed(7));
        if self.document_not_ready {
            blockers.push(DocumentCaptureBlocker::DocumentNotReady);
        }
        assert(blockers@ == self.listed(8));
        if self.document_epoch_unavailable {
            blockers.push(DocumentCaptureBlocker::DocumentEpochUnavailable);
        }
        assert(blockers@ == self.listed(9));
        if self.finite_timer_deadline {
            blockers.push(DocumentCaptureBlocker::FiniteTimerDeadline);
        }
        assert(blockers@ == self.listed(10));
        if self.active_finite_source {
            blockers.push(DocumentCaptureBlocker::ActiveFiniteSource);
        }
        assert(blockers@ == self.listed(11));
        if self.open_ended_source {
            blockers.push(DocumentCaptureBlocker::OpenEndedSource);
        }
        assert(blockers@ == self.listed(12));
        if self.unsupported_source {
            blockers.push(DocumentCaptureBlocker::UnsupportedSource);
        }
        assert(blockers@ == self.listed(13));
        if self.invalid_surface {
            blockers.push(DocumentCaptureBlocker::InvalidSurface);
        }
        assert(blockers@ == self.listed(14));
        blockers
    }
}

/// The reason at a place of the canonical order.
pub open spec fn blocker_at(rank: int) -> DocumentCaptureBlocker {
    if rank == 0 {
        DocumentCaptureBlocker::MultipleFullyActivePipelines
    } else if rank == 1 {
        DocumentCaptureBlocker::PendingInput
    } else if rank == 2 {
        DocumentCaptureBlocker::InputBatchSaturated
    } else if rank == 3 {
        DocumentCaptureBlocker::ProducerNotStableEmpty
    } else if rank == 4 {
        DocumentCaptureBlocker::QuietCheckpointsUnqualified
    } else if rank == 5 {
        DocumentCaptureBlocker::ExecutionPolicyUnavailable
    } else if rank == 6 {
        DocumentCaptureBlocker::ExecutionTerminated
    } else if rank == 7 {
        DocumentCaptureBlocker::DocumentNotReady
    } else if rank == 8 {
        DocumentCaptureBlocker::DocumentEpochUnavailable
    } else if rank == 9 {
        DocumentCaptureBlocker::FiniteTimerDeadline
    } else if rank == 10 {
        DocumentCaptureBlocker::ActiveFiniteSource
    } else if rank == 11 {
        DocumentCaptureBlocker::OpenEndedSource
    } else if rank == 12 {
        DocumentCaptureBlocker::UnsupportedSource
    } else {
        DocumentCaptureBlocker::InvalidSurface
    }
}

proof fn lemma_listed(facts: CaptureQualificationFacts, count: int)
    requires
        0 <= count <= 14,
    ensures
        forall|blocker: DocumentCaptureBlocker|
            #[trigger] facts.listed(count).contains(blocker) <==> facts.present(blocker)
                && blocker.rank() < count,
        forall|i: int, j: int|
            0 <= i < j < facts.listed(count).len() ==> (#[trigger] facts.listed(count)[i]).rank()
                < (#[trigger] facts.listed(count)[j]).rank(),
    decreases count,
{
    if count > 0 {
        lemma_listed(facts, count - 1);
        let before = facts.listed(count - 1);
        let after = facts.listed(count);
        let blocker = blocker_at(count - 1);
        assert(blocker.rank() == count - 1);
        assert forall|other: DocumentCaptureBlocker| #[trigger] after.contains(
            other,
        ) <==> facts.present(other) && other.rank() < count by {
            if other.rank() == count - 1 {
                assert(other == blocker);
            }
            if before.contains(other) {
                let i = choose|i: int| 0 <= i < before.len() && before[i] == other;
                assert(after[i] == other);
            }
            if facts.present(blocker) {
                assert(after[before.len() as int] == blocker);
            }
            if after.contains(other) && other != blocker {
                let i = choose|i: int| 0 <= i < after.len() && after[i] == other;
                assert(before[i] == other);
            }
        }
        assert forall|i: int, j: int| 0 <= i < j < after.len() implies (
        #[trigger] after[i]).rank() < (#[trigger] after[j]).rank() by {
            if j == before.len() {
                assert(before.contains(before[i]));
            }
        }
    }
}

/// The reasons are complete and canonical: the list holds exactly those there are, each once, in
/// the fixed order.
pub proof fn law_blockers_are_canonical_and_complete(facts: CaptureQualificationFacts)
    ensures
        forall|blocker: DocumentCaptureBlocker|
            #[trigger] facts.listed(14).contains(blocker) <==> facts.present(blocker),
        forall|i: int, j: int|
            0 <= i < j < facts.listed(14).len() ==> (#[trigger] facts.listed(14)[i]).rank() < (
            #[trigger] facts.listed(14)[j]).rank(),
{
    lemma_listed(facts, 14);
}

pub open spec fn prepared_producers(
    producers: DocumentTimeProducerObservation,
    quiet_checkpoints_qualified: bool,
) -> DocumentTimeProducerObservation {
    if quiet_checkpoints_qualified && producers.snapshot.is_empty() && (producers.stability
        is StableEmpty || producers.stability is UnchangedCheckpoint) {
        DocumentTimeProducerObservation {
            stability: DocumentProducerStability::StableEmpty,
            ..producers
        }
    } else {
        producers
    }
}

/// The producers of a preparation, which takes no checkpoint of its own: what two earlier fresh
/// checkpoints qualified stays stable; nothing else becomes so.
pub fn capture_producers_internal(
    producers: DocumentTimeProducerObservation,
    quiet_checkpoints_qualified: bool,
) -> (observed: DocumentTimeProducerObservation)
    ensures
        observed == prepared_producers(producers, quiet_checkpoints_qualified),
{
    if quiet_checkpoints_qualified && producers.snapshot.is_empty() && (producers.stability
        == DocumentProducerStability::StableEmpty || producers.stability
        == DocumentProducerStability::UnchangedCheckpoint) {
        DocumentTimeProducerObservation {
            stability: DocumentProducerStability::StableEmpty,
            ..producers
        }
    } else {
        producers
    }
}

/// A document is not ready.
pub open spec fn some_document_blocked(documents: Seq<DocumentTimeDocumentObservation>) -> bool {
    exists|i: int|
        0 <= i < documents.len() && (#[trigger] documents[i]).readiness_blockers@.len() > 0
}

/// A document has not been rendered.
pub open spec fn some_document_unrendered(documents: Seq<DocumentTimeDocumentObservation>) -> bool {
    exists|i: int|
        0 <= i < documents.len() && (#[trigger] documents[i]).script_rendering_epoch is None
}

fn document_faults(documents: &[DocumentTimeDocumentObservation]) -> (faults: (bool, bool))
    ensures
        faults == (some_document_blocked(documents@), some_document_unrendered(documents@)),
{
    let mut blocked = false;
    let mut unrendered = false;
    let mut index: usize = 0;
    while index < documents.len()
        invariant
            index <= documents@.len(),
            blocked == exists|i: int|
                0 <= i < index && (#[trigger] documents@[i]).readiness_blockers@.len() > 0,
            unrendered == exists|i: int|
                0 <= i < index && (#[trigger] documents@[i]).script_rendering_epoch is None,
        decreases documents.len() - index,
    {
        let document = &documents[index];
        assert(*document == documents@[index as int]);
        if document.readiness_blockers.len() > 0 {
            blocked = true;
        }
        if document.script_rendering_epoch.is_none() {
            unrendered = true;
        }
        index = index + 1;
    }
    (blocked, unrendered)
}

/// Which reasons there are in an observation.
pub open spec fn qualification_facts(
    target: DocumentTimeControlTarget,
    surface: DocumentCaptureSurfaceFingerprint,
    pending_events: u64,
    input_batch_saturated: bool,
    producers: DocumentTimeProducerObservation,
    documents: Seq<DocumentTimeDocumentObservation>,
    execution: Option<DocumentExecutionObservation>,
    has_finite_timer_deadline: bool,
    sources: DocumentSettlementSourceSnapshot,
    quiet_checkpoints_qualified: bool,
) -> CaptureQualificationFacts {
    CaptureQualificationFacts {
        multiple_fully_active_pipelines: target.fully_active_pipelines@.len() != 1,
        pending_input: pending_events != 0,
        input_batch_saturated,
        producer_not_stable_empty: !(producers.stability is StableEmpty)
            || !producers.snapshot.is_empty(),
        quiet_checkpoints_unqualified: !quiet_checkpoints_qualified,
        execution_policy_unavailable: execution is None,
        execution_terminated: execution matches Some(observation) && observation.terminal is Some,
        document_not_ready: some_document_blocked(documents),
        document_epoch_unavailable: some_document_unrendered(documents),
        finite_timer_deadline: has_finite_timer_deadline,
        active_finite_source: sources.finite_work(),
        open_ended_source: sources.open_ended_work(),
        unsupported_source: sources.unsupported_work(),
        invalid_surface: surface.validity() is Err,
    }
}

/// The reasons against a capture in one observation, in canonical order.
pub fn capture_blockers_internal(
    target: &DocumentTimeControlTarget,
    surface: &DocumentCaptureSurfaceFingerprint,
    pending_events: u64,
    input_batch_saturated: bool,
    producers: DocumentTimeProducerObservation,
    documents: &[DocumentTimeDocumentObservation],
    execution: Option<DocumentExecutionObservation>,
    has_finite_timer_deadline: bool,
    sources: &DocumentSettlementSourceSnapshot,
    quiet_checkpoints_qualified: bool,
) -> (blockers: Vec<DocumentCaptureBlocker>)
    ensures
        blockers@ == qualification_facts(
            *target,
            *surface,
            pending_events,
            input_batch_saturated,
            producers,
            documents@,
            execution,
            has_finite_timer_deadline,
            *sources,
            quiet_checkpoints_qualified,
        ).listed(14),
{
    let (document_not_ready, document_epoch_unavailable) = document_faults(documents);
    let (active_finite_source, open_ended_source, unsupported_source) = sources.remaining_work();
    let execution_terminated = match execution {
        Some(observation) => observation.terminal.is_some(),
        None => false,
    };
    let facts = CaptureQualificationFacts {
        multiple_fully_active_pipelines: target.fully_active_pipelines.len() != 1,
        pending_input: pending_events != 0,
        input_batch_saturated,
        producer_not_stable_empty: producers.stability != DocumentProducerStability::StableEmpty
            || !producers.snapshot.is_empty(),
        quiet_checkpoints_unqualified: !quiet_checkpoints_qualified,
        execution_policy_unavailable: execution.is_none(),
        execution_terminated,
        document_not_ready,
        document_epoch_unavailable,
        finite_timer_deadline: has_finite_timer_deadline,
        active_finite_source,
        open_ended_source,
        unsupported_source,
        invalid_surface: surface.validate().is_err(),
    };
    facts.blockers()
}

/// Each reason is given exactly where an observation has it, and no reason is given twice. So a
/// document may be captured only where it is the one active document, nothing is left to take in,
/// no producer is live, execution goes on, every document is ready and rendered, no timer and no
/// source has work left, and the surface can be rasterized.
pub proof fn law_each_reason_stands_for_its_fault(
    target: DocumentTimeControlTarget,
    surface: DocumentCaptureSurfaceFingerprint,
    pending_events: u64,
    input_batch_saturated: bool,
    producers: DocumentTimeProducerObservation,
    documents: Seq<DocumentTimeDocumentObservation>,
    execution: Option<DocumentExecutionObservation>,
    has_finite_timer_deadline: bool,
    sources: DocumentSettlementSourceSnapshot,
    quiet_checkpoints_qualified: bool,
)
    ensures
        ({
            let reasons = qualification_facts(
                target,
                surface,
                pending_events,
                input_batch_saturated,
                producers,
                documents,
                execution,
                has_finite_timer_deadline,
                sources,
                quiet_checkpoints_qualified,
            ).listed(14);
            let rect = surface.capture_rect;
            let work = sources.sources@;
            &&& reasons.no_duplicates()
            &&& reasons.contains(DocumentCaptureBlocker::MultipleFullyActivePipelines)
                <==> target.fully_active_pipelines@.len() != 1
            &&& reasons.contains(DocumentCaptureBlocker::PendingInput) <==> pending_events > 0
            &&& reasons.contains(DocumentCaptureBlocker::InputBatchSaturated)
                <==> input_batch_saturated
            &&& reasons.contains(DocumentCaptureBlocker::ProducerNotStableEmpty)
                <==> producers.stability != DocumentProducerStability::StableEmpty
                || producers.snapshot.pending > 0
            &&& reasons.contains(DocumentCaptureBlocker::QuietCheckpointsUnqualified)
                <==> !quiet_checkpoints_qualified
            &&& reasons.contains(DocumentCaptureBlocker::ExecutionPolicyUnavailable)
                <==> execution is None
            &&& reasons.contains(DocumentCaptureBlocker::ExecutionTerminated) <==> execution is Some
                && execution->0.terminal is Some
            &&& reasons.contains(DocumentCaptureBlocker::DocumentNotReady) <==> exists|i: int|
                0 <= i < documents.len() && (#[trigger] documents[i]).readiness_blockers@.len() > 0
            &&& reasons.contains(DocumentCaptureBlocker::DocumentEpochUnavailable)
                <==> exists|i: int|
                0 <= i < documents.len() && (#[trigger] documents[i]).script_rendering_epoch is None
            &&& reasons.contains(DocumentCaptureBlocker::FiniteTimerDeadline)
                <==> has_finite_timer_deadline
            &&& reasons.contains(DocumentCaptureBlocker::ActiveFiniteSource) <==> exists|i: int|
                0 <= i < work.len() && match (#[trigger] work[i]).disposition {
                    DocumentSettlementSourceDisposition::FiniteDeadline(_) => true,
                    DocumentSettlementSourceDisposition::FiniteRenderingOpportunity => true,
                    _ => false,
                }
            &&& reasons.contains(DocumentCaptureBlocker::OpenEndedSource) <==> exists|i: int|
                0 <= i < work.len() && (#[trigger] work[i]).disposition is OpenEnded
            &&& reasons.contains(DocumentCaptureBlocker::UnsupportedSource) <==> exists|i: int|
                0 <= i < work.len() && (#[trigger] work[i]).disposition is Unsupported
            &&& reasons.contains(DocumentCaptureBlocker::InvalidSurface) <==> !(0 <= rect.min_x
                < rect.max_x <= surface.viewport.width && 0 <= rect.min_y < rect.max_y
                <= surface.viewport.height && 0 < surface.device_pixel_scale_bits < 0x7f80_0000)
        }),
{
    let facts = qualification_facts(
        target,
        surface,
        pending_events,
        input_batch_saturated,
        producers,
        documents,
        execution,
        has_finite_timer_deadline,
        sources,
        quiet_checkpoints_qualified,
    );
    lemma_listed(facts, 14);
    let reasons = facts.listed(14);
    let work = sources.sources@;
    assert forall|i: int, j: int| 0 <= i < reasons.len() && 0 <= j < reasons.len() && i
        != j implies reasons[i] != reasons[j] by {
        if i < j {
            assert(reasons[i].rank() < reasons[j].rank());
        } else {
            assert(reasons[j].rank() < reasons[i].rank());
        }
    }
    let finite = exists|i: int|
        0 <= i < work.len() && match (#[trigger] work[i]).disposition {
            DocumentSettlementSourceDisposition::FiniteDeadline(_) => true,
            DocumentSettlementSourceDisposition::FiniteRenderingOpportunity => true,
            _ => false,
        };
    if finite {
        let i = choose|i: int|
            0 <= i < work.len() && match (#[trigger] work[i]).disposition {
                DocumentSettlementSourceDisposition::FiniteDeadline(_) => true,
                DocumentSettlementSourceDisposition::FiniteRenderingOpportunity => true,
                _ => false,
            };
        assert(sources.sources@[i].disposition is FiniteDeadline
            || sources.sources@[i].disposition is FiniteRenderingOpportunity);
    }
    if facts.active_finite_source {
        let i = choose|i: int|
            0 <= i < sources.sources@.len() && ((#[trigger] sources.sources@[i]).disposition
                is FiniteDeadline || sources.sources@[i].disposition
                is FiniteRenderingOpportunity);
        assert(match work[i].disposition {
            DocumentSettlementSourceDisposition::FiniteDeadline(_) => true,
            DocumentSettlementSourceDisposition::FiniteRenderingOpportunity => true,
            _ => false,
        });
    }
}

/// The reasons come in one fixed order, from the pipelines and the input over the producers, the
/// execution, the documents and the sources to the surface.
pub proof fn law_reasons_come_in_order(facts: CaptureQualificationFacts, i: int, j: int)
    requires
        0 <= i < j < facts.listed(14).len(),
    ensures
        match facts.listed(14)[j] {
            DocumentCaptureBlocker::MultipleFullyActivePipelines => false,
            DocumentCaptureBlocker::PendingInput => facts.listed(14)[i]
                is MultipleFullyActivePipelines,
            DocumentCaptureBlocker::InputBatchSaturated => facts.listed(14)[i]
                is MultipleFullyActivePipelines || facts.listed(14)[i] is PendingInput,
            DocumentCaptureBlocker::ProducerNotStableEmpty => facts.listed(14)[i]
                is MultipleFullyActivePipelines || facts.listed(14)[i] is PendingInput
                || facts.listed(14)[i] is InputBatchSaturated,
            DocumentCaptureBlocker::QuietCheckpointsUnqualified => facts.listed(14)[i]
                is MultipleFullyActivePipelines || facts.listed(14)[i] is PendingInput
                || facts.listed(14)[i] is InputBatchSaturated || facts.listed(14)[i]
                is ProducerNotStableEmpty,
            DocumentCaptureBlocker::ExecutionPolicyUnavailable => facts.listed(14)[i]
                is MultipleFullyActivePipelines || facts.listed(14)[i] is PendingInput
                || facts.listed(14)[i] is InputBatchSaturated || facts.listed(14)[i]
                is ProducerNotStableEmpty || facts.listed(14)[i] is QuietCheckpointsUnqualified,
            DocumentCaptureBlocker::ExecutionTerminated => facts.listed(14)[i]
                is MultipleFullyActivePipelines || facts.listed(14)[i] is PendingInput
                || facts.listed(14)[i] is InputBatchSaturated || facts.listed(14)[i]
                is ProducerNotStableEmpty || facts.listed(14)[i] is QuietCheckpointsUnqualified
                || facts.listed(14)[i] is ExecutionPolicyUnavailable,
            DocumentCaptureBlocker::DocumentNotReady => !(facts.listed(14)[i]
                is DocumentEpochUnavailable || facts.listed(14)[i] is FiniteTimerDeadline
                || facts.listed(14)[i] is ActiveFiniteSource || facts.listed(14)[i]
                is OpenEndedSource || facts.listed(14)[i] is UnsupportedSource
                || facts.listed(14)[i] is InvalidSurface),
            DocumentCaptureBlocker::DocumentEpochUnavailable => !(facts.listed(14)[i]
                is FiniteTimerDeadline || facts.listed(14)[i] is ActiveFiniteSource
                || facts.listed(14)[i] is OpenEndedSource || facts.listed(14)[i]
                is UnsupportedSource || facts.listed(14)[i] is InvalidSurface),
            DocumentCaptureBlocker::FiniteTimerDeadline => !(facts.listed(14)[i]
                is ActiveFiniteSource || facts.listed(14)[i] is OpenEndedSource
                || facts.listed(14)[i] is UnsupportedSource || facts.listed(14)[i]
                is InvalidSurface),
            DocumentCaptureBlocker::ActiveFiniteSource => !(facts.listed(14)[i] is OpenEndedSource
                || facts.listed(14)[i] is UnsupportedSource || facts.listed(14)[i]
                is InvalidSurface),
            DocumentCaptureBlocker::OpenEndedSource => !(facts.listed(14)[i] is UnsupportedSource
                || facts.listed(14)[i] is InvalidSurface),
            DocumentCaptureBlocker::UnsupportedSource => !(facts.listed(14)[i] is InvalidSurface),
            DocumentCaptureBlocker::InvalidSurface => true,
        },
{
    lemma_listed(facts, 14);
}

/// A preparation makes producers stable only where two earlier fresh checkpoints qualified them and
/// none is live, and where they were stable or only the checkpoint was not fresh. It changes nothing
/// else of them.
pub proof fn law_preparation_makes_nothing_stable(
    producers: DocumentTimeProducerObservation,
    quiet_checkpoints_qualified: bool,
)
    ensures
        ({
            let observed = prepared_producers(producers, quiet_checkpoints_qualified);
            &&& observed.fence_id == producers.fence_id
            &&& observed.checkpoint == producers.checkpoint
            &&& observed.snapshot == producers.snapshot
            &&& producers.stability is StableEmpty ==> observed.stability is StableEmpty
            &&& !(producers.stability is UnchangedCheckpoint) ==> observed.stability
                == producers.stability
            &&& producers.stability is UnchangedCheckpoint ==> (observed.stability is StableEmpty
                <==> quiet_checkpoints_qualified && producers.snapshot.pending == 0)
            &&& !(observed.stability is StableEmpty) ==> observed == producers
        }),
{
}

} // verus!
