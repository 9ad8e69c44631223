//! What a capture is bound to: the candidate, the presentation it is matched with, and the commit.
use crate::canonical::{canonically_ordered, sort_canonically, CanonicalKey};
use crate::clock::{
    DocumentClockId, DocumentExecutionObservation, DocumentTime, TimerDeadlineSnapshot,
};
use crate::document_time::{
    DocumentTimeControlTarget, DocumentTimeProducerObservation, DocumentTimeReadinessBlocker,
};
use crate::generation_capture::blockers::DocumentCaptureBlocker;
use crate::generation_capture::snapshot::DocumentSettlementSourceSnapshot;
use crate::generation_capture::surface::DocumentCaptureSurfaceFingerprint;
use crate::ids::{Epoch, PipelineId};
use vstd::prelude::*;

verus! {

/// A capture candidate.
#[derive(Clone, Copy, Debug, PartialEq, Eq, Hash, Structural)]
pub struct DocumentCapturePreconditionId(pub u64);

impl DocumentCapturePreconditionId {
    pub fn new(sequence: u64) -> (id: Self)
        ensures
            id == DocumentCapturePreconditionId(sequence),
    {
        DocumentCapturePreconditionId(sequence)
    }

    pub fn get(self) -> (sequence: u64)
        ensures
            sequence == self.0,
    {
        self.0
    }
}

/// A reserved presentation.
#[derive(Clone, Copy, Debug, PartialEq, Eq, Hash, Structural)]
pub struct DocumentPaintPresentationTicketId(pub u64);

impl DocumentPaintPresentationTicketId {
    pub fn new(sequence: u64) -> (id: Self)
        ensures
            id == DocumentPaintPresentationTicketId(sequence),
    {
        DocumentPaintPresentationTicketId(sequence)
    }

    pub fn get(self) -> (sequence: u64)
        ensures
            sequence == self.0,
    {
        self.0
    }
}

/// The generation of one document that a capture is bound to.
#[derive(Clone, Debug, PartialEq, Eq, PartialOrd, Ord)]
pub struct DocumentCaptureDocumentEpoch {
    pub pipeline_id: PipelineId,
    pub script_rendering_epoch: Epoch,
    pub readiness_blockers: Vec<DocumentTimeReadinessBlocker>,
}

/// Blockers as integers: each place plus one, closed by a zero, so that a prefix comes first.
pub open spec fn blockers_key(blockers: Seq<DocumentTimeReadinessBlocker>) -> Seq<u128> {
    Seq::new(blockers.len(), |i: int| (blockers[i].rank() + 1) as u128).push(0)
}

impl CanonicalKey for DocumentCaptureDocumentEpoch {
    open spec fn order_key(&self) -> Seq<u128> {
        seq![self.pipeline_id.0 as u128, self.script_rendering_epoch.0 as u128] + blockers_key(
            self.readiness_blockers@,
        )
    }

    fn canonical_key(&self) -> (key: Vec<u128>) {
        let mut key: Vec<u128> = Vec::new();
        key.push(self.pipeline_id.0 as u128);
        key.push(self.script_rendering_epoch.0 as u128);
        let ghost before = key@;
        let mut index: usize = 0;
        while index < self.readiness_blockers.len()
            invariant
                index <= self.readiness_blockers@.len(),
                before == seq![
                    self.pipeline_id.0 as u128,
                    self.script_rendering_epoch.0 as u128,
                ],
                key@ == before + Seq::new(
                    index as nat,
                    |i: int| (self.readiness_blockers@[i].rank() + 1) as u128,
                ),
            decreases self.readiness_blockers.len() - index,
        {
            key.push(self.readiness_blockers[index].rank() + 1);
            index = index + 1;
            assert(key@ =~= before + Seq::new(
                index as nat,
                |i: int| (self.readiness_blockers@[i].rank() + 1) as u128,
            ));
        }
        key.push(0);
        assert(key@ =~= self.order_key());
        key
    }
}

/// A candidate for a capture: the exact state in which it was found.
#[derive(Clone, Debug, PartialEq, Eq)]
pub struct DocumentCapturePrecondition {
    pub id: DocumentCapturePreconditionId,
    pub target: DocumentTimeControlTarget,
    pub clock_id: DocumentClockId,
    pub now: DocumentTime,
    pub input_revision: u64,
    pub pending_events: u64,
    pub input_batch_saturated: bool,
    pub producers: DocumentTimeProducerObservation,
    pub execution: DocumentExecutionObservation,
    pub next_deadline: Option<TimerDeadlineSnapshot>,
    pub sources: DocumentSettlementSourceSnapshot,
    pub documents: Vec<DocumentCaptureDocumentEpoch>,
    pub surface: DocumentCaptureSurfaceFingerprint,
}

impl DocumentCapturePrecondition {
    /// A candidate; its documents are put into canonical order.
    pub fn new_internal(
        id: DocumentCapturePreconditionId,
        target: DocumentTimeControlTarget,
        clock_id: DocumentClockId,
        now: DocumentTime,
        input_revision: u64,
        pending_events: u64,
        input_batch_saturated: bool,
        producers: DocumentTimeProducerObservation,
        execution: DocumentExecutionObservation,
        next_deadline: Option<TimerDeadlineSnapshot>,
        sources: DocumentSettlementSourceSnapshot,
        documents: Vec<DocumentCaptureDocumentEpoch>,
        surface: DocumentCaptureSurfaceFingerprint,
    ) -> (value: Self)
        ensures
            value.id == id,
            value.target == target,
            value.clock_id == clock_id,
            value.now == now,
            value.input_revision == input_revision,
            value.pending_events == pending_events,
            value.input_batch_saturated == input_batch_saturated,
            value.producers == producers,
            value.execution == execution,
            value.next_deadline == next_deadline,
            value.sources == sources,
            canonically_ordered(value.documents@),
            value.documents@.to_multiset() == documents@.to_multiset(),
            value.surface == surface,
    {
        DocumentCapturePrecondition {
            id,
            target,
            clock_id,
            now,
            input_revision,
            pending_events,
            input_batch_saturated,
            producers,
            execution,
            next_deadline,
            sources,
            documents: sort_canonically(documents),
            surface,
        }
    }

    pub fn id(&self) -> (id: DocumentCapturePreconditionId)
        ensures
            id == self.id,
    {
        self.id
    }

    pub fn target(&self) -> (target: &DocumentTimeControlTarget)
        ensures
            *target == self.target,
    {
        &self.target
    }

    pub fn clock_id(&self) -> (clock_id: DocumentClockId)
        ensures
            clock_id == self.clock_id,
    {
        self.clock_id
    }

    pub fn now(&self) -> (now: DocumentTime)
        ensures
            now == self.now,
    {
        self.now
    }

    pub fn input_revision(&self) -> (input_revision: u64)
        ensures
            input_revision == self.input_revision,
    {
        self.input_revision
    }

    pub fn pending_events(&self) -> (pending_events: u64)
        ensures
            pending_events == self.pending_events,
    {
        self.pending_events
    }

    pub fn input_batch_saturated(&self) -> (input_batch_saturated: bool)
        ensures
            input_batch_saturated == self.input_batch_saturated,
    {
        self.input_batch_saturated
    }

    pub fn producers(&self) -> (producers: DocumentTimeProducerObservation)
        ensures
            producers == self.producers,
    {
        self.producers
    }

    pub fn execution(&self) -> (execution: DocumentExecutionObservation)
        ensures
            execution == self.execution,
    {
        self.execution
    }

    pub fn next_deadline(&self) -> (next_deadline: Option<TimerDeadlineSnapshot>)
        ensures
            next_deadline == self.next_deadline,
    {
        self.next_deadline
    }

    pub fn sources(&self) -> (sources: &DocumentSettlementSourceSnapshot)
        ensures
            *sources == self.sources,
    {
        &self.sources
    }

    pub fn documents(&self) -> (documents: &[DocumentCaptureDocumentEpoch])
        ensures
            documents@ == self.documents@,
    {
        self.documents.as_slice()
    }

    pub fn surface(&self) -> (surface: DocumentCaptureSurfaceFingerprint)
        ensures
            surface == self.surface,
    {
        self.surface
    }
}

/// A presentation that is reserved for one candidate.
#[derive(Clone, Debug, PartialEq, Eq)]
pub struct DocumentPaintPresentationTicket {
    pub id: DocumentPaintPresentationTicketId,
    pub candidate_id: DocumentCapturePreconditionId,
    pub target: DocumentTimeControlTarget,
    pub pipeline_id: PipelineId,
    pub script_rendering_epoch: Epoch,
    pub surface: DocumentCaptureSurfaceFingerprint,
    pub presentation_generation: u64,
    pub publish_generation: u64,
}

impl DocumentPaintPresentationTicket {
    pub fn new_internal(
        id: DocumentPaintPresentationTicketId,
        candidate_id: DocumentCapturePreconditionId,
        target: DocumentTimeControlTarget,
        pipeline_id: PipelineId,
        script_rendering_epoch: Epoch,
        surface: DocumentCaptureSurfaceFingerprint,
        presentation_generation: u64,
        publish_generation: u64,
    ) -> (value: Self)
        ensures
            value.id == id,
            value.candidate_id == candidate_id,
            value.target == target,
            value.pipeline_id == pipeline_id,
            value.script_rendering_epoch == script_rendering_epoch,
            value.surface == surface,
            value.presentation_generation == presentation_generation,
            value.publish_generation == publish_generation,
    {
        DocumentPaintPresentationTicket {
            id,
            candidate_id,
            target,
            pipeline_id,
            script_rendering_epoch,
            surface,
            presentation_generation,
            publish_generation,
        }
    }

    pub fn id(&self) -> (id: DocumentPaintPresentationTicketId)
        ensures
            id == self.id,
    {
        self.id
    }

    pub fn candidate_id(&self) -> (candidate_id: DocumentCapturePreconditionId)
        ensures
            candidate_id == self.candidate_id,
    {
        self.candidate_id
    }

    pub fn target(&self) -> (target: &DocumentTimeControlTarget)
        ensures
            *target == self.target,
    {
        &self.target
    }

    pub fn pipeline_id(&self) -> (pipeline_id: PipelineId)
        ensures
            pipeline_id == self.pipeline_id,
    {
        self.pipeline_id
    }

    pub fn script_rendering_epoch(&self) -> (script_rendering_epoch: Epoch)
        ensures
            script_rendering_epoch == self.script_rendering_epoch,
    {
        self.script_rendering_epoch
    }

    pub fn surface(&self) -> (surface: DocumentCaptureSurfaceFingerprint)
        ensures
            surface == self.surface,
    {
        self.surface
    }

    pub fn presentation_generation(&self) -> (presentation_generation: u64)
        ensures
            presentation_generation == self.presentation_generation,
    {
        self.presentation_generation
    }

    pub fn publish_generation(&self) -> (publish_generation: u64)
        ensures
            publish_generation == self.publish_generation,
    {
        self.publish_generation
    }
}

/// A request to consume a candidate against a presentation.
#[derive(Clone, Debug, PartialEq, Eq)]
pub struct DocumentCaptureConsumeRequest {
    pub precondition: Box<DocumentCapturePrecondition>,
    pub ticket: DocumentPaintPresentationTicket,
}

impl DocumentCaptureConsumeRequest {
    pub fn new_internal(
        precondition: Box<DocumentCapturePrecondition>,
        ticket: DocumentPaintPresentationTicket,
    ) -> (request: Self)
        ensures
            request.precondition == precondition,
            request.ticket == ticket,
    {
        DocumentCaptureConsumeRequest { precondition, ticket }
    }

    pub fn precondition(&self) -> (precondition: &DocumentCapturePrecondition)
        ensures
            *precondition == *self.precondition,
    {
        &self.precondition
    }

    pub fn ticket(&self) -> (ticket: &DocumentPaintPresentationTicket)
        ensures
            *ticket == self.ticket,
    {
        &self.ticket
    }
}

/// The consumption of a candidate, with the layout that was captured.
#[derive(Clone, Debug, PartialEq, Eq)]
pub struct DocumentCaptureCommit {
    pub candidate_id: DocumentCapturePreconditionId,
    pub ticket_id: DocumentPaintPresentationTicketId,
    pub target: DocumentTimeControlTarget,
    pub pipeline_id: PipelineId,
    pub script_rendering_epoch: Epoch,
    pub surface: DocumentCaptureSurfaceFingerprint,
    pub presentation_generation: u64,
    pub publish_generation: u64,
    pub layout_paint_epoch: Epoch,
    pub serialized_layout_snapshot: String,
}

impl DocumentCaptureCommit {
    pub fn new_internal(
        candidate_id: DocumentCapturePreconditionId,
        ticket_id: DocumentPaintPresentationTicketId,
        target: DocumentTimeControlTarget,
        pipeline_id: PipelineId,
        script_rendering_epoch: Epoch,
        surface: DocumentCaptureSurfaceFingerprint,
        presentation_generation: u64,
        publish_generation: u64,
        layout_paint_epoch: Epoch,
        serialized_layout_snapshot: String,
    ) -> (value: Self)
        ensures
            value.candidate_id == candidate_id,
            value.ticket_id == ticket_id,
            value.target == target,
            value.pipeline_id == pipeline_id,
            value.script_rendering_epoch == script_rendering_epoch,
            value.surface == surface,
            value.presentation_generation == presentation_generation,
            value.publish_generation == publish_generation,
            value.layout_paint_epoch == layout_paint_epoch,
            value.serialized_layout_snapshot == serialized_layout_snapshot,
    {
        DocumentCaptureCommit {
            candidate_id,
            ticket_id,
            target,
            pipeline_id,
            script_rendering_epoch,
            surface,
            presentation_generation,
            publish_generation,
            layout_paint_epoch,
            serialized_layout_snapshot,
        }
    }

    pub fn candidate_id(&self) -> (candidate_id: DocumentCapturePreconditionId)
        ensures
            candidate_id == self.candidate_id,
    {
        self.candidate_id
    }

    pub fn ticket_id(&self) -> (ticket_id: DocumentPaintPresentationTicketId)
        ensures
            ticket_id == self.ticket_id,
    {
        self.ticket_id
    }

    pub fn target(&self) -> (target: &DocumentTimeControlTarget)
        ensures
            *target == self.target,
    {
        &self.target
    }

    pub fn pipeline_id(&self) -> (pipeline_id: PipelineId)
        ensures
            pipeline_id == self.pipeline_id,
    {
        self.pipeline_id
    }

    pub fn script_rendering_epoch(&self) -> (script_rendering_epoch: Epoch)
        ensures
            script_rendering_epoch == self.script_rendering_epoch,
    {
        self.script_rendering_epoch
    }

    pub fn surface(&self) -> (surface: DocumentCaptureSurfaceFingerprint)
        ensures
            surface == self.surface,
    {
        self.surface
    }

    pub fn presentation_generation(&self) -> (presentation_generation: u64)
        ensures
            presentation_generation == self.presentation_generation,
    {
        self.presentation_generation
    }

    pub fn publish_generation(&self) -> (publish_generation: u64)
        ensures
            publish_generation == self.publish_generation,
    {
        self.publish_generation
    }

    pub fn layout_paint_epoch(&self) -> (layout_paint_epoch: Epoch)
        ensures
            layout_paint_epoch == self.layout_paint_epoch,
    {
        self.layout_paint_epoch
    }

    pub fn serialized_layout_snapshot(&self) -> (snapshot: &str)
        ensures
            snapshot@ == self.serialized_layout_snapshot@,
    {
        self.serialized_layout_snapshot.as_str()
    }
}

/// The result of a preparation: the reasons against a capture, and a candidate where there are
/// none.
#[derive(Clone, Debug, PartialEq, Eq)]
pub struct DocumentCapturePreparation {
    pub surface: DocumentCaptureSurfaceFingerprint,
    pub sources: DocumentSettlementSourceSnapshot,
    pub blockers: Vec<DocumentCaptureBlocker>,
    pub precondition: Option<Box<DocumentCapturePrecondition>>,
}

} // verus!
