//! The paint side of a controlled capture: what must hold before a frame is read, and the ledger of
//! the one reservation that a framebuffer has.
use crate::document_time::DocumentTimeControlTarget;
use crate::generation_capture::protocol::DocumentPaintPresentationTicket;
use crate::ids::{PipelineId, WebViewId};
use vstd::prelude::*;

verus! {

/// What may come true once more paint work is done.
#[derive(Clone, Copy, Debug, PartialEq, Eq, Structural)]
pub enum ControlledDocumentCaptureRetry {
    /// The display list or the frame is still to come.
    FramePending,
    /// The framebuffer holds another reservation.
    ReservationOccupied,
}

/// What waiting on the same candidate cannot repair.
#[derive(Clone, Copy, Debug, PartialEq, Eq, Structural)]
pub enum ControlledDocumentCaptureFailure {
    /// Paint is shutting down.
    ShuttingDown,
    /// The web view is gone.
    WebViewDoesNotExist,
    /// The candidate has more than a single root.
    InvalidPrecondition,
    /// The candidate names another web view.
    WebViewMismatch,
    /// The current root is not the candidate's.
    RootPipelineMismatch,
    /// Another visible web view shares the framebuffer.
    SharedFramebufferMismatch,
    /// The raster surface is not the candidate's.
    SurfaceMismatch,
    /// A display list newer than the candidate has arrived.
    NewerDisplayListEpoch,
    /// The renderer does not present the candidate's epoch.
    RendererEpochMismatch,
    /// The reserved frame could not be rendered.
    RenderFailed,
    /// A paint-timing entry could not be queued.
    PaintMetricDispatchFailed,
    /// An animation, caret, animation-frame request or scroll can change pixels.
    AnimationActive,
    /// Publish notifications were missing or out of order.
    PublishGenerationAmbiguous,
    /// The presentation revision cannot advance.
    PresentationRevisionOverflow,
    /// There is no reservation, or it has been used.
    TicketNotReserved,
    /// The ticket is not the one that was reserved.
    TicketMismatch,
    /// The commit does not belong to the ticket.
    CommitMismatch,
    /// Something was painted after the ticket was issued.
    PresentationInvalidated,
    /// The rendering context could not be made current.
    RenderingContextUnavailable,
    /// The framebuffer could not be read.
    ReadbackFailed,
}

/// Why a reservation or a finalization did not succeed.
#[derive(Clone, Copy, Debug, PartialEq, Eq, Structural)]
pub enum ControlledDocumentCaptureError {
    /// The same operation may be tried again.
    Retryable(ControlledDocumentCaptureRetry),
    /// The candidate or ticket must be discarded.
    Terminal(ControlledDocumentCaptureFailure),
}

/// Result of a step of a controlled capture.
pub type ControlledDocumentCaptureResult<T> = Result<T, ControlledDocumentCaptureError>;

/// Result of reserving a presentation.
#[derive(Clone, Debug, PartialEq, Eq)]
pub enum ControlledDocumentCaptureReservation {
    /// Paint-timing work was queued; the document must settle again first.
    DocumentWorkQueued,
    /// One presentation is reserved.
    Reserved(DocumentPaintPresentationTicket),
}

pub open spec fn spec_frame_pending() -> ControlledDocumentCaptureError {
    ControlledDocumentCaptureError::Retryable(ControlledDocumentCaptureRetry::FramePending)
}

#[verifier::when_used_as_spec(spec_frame_pending)]
pub fn frame_pending() -> (error: ControlledDocumentCaptureError)
    ensures
        error == spec_frame_pending(),
{
    ControlledDocumentCaptureError::Retryable(ControlledDocumentCaptureRetry::FramePending)
}

pub open spec fn spec_terminal(
    failure: ControlledDocumentCaptureFailure,
) -> ControlledDocumentCaptureError {
    ControlledDocumentCaptureError::Terminal(failure)
}

#[verifier::when_used_as_spec(spec_terminal)]
pub fn terminal(failure: ControlledDocumentCaptureFailure) -> (error:
    ControlledDocumentCaptureError)
    ensures
        error == spec_terminal(failure),
{
    ControlledDocumentCaptureError::Terminal(failure)
}

/// What comes of an epoch, where exactly one is wanted: one that is missing or behind can still
/// catch up, one that is ahead has missed the candidate for good.
pub open spec fn epoch_outcome(
    actual: Option<u32>,
    expected: u32,
    ahead: ControlledDocumentCaptureFailure,
) -> ControlledDocumentCaptureResult<()> {
    match actual {
        None => Err(frame_pending()),
        Some(actual) => if actual == expected {
            Ok(())
        } else if actual < expected {
            Err(frame_pending())
        } else {
            Err(terminal(ahead))
        },
    }
}

/// The display list has exactly the wanted epoch.
pub fn require_exact_epoch(actual: Option<u32>, expected: u32) -> (result:
    ControlledDocumentCaptureResult<()>)
    ensures
        result == epoch_outcome(
            actual,
            expected,
            ControlledDocumentCaptureFailure::NewerDisplayListEpoch,
        ),
{
    match actual {
        None => Err(frame_pending()),
        Some(actual) => {
            if actual == expected {
                Ok(())
            } else if actual < expected {
                Err(frame_pending())
            } else {
                Err(terminal(ControlledDocumentCaptureFailure::NewerDisplayListEpoch))
            }
        },
    }
}

/// The renderer presents exactly the wanted epoch.
pub fn require_exact_renderer_epoch(actual: Option<u32>, expected: u32) -> (result:
    ControlledDocumentCaptureResult<()>)
    ensures
        result == epoch_outcome(
            actual,
            expected,
            ControlledDocumentCaptureFailure::RendererEpochMismatch,
        ),
{
    match actual {
        None => Err(frame_pending()),
        Some(actual) => {
            if actual == expected {
                Ok(())
            } else if actual < expected {
                Err(frame_pending())
            } else {
                Err(terminal(ControlledDocumentCaptureFailure::RendererEpochMismatch))
            }
        },
    }
}

/// What comes of the root and the surface, which must be the candidate's.
pub open spec fn root_and_surface_outcome(
    root_matches: bool,
    surface_matches: bool,
) -> ControlledDocumentCaptureResult<()> {
    if !root_matches {
        Err(terminal(ControlledDocumentCaptureFailure::RootPipelineMismatch))
    } else if !surface_matches {
        Err(terminal(ControlledDocumentCaptureFailure::SurfaceMismatch))
    } else {
        Ok(())
    }
}

/// What comes of frames that are to come and of animations, of which there must be none.
pub open spec fn stillness_outcome(
    pending: bool,
    animation: bool,
) -> ControlledDocumentCaptureResult<()> {
    if pending {
        Err(frame_pending())
    } else if animation {
        Err(terminal(ControlledDocumentCaptureFailure::AnimationActive))
    } else {
        Ok(())
    }
}

/// Root and surface are the candidate's.
pub fn require_root_and_surface(root_matches: bool, surface_matches: bool) -> (result:
    ControlledDocumentCaptureResult<()>)
    ensures
        result == root_and_surface_outcome(root_matches, surface_matches),
        result == (if !root_matches {
            Err(terminal(ControlledDocumentCaptureFailure::RootPipelineMismatch))
        } else if !surface_matches {
            Err(terminal(ControlledDocumentCaptureFailure::SurfaceMismatch))
        } else {
            Ok(())
        }),
{
    if !root_matches {
        return Err(terminal(ControlledDocumentCaptureFailure::RootPipelineMismatch));
    }
    if !surface_matches {
        return Err(terminal(ControlledDocumentCaptureFailure::SurfaceMismatch));
    }
    Ok(())
}

/// No frame is to come and nothing animates.
pub fn require_no_pending_or_animation(pending: bool, animation: bool) -> (result:
    ControlledDocumentCaptureResult<()>)
    ensures
        result == stillness_outcome(pending, animation),
        result == (if pending {
            Err(frame_pending())
        } else if animation {
            Err(terminal(ControlledDocumentCaptureFailure::AnimationActive))
        } else {
            Ok(())
        }),
{
    if pending {
        return Err(frame_pending());
    }
    if animation {
        return Err(terminal(ControlledDocumentCaptureFailure::AnimationActive));
    }
    Ok(())
}

/// Performs what cannot be undone only after everything has been validated, on what the validation
/// gave; a validation that fails is the result.
pub fn perform_after_validation<
    V,
    R,
    F: FnOnce() -> ControlledDocumentCaptureResult<V>,
    G: FnOnce(V) -> ControlledDocumentCaptureResult<R>,
>(validate: F, operation: G) -> (result: ControlledDocumentCaptureResult<R>)
    requires
        call_requires(validate, ()),
        forall|validated: V|
            call_ensures(validate, (), Ok(validated)) ==> #[trigger] call_requires(
                operation,
                (validated,),
            ),
    ensures
        exists|validity: ControlledDocumentCaptureResult<V>|
            {
                &&& #[trigger] call_ensures(validate, (), validity)
                &&& match validity {
                    Ok(validated) => call_ensures(operation, (validated,), result),
                    Err(error) => result == Err::<R, _>(error),
                }
            },
{
    match validate() {
        Ok(validated) => operation(validated),
        Err(error) => Err(error),
    }
}

/// What can be reserved: a ticket is used by showing one that says the same.
pub trait CaptureTicket: Sized {
    /// Both say the same.
    spec fn says_the_same(&self, other: &Self) -> bool;

    fn is_same(&self, other: &Self) -> (same: bool)
        ensures
            same == self.says_the_same(other),
    ;
}

impl CaptureTicket for u64 {
    open spec fn says_the_same(&self, other: &Self) -> bool {
        *self == *other
    }

    fn is_same(&self, other: &Self) -> (same: bool) {
        *self == *other
    }
}

fn same_pipelines(left: &Vec<PipelineId>, right: &Vec<PipelineId>) -> (same: bool)
    ensures
        same == (left@ == right@),
{
    if left.len() != right.len() {
        return false;
    }
    let mut index: usize = 0;
    while index < left.len()
        invariant
            left@.len() == right@.len(),
            index <= left@.len(),
            left@.take(index as int) =~= right@.take(index as int),
        decreases left.len() - index,
    {
        if left[index] != right[index] {
            return false;
        }
        index = index + 1;
        assert(left@.take(index as int) =~= left@.take(index - 1).push(left@[index - 1]));
        assert(right@.take(index as int) =~= right@.take(index - 1).push(right@[index - 1]));
    }
    assert(left@.take(index as int) =~= left@);
    assert(right@.take(index as int) =~= right@);
    true
}

fn same_target(left: &DocumentTimeControlTarget, right: &DocumentTimeControlTarget) -> (same: bool)
    ensures
        same == (left@ == right@),
{
    left.webview_id == right.webview_id && left.event_loop_id == right.event_loop_id
        && left.webview_epoch == right.webview_epoch && same_pipelines(
        &left.pipelines,
        &right.pipelines,
    ) && same_pipelines(&left.fully_active_pipelines, &right.fully_active_pipelines)
}

impl CaptureTicket for DocumentPaintPresentationTicket {
    open spec fn says_the_same(&self, other: &Self) -> bool {
        &&& self.id == other.id
        &&& self.candidate_id == other.candidate_id
        &&& self.target@ == other.target@
        &&& self.pipeline_id == other.pipeline_id
        &&& self.script_rendering_epoch == other.script_rendering_epoch
        &&& self.surface == other.surface
        &&& self.presentation_generation == other.presentation_generation
        &&& self.publish_generation == other.publish_generation
    }

    fn is_same(&self, other: &Self) -> (same: bool) {
        self.id == other.id && self.candidate_id == other.candidate_id && same_target(
            &self.target,
            &other.target,
        ) && self.pipeline_id == other.pipeline_id && self.script_rendering_epoch
            == other.script_rendering_epoch && self.surface == other.surface
            && self.presentation_generation == other.presentation_generation
            && self.publish_generation == other.publish_generation
    }
}

/// The ledger of one framebuffer: how often it has been painted, what it has reserved, and which
/// frames were published.
#[derive(Debug)]
pub struct ControlledCaptureLedger<T> {
    pub presentation_revision: u64,
    pub revision_overflowed: bool,
    pub reservation: Option<T>,
    pub last_publish_generation: Option<u64>,
    pub highest_publish_generation: Option<u64>,
    pub publish_generation_ambiguous: bool,
}

impl<T> Default for ControlledCaptureLedger<T> {
    fn default() -> (ledger: Self)
        ensures
            ledger == (ControlledCaptureLedger::<T> {
                presentation_revision: 0,
                revision_overflowed: false,
                reservation: None,
                last_publish_generation: None,
                highest_publish_generation: None,
                publish_generation_ambiguous: false,
            }),
            ledger.wf(),
    {
        ControlledCaptureLedger {
            presentation_revision: 0,
            revision_overflowed: false,
            reservation: None,
            last_publish_generation: None,
            highest_publish_generation: None,
            publish_generation_ambiguous: false,
        }
    }
}

impl<T> ControlledCaptureLedger<T> {
    /// The highest publish generation is at least the last.
    pub open spec fn wf(self) -> bool {
        match (self.last_publish_generation, self.highest_publish_generation) {
            (Some(last), Some(highest)) => last <= highest,
            (None, None) => true,
            _ => false,
        }
    }

    /// The ledger after something was painted.
    pub open spec fn mutated(self) -> ControlledCaptureLedger<T> {
        if self.revision_overflowed {
            self
        } else if self.presentation_revision < u64::MAX {
            ControlledCaptureLedger {
                presentation_revision: (self.presentation_revision + 1) as u64,
                ..self
            }
        } else {
            ControlledCaptureLedger { revision_overflowed: true, ..self }
        }
    }

    /// The revision, unless there have been too many.
    pub open spec fn spec_revision(&self) -> ControlledDocumentCaptureResult<u64> {
        if self.revision_overflowed {
            Err(terminal(ControlledDocumentCaptureFailure::PresentationRevisionOverflow))
        } else {
            Ok(self.presentation_revision)
        }
    }

    /// Notes that something was painted. A reservation stays as a witness, but its revision is no
    /// longer the current one.
    pub fn note_mutation(&mut self) -> (revision: ControlledDocumentCaptureResult<u64>)
        requires
            old(self).wf(),
        ensures
            *final(self) == old(self).mutated(),
            revision == final(self).spec_revision(),
            final(self).wf(),
    {
        if self.revision_overflowed {
            return Err(
                terminal(ControlledDocumentCaptureFailure::PresentationRevisionOverflow),
            );
        }
        match self.presentation_revision.checked_add(1) {
            Some(next) => {
                self.presentation_revision = next;
                Ok(next)
            },
            None => {
                self.revision_overflowed = true;
                Err(terminal(ControlledDocumentCaptureFailure::PresentationRevisionOverflow))
            },
        }
    }

    /// The revision, unless there have been too many.
    #[verifier::when_used_as_spec(spec_revision)]
    pub fn revision(&self) -> (revision: ControlledDocumentCaptureResult<u64>)
        ensures
            revision == self.spec_revision(),
    {
        if self.revision_overflowed {
            Err(terminal(ControlledDocumentCaptureFailure::PresentationRevisionOverflow))
        } else {
            Ok(self.presentation_revision)
        }
    }

    /// Something is reserved.
    pub fn has_reservation(&self) -> (reserved: bool)
        ensures
            reserved == (self.reservation is Some),
    {
        self.reservation.is_some()
    }

    /// What comes of a reservation, and the ledger afterwards.
    pub open spec fn reserved(self, ticket: T) -> (
        ControlledCaptureLedger<T>,
        ControlledDocumentCaptureResult<()>,
    ) {
        if self.reservation is Some {
            (
                self,
                Err(
                    ControlledDocumentCaptureError::Retryable(
                        ControlledDocumentCaptureRetry::ReservationOccupied,
                    ),
                ),
            )
        } else {
            (ControlledCaptureLedger { reservation: Some(ticket), ..self }, Ok(()))
        }
    }

    /// Reserves, unless something is reserved.
    pub fn retain(&mut self, ticket: T) -> (result: ControlledDocumentCaptureResult<()>)
        requires
            old(self).wf(),
        ensures
            (*final(self), result) == old(self).reserved(ticket),
            old(self).reservation is Some ==> {
                &&& result == Err::<(), _>(
                    ControlledDocumentCaptureError::Retryable(
                        ControlledDocumentCaptureRetry::ReservationOccupied,
                    ),
                )
                &&& *final(self) == *old(self)
            },
            old(self).reservation is None ==> {
                &&& result is Ok
                &&& *final(self) == (ControlledCaptureLedger {
                    reservation: Some(ticket),
                    ..*old(self)
                })
            },
            final(self).wf(),
    {
        if self.has_reservation() {
            return Err(
                ControlledDocumentCaptureError::Retryable(
                    ControlledDocumentCaptureRetry::ReservationOccupied,
                ),
            );
        }
        self.reservation = Some(ticket);
        Ok(())
    }

    /// Gives the reservation up if it is the one that is meant, and says whether it was.
    pub fn abort_where<F: FnOnce(&T) -> bool>(&mut self, predicate: F) -> (aborted: bool)
        requires
            old(self).wf(),
            old(self).reservation matches Some(ticket) ==> call_requires(predicate, (&ticket,)),
        ensures
            match old(self).reservation {
                None => !aborted,
                Some(ticket) => call_ensures(predicate, (&ticket,), aborted),
            },
            *final(self) == (if aborted {
                ControlledCaptureLedger { reservation: None, ..*old(self) }
            } else {
                *old(self)
            }),
            final(self).wf(),
    {
        let matches = match &self.reservation {
            Some(ticket) => predicate(ticket),
            None => false,
        };
        if matches {
            self.reservation = None;
        }
        matches
    }

    /// The ledger after a frame was published.
    pub open spec fn published(self, generation: u64) -> ControlledCaptureLedger<T> {
        ControlledCaptureLedger {
            publish_generation_ambiguous: self.publish_generation_ambiguous || (
            self.last_publish_generation matches Some(last) && generation < last),
            last_publish_generation: Some(generation),
            highest_publish_generation: match self.highest_publish_generation {
                Some(highest) => if generation > highest {
                    Some(generation)
                } else {
                    Some(highest)
                },
                None => Some(generation),
            },
            ..self
        }
    }

    /// Notes that a frame was published. A generation may be skipped; one that goes back shows that
    /// notifications came out of order.
    pub fn note_publish_generation(&mut self, generation: u64)
        requires
            old(self).wf(),
        ensures
            *final(self) == old(self).published(generation),
            final(self).wf(),
    {
        if let Some(last) = self.last_publish_generation {
            if generation < last {
                self.publish_generation_ambiguous = true;
            }
        }
        self.last_publish_generation = Some(generation);
        let rises = match self.highest_publish_generation {
            Some(highest) => generation > highest,
            None => true,
        };
        if rises {
            self.highest_publish_generation = Some(generation);
        }
    }

    /// Notes that publish notifications can no longer be trusted.
    pub fn mark_publish_generation_ambiguous(&mut self)
        requires
            old(self).wf(),
        ensures
            *final(self) == (ControlledCaptureLedger {
                publish_generation_ambiguous: true,
                ..*old(self)
            }),
            final(self).wf(),
    {
        self.publish_generation_ambiguous = true;
    }

    /// The generation that is published, if that is certain.
    pub open spec fn spec_publish_generation(&self) -> ControlledDocumentCaptureResult<u64> {
        if self.publish_generation_ambiguous {
            Err(terminal(ControlledDocumentCaptureFailure::PublishGenerationAmbiguous))
        } else {
            match (self.last_publish_generation, self.highest_publish_generation) {
                (Some(last), Some(highest)) => if last == highest && highest != 0 {
                    Ok(highest)
                } else {
                    Err(frame_pending())
                },
                _ => Err(frame_pending()),
            }
        }
    }

    /// The generation that is published, if that is certain.
    #[verifier::when_used_as_spec(spec_publish_generation)]
    pub fn publish_generation(&self) -> (generation: ControlledDocumentCaptureResult<u64>)
        ensures
            generation == self.spec_publish_generation(),
    {
        if self.publish_generation_ambiguous {
            return Err(terminal(ControlledDocumentCaptureFailure::PublishGenerationAmbiguous));
        }
        match (self.last_publish_generation, self.highest_publish_generation) {
            (Some(last), Some(highest)) => {
                if last == highest && highest != 0 {
                    Ok(highest)
                } else {
                    Err(frame_pending())
                }
            },
            _ => Err(frame_pending()),
        }
    }
}

impl<T: CaptureTicket> ControlledCaptureLedger<T> {
    /// What comes of showing a ticket, and the ledger afterwards.
    pub open spec fn taken(self, supplied: &T) -> (
        ControlledCaptureLedger<T>,
        ControlledDocumentCaptureResult<T>,
    ) {
        (
            ControlledCaptureLedger { reservation: None, ..self },
            match self.reservation {
                None => Err(terminal(ControlledDocumentCaptureFailure::TicketNotReserved)),
                Some(retained) => if retained.says_the_same(supplied) {
                    Ok(retained)
                } else {
                    Err(terminal(ControlledDocumentCaptureFailure::TicketMismatch))
                },
            },
        )
    }

    /// Uses the reservation up, and gives it if it is the one that is shown. One that is not is used
    /// up all the same.
    pub fn take_matching(&mut self, supplied: &T) -> (result: ControlledDocumentCaptureResult<T>)
        requires
            old(self).wf(),
        ensures
            (*final(self), result) == old(self).taken(supplied),
            final(self).wf(),
    {
        match self.reservation.take() {
            None => Err(terminal(ControlledDocumentCaptureFailure::TicketNotReserved)),
            Some(retained) => {
                if !retained.is_same(supplied) {
                    return Err(terminal(ControlledDocumentCaptureFailure::TicketMismatch));
                }
                Ok(retained)
            },
        }
    }
}

impl ControlledCaptureLedger<DocumentPaintPresentationTicket> {
    /// Gives the reservation up if it is of this web view, and says whether it was.
    pub fn abort_for_webview(&mut self, webview_id: WebViewId) -> (aborted: bool)
        requires
            old(self).wf(),
        ensures
            aborted == (old(self).reservation matches Some(ticket) && ticket.target.webview_id
                == webview_id),
            *final(self) == (if aborted {
                ControlledCaptureLedger { reservation: None, ..*old(self) }
            } else {
                *old(self)
            }),
            final(self).wf(),
    {
        let is_of_webview = |ticket: &DocumentPaintPresentationTicket| -> (same: bool)
            ensures
                same == (ticket.target.webview_id == webview_id),
            { ticket.target().webview_id == webview_id };
        self.abort_where(is_of_webview)
    }
}

/// A reservation can be used once: whatever is shown first, what is shown next finds nothing
/// reserved.
pub proof fn law_reservation_is_single_use<T: CaptureTicket>(
    ledger: ControlledCaptureLedger<T>,
    first: T,
    second: T,
)
    ensures
        ledger.taken(&first).0.taken(&second).1 == Err::<T, _>(
            terminal(ControlledDocumentCaptureFailure::TicketNotReserved),
        ),
{
}

/// Painting makes every revision that was read before out of date, and a ledger that has run out of
/// revisions never gives one again.
pub proof fn law_painting_outdates_revisions<T>(ledger: ControlledCaptureLedger<T>)
    ensures
        ledger.mutated().revision() != ledger.revision() || ledger.revision() is Err,
        ledger.revision() is Err ==> ledger.mutated().revision() is Err,
        ledger.mutated().reservation == ledger.reservation,
{
}

/// A generation is given only if no frame came out of order: it is then the last and the highest.
pub proof fn law_published_generation_is_certain<T>(
    ledger: ControlledCaptureLedger<T>,
    generation: u64,
)
    requires
        ledger.wf(),
    ensures
        ledger.publish_generation_ambiguous ==> ledger.published(
            generation,
        ).publish_generation() is Err,
        ledger.published(generation).publish_generation() matches Ok(given) ==> {
            &&& given == generation
            &&& ledger.highest_publish_generation matches Some(highest) ==> highest <= generation
        },
{
}

/// An epoch passes exactly where it is the one that is wanted. One that is missing or behind may be
/// tried again; one that is ahead never passes.
pub proof fn law_only_the_wanted_epoch_passes(
    actual: Option<u32>,
    expected: u32,
    ahead: ControlledDocumentCaptureFailure,
)
    ensures
        epoch_outcome(actual, expected, ahead) is Ok <==> actual == Some(expected),
        (actual is None || actual->0 < expected) <==> epoch_outcome(actual, expected, ahead)
            == Err::<(), _>(
            ControlledDocumentCaptureError::Retryable(
                ControlledDocumentCaptureRetry::FramePending,
            ),
        ),
        actual is Some && actual->0 > expected <==> epoch_outcome(actual, expected, ahead)
            == Err::<(), _>(ControlledDocumentCaptureError::Terminal(ahead)),
{
}

/// A capture goes on only on the candidate's root and surface, with no frame to come and nothing
/// that animates. A frame that is to come may be waited for; nothing else may.
pub proof fn law_capture_needs_a_still_frame(
    root_matches: bool,
    surface_matches: bool,
    pending: bool,
    animation: bool,
)
    ensures
        root_and_surface_outcome(root_matches, surface_matches) is Ok <==> root_matches
            && surface_matches,
        root_and_surface_outcome(root_matches, surface_matches) matches Err(error) ==> error
            is Terminal,
        !root_matches ==> root_and_surface_outcome(root_matches, surface_matches) == Err::<(), _>(
            ControlledDocumentCaptureError::Terminal(
                ControlledDocumentCaptureFailure::RootPipelineMismatch,
            ),
        ),
        stillness_outcome(pending, animation) is Ok <==> !pending && !animation,
        stillness_outcome(pending, animation) matches Err(error) ==> (error is Retryable
            <==> pending),
{
}

/// A reservation is kept until it is used: another one is refused meanwhile, and changes nothing.
/// What was reserved is given to the first who shows it, and only where the ticket says the same.
pub proof fn law_first_reservation_is_kept_until_used<T: CaptureTicket>(
    ledger: ControlledCaptureLedger<T>,
    first: T,
    second: T,
    shown: T,
)
    requires
        ledger.reservation is None,
    ensures
        ({
            let (held, granted) = ledger.reserved(first);
            let (still, refused) = held.reserved(second);
            let (used, given) = still.taken(&shown);
            &&& granted is Ok
            &&& refused is Err
            &&& still == held
            &&& held.presentation_revision == ledger.presentation_revision
            &&& first.says_the_same(&shown) ==> given == Ok::<T, ControlledDocumentCaptureError>(
                first,
            )
            &&& !first.says_the_same(&shown) ==> given is Err
            &&& used.reservation is None
            &&& used.reserved(second).1 is Ok
        }),
{
}

/// A ticket is given only to one that says the same in everything: id, candidate, target, pipeline,
/// epoch, surface and both generations.
pub proof fn law_tickets_match_in_everything(
    ledger: ControlledCaptureLedger<DocumentPaintPresentationTicket>,
    shown: DocumentPaintPresentationTicket,
)
    ensures
        ledger.taken(&shown).1 is Ok <==> ledger.reservation is Some && {
            let held = ledger.reservation->0;
            &&& held.id == shown.id
            &&& held.candidate_id == shown.candidate_id
            &&& held.target.webview_id == shown.target.webview_id
            &&& held.target.event_loop_id == shown.target.event_loop_id
            &&& held.target.webview_epoch == shown.target.webview_epoch
            &&& held.target.pipelines@ == shown.target.pipelines@
            &&& held.target.fully_active_pipelines@ == shown.target.fully_active_pipelines@
            &&& held.pipeline_id == shown.pipeline_id
            &&& held.script_rendering_epoch == shown.script_rendering_epoch
            &&& held.surface == shown.surface
            &&& held.presentation_generation == shown.presentation_generation
            &&& held.publish_generation == shown.publish_generation
        },
        ledger.reservation is None ==> ledger.taken(&shown).1 == Err::<
            DocumentPaintPresentationTicket,
            ControlledDocumentCaptureError,
        >(
            ControlledDocumentCaptureError::Terminal(
                ControlledDocumentCaptureFailure::TicketNotReserved,
            ),
        ),
        ledger.reservation is Some && ledger.taken(&shown).1 is Err ==> ledger.taken(&shown).1
            == Err::<DocumentPaintPresentationTicket, ControlledDocumentCaptureError>(
            ControlledDocumentCaptureError::Terminal(
                ControlledDocumentCaptureFailure::TicketMismatch,
            ),
        ),
{
}

/// Each painting takes one revision more, until there is none.
pub proof fn law_each_painting_takes_the_next_revision<T>(ledger: ControlledCaptureLedger<T>)
    requires
        !ledger.revision_overflowed,
    ensures
        ledger.revision() == Ok::<u64, ControlledDocumentCaptureError>(
            ledger.presentation_revision,
        ),
        ledger.presentation_revision < u64::MAX ==> ledger.mutated().revision() == Ok::<
            u64,
            ControlledDocumentCaptureError,
        >((ledger.presentation_revision + 1) as u64),
        ledger.presentation_revision == u64::MAX ==> ledger.mutated().revision() is Err,
        ledger.mutated().last_publish_generation == ledger.last_publish_generation,
        ledger.mutated().publish_generation_ambiguous == ledger.publish_generation_ambiguous,
{
}

/// Frames that are published in order, gaps or not, leave the last one certain. One that goes back
/// leaves none certain ever after. The frame numbered zero is no frame.
pub proof fn law_frames_published_in_order_are_certain<T>(
    ledger: ControlledCaptureLedger<T>,
    first: u64,
    second: u64,
    third: u64,
)
    requires
        ledger.last_publish_generation is None,
        ledger.highest_publish_generation is None,
        !ledger.publish_generation_ambiguous,
    ensures
        ({
            let one = ledger.published(first);
            let two = one.published(second);
            &&& ledger.publish_generation() is Err
            &&& one.publish_generation() is Ok <==> first > 0
            &&& first <= second && second > 0 ==> two.publish_generation() == Ok::<
                u64,
                ControlledDocumentCaptureError,
            >(second)
            &&& second < first ==> two.publish_generation() == Err::<u64, _>(
                ControlledDocumentCaptureError::Terminal(
                    ControlledDocumentCaptureFailure::PublishGenerationAmbiguous,
                ),
            ) && two.published(third).publish_generation() is Err
            &&& two.reservation == ledger.reservation
            &&& two.presentation_revision == ledger.presentation_revision
        }),
{
}

} // verus!
