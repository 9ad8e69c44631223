//! How sources settle, told by what they are, and what an inventory of canvases binds.
use crate::canonical::{canonically_ordered, key_at_most, CanonicalKey};
use crate::clock::DocumentTime;
use crate::dyadic::{law_deadline_is_exact, nanoseconds_until, unit_scale, value_units};
use crate::generation_capture::snapshot::{
    canvas_contribution, canvases_from, DocumentCanvasCaptureBindingError,
};
use crate::generation_capture::sources::{
    animation_disposition, animation_frame_disposition, canvas_disposition, finite_deadline,
    timer_disposition, tracked_disposition, transition_disposition, DocumentCanvasCaptureStatus,
    DocumentCanvasImageKey, DocumentCssAnimationState, DocumentCssIterationState,
    DocumentOpenEndedSourceReason, DocumentSettlementSource, DocumentSettlementSourceDisposition,
    DocumentSettlementSourceState, DocumentTrackedSourceKind, DocumentUnsupportedSourceReason,
};
use vstd::prelude::*;

verus! {

/// The double-precision number with these bits is finite.
pub open spec fn finite_bits(bits: u64) -> bool {
    bits % 0x8000_0000_0000_0000 < 0x7ff0_0000_0000_0000
}

/// A CSS animation is over, or held where it is.
pub open spec fn stands_still(state: DocumentCssAnimationState) -> bool {
    match state {
        DocumentCssAnimationState::Finished => true,
        DocumentCssAnimationState::Canceled => true,
        DocumentCssAnimationState::Paused(_) => true,
        DocumentCssAnimationState::Pending => false,
        DocumentCssAnimationState::Running => false,
    }
}

/// A deadline is exact: not before the timeline reaches its end, and less than a nanosecond after.
pub open spec fn deadline_is_exact(
    deadline: DocumentTime,
    timeline_now: u64,
    terminal: u64,
    document_now: DocumentTime,
) -> bool {
    let left = (value_units(terminal) - value_units(timeline_now)) * 1_000_000_000;
    let nanos = deadline.0 - document_now.0;
    if value_units(terminal) <= value_units(timeline_now) {
        nanos == 0
    } else {
        &&& nanos > 0
        &&& left <= nanos * unit_scale()
        &&& (nanos - 1) * unit_scale() < left
    }
}

proof fn lemma_deadline(document_now: DocumentTime, timeline_now: u64, terminal: u64)
    ensures
        finite_deadline(document_now, timeline_now, terminal) matches Some(deadline)
            ==> deadline_is_exact(deadline, timeline_now, terminal, document_now) && finite_bits(
            timeline_now,
        ) && finite_bits(terminal),
        !finite_bits(timeline_now) || !finite_bits(terminal) ==> finite_deadline(
            document_now,
            timeline_now,
            terminal,
        ) is None,
        finite_bits(timeline_now) && finite_bits(terminal) && value_units(terminal) <= value_units(
            timeline_now,
        ) ==> finite_deadline(document_now, timeline_now, terminal) == Some(document_now),
{
    lemma_finite(timeline_now);
    lemma_finite(terminal);
    if nanoseconds_until(timeline_now, terminal) is Some && value_units(timeline_now)
        < value_units(terminal) {
        law_deadline_is_exact(timeline_now, terminal);
    }
}

proof fn lemma_finite(bits: u64)
    ensures
        crate::dyadic::is_finite(bits) == finite_bits(bits),
{
}

/// A CSS animation that stands still is inert; one that does not is never. One that repeats for ever
/// is open ended. Any other settles at the exact time at which it ends, where all of its numbers are
/// finite, its duration and its iteration are not negative and the iteration does not pass the last;
/// where they are not it cannot be shown to settle.
pub proof fn law_css_animation_settles_when_it_ends(
    state: DocumentCssAnimationState,
    iteration: DocumentCssIterationState,
    started_at: u64,
    duration: u64,
    delay: u64,
    terminal: u64,
    timeline_now: u64,
    document_now: DocumentTime,
)
    ensures
        ({
            let settles = animation_disposition(
                state,
                iteration,
                started_at,
                duration,
                delay,
                terminal,
                timeline_now,
                document_now,
            );
            &&& settles is Inert <==> stands_still(state)
            &&& settles is OpenEnded <==> !stands_still(state) && iteration is Infinite
            &&& settles is OpenEnded ==> settles == DocumentSettlementSourceDisposition::OpenEnded(
                DocumentOpenEndedSourceReason::InfiniteCssAnimation,
            )
            &&& settles is Unsupported ==> settles
                == DocumentSettlementSourceDisposition::Unsupported(
                DocumentUnsupportedSourceReason::InvalidCssTiming,
            )
            &&& !(settles is FiniteRenderingOpportunity)
            &&& !stands_still(state) ==> (iteration matches DocumentCssIterationState::Finite {
                current_bits,
                max_bits,
            } ==> {
                let sane = finite_bits(started_at) && finite_bits(duration) && finite_bits(delay)
                    && finite_bits(current_bits) && finite_bits(max_bits) && finite_bits(terminal)
                    && finite_bits(timeline_now) && 0 <= value_units(duration) && 0 <= value_units(
                    current_bits,
                ) <= value_units(max_bits);
                &&& settles is FiniteDeadline || settles is Unsupported
                &&& !sane ==> settles is Unsupported
                &&& settles matches DocumentSettlementSourceDisposition::FiniteDeadline(deadline)
                    ==> deadline_is_exact(deadline, timeline_now, terminal, document_now)
                &&& sane && value_units(terminal) <= value_units(timeline_now) ==> settles
                    == DocumentSettlementSourceDisposition::FiniteDeadline(document_now)
                &&& sane ==> (settles is FiniteDeadline <==> finite_deadline(
                    document_now,
                    timeline_now,
                    terminal,
                ) is Some)
            })
        }),
{
    lemma_deadline(document_now, timeline_now, terminal);
    lemma_finite(started_at);
    lemma_finite(duration);
    lemma_finite(delay);
    lemma_finite(terminal);
    if let DocumentCssIterationState::Finite { current_bits, max_bits } = iteration {
        lemma_finite(current_bits);
        lemma_finite(max_bits);
    }
}

/// A CSS transition that stands still is inert; one that does not is never. It settles at the exact
/// time at which it ends, where its numbers are finite and its duration is not negative; where they
/// are not it cannot be shown to settle. It is never open ended.
pub proof fn law_css_transition_settles_when_it_ends(
    state: DocumentCssAnimationState,
    start_time: u64,
    duration: u64,
    delay: u64,
    terminal: u64,
    timeline_now: u64,
    document_now: DocumentTime,
)
    ensures
        ({
            let settles = transition_disposition(
                state,
                start_time,
                duration,
                delay,
                terminal,
                timeline_now,
                document_now,
            );
            let sane = finite_bits(start_time) && finite_bits(duration) && finite_bits(delay)
                && finite_bits(terminal) && finite_bits(timeline_now) && 0 <= value_units(
                duration,
            );
            &&& settles is Inert <==> stands_still(state)
            &&& !stands_still(state) ==> {
                &&& settles is FiniteDeadline || settles
                    == DocumentSettlementSourceDisposition::Unsupported(
                    DocumentUnsupportedSourceReason::InvalidCssTiming,
                )
                &&& !sane ==> settles is Unsupported
                &&& settles matches DocumentSettlementSourceDisposition::FiniteDeadline(deadline)
                    ==> deadline_is_exact(deadline, timeline_now, terminal, document_now)
                &&& sane && value_units(terminal) <= value_units(timeline_now) ==> settles
                    == DocumentSettlementSourceDisposition::FiniteDeadline(document_now)
                &&& sane ==> (settles is FiniteDeadline <==> finite_deadline(
                    document_now,
                    timeline_now,
                    terminal,
                ) is Some)
            }
        }),
{
    lemma_deadline(document_now, timeline_now, terminal);
    lemma_finite(start_time);
    lemma_finite(duration);
    lemma_finite(delay);
}

/// There is a deadline wherever the exact time left, rounded up to nanoseconds, is a document time
/// and neither number passes 128 bits of nanoseconds.
pub proof fn law_deadlines_are_found_where_there_are_any(
    document_now: DocumentTime,
    timeline_now: u64,
    terminal: u64,
)
    requires
        finite_bits(timeline_now),
        finite_bits(terminal),
        value_units(timeline_now) < value_units(terminal),
        crate::dyadic::ceil_div(
            (value_units(terminal) - value_units(timeline_now)) * 1_000_000_000,
            unit_scale() as int,
        ) + document_now.0 <= u128::MAX,
        -(0xffff_ffff_ffff_ffff_ffff_ffff_ffff_ffff as int) * unit_scale() <= value_units(
            timeline_now,
        ) * 1_000_000_000,
        value_units(terminal) * 1_000_000_000 <= (
        0xffff_ffff_ffff_ffff_ffff_ffff_ffff_ffff as int) * unit_scale(),
    ensures
        finite_deadline(document_now, timeline_now, terminal) is Some,
{
    lemma_finite(timeline_now);
    lemma_finite(terminal);
    let scale = unit_scale() as int;
    let limit = u128::MAX as int;
    vstd::arithmetic::power2::lemma_pow2_pos(1074);
    let greater = if crate::dyadic::is_negative(timeline_now) {
        timeline_now
    } else {
        terminal
    };
    let units = crate::dyadic::magnitude_units(greater) as int * 1_000_000_000;
    assert(units <= limit * scale) by {
        if crate::dyadic::is_negative(timeline_now) {
            assert(value_units(timeline_now) * 1_000_000_000 == -units);
            assert(-limit * scale == -(limit * scale)) by (nonlinear_arith);
        } else {
            assert(value_units(terminal) >= 0);
        }
    }
    vstd::arithmetic::div_mod::lemma_fundamental_div_mod(units, scale);
    assert(units / scale <= limit) by (nonlinear_arith)
        requires
            units == scale * (units / scale) + units % scale,
            0 <= units % scale < scale,
            units <= limit * scale,
            scale > 0,
    ;
    let exact = crate::dyadic::ceil_div(
        (value_units(terminal) - value_units(timeline_now)) * 1_000_000_000,
        scale,
    );
    crate::dyadic::law_rounding_up_is_least(
        (value_units(terminal) - value_units(timeline_now)) * 1_000_000_000,
        scale,
    );
    assert(exact >= 0) by (nonlinear_arith)
        requires
            (value_units(terminal) - value_units(timeline_now)) * 1_000_000_000 <= exact * scale,
            value_units(timeline_now) < value_units(terminal),
            scale > 0,
    ;
}

/// A timer settles at its deadline, one that repeats never; an animation frame that is asked for
/// needs a rendering opportunity.
pub proof fn law_timers_and_frames_settle(
    deadline: DocumentTime,
    is_interval: bool,
    active: bool,
)
    ensures
        !is_interval ==> timer_disposition(deadline, is_interval)
            == DocumentSettlementSourceDisposition::FiniteDeadline(deadline),
        is_interval ==> timer_disposition(deadline, is_interval)
            == DocumentSettlementSourceDisposition::OpenEnded(
            DocumentOpenEndedSourceReason::Interval,
        ),
        animation_frame_disposition(active) is Inert <==> !active,
        animation_frame_disposition(active) is FiniteRenderingOpportunity <==> active,
{
}

/// Live objects are waited for as long as there is one: a class settles exactly while it has none.
/// Those that bring in messages for ever are open ended, and of every other it cannot be shown how
/// it settles; no two classes give the same reason.
pub proof fn law_live_objects_block_while_there_is_one(
    kind: DocumentTrackedSourceKind,
    count: u64,
    other: DocumentTrackedSourceKind,
    other_count: u64,
)
    ensures
        tracked_disposition(kind, count) is Inert <==> count == 0,
        count > 0 ==> tracked_disposition(kind, count) is OpenEnded || tracked_disposition(
            kind,
            count,
        ) is Unsupported,
        count > 0 ==> (tracked_disposition(kind, count) is OpenEnded <==> match kind {
            DocumentTrackedSourceKind::WebSocket => true,
            DocumentTrackedSourceKind::EventSource => true,
            DocumentTrackedSourceKind::BroadcastChannel => true,
            DocumentTrackedSourceKind::MessagePort => true,
            DocumentTrackedSourceKind::EmbedderControl => true,
            DocumentTrackedSourceKind::MediaSessionActionHandler => true,
            DocumentTrackedSourceKind::StorageEventListener => true,
            _ => false,
        }),
        count > 0 && other_count > 0 && tracked_disposition(kind, count) == tracked_disposition(
            other,
            other_count,
        ) ==> kind == other,
{
}

/// A canvas is inert exactly where what is retained of it is ready and has an image and a
/// generation.
pub proof fn law_canvas_settles_once_it_is_retained(
    image_key: Option<DocumentCanvasImageKey>,
    registry_generation: Option<u64>,
    status: DocumentCanvasCaptureStatus,
)
    ensures
        canvas_disposition(image_key, registry_generation, status) is Inert <==> status
            == DocumentCanvasCaptureStatus::Ready && image_key is Some && registry_generation
            is Some,
        canvas_disposition(image_key, registry_generation, status) is Inert || canvas_disposition(
            image_key,
            registry_generation,
            status,
        ) == DocumentSettlementSourceDisposition::Unsupported(
            DocumentUnsupportedSourceReason::Canvas2d,
        ),
{
}

/// A source is a canvas whose pixels are retained: it is ready and inert, with this image and this
/// generation.
pub open spec fn bound_canvas(
    source: DocumentSettlementSource,
    key: DocumentCanvasImageKey,
    generation: u64,
) -> bool {
    &&& source.identity is Canvas2d
    &&& source.disposition is Inert
    &&& source.state matches DocumentSettlementSourceState::Canvas2d {
        image_key,
        registry_generation,
        status,
        ..
    } && status == DocumentCanvasCaptureStatus::Ready && image_key == Some(key)
        && registry_generation == Some(generation)
}

proof fn lemma_canvases(
    sources: Seq<DocumentSettlementSource>,
    index: int,
    generation: Option<u64>,
    found: Seq<DocumentCanvasImageKey>,
)
    requires
        0 <= index <= sources.len(),
        generation is None ==> found.len() == 0,
    ensures
        match canvases_from(sources, index, generation, found) {
            Ok((bound, keys)) => {
                &&& generation is Some ==> bound == generation
                &&& found.is_prefix_of(keys)
                &&& bound is None <==> generation is None && forall|i: int|
                    index <= i < sources.len() ==> !((#[trigger] sources[i]).identity is Canvas2d)
                &&& forall|i: int|
                    index <= i < sources.len() && (#[trigger] sources[i]).identity is Canvas2d
                        ==> exists|k: int|
                        found.len() <= k < keys.len() && bound_canvas(
                            sources[i],
                            #[trigger] keys[k],
                            bound->0,
                        )
                &&& forall|k: int|
                    found.len() <= k < keys.len() ==> exists|i: int|
                        index <= i < sources.len() && bound_canvas(
                            #[trigger] sources[i],
                            #[trigger] keys[k],
                            bound->0,
                        )
            },
            Err(error) => exists|i: int|
                index <= i < sources.len() && (#[trigger] sources[i]).identity is Canvas2d,
        },
    decreases sources.len() - index,
{
    if index < sources.len() {
        let source = sources[index];
        match canvas_contribution(source) {
            None => {
                lemma_canvases(sources, index + 1, generation, found);
                assert(!(source.identity is Canvas2d));
            },
            Some(Err(error)) => {
                assert(source.identity is Canvas2d);
            },
            Some(Ok((key, observed))) => {
                assert(bound_canvas(source, key, observed));
                if !(generation is Some && generation != Some(observed)) {
                    lemma_canvases(sources, index + 1, Some(observed), found.push(key));
                    if let Ok((bound, keys)) = canvases_from(
                        sources,
                        index,
                        generation,
                        found,
                    ) {
                        let more = found.push(key);
                        assert(more =~= keys.take(more.len() as int));
                        assert(keys[found.len() as int] == more[found.len() as int]);
                        assert(found =~= keys.take(found.len() as int)) by {
                            assert(keys.take(more.len() as int).take(found.len() as int)
                                =~= keys.take(found.len() as int));
                            assert(more.take(found.len() as int) =~= found);
                        }
                        assert(bound == Some(observed));
                        assert(bound_canvas(
                            sources[index],
                            keys[found.len() as int],
                            bound->0,
                        ));
                        assert forall|k: int| found.len() <= k < keys.len() implies exists|i: int|
                            index <= i < sources.len() && bound_canvas(
                                #[trigger] sources[i],
                                #[trigger] keys[k],
                                bound->0,
                            ) by {
                            if k == found.len() {
                                assert(bound_canvas(sources[index], keys[k], bound->0));
                            } else {
                                let i = choose|i: int|
                                    index + 1 <= i < sources.len() && bound_canvas(
                                        #[trigger] sources[i],
                                        keys[k],
                                        bound->0,
                                    );
                                assert(bound_canvas(sources[i], keys[k], bound->0));
                            }
                        }
                    }
                }
            },
        }
    } else {
        assert(found =~= found.take(found.len() as int));
    }
}

/// An inventory binds the images of all of its canvases and of nothing else, all of one generation,
/// and only where each of them is ready and inert. It binds nothing exactly where it has no canvas.
pub proof fn law_binding_holds_every_canvas(sources: Seq<DocumentSettlementSource>)
    ensures
        match canvases_from(sources, 0, None, Seq::empty()) {
            Ok((Some(generation), keys)) => {
                &&& keys.len() > 0
                &&& forall|i: int|
                    0 <= i < sources.len() && (#[trigger] sources[i]).identity is Canvas2d
                        ==> exists|k: int|
                        0 <= k < keys.len() && bound_canvas(
                            sources[i],
                            #[trigger] keys[k],
                            generation,
                        )
                &&& forall|k: int|
                    0 <= k < keys.len() ==> exists|i: int|
                        0 <= i < sources.len() && bound_canvas(
                            #[trigger] sources[i],
                            #[trigger] keys[k],
                            generation,
                        )
            },
            Ok((None, keys)) => keys.len() == 0 && forall|i: int|
                0 <= i < sources.len() ==> !((#[trigger] sources[i]).identity is Canvas2d),
            Err(_) => exists|i: int|
                0 <= i < sources.len() && (#[trigger] sources[i]).identity is Canvas2d,
        },
{
    lemma_canvases(sources, 0, None, Seq::empty());
    if let Ok((Some(generation), keys)) = canvases_from(sources, 0, None, Seq::empty()) {
        let i = choose|i: int|
            0 <= i < sources.len() && (#[trigger] sources[i]).identity is Canvas2d;
        assert(sources[i].identity is Canvas2d);
    }
    if let Ok((None, keys)) = canvases_from(sources, 0, None, Seq::empty()) {
        if keys.len() > 0 {
            let i = choose|i: int|
                0 <= i < sources.len() && bound_canvas(
                    #[trigger] sources[i],
                    keys[0],
                    None::<u64>->0,
                );
            assert(sources[i].identity is Canvas2d);
        }
    }
}

/// The first canvas of an inventory, where it is not ready or lacks its image or its generation,
/// decides why nothing is bound; two canvases of different generations are not bound either.
pub proof fn law_faulty_canvas_is_not_bound(sources: Seq<DocumentSettlementSource>, index: int)
    requires
        0 <= index < sources.len(),
        sources[index].identity is Canvas2d,
        forall|i: int| 0 <= i < index ==> !((#[trigger] sources[i]).identity is Canvas2d),
    ensures
        ({
            let bound = canvases_from(sources, 0, None, Seq::empty());
            match sources[index].state {
                DocumentSettlementSourceState::Canvas2d {
                    image_key,
                    registry_generation,
                    status,
                    ..
                } => {
                    let ready = status == DocumentCanvasCaptureStatus::Ready
                        && sources[index].disposition is Inert;
                    &&& !ready ==> bound is Err && bound->Err_0
                        == DocumentCanvasCaptureBindingError::SourceNotReady
                    &&& ready && image_key is None ==> bound is Err && bound->Err_0
                        == DocumentCanvasCaptureBindingError::MissingImageKey
                    &&& ready && image_key is Some && registry_generation is None ==> bound is Err
                        && bound->Err_0 == DocumentCanvasCaptureBindingError::MissingGeneration
                },
                _ => bound is Err && bound->Err_0
                    == DocumentCanvasCaptureBindingError::MalformedSource,
            }
        }),
{
    lemma_up_to(sources, 0, index);
}

proof fn lemma_up_to(sources: Seq<DocumentSettlementSource>, from: int, index: int)
    requires
        0 <= from <= index < sources.len(),
        forall|i: int| 0 <= i < index ==> !((#[trigger] sources[i]).identity is Canvas2d),
    ensures
        canvases_from(sources, from, None, Seq::empty()) == canvases_from(
            sources,
            index,
            None,
            Seq::empty(),
        ),
    decreases index - from,
{
    if from < index {
        assert(!(sources[from].identity is Canvas2d));
        lemma_up_to(sources, from + 1, index);
    }
}

/// Image keys in canonical order stand by namespace, and by key where namespaces are equal.
pub proof fn law_bound_images_stand_in_order(
    keys: Seq<DocumentCanvasImageKey>,
    i: int,
    j: int,
)
    requires
        canonically_ordered(keys),
        0 <= i < j < keys.len(),
    ensures
        keys[i].namespace < keys[j].namespace || (keys[i].namespace == keys[j].namespace
            && keys[i].key <= keys[j].key),
{
    let left = keys[i].order_key();
    let right = keys[j].order_key();
    assert(key_at_most(left, right));
    assert(left.len() == 2 && right.len() == 2);
    assert(left.drop_first()[0] == left[1] && right.drop_first()[0] == right[1]);
    reveal_with_fuel(key_at_most, 3);
}

/// A live object names its own class as the reason why it does not settle, and no other class is
/// named by it.
pub proof fn law_live_objects_name_their_own_class(kind: DocumentTrackedSourceKind, count: u64)
    requires
        count > 0,
    ensures
        match tracked_disposition(kind, count) {
            DocumentSettlementSourceDisposition::OpenEnded(reason) => match reason {
                DocumentOpenEndedSourceReason::InfiniteCssAnimation => false,
                DocumentOpenEndedSourceReason::Interval => false,
                DocumentOpenEndedSourceReason::WebSocket => kind is WebSocket,
                DocumentOpenEndedSourceReason::EventSource => kind is EventSource,
                DocumentOpenEndedSourceReason::BroadcastChannel => kind is BroadcastChannel,
                DocumentOpenEndedSourceReason::MessagePort => kind is MessagePort,
                DocumentOpenEndedSourceReason::EmbedderControl => kind is EmbedderControl,
                DocumentOpenEndedSourceReason::MediaSessionActionHandler => kind is MediaSessionActionHandler,
                DocumentOpenEndedSourceReason::StorageEventListener => kind is StorageEventListener,
            },
            DocumentSettlementSourceDisposition::Unsupported(reason) => match reason {
                DocumentUnsupportedSourceReason::InvalidCssTiming => false,
                DocumentUnsupportedSourceReason::NonWindowTimer => false,
                DocumentUnsupportedSourceReason::NonDomTimerCallback => false,
                DocumentUnsupportedSourceReason::MediaElement => false,
                DocumentUnsupportedSourceReason::Canvas2d => false,
                DocumentUnsupportedSourceReason::BitmapRendererCanvas => false,
                DocumentUnsupportedSourceReason::WebGlCanvas => false,
                DocumentUnsupportedSourceReason::WebGpuCanvas => false,
                DocumentUnsupportedSourceReason::OffscreenCanvas => kind is OffscreenCanvas,
                DocumentUnsupportedSourceReason::DedicatedWorker => kind is DedicatedWorker,
                DocumentUnsupportedSourceReason::Worklet => kind is Worklet,
                DocumentUnsupportedSourceReason::IndexedDb => kind is IndexedDb,
                DocumentUnsupportedSourceReason::GpuDevice => kind is GpuDevice,
                DocumentUnsupportedSourceReason::CookieStorePending => kind is CookieStorePending,
                DocumentUnsupportedSourceReason::ServiceWorkerPending => kind is ServiceWorkerPending,
                DocumentUnsupportedSourceReason::ServiceWorkerMessaging => kind is ServiceWorkerMessaging,
                DocumentUnsupportedSourceReason::WebXr => kind is WebXr,
                DocumentUnsupportedSourceReason::StorageManager => kind is StorageManager,
                DocumentUnsupportedSourceReason::Bluetooth => kind is Bluetooth,
                DocumentUnsupportedSourceReason::RtcPeerConnection => kind is RtcPeerConnection,
                DocumentUnsupportedSourceReason::MediaStream => kind is MediaStream,
                DocumentUnsupportedSourceReason::WebAudio => kind is WebAudio,
                DocumentUnsupportedSourceReason::Notification => kind is Notification,
                DocumentUnsupportedSourceReason::WebGpuApi => kind is WebGpuApi,
            },
            _ => false,
        },
{
}

/// Classes of live objects are ordered as they are listed, and told apart by their rank.
pub proof fn law_classes_of_live_objects_have_their_order(left: DocumentTrackedSourceKind, right: DocumentTrackedSourceKind)
    ensures
        left.spec_rank() == right.spec_rank() ==> left == right,
        DocumentTrackedSourceKind::WebSocket.spec_rank()
            < DocumentTrackedSourceKind::EventSource.spec_rank()
            < DocumentTrackedSourceKind::BroadcastChannel.spec_rank()
            < DocumentTrackedSourceKind::MessagePort.spec_rank()
            < DocumentTrackedSourceKind::EmbedderControl.spec_rank()
            < DocumentTrackedSourceKind::MediaSessionActionHandler.spec_rank()
            < DocumentTrackedSourceKind::DedicatedWorker.spec_rank()
            < DocumentTrackedSourceKind::Worklet.spec_rank()
            < DocumentTrackedSourceKind::IndexedDb.spec_rank()
            < DocumentTrackedSourceKind::GpuDevice.spec_rank()
            < DocumentTrackedSourceKind::StorageEventListener.spec_rank()
            < DocumentTrackedSourceKind::CookieStorePending.spec_rank()
            < DocumentTrackedSourceKind::ServiceWorkerPending.spec_rank()
            < DocumentTrackedSourceKind::ServiceWorkerMessaging.spec_rank()
            < DocumentTrackedSourceKind::WebXr.spec_rank()
            < DocumentTrackedSourceKind::StorageManager.spec_rank()
            < DocumentTrackedSourceKind::Bluetooth.spec_rank()
            < DocumentTrackedSourceKind::RtcPeerConnection.spec_rank()
            < DocumentTrackedSourceKind::MediaStream.spec_rank()
            < DocumentTrackedSourceKind::WebAudio.spec_rank()
            < DocumentTrackedSourceKind::Notification.spec_rank()
            < DocumentTrackedSourceKind::WebGpuApi.spec_rank()
            < DocumentTrackedSourceKind::OffscreenCanvas.spec_rank(),
{
}

/// Reasons why a source never settles are ordered as they are listed, and told apart by their rank.
pub proof fn law_open_ended_reasons_have_their_order(left: DocumentOpenEndedSourceReason, right: DocumentOpenEndedSourceReason)
    ensures
        left.spec_rank() == right.spec_rank() ==> left == right,
        DocumentOpenEndedSourceReason::InfiniteCssAnimation.spec_rank()
            < DocumentOpenEndedSourceReason::Interval.spec_rank()
            < DocumentOpenEndedSourceReason::WebSocket.spec_rank()
            < DocumentOpenEndedSourceReason::EventSource.spec_rank()
            < DocumentOpenEndedSourceReason::BroadcastChannel.spec_rank()
            < DocumentOpenEndedSourceReason::MessagePort.spec_rank()
            < DocumentOpenEndedSourceReason::EmbedderControl.spec_rank()
            < DocumentOpenEndedSourceReason::MediaSessionActionHandler.spec_rank()
            < DocumentOpenEndedSourceReason::StorageEventListener.spec_rank(),
{
}

/// Reasons why it cannot be shown how a source settles are ordered as they are listed.
pub proof fn law_unsupported_reasons_have_their_order(left: DocumentUnsupportedSourceReason, right: DocumentUnsupportedSourceReason)
    ensures
        left.spec_rank() == right.spec_rank() ==> left == right,
        DocumentUnsupportedSourceReason::InvalidCssTiming.spec_rank()
            < DocumentUnsupportedSourceReason::NonWindowTimer.spec_rank()
            < DocumentUnsupportedSourceReason::NonDomTimerCallback.spec_rank()
            < DocumentUnsupportedSourceReason::MediaElement.spec_rank()
            < DocumentUnsupportedSourceReason::Canvas2d.spec_rank()
            < DocumentUnsupportedSourceReason::BitmapRendererCanvas.spec_rank()
            < DocumentUnsupportedSourceReason::WebGlCanvas.spec_rank()
            < DocumentUnsupportedSourceReason::WebGpuCanvas.spec_rank()
            < DocumentUnsupportedSourceReason::OffscreenCanvas.spec_rank()
            < DocumentUnsupportedSourceReason::DedicatedWorker.spec_rank()
            < DocumentUnsupportedSourceReason::Worklet.spec_rank()
            < DocumentUnsupportedSourceReason::IndexedDb.spec_rank()
            < DocumentUnsupportedSourceReason::GpuDevice.spec_rank()
            < DocumentUnsupportedSourceReason::CookieStorePending.spec_rank()
            < DocumentUnsupportedSourceReason::ServiceWorkerPending.spec_rank()
            < DocumentUnsupportedSourceReason::ServiceWorkerMessaging.spec_rank()
            < DocumentUnsupportedSourceReason::WebXr.spec_rank()
            < DocumentUnsupportedSourceReason::StorageManager.spec_rank()
            < DocumentUnsupportedSourceReason::Bluetooth.spec_rank()
            < DocumentUnsupportedSourceReason::RtcPeerConnection.spec_rank()
            < DocumentUnsupportedSourceReason::MediaStream.spec_rank()
            < DocumentUnsupportedSourceReason::WebAudio.spec_rank()
            < DocumentUnsupportedSourceReason::Notification.spec_rank()
            < DocumentUnsupportedSourceReason::WebGpuApi.spec_rank(),
{
}

/// States of a retained canvas are ordered as they are listed, and told apart by their rank.
pub proof fn law_canvas_states_have_their_order(left: DocumentCanvasCaptureStatus, right: DocumentCanvasCaptureStatus)
    ensures
        left.spec_rank() == right.spec_rank() ==> left == right,
        DocumentCanvasCaptureStatus::Ready.spec_rank()
            < DocumentCanvasCaptureStatus::RetentionDisabled.spec_rank()
            < DocumentCanvasCaptureStatus::MissingCanvas.spec_rank()
            < DocumentCanvasCaptureStatus::MissingImageKey.spec_rank()
            < DocumentCanvasCaptureStatus::ImageKeyMismatch.spec_rank()
            < DocumentCanvasCaptureStatus::SizeMismatch.spec_rank()
            < DocumentCanvasCaptureStatus::RetentionBudgetExceeded.spec_rank()
            < DocumentCanvasCaptureStatus::UnsupportedTranscript.spec_rank()
            < DocumentCanvasCaptureStatus::ObservationUnavailable.spec_rank()
            < DocumentCanvasCaptureStatus::MixedGeneration.spec_rank(),
{
}

} // verus!
