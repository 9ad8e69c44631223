//! What holds of retained canvases as a whole.
use super::{
    FillRectRequest, FilledRect, ImageKey, RegistryView, RetainedCanvasCommand,
    RetainedCanvasFallbackReason, RetainedCanvasUnsupportedReason,
};
use vstd::prelude::*;

verus! {

impl RegistryView {
    /// Nothing is retained beyond its limit.
    pub open spec fn within_budget(self) -> bool {
        &&& 0 <= self.commands <= self.max_commands
        &&& 0 <= self.raster_bytes <= self.max_raster_bytes
        &&& 0 <= self.objects <= self.max_objects
    }

    /// Charges only grow, limits stay, and a budget that is used up stays so.
    pub open spec fn charges_at_most(self, later: RegistryView) -> bool {
        &&& self.commands <= later.commands
        &&& self.raster_bytes <= later.raster_bytes
        &&& self.objects <= later.objects
        &&& self.max_commands == later.max_commands
        &&& self.max_raster_bytes == later.max_raster_bytes
        &&& self.max_objects == later.max_objects
        &&& self.budget_exceeded ==> later.budget_exceeded
    }
}

/// What a session may see.
pub enum RetentionEvent {
    Register { canvas: u64, width: u64, height: u64 },
    Recreate { canvas: u64, size: Option<(u64, u64)> },
    Associate { canvas: u64, image_key: u64 },
    Finish { canvas: u64 },
    Fill { canvas: u64, request: FillRectRequest, clipped: Option<FilledRect> },
    ReserveReadback { canvas: u64, x: u32, y: u32, width: u32, height: u32 },
    FinishReadback {
        canvas: u64,
        x: u32,
        y: u32,
        width: u32,
        height: u32,
        premultiplied_rgba: Vec<u8>,
    },
    Mark { canvas: u64, command: &'static str, reason: RetainedCanvasUnsupportedReason },
}

impl RegistryView {
    /// What an event does while retention is on.
    pub open spec fn after(self, event: RetentionEvent) -> RegistryView {
        match event {
            RetentionEvent::Register { canvas, width, height } => self.registered(
                canvas,
                width,
                height,
            ),
            RetentionEvent::Recreate { canvas, size } => self.recreated(canvas, size),
            RetentionEvent::Associate { canvas, image_key } => self.associated(canvas, image_key),
            RetentionEvent::Finish { canvas } => self.with_finished(canvas),
            RetentionEvent::Fill { canvas, request, clipped } => self.with_fill_rect(
                canvas,
                request,
                clipped,
            ),
            RetentionEvent::ReserveReadback {
                canvas,
                x,
                y,
                width,
                height,
            } => self.with_readback_charge(canvas, x, y, width, height),
            RetentionEvent::FinishReadback {
                canvas,
                x,
                y,
                width,
                height,
                premultiplied_rgba,
            } => self.with_patch(canvas, x, y, width, height, premultiplied_rgba),
            RetentionEvent::Mark { canvas, command, reason } => self.marked(
                canvas,
                command,
                reason,
            ),
        }
    }
}

/// No event crosses a limit of the session.
pub proof fn law_budget_is_never_crossed(view: RegistryView, event: RetentionEvent)
    requires
        view.within_budget(),
    ensures
        view.after(event).within_budget(),
{
}

/// Nothing is refunded: replacing a readback or finishing a canvas gives no charge back, and a
/// session whose budget is used up stays that way.
pub proof fn law_charges_are_never_refunded(view: RegistryView, event: RetentionEvent)
    requires
        view.within_budget(),
    ensures
        view.charges_at_most(view.after(event)),
{
}

/// Once a budget is used up, no command and no new object is accepted.
pub proof fn law_used_up_budget_accepts_nothing(
    view: RegistryView,
    canvas: u64,
    raster_bytes: u64,
    can_replace_unsupported: bool,
)
    requires
        view.budget_exceeded,
    ensures
        !view.object_fits(),
        !view.command_granted(canvas, raster_bytes, can_replace_unsupported),
{
}

/// When a canvas is done, every image key shows what it showed before.
pub proof fn law_finishing_changes_no_image(view: RegistryView, canvas: u64, image_key: u64)
    requires
        view.canvases.dom().contains(canvas),
        !(view.image_keys.dom().contains(image_key) && view.completed.dom().contains(image_key)),
    ensures
        view.with_finished(canvas).shown(image_key) == view.shown(image_key),
{
    let after = view.with_finished(canvas);
    let keys = view.keys_of(canvas);
    assert(keys.contains(image_key) <==> view.image_keys.dom().contains(image_key)
        && view.image_keys[image_key] == canvas);
    assert(after.image_keys.dom().contains(image_key) <==> view.image_keys.dom().contains(image_key)
        && !keys.contains(image_key));
}

/// An image key shows a canvas that is live, or one that is done, never both.
pub proof fn law_image_key_has_one_owner(view: RegistryView, event: RetentionEvent, image_key: u64)
    requires
        forall|key: u64|
            !(#[trigger] view.image_keys.dom().contains(key) && view.completed.dom().contains(key)),
    ensures
        !(view.after(event).image_keys.dom().contains(image_key) && view.after(
            event,
        ).completed.dom().contains(image_key)),
{
    assert(!(view.image_keys.dom().contains(image_key) && view.completed.dom().contains(
        image_key,
    )));
    if let RetentionEvent::Finish { canvas } = event {
        if view.canvases.dom().contains(canvas) {
            let keys = view.keys_of(canvas);
            assert(keys.contains(image_key) <==> view.image_keys.dom().contains(image_key)
                && view.image_keys[image_key] == canvas);
        }
    }
}

/// A readback of the whole canvas stands for everything drawn before: the canvas is supported again
/// and its pixels are the only command.
pub proof fn law_whole_readback_is_authoritative(
    view: RegistryView,
    canvas: u64,
    width: u32,
    height: u32,
    premultiplied_rgba: Vec<u8>,
)
    requires
        view.covers(canvas, 0, 0, width, height),
    ensures
        ({
            let after = view.with_patch(canvas, 0, 0, width, height, premultiplied_rgba);
            &&& after.canvases[canvas].unsupported is None
            &&& after.canvases[canvas].commands == seq![
                RetainedCanvasCommand::RasterPatch {
                    x: 0,
                    y: 0,
                    width,
                    height,
                    premultiplied_rgba,
                    reason: RetainedCanvasFallbackReason::PixelReadback,
                },
            ]
        }),
{
}

/// The first reason why a canvas cannot be given as commands is the one that is kept.
pub proof fn law_first_reason_is_kept(
    view: RegistryView,
    canvas: u64,
    first: &'static str,
    first_reason: RetainedCanvasUnsupportedReason,
    second: &'static str,
    second_reason: RetainedCanvasUnsupportedReason,
)
    ensures
        view.marked(canvas, first, first_reason).marked(canvas, second, second_reason).canvases
            =~= view.marked(canvas, first, first_reason).canvases,
{
}

/// No two image keys share a number.
pub proof fn law_image_key_code_identifies(left: ImageKey, right: ImageKey)
    requires
        left.code() == right.code(),
    ensures
        left == right,
{
}

} // verus!
