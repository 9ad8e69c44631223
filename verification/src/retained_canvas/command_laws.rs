//! What is retained of each canvas, told by what it is asked to draw.
use super::{
    retained, CanvasRetention, FillOrStrokeStyle, FillRectRequest, FilledRect, RegistryView,
    RetainedCanvasCommand, RetainedCanvasFallbackReason, RetainedCanvasUnsupportedReason,
    SnapshotView, MAX_RETAINED_COMMANDS, MAX_RETAINED_OBJECTS, MAX_RETAINED_RASTER_BYTES,
};
use super::laws::RetentionEvent;
use vstd::prelude::*;

verus! {

/// The double-precision number with these bits is a zero.
pub open spec fn zero_bits(bits: u64) -> bool {
    bits % 0x8000_0000_0000_0000 == 0
}

/// The single-precision number with these bits is below zero.
pub open spec fn negative_bits(bits: u32) -> bool {
    bits >= 0x8000_0000 && 0 < bits - 0x8000_0000 <= 0x7f80_0000
}

/// A rectangle is filled with one opaque color, on top of what is there, where it was asked for.
pub open spec fn fills_plainly(request: FillRectRequest) -> bool {
    let transform = request.transform;
    &&& !request.draws_shadow
    &&& transform.m11 == 0x3ff0_0000_0000_0000
    &&& transform.m22 == 0x3ff0_0000_0000_0000
    &&& zero_bits(transform.m12) && zero_bits(transform.m21)
    &&& zero_bits(transform.m31) && zero_bits(transform.m32)
    &&& request.alpha == 0x3ff0_0000_0000_0000
    &&& request.source_over
    &&& request.style == FillOrStrokeStyle::Color
    &&& !negative_bits(request.width) && !negative_bits(request.height)
}

/// A canvas keeps all that was noted of it but its commands and why it cannot be given as commands.
pub open spec fn same_canvas(left: SnapshotView, right: SnapshotView) -> bool {
    left.width == right.width && left.height == right.height
}

/// A filled rectangle is retained, behind all commands before it, exactly where it is filled plainly,
/// some of it lies on the canvas, the canvas can be given as commands, and the budget has room for
/// it; it is charged then as one command. One that is not filled plainly is charged nothing, and the
/// canvas can no longer be given as commands. One for which there is no room uses the budget up.
pub proof fn law_filled_rectangle_is_retained_where_it_is_plain(
    view: RegistryView,
    canvas: u64,
    request: FillRectRequest,
    clipped: Option<FilledRect>,
)
    requires
        view.canvases.dom().contains(canvas),
    ensures
        ({
            let after = view.with_fill_rect(canvas, request, clipped);
            let old = view.canvases[canvas];
            let new = after.canvases[canvas];
            let room = !view.budget_exceeded && view.commands < view.max_commands
                && view.raster_bytes <= view.max_raster_bytes;
            let tried = fills_plainly(request) && clipped is Some;
            let kept = tried && old.unsupported is None && room;
            &&& after.canvases.dom().contains(canvas)
            &&& same_canvas(old, new)
            &&& new.commands == if kept {
                old.commands.push(RetainedCanvasCommand::FillRect(clipped->0))
            } else {
                old.commands
            }
            &&& after.commands == view.commands + if kept {
                1int
            } else {
                0int
            }
            &&& after.raster_bytes == view.raster_bytes
            &&& after.objects == view.objects
            &&& after.image_keys == view.image_keys
            &&& after.completed == view.completed
            &&& !fills_plainly(request) ==> new.unsupported is Some && after.budget_exceeded
                == view.budget_exceeded
            &&& fills_plainly(request) && clipped is None ==> after == view
            &&& old.unsupported is Some ==> new.unsupported == old.unsupported
            &&& kept ==> new.unsupported is None && !after.budget_exceeded
            &&& tried && old.unsupported is None && !room ==> {
                &&& after.budget_exceeded
                &&& new.unsupported is Some
                &&& new.unsupported->0.reason == RetainedCanvasUnsupportedReason::RetentionBudget
            }
            &&& old.unsupported is None && !fills_plainly(request) ==> {
                let reason = new.unsupported->0.reason;
                &&& new.unsupported->0.command == "fill_rect"
                &&& request.draws_shadow <==> reason == RetainedCanvasUnsupportedReason::Shadow
                &&& reason == RetainedCanvasUnsupportedReason::Paint ==> request.style
                    != FillOrStrokeStyle::Color || negative_bits(request.width)
                    || negative_bits(request.height)
                &&& reason == RetainedCanvasUnsupportedReason::Compositing ==> request.alpha
                    != 0x3ff0_0000_0000_0000 || !request.source_over
                &&& reason == RetainedCanvasUnsupportedReason::Shadow || reason
                    == RetainedCanvasUnsupportedReason::Transform || reason
                    == RetainedCanvasUnsupportedReason::Compositing || reason
                    == RetainedCanvasUnsupportedReason::Paint
            }
        }),
{
}

/// A readback of pixels is granted exactly where neither side is longer than 16384 pixels, it has no
/// more than 67,108,864 of them, the budget has room for its bytes, and the canvas can be given as
/// commands or the readback covers all of it, unless the budget was what stood against it. It is
/// charged four bytes a pixel and one command. One that is too large is charged nothing, and the
/// canvas can no longer be given as commands.
pub proof fn law_readback_is_granted_where_it_fits(
    view: RegistryView,
    canvas: u64,
    x: u32,
    y: u32,
    width: u32,
    height: u32,
)
    requires
        view.canvases.dom().contains(canvas),
    ensures
        ({
            let after = view.with_readback_charge(canvas, x, y, width, height);
            let granted = view.readback_granted(canvas, x, y, width, height);
            let old = view.canvases[canvas];
            let new = after.canvases[canvas];
            let bytes = width as int * height as int * 4;
            let small = width <= 16384 && height <= 16384 && bytes <= 268_435_456;
            let whole = x == 0 && y == 0 && width == old.width && height == old.height;
            let open = old.unsupported is None || (whole && old.unsupported->0.reason
                != RetainedCanvasUnsupportedReason::RetentionBudget);
            let room = !view.budget_exceeded && view.commands < view.max_commands
                && view.raster_bytes + bytes <= view.max_raster_bytes;
            &&& granted <==> small && open && room
            &&& after.commands == view.commands + if granted {
                1int
            } else {
                0int
            }
            &&& after.raster_bytes == view.raster_bytes + if granted {
                bytes
            } else {
                0int
            }
            &&& after.objects == view.objects
            &&& new.commands == old.commands
            &&& same_canvas(old, new)
            &&& granted ==> after.canvases == view.canvases
            &&& !small ==> new.unsupported is Some && (old.unsupported is None
                ==> new.unsupported->0.reason == RetainedCanvasUnsupportedReason::RasterLimit)
            &&& small && open && !room ==> after.budget_exceeded && new.unsupported is Some
            &&& old.unsupported is Some ==> new.unsupported == old.unsupported
        }),
{
    assert(width * height * 4 == width as int * height as int * 4);
    if width <= 16384 && height <= 16384 {
        assert(width * height <= 16384 * 16384) by (nonlinear_arith)
            requires
                width <= 16384,
                height <= 16384,
        ;
    }
    assert(0 <= width * height) by (nonlinear_arith);
}

/// The pixels of a readback come behind all commands before them; those of the whole canvas replace
/// them, and the canvas can be given as commands again.
pub proof fn law_pixels_come_last_or_replace_all(
    view: RegistryView,
    canvas: u64,
    x: u32,
    y: u32,
    width: u32,
    height: u32,
    premultiplied_rgba: Vec<u8>,
)
    requires
        view.canvases.dom().contains(canvas),
    ensures
        ({
            let after = view.with_patch(canvas, x, y, width, height, premultiplied_rgba);
            let old = view.canvases[canvas];
            let new = after.canvases[canvas];
            let whole = x == 0 && y == 0 && width == old.width && height == old.height;
            let patch = RetainedCanvasCommand::RasterPatch {
                x,
                y,
                width,
                height,
                premultiplied_rgba,
                reason: RetainedCanvasFallbackReason::PixelReadback,
            };
            &&& same_canvas(old, new)
            &&& new.commands.len() == if whole {
                1
            } else {
                old.commands.len() + 1
            }
            &&& new.commands.last() == patch
            &&& !whole ==> new.commands.drop_last() == old.commands && new.unsupported
                == old.unsupported
            &&& whole ==> new.unsupported is None
            &&& after.commands == view.commands && after.raster_bytes == view.raster_bytes
        }),
{
    let after = view.with_patch(canvas, x, y, width, height, premultiplied_rgba);
    let old = view.canvases[canvas];
    let new = after.canvases[canvas];
    if !(x == 0 && y == 0 && width == old.width && height == old.height) {
        assert(new.commands.drop_last() =~= old.commands);
    }
}

/// The canvas that an event is about.
pub open spec fn canvas_of(event: RetentionEvent) -> u64 {
    match event {
        RetentionEvent::Register { canvas, .. } => canvas,
        RetentionEvent::Recreate { canvas, .. } => canvas,
        RetentionEvent::Associate { canvas, .. } => canvas,
        RetentionEvent::Finish { canvas } => canvas,
        RetentionEvent::Fill { canvas, .. } => canvas,
        RetentionEvent::ReserveReadback { canvas, .. } => canvas,
        RetentionEvent::FinishReadback { canvas, .. } => canvas,
        RetentionEvent::Mark { canvas, .. } => canvas,
    }
}

/// What happens to one canvas changes no other, and no image of another.
pub proof fn law_canvases_do_not_touch_each_other(
    view: RegistryView,
    event: RetentionEvent,
    other: u64,
)
    requires
        other != canvas_of(event),
    ensures
        view.after(event).canvases.dom().contains(other) == view.canvases.dom().contains(other),
        view.canvases.dom().contains(other) ==> view.after(event).canvases[other]
            == view.canvases[other],
{
}

/// A canvas that is registered is empty, of the size that was asked for, and can be given as
/// commands; it is charged as one object where it is new, and is not taken where there is no room
/// for it or a side is longer than 32 bits count.
pub proof fn law_registered_canvas_is_empty(
    view: RegistryView,
    canvas: u64,
    width: u64,
    height: u64,
)
    ensures
        ({
            let after = view.registered(canvas, width, height);
            let known = view.canvases.dom().contains(canvas);
            let small = width <= 0xffff_ffff && height <= 0xffff_ffff;
            let room = known || (!view.budget_exceeded && view.objects < view.max_objects);
            &&& small && room ==> {
                &&& after.canvases.dom().contains(canvas)
                &&& after.canvases[canvas].commands.len() == 0
                &&& after.canvases[canvas].unsupported is None
                &&& after.canvases[canvas].width == width
                &&& after.canvases[canvas].height == height
                &&& after.objects == view.objects + if known {
                    0int
                } else {
                    1int
                }
                &&& after.budget_exceeded == view.budget_exceeded
            }
            &&& !small ==> after == view
            &&& small && !room ==> after.budget_exceeded && after.canvases == view.canvases
                && after.objects == view.objects
            &&& after.commands == view.commands && after.raster_bytes == view.raster_bytes
            &&& after.image_keys == view.image_keys && after.completed == view.completed
        }),
{
}

/// A canvas that is cleared has no commands and can be given as commands, in its size or in the one
/// that is given; only one that would be too large cannot, and keeps what it was. Nothing is charged
/// or given back.
pub proof fn law_cleared_canvas_is_empty(
    view: RegistryView,
    canvas: u64,
    size: Option<(u64, u64)>,
)
    requires
        view.canvases.dom().contains(canvas),
    ensures
        ({
            let after = view.recreated(canvas, size);
            let old = view.canvases[canvas];
            let new = after.canvases[canvas];
            let small = size is None || ((size->0).0 <= 0xffff_ffff && (size->0).1 <= 0xffff_ffff);
            &&& small ==> new.commands.len() == 0 && new.unsupported is None
            &&& size is None ==> same_canvas(old, new)
            &&& small && size is Some ==> new.width == (size->0).0 && new.height == (size->0).1
            &&& !small ==> {
                &&& new.commands == old.commands
                &&& same_canvas(old, new)
                &&& new.unsupported is Some
                &&& new.unsupported->0.reason == RetainedCanvasUnsupportedReason::RasterLimit
            }
            &&& after.commands == view.commands && after.raster_bytes == view.raster_bytes
            &&& after.objects == view.objects && after.budget_exceeded == view.budget_exceeded
        }),
{
}

/// An image key shows the canvas that it was given last, whatever it showed before, and no other key
/// changes; it is charged as one object where it is new, and refused where there is no room for it.
pub proof fn law_image_key_shows_the_canvas_it_was_given(
    view: RegistryView,
    canvas: u64,
    image_key: u64,
    other: u64,
)
    requires
        view.canvases.dom().contains(canvas),
        other != image_key,
    ensures
        ({
            let after = view.associated(canvas, image_key);
            let known = view.image_keys.dom().contains(image_key) || view.completed.dom().contains(
                image_key,
            );
            let room = known || (!view.budget_exceeded && view.objects < view.max_objects);
            &&& room ==> {
                &&& after.shown(image_key) == Some(view.canvases[canvas])
                &&& after.shown(other) == view.shown(other)
                &&& after.objects == view.objects + if known {
                    0int
                } else {
                    1int
                }
            }
            &&& !room ==> {
                &&& after.image_keys == view.image_keys
                &&& after.completed == view.completed
                &&& after.budget_exceeded
                &&& after.objects == view.objects
            }
        }),
{
}

/// What a canvas was when it was done stays shown, whatever a canvas of the same name does later.
pub proof fn law_finished_canvas_does_not_change(
    view: RegistryView,
    canvas: u64,
    image_key: u64,
    width: u64,
    height: u64,
    request: FillRectRequest,
    clipped: Option<FilledRect>,
)
    requires
        view.canvases.dom().contains(canvas),
        view.image_keys.dom().contains(image_key),
        view.image_keys[image_key] == canvas,
    ensures
        ({
            let done = view.with_finished(canvas);
            let again = done.registered(canvas, width, height).with_fill_rect(
                canvas,
                request,
                clipped,
            );
            &&& !done.canvases.dom().contains(canvas)
            &&& done.shown(image_key) == Some(view.canvases[canvas])
            &&& again.shown(image_key) == Some(view.canvases[canvas])
            &&& done.commands == view.commands && done.objects == view.objects
                && done.raster_bytes == view.raster_bytes
        }),
{
    let done = view.with_finished(canvas);
    let keys = view.keys_of(canvas);
    assert(keys.contains(image_key));
    assert(!done.image_keys.dom().contains(image_key));
    assert(done.completed.dom().contains(image_key));
    assert(done.completed[image_key] == view.canvases[canvas]);
    let again = done.registered(canvas, width, height).with_fill_rect(canvas, request, clipped);
    assert(again.completed == done.completed && again.image_keys == done.image_keys);
}

/// While retention is off nothing is retained; while it is on, what is drawn is.
pub proof fn law_nothing_is_retained_while_off(before: CanvasRetention, after: RegistryView)
    ensures
        !before.enabled ==> retained(before, after) == before.registry@,
        before.enabled ==> retained(before, after) == after,
{
}

/// A session retains no more than 262,144 commands, 64 mebibytes of pixels and 65,536 objects.
pub proof fn law_session_limits()
    ensures
        MAX_RETAINED_COMMANDS == 262_144,
        MAX_RETAINED_RASTER_BYTES == 64 * 1024 * 1024,
        MAX_RETAINED_OBJECTS == 65_536,
{
}

} // verus!
