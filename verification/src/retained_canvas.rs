//! Canvas commands that are retained for document capture.
//!
//! While retention is on, drawing commands are kept per canvas, within a budget of commands, raw
//! pixel bytes and objects that holds for the whole session. Lengths and colors are carried as the
//! bits of double-precision numbers.
pub mod command_laws;
pub mod laws;

use std::collections::HashMap;
use vstd::std_specs::iter::IteratorSpec;
use vstd::prelude::*;

verus! {

/// The longest side of a readback.
pub const MAX_RASTER_DIMENSION: u64 = 16_384;

/// The most pixels of a readback.
pub const MAX_RASTER_PIXELS: u64 = 100_000_000;

/// The most bytes of a readback.
pub const MAX_RASTER_BYTES: u64 = 268_435_456;

/// The most raw pixel bytes that a session retains.
pub const MAX_RETAINED_RASTER_BYTES: u64 = 67_108_864;

/// The most commands that a session retains.
pub const MAX_RETAINED_COMMANDS: u64 = 262_144;

/// The most canvases and image keys that a session retains.
pub const MAX_RETAINED_OBJECTS: u64 = 65_536;

/// Names a canvas.
#[derive(Clone, Copy, Debug, PartialEq, Eq, PartialOrd, Ord, Hash, Structural)]
pub struct CanvasId(pub u64);

/// Names an image of the renderer.
#[derive(Clone, Copy, Debug, PartialEq, Eq, PartialOrd, Ord, Hash, Structural)]
pub struct ImageKey {
    pub namespace: u32,
    pub key: u32,
}

impl ImageKey {
    /// The key as one number; no two keys share one.
    pub open spec fn spec_code(self) -> u64 {
        (self.namespace * 0x1_0000_0000 + self.key) as u64
    }

    /// The key as one number; no two keys share one.
    #[verifier::when_used_as_spec(spec_code)]
    pub fn code(self) -> (code: u64)
        ensures
            code == self.spec_code(),
    {
        self.namespace as u64 * 0x1_0000_0000 + self.key as u64
    }
}

/// Why pixels stand in for commands.
#[derive(Clone, Copy, Debug, PartialEq, Eq, Structural)]
pub enum RetainedCanvasFallbackReason {
    PixelReadback,
}

/// Why a canvas cannot be given as commands.
#[derive(Clone, Copy, Debug, PartialEq, Eq, Structural)]
pub enum RetainedCanvasUnsupportedReason {
    Clip,
    Compositing,
    Paint,
    RasterLimit,
    RetentionBudget,
    Shadow,
    Transform,
    UnsupportedCommand,
}

/// A canvas cannot be given as commands, since this one was not retained.
#[derive(Clone, Copy, Debug, PartialEq, Eq)]
pub struct RetainedCanvasUnsupported {
    pub command: &'static str,
    pub reason: RetainedCanvasUnsupportedReason,
}

/// A rectangle filled with one color.
#[derive(Clone, Copy, Debug, PartialEq, Eq, Structural)]
pub struct FilledRect {
    pub x: u64,
    pub y: u64,
    pub width: u64,
    pub height: u64,
    pub red: u64,
    pub green: u64,
    pub blue: u64,
    pub alpha: u64,
}

/// A retained command.
#[derive(Clone, Debug, PartialEq, Eq)]
pub enum RetainedCanvasCommand {
    FillRect(FilledRect),
    RasterPatch {
        x: u32,
        y: u32,
        width: u32,
        height: u32,
        premultiplied_rgba: Vec<u8>,
        reason: RetainedCanvasFallbackReason,
    },
}

/// What is retained of one canvas.
#[derive(Clone, Debug, PartialEq, Eq)]
pub struct RetainedCanvasSnapshot {
    pub width: u32,
    pub height: u32,
    pub commands: Vec<RetainedCanvasCommand>,
    pub unsupported: Option<RetainedCanvasUnsupported>,
}

/// What is retained of one canvas, with its commands as a mathematical sequence.
pub struct SnapshotView {
    pub width: u32,
    pub height: u32,
    pub commands: Seq<RetainedCanvasCommand>,
    pub unsupported: Option<RetainedCanvasUnsupported>,
}

impl View for RetainedCanvasSnapshot {
    type V = SnapshotView;

    open spec fn view(&self) -> SnapshotView {
        SnapshotView {
            width: self.width,
            height: self.height,
            commands: self.commands@,
            unsupported: self.unsupported,
        }
    }
}

impl SnapshotView {
    /// The first reason stays: a later one does not replace it.
    pub open spec fn marked(
        self,
        command: &'static str,
        reason: RetainedCanvasUnsupportedReason,
    ) -> SnapshotView {
        SnapshotView {
            unsupported: match self.unsupported {
                Some(unsupported) => Some(unsupported),
                None => Some(RetainedCanvasUnsupported { command, reason }),
            },
            ..self
        }
    }
}

impl RetainedCanvasSnapshot {
    /// Notes why the canvas cannot be given as commands, unless a reason is noted.
    fn mark(&mut self, command: &'static str, reason: RetainedCanvasUnsupportedReason)
        ensures
            final(self)@ == old(self)@.marked(command, reason),
    {
        if self.unsupported.is_none() {
            self.unsupported = Some(RetainedCanvasUnsupported { command, reason });
        }
    }
}

/// Keeps retention on. It ends with [`stop_retaining_canvas_commands`].
#[derive(Debug, PartialEq, Eq)]
pub struct CanvasRetentionGuard {
    pub active: bool,
}

/// Everything that is retained. A canvas that is done stays in `finished`, where all its image keys
/// share it.
#[derive(Debug)]
pub struct Registry {
    pub canvases: HashMap<u64, RetainedCanvasSnapshot>,
    pub image_keys: HashMap<u64, u64>,
    pub completed: HashMap<u64, usize>,
    pub finished: Vec<RetainedCanvasSnapshot>,
    pub retained_command_count: u64,
    pub retained_raster_bytes: u64,
    pub retained_object_count: u64,
    pub max_retained_commands: u64,
    pub max_retained_raster_bytes: u64,
    pub max_retained_objects: u64,
    pub retention_budget_exceeded: bool,
}

/// Everything that is retained, as mathematical maps: what there is of each canvas, which canvas an
/// image key shows, and what the image keys of canvases that are done show.
pub struct RegistryView {
    pub canvases: Map<u64, SnapshotView>,
    pub image_keys: Map<u64, u64>,
    pub completed: Map<u64, SnapshotView>,
    pub commands: int,
    pub raster_bytes: int,
    pub objects: int,
    pub max_commands: int,
    pub max_raster_bytes: int,
    pub max_objects: int,
    pub budget_exceeded: bool,
}

pub open spec fn canvases_view(canvases: Map<u64, RetainedCanvasSnapshot>) -> Map<
    u64,
    SnapshotView,
> {
    canvases.map_values(|snapshot: RetainedCanvasSnapshot| snapshot@)
}

pub open spec fn completed_view(
    completed: Map<u64, usize>,
    finished: Seq<RetainedCanvasSnapshot>,
) -> Map<u64, SnapshotView> {
    completed.map_values(|index: usize| finished[index as int]@)
}

impl View for Registry {
    type V = RegistryView;

    open spec fn view(&self) -> RegistryView {
        RegistryView {
            canvases: canvases_view(self.canvases@),
            image_keys: self.image_keys@,
            completed: completed_view(self.completed@, self.finished@),
            commands: self.retained_command_count as int,
            raster_bytes: self.retained_raster_bytes as int,
            objects: self.retained_object_count as int,
            max_commands: self.max_retained_commands as int,
            max_raster_bytes: self.max_retained_raster_bytes as int,
            max_objects: self.max_retained_objects as int,
            budget_exceeded: self.retention_budget_exceeded,
        }
    }
}

impl RegistryView {
    /// Nothing is retained, within the given limits.
    pub open spec fn empty(
        max_commands: int,
        max_raster_bytes: int,
        max_objects: int,
    ) -> RegistryView {
        RegistryView {
            canvases: Map::empty(),
            image_keys: Map::empty(),
            completed: Map::empty(),
            commands: 0,
            raster_bytes: 0,
            objects: 0,
            max_commands,
            max_raster_bytes,
            max_objects,
            budget_exceeded: false,
        }
    }

    /// A canvas, if it is there, is marked.
    pub open spec fn marked(
        self,
        canvas: u64,
        command: &'static str,
        reason: RetainedCanvasUnsupportedReason,
    ) -> RegistryView {
        if self.canvases.dom().contains(canvas) {
            RegistryView {
                canvases: self.canvases.insert(
                    canvas,
                    self.canvases[canvas].marked(command, reason),
                ),
                ..self
            }
        } else {
            self
        }
    }

    /// The budget is used up, which the canvas concerned notes.
    pub open spec fn exceeded(self, canvas: Option<u64>) -> RegistryView {
        let exceeded = RegistryView { budget_exceeded: true, ..self };
        match canvas {
            Some(canvas) => exceeded.marked(
                canvas,
                "retention",
                RetainedCanvasUnsupportedReason::RetentionBudget,
            ),
            None => exceeded,
        }
    }

    /// One more object fits.
    pub open spec fn object_fits(self) -> bool {
        !self.budget_exceeded && self.objects + 1 <= self.max_objects
    }

    /// One more object is charged, or the budget is used up.
    pub open spec fn with_object(self, canvas: Option<u64>) -> RegistryView {
        if self.object_fits() {
            RegistryView { objects: self.objects + 1, ..self }
        } else {
            self.exceeded(canvas)
        }
    }

    /// A canvas takes commands: it can be given as commands, or what comes replaces what cannot.
    pub open spec fn takes_commands(self, canvas: u64, can_replace_unsupported: bool) -> bool {
        match self.canvases[canvas].unsupported {
            Some(unsupported) => can_replace_unsupported && !(
            unsupported.reason is RetentionBudget),
            None => true,
        }
    }

    /// One more command, with its raw pixel bytes, fits.
    pub open spec fn command_fits(self, raster_bytes: u64) -> bool {
        self.commands + 1 <= self.max_commands && self.raster_bytes + raster_bytes
            <= self.max_raster_bytes
    }

    /// A command of a canvas is retained.
    pub open spec fn command_granted(
        self,
        canvas: u64,
        raster_bytes: u64,
        can_replace_unsupported: bool,
    ) -> bool {
        &&& self.canvases.dom().contains(canvas)
        &&& !self.budget_exceeded
        &&& self.takes_commands(canvas, can_replace_unsupported)
        &&& self.command_fits(raster_bytes)
    }

    /// A command is charged where it is retained; one that does not fit uses the budget up.
    pub open spec fn with_command_charge(
        self,
        canvas: u64,
        raster_bytes: u64,
        can_replace_unsupported: bool,
    ) -> RegistryView {
        if !self.canvases.dom().contains(canvas) {
            self
        } else if self.budget_exceeded {
            self.exceeded(Some(canvas))
        } else if !self.takes_commands(canvas, can_replace_unsupported) {
            self
        } else if self.command_fits(raster_bytes) {
            RegistryView {
                commands: self.commands + 1,
                raster_bytes: self.raster_bytes + raster_bytes,
                ..self
            }
        } else {
            self.exceeded(Some(canvas))
        }
    }

    /// What an image key shows.
    pub open spec fn shown(self, image_key: u64) -> Option<SnapshotView> {
        if self.image_keys.dom().contains(image_key) {
            if self.canvases.dom().contains(self.image_keys[image_key]) {
                Some(self.canvases[self.image_keys[image_key]])
            } else {
                None
            }
        } else if self.completed.dom().contains(image_key) {
            Some(self.completed[image_key])
        } else {
            None
        }
    }

    /// A canvas starts anew; one that was not there is charged.
    pub open spec fn registered(self, canvas: u64, width: u64, height: u64) -> RegistryView {
        let known = self.canvases.dom().contains(canvas);
        if width > u32::MAX || height > u32::MAX {
            self
        } else if !known && !self.object_fits() {
            self.exceeded(None)
        } else {
            let charged = if known {
                self
            } else {
                self.with_object(None)
            };
            RegistryView {
                canvases: charged.canvases.insert(
                    canvas,
                    SnapshotView {
                        width: width as u32,
                        height: height as u32,
                        commands: Seq::empty(),
                        unsupported: None,
                    },
                ),
                ..charged
            }
        }
    }

    /// A canvas is cleared, to another size where one is given.
    pub open spec fn recreated(self, canvas: u64, size: Option<(u64, u64)>) -> RegistryView {
        if !self.canvases.dom().contains(canvas) {
            self
        } else {
            let snapshot = self.canvases[canvas];
            let after = match size {
                Some((width, height)) => if width > u32::MAX || height > u32::MAX {
                    SnapshotView {
                        unsupported: Some(
                            RetainedCanvasUnsupported {
                                command: "recreate",
                                reason: RetainedCanvasUnsupportedReason::RasterLimit,
                            },
                        ),
                        ..snapshot
                    }
                } else {
                    SnapshotView {
                        width: width as u32,
                        height: height as u32,
                        commands: Seq::empty(),
                        unsupported: None,
                    }
                },
                None => SnapshotView { commands: Seq::empty(), unsupported: None, ..snapshot },
            };
            RegistryView { canvases: self.canvases.insert(canvas, after), ..self }
        }
    }

    /// An image key shows a canvas from now on; one that was not there is charged.
    pub open spec fn associated(self, canvas: u64, image_key: u64) -> RegistryView {
        let known = self.image_keys.dom().contains(image_key) || self.completed.dom().contains(
            image_key,
        );
        if !known && !self.object_fits() {
            self.exceeded(Some(canvas))
        } else {
            let charged = if known {
                self
            } else {
                self.with_object(Some(canvas))
            };
            RegistryView {
                completed: charged.completed.remove(image_key),
                image_keys: charged.image_keys.insert(image_key, canvas),
                ..charged
            }
        }
    }

    /// The image keys of a canvas.
    pub open spec fn keys_of(self, canvas: u64) -> Set<u64> {
        self.image_keys.dom().filter(|key: u64| self.image_keys[key] == canvas)
    }

    /// A canvas is done: its image keys keep showing what it was.
    pub open spec fn with_finished(self, canvas: u64) -> RegistryView {
        if !self.canvases.dom().contains(canvas) {
            self
        } else {
            let keys = self.keys_of(canvas);
            RegistryView {
                canvases: self.canvases.remove(canvas),
                image_keys: self.image_keys.remove_keys(keys),
                completed: self.completed.union_prefer_right(
                    Map::new(|key: u64| keys.contains(key), |key: u64| self.canvases[canvas]),
                ),
                ..self
            }
        }
    }
}

impl Registry {
    /// Every image key of a canvas that is done has what it shows.
    pub open spec fn wf(&self) -> bool {
        forall|key: u64|
            self.completed@.dom().contains(key) ==> (#[trigger] self.completed@[key])
                < self.finished@.len()
    }

    /// Nothing retained, within the given limits.
    pub fn new(
        max_retained_commands: u64,
        max_retained_raster_bytes: u64,
        max_retained_objects: u64,
    ) -> (registry: Self)
        ensures
            registry@ == RegistryView::empty(
                max_retained_commands as int,
                max_retained_raster_bytes as int,
                max_retained_objects as int,
            ),
            registry.wf(),
    {
        let registry = Registry {
            canvases: HashMap::new(),
            image_keys: HashMap::new(),
            completed: HashMap::new(),
            finished: Vec::new(),
            retained_command_count: 0,
            retained_raster_bytes: 0,
            retained_object_count: 0,
            max_retained_commands,
            max_retained_raster_bytes,
            max_retained_objects,
            retention_budget_exceeded: false,
        };
        assert(registry@.canvases =~= Map::empty());
        assert(registry@.completed =~= Map::empty());
        registry
    }

    /// Forgets everything and goes back to the limits of an ordinary session.
    pub fn clear(&mut self)
        ensures
            final(self)@ == RegistryView::empty(
                MAX_RETAINED_COMMANDS as int,
                MAX_RETAINED_RASTER_BYTES as int,
                MAX_RETAINED_OBJECTS as int,
            ),
            final(self).wf(),
    {
        *self = Registry::new(
            MAX_RETAINED_COMMANDS,
            MAX_RETAINED_RASTER_BYTES,
            MAX_RETAINED_OBJECTS,
        );
    }

    /// Notes on a canvas, if it is there, why it cannot be given as commands.
    fn mark(
        &mut self,
        canvas_id: CanvasId,
        command: &'static str,
        reason: RetainedCanvasUnsupportedReason,
    )
        requires
            old(self).wf(),
        ensures
            final(self)@ == old(self)@.marked(canvas_id.0, command, reason),
            final(self).wf(),
    {
        let ghost before = self@;
        match self.canvases.remove(&canvas_id.0) {
            Some(snapshot) => {
                let mut snapshot = snapshot;
                snapshot.mark(command, reason);
                self.canvases.insert(canvas_id.0, snapshot);
                assert(self@.canvases =~= before.marked(canvas_id.0, command, reason).canvases);
            },
            None => {
                assert(self@.canvases =~= before.canvases);
            },
        }
    }

    /// Notes that the budget is used up.
    pub fn mark_retention_budget_exceeded(&mut self, canvas_id: Option<CanvasId>)
        requires
            old(self).wf(),
        ensures
            final(self)@ == old(self)@.exceeded(
                match canvas_id {
                    Some(canvas_id) => Some(canvas_id.0),
                    None => None,
                },
            ),
            final(self).wf(),
    {
        self.retention_budget_exceeded = true;
        if let Some(canvas_id) = canvas_id {
            self.mark(
                canvas_id,
                "retention",
                RetainedCanvasUnsupportedReason::RetentionBudget,
            );
        }
    }

    /// Charges one object if it fits.
    pub fn reserve_object(&mut self, canvas_id: Option<CanvasId>) -> (reserved: bool)
        requires
            old(self).wf(),
        ensures
            reserved == old(self)@.object_fits(),
            final(self)@ == old(self)@.with_object(
                match canvas_id {
                    Some(canvas_id) => Some(canvas_id.0),
                    None => None,
                },
            ),
            final(self).wf(),
    {
        if self.retention_budget_exceeded || self.retained_object_count
            >= self.max_retained_objects {
            self.mark_retention_budget_exceeded(canvas_id);
            return false;
        }
        self.retained_object_count = self.retained_object_count + 1;
        true
    }

    /// Charges one command, with its raw pixel bytes, if the canvas takes it and it fits.
    pub fn reserve_command(
        &mut self,
        canvas_id: CanvasId,
        raster_bytes: u64,
        can_replace_unsupported: bool,
    ) -> (reserved: bool)
        requires
            old(self).wf(),
        ensures
            reserved == old(self)@.command_granted(
                canvas_id.0,
                raster_bytes,
                can_replace_unsupported,
            ),
            final(self)@ == old(self)@.with_command_charge(
                canvas_id.0,
                raster_bytes,
                can_replace_unsupported,
            ),
            final(self).wf(),
    {
        let takes_commands = match self.canvases.get(&canvas_id.0) {
            None => return false,
            Some(canvas) => match &canvas.unsupported {
                Some(unsupported) => can_replace_unsupported && unsupported.reason
                    != RetainedCanvasUnsupportedReason::RetentionBudget,
                None => true,
            },
        };
        if self.retention_budget_exceeded {
            self.mark_retention_budget_exceeded(Some(canvas_id));
            return false;
        }
        if !takes_commands {
            return false;
        }
        let next_command_count = self.retained_command_count.checked_add(1);
        let next_raster_bytes = self.retained_raster_bytes.checked_add(raster_bytes);
        match (next_command_count, next_raster_bytes) {
            (Some(commands), Some(bytes)) => {
                if commands <= self.max_retained_commands && bytes
                    <= self.max_retained_raster_bytes {
                    self.retained_command_count = commands;
                    self.retained_raster_bytes = bytes;
                    return true;
                }
            },
            _ => {},
        }
        self.mark_retention_budget_exceeded(Some(canvas_id));
        false
    }

    /// What an image key shows.
    pub fn shown(&self, image_key: u64) -> (snapshot: Option<&RetainedCanvasSnapshot>)
        requires
            self.wf(),
        ensures
            match snapshot {
                Some(snapshot) => self@.shown(image_key) == Some(snapshot@),
                None => self@.shown(image_key) is None,
            },
    {
        match self.image_keys.get(&image_key) {
            Some(canvas_id) => self.canvases.get(canvas_id),
            None => match self.completed.get(&image_key) {
                Some(index) => Some(&self.finished[*index]),
                None => None,
            },
        }
    }
}

/// Retention and whether it is on.
#[derive(Debug)]
pub struct CanvasRetention {
    pub enabled: bool,
    pub registry: Registry,
}

impl CanvasRetention {
    pub open spec fn wf(&self) -> bool {
        self.registry.wf()
    }

    /// Retention that is off.
    pub fn new() -> (retention: Self)
        ensures
            !retention.enabled,
            retention.registry@ == RegistryView::empty(
                MAX_RETAINED_COMMANDS as int,
                MAX_RETAINED_RASTER_BYTES as int,
                MAX_RETAINED_OBJECTS as int,
            ),
            retention.wf(),
    {
        CanvasRetention {
            enabled: false,
            registry: Registry::new(
                MAX_RETAINED_COMMANDS,
                MAX_RETAINED_RASTER_BYTES,
                MAX_RETAINED_OBJECTS,
            ),
        }
    }
}

/// What a command does to retention: nothing while it is off.
pub open spec fn retained(before: CanvasRetention, after: RegistryView) -> RegistryView {
    if before.enabled {
        after
    } else {
        before.registry@
    }
}

/// Turns retention on for a document capture.
pub fn start_retaining_canvas_commands(retention: &mut CanvasRetention) -> (guard:
    CanvasRetentionGuard)
    ensures
        guard.active,
        final(retention).enabled,
        final(retention).registry@ == RegistryView::empty(
            MAX_RETAINED_COMMANDS as int,
            MAX_RETAINED_RASTER_BYTES as int,
            MAX_RETAINED_OBJECTS as int,
        ),
        final(retention).wf(),
{
    start_retaining_canvas_commands_with_limits(
        retention,
        MAX_RETAINED_COMMANDS,
        MAX_RETAINED_RASTER_BYTES,
        MAX_RETAINED_OBJECTS,
    )
}

/// Turns retention on with limits that a test chooses.
pub fn start_retaining_canvas_commands_for_testing(
    retention: &mut CanvasRetention,
    max_retained_commands: u64,
    max_retained_raster_bytes: u64,
    max_retained_objects: u64,
) -> (guard: CanvasRetentionGuard)
    ensures
        guard.active,
        final(retention).enabled,
        final(retention).registry@ == RegistryView::empty(
            max_retained_commands as int,
            max_retained_raster_bytes as int,
            max_retained_objects as int,
        ),
        final(retention).wf(),
{
    start_retaining_canvas_commands_with_limits(
        retention,
        max_retained_commands,
        max_retained_raster_bytes,
        max_retained_objects,
    )
}

/// Forgets everything and turns retention on with the given limits.
pub fn start_retaining_canvas_commands_with_limits(
    retention: &mut CanvasRetention,
    max_retained_commands: u64,
    max_retained_raster_bytes: u64,
    max_retained_objects: u64,
) -> (guard: CanvasRetentionGuard)
    ensures
        guard.active,
        final(retention).enabled,
        final(retention).registry@ == RegistryView::empty(
            max_retained_commands as int,
            max_retained_raster_bytes as int,
            max_retained_objects as int,
        ),
        final(retention).wf(),
{
    retention.registry = Registry::new(
        max_retained_commands,
        max_retained_raster_bytes,
        max_retained_objects,
    );
    retention.enabled = true;
    CanvasRetentionGuard { active: true }
}

/// Turns retention off and forgets everything, once the guard is given back.
pub fn stop_retaining_canvas_commands(
    retention: &mut CanvasRetention,
    guard: CanvasRetentionGuard,
)
    requires
        old(retention).wf(),
    ensures
        guard.active ==> {
            &&& !final(retention).enabled
            &&& final(retention).registry@ == RegistryView::empty(
                MAX_RETAINED_COMMANDS as int,
                MAX_RETAINED_RASTER_BYTES as int,
                MAX_RETAINED_OBJECTS as int,
            )
        },
        !guard.active ==> {
            &&& final(retention).enabled == old(retention).enabled
            &&& final(retention).registry@ == old(retention).registry@
        },
        final(retention).wf(),
{
    if guard.active {
        retention.enabled = false;
        retention.registry.clear();
    }
}

/// What the renderer's image of a canvas shows, while retention is on.
pub fn snapshot_for_image_key(retention: &CanvasRetention, namespace: u32, key: u32) -> (snapshot:
    Option<&RetainedCanvasSnapshot>)
    requires
        retention.wf(),
    ensures
        ({
            let shown = retention.registry@.shown(ImageKey { namespace, key }.code());
            match snapshot {
                Some(snapshot) => retention.enabled && shown == Some(snapshot@),
                None => !retention.enabled || shown is None,
            }
        }),
{
    if !retention.enabled {
        return None;
    }
    retention.registry.shown(ImageKey { namespace, key }.code())
}

/// Some budget of the session is used up.
pub fn retention_budget_exceeded(retention: &CanvasRetention) -> (exceeded: bool)
    ensures
        exceeded == (retention.enabled && retention.registry@.budget_exceeded),
{
    retention.enabled && retention.registry.retention_budget_exceeded
}

/// A canvas has been made, or made anew.
pub fn register_canvas(
    retention: &mut CanvasRetention,
    canvas_id: CanvasId,
    width: u64,
    height: u64,
)
    requires
        old(retention).wf(),
    ensures
        final(retention).enabled == old(retention).enabled,
        final(retention).registry@ == retained(
            *old(retention),
            old(retention).registry@.registered(canvas_id.0, width, height),
        ),
        final(retention).wf(),
{
    if !retention.enabled {
        return ;
    }
    if width > u32::MAX as u64 || height > u32::MAX as u64 {
        return ;
    }
    let ghost before = retention.registry@;
    if !retention.registry.canvases.contains_key(&canvas_id.0)
        && !retention.registry.reserve_object(None) {
        return ;
    }
    let snapshot = RetainedCanvasSnapshot {
        width: width as u32,
        height: height as u32,
        commands: Vec::new(),
        unsupported: None,
    };
    assert(snapshot@.commands =~= Seq::empty());
    retention.registry.canvases.insert(canvas_id.0, snapshot);
    assert(retention.registry@.canvases =~= before.registered(
        canvas_id.0,
        width,
        height,
    ).canvases);
}

/// A canvas has been cleared, to another size where one is given.
pub fn recreate_canvas(
    retention: &mut CanvasRetention,
    canvas_id: CanvasId,
    size: Option<(u64, u64)>,
)
    requires
        old(retention).wf(),
    ensures
        final(retention).enabled == old(retention).enabled,
        final(retention).registry@ == retained(
            *old(retention),
            old(retention).registry@.recreated(canvas_id.0, size),
        ),
        final(retention).wf(),
{
    if !retention.enabled {
        return ;
    }
    let ghost before = retention.registry@;
    match retention.registry.canvases.remove(&canvas_id.0) {
        Some(snapshot) => {
            let mut snapshot = snapshot;
            let fits = match size {
                Some((width, height)) => {
                    if width > u32::MAX as u64 || height > u32::MAX as u64 {
                        false
                    } else {
                        snapshot.width = width as u32;
                        snapshot.height = height as u32;
                        true
                    }
                },
                None => true,
            };
            if fits {
                snapshot.commands = Vec::new();
                snapshot.unsupported = None;
                assert(snapshot@.commands =~= Seq::empty());
            } else {
                snapshot.unsupported = Some(
                    RetainedCanvasUnsupported {
                        command: "recreate",
                        reason: RetainedCanvasUnsupportedReason::RasterLimit,
                    },
                );
            }
            retention.registry.canvases.insert(canvas_id.0, snapshot);
            assert(retention.registry@.canvases =~= before.recreated(canvas_id.0, size).canvases);
        },
        None => {
            assert(retention.registry@.canvases =~= before.canvases);
        },
    }
}

/// The renderer shows a canvas under an image key.
pub fn associate_image_key(
    retention: &mut CanvasRetention,
    canvas_id: CanvasId,
    image_key: ImageKey,
)
    requires
        old(retention).wf(),
    ensures
        final(retention).enabled == old(retention).enabled,
        final(retention).registry@ == retained(
            *old(retention),
            old(retention).registry@.associated(canvas_id.0, image_key.code()),
        ),
        final(retention).wf(),
{
    if !retention.enabled {
        return ;
    }
    let code: u64 = image_key.code();
    let ghost before = retention.registry@;
    let is_new = !retention.registry.image_keys.contains_key(&code)
        && !retention.registry.completed.contains_key(&code);
    if is_new && !retention.registry.reserve_object(Some(canvas_id)) {
        return ;
    }
    let _ = retention.registry.completed.remove(&code);
    retention.registry.image_keys.insert(code, canvas_id.0);
    assert(retention.registry@.completed =~= before.associated(canvas_id.0, code).completed);
}

/// A canvas is done. Its image keys keep showing what it was.
pub fn finish_canvas(retention: &mut CanvasRetention, canvas_id: CanvasId)
    requires
        old(retention).wf(),
    ensures
        final(retention).enabled == old(retention).enabled,
        final(retention).registry@ == retained(
            *old(retention),
            old(retention).registry@.with_finished(canvas_id.0),
        ),
        final(retention).wf(),
{
    if !retention.enabled {
        return ;
    }
    let ghost before = retention.registry@;
    let snapshot = match retention.registry.canvases.remove(&canvas_id.0) {
        Some(snapshot) => snapshot,
        None => {
            assert(retention.registry@.canvases =~= before.canvases);
            return ;
        },
    };
    let owned = retention.registry.keys_of(canvas_id.0);
    let index: usize = retention.registry.finished.len();
    let ghost finished = retention.registry.finished@;
    let ghost done = snapshot@;
    retention.registry.finished.push(snapshot);
    assert(done == before.canvases[canvas_id.0]);
    assert(retention.registry@.completed =~= before.completed);
    assert(retention.registry@.canvases =~= before.canvases.remove(canvas_id.0));
    retention.registry.complete_keys(&owned, index);
    assert(retention.registry@.image_keys =~= before.with_finished(canvas_id.0).image_keys);
    assert(retention.registry@.completed =~= before.with_finished(canvas_id.0).completed);
}

impl Registry {
    /// The image keys of a canvas, each once.
    fn keys_of(&self, canvas: u64) -> (keys: Vec<u64>)
        ensures
            keys@.to_set() =~= self@.keys_of(canvas),
    {
        let mut keys: Vec<u64> = Vec::new();
        for entry in entries: self.image_keys.iter()
            invariant
                forall|i: int|
                    0 <= i < entries.index() && *(#[trigger] entries.seq()[i]).1 == canvas
                        ==> keys@.contains(*entries.seq()[i].0),
                forall|key: u64| #[trigger]
                    keys@.contains(key) ==> self@.keys_of(canvas).contains(key),
                entries.seq() == vstd::std_specs::hash::spec_hash_map_iter(
                    &self.image_keys,
                ).remaining(),
        {
            let ghost before = keys@;
            let ghost position = entries.index();
            assert(self.image_keys@.contains_key(*entries.seq()[position].0));
            assert(self.image_keys@[*entries.seq()[position].0] == *entries.seq()[position].1);
            if *entry.1 == canvas {
                keys.push(*entry.0);
                assert(keys@[before.len() as int] == *entry.0);
                assert forall|key: u64| #[trigger]
                    before.contains(key) implies keys@.contains(key) by {
                    let i = choose|i: int| 0 <= i < before.len() && before[i] == key;
                    assert(keys@[i] == key);
                }
                assert forall|key: u64| #[trigger]
                    keys@.contains(key) implies self@.keys_of(canvas).contains(key) by {
                    let i = choose|i: int| 0 <= i < keys@.len() && keys@[i] == key;
                    if i < before.len() {
                        assert(before[i] == key);
                        assert(before.contains(key));
                    }
                }
            }
        }
        assert forall|key: u64| #[trigger] self@.keys_of(canvas).contains(key) implies keys@.to_set().contains(
            key,
        ) by {
            let remaining = vstd::std_specs::hash::spec_hash_map_iter(&self.image_keys).remaining();
            assert(self.image_keys@.contains_key(key));
            assert(remaining.contains((&key, &self.image_keys@[key])));
            let i = choose|i: int|
                0 <= i < remaining.len() && remaining[i] == (&key, &self.image_keys@[key]);
            assert(*remaining[i].1 == canvas);
        }
        keys
    }

    /// Lets image keys show a canvas that is done.
    fn complete_keys(&mut self, keys: &Vec<u64>, index: usize)
        requires
            old(self).wf(),
            index < old(self).finished@.len(),
        ensures
            final(self)@ == (RegistryView {
                image_keys: old(self)@.image_keys.remove_keys(keys@.to_set()),
                completed: old(self)@.completed.union_prefer_right(
                    Map::new(
                        |key: u64| keys@.to_set().contains(key),
                        |key: u64| old(self).finished@[index as int]@,
                    ),
                ),
                ..old(self)@
            }),
            final(self).wf(),
    {
        let ghost before = *self;
        let mut next: usize = 0;
        while next < keys.len()
            invariant
                next <= keys@.len(),
                before == *old(self),
                before.wf(),
                self.wf(),
                self.finished == before.finished,
                index < self.finished@.len(),
                self@.canvases == before@.canvases,
                self@.commands == before@.commands,
                self@.raster_bytes == before@.raster_bytes,
                self@.objects == before@.objects,
                self@.max_commands == before@.max_commands,
                self@.max_raster_bytes == before@.max_raster_bytes,
                self@.max_objects == before@.max_objects,
                self@.budget_exceeded == before@.budget_exceeded,
                self.image_keys@ == before.image_keys@.remove_keys(
                    keys@.take(next as int).to_set(),
                ),
                self.completed@ == before.completed@.union_prefer_right(
                    Map::new(
                        |key: u64| keys@.take(next as int).to_set().contains(key),
                        |key: u64| index,
                    ),
                ),
            decreases keys@.len() - next,
        {
            let key: u64 = keys[next];
            let ghost taken = keys@.take(next as int);
            assert(keys@.take(next + 1) =~= taken.push(key));
            assert forall|other: u64| #[trigger]
                keys@.take(next + 1).to_set().contains(other) <==> (taken.to_set().contains(other)
                || other == key) by {
                if taken.contains(other) {
                    let i = choose|i: int| 0 <= i < taken.len() && taken[i] == other;
                    assert(taken.push(key)[i] == other);
                }
                assert(taken.push(key)[taken.len() as int] == key);
            }
            let _ = self.image_keys.remove(&key);
            self.completed.insert(key, index);
            assert(self.image_keys@ =~= before.image_keys@.remove_keys(
                keys@.take(next + 1).to_set(),
            ));
            assert(self.completed@ =~= before.completed@.union_prefer_right(
                Map::new(
                    |key: u64| keys@.take(next + 1).to_set().contains(key),
                    |key: u64| index,
                ),
            ));
            next = next + 1;
        }
        assert(keys@.take(next as int) =~= keys@);
        assert(self.image_keys@ =~= before.image_keys@.remove_keys(keys@.to_set()));
        assert(self@.completed =~= before@.completed.union_prefer_right(
            Map::new(
                |key: u64| keys@.to_set().contains(key),
                |key: u64| before.finished@[index as int]@,
            ),
        ));
    }
}

/// The bits of the double-precision number one.
pub const ONE_BITS: u64 = 0x3ff0_0000_0000_0000;

/// The double-precision number with these bits is zero, of either sign.
pub open spec fn spec_is_zero(bits: u64) -> bool {
    bits == 0 || bits == 0x8000_0000_0000_0000
}

/// The double-precision number with these bits is zero, of either sign.
#[verifier::when_used_as_spec(spec_is_zero)]
pub fn is_zero(bits: u64) -> (zero: bool)
    ensures
        zero == spec_is_zero(bits),
{
    bits == 0 || bits == 0x8000_0000_0000_0000
}

/// The single-precision number with these bits is below zero; a negative zero is not, nor is what
/// is no number.
pub open spec fn spec_is_below_zero(bits: u32) -> bool {
    0x8000_0000 < bits <= 0xff80_0000
}

/// The single-precision number with these bits is below zero; a negative zero is not, nor is what
/// is no number.
#[verifier::when_used_as_spec(spec_is_below_zero)]
pub fn is_below_zero(bits: u32) -> (below: bool)
    ensures
        below == spec_is_below_zero(bits),
{
    0x8000_0000 < bits && bits <= 0xff80_0000
}

/// A transform of the plane, as the bits of its six numbers.
#[derive(Clone, Copy, Debug, PartialEq, Eq, Structural)]
pub struct CanvasTransform {
    pub m11: u64,
    pub m12: u64,
    pub m21: u64,
    pub m22: u64,
    pub m31: u64,
    pub m32: u64,
}

impl CanvasTransform {
    pub open spec fn spec_is_identity(self) -> bool {
        &&& self.m11 == ONE_BITS
        &&& is_zero(self.m12)
        &&& is_zero(self.m21)
        &&& self.m22 == ONE_BITS
        &&& is_zero(self.m31)
        &&& is_zero(self.m32)
    }

    /// The transform moves no point.
    #[verifier::when_used_as_spec(spec_is_identity)]
    pub fn is_identity(self) -> (identity: bool)
        ensures
            identity == self.spec_is_identity(),
    {
        self.m11 == ONE_BITS && is_zero(self.m12) && is_zero(self.m21) && self.m22 == ONE_BITS
            && is_zero(self.m31) && is_zero(self.m32)
    }
}

/// What a rectangle is filled with.
#[derive(Clone, Copy, Debug, PartialEq, Eq, Structural)]
pub enum FillOrStrokeStyle {
    /// One color.
    Color,
    LinearGradient,
    RadialGradient,
    Surface,
}

/// How a canvas is asked to fill a rectangle.
#[derive(Clone, Copy, Debug, PartialEq, Eq, Structural)]
pub struct FillRectRequest {
    pub draws_shadow: bool,
    pub transform: CanvasTransform,
    /// The bits of the global alpha.
    pub alpha: u64,
    pub source_over: bool,
    pub style: FillOrStrokeStyle,
    /// The bits of the rectangle's width and height.
    pub width: u32,
    pub height: u32,
}

impl FillRectRequest {
    /// Why the request cannot be retained as a filled rectangle.
    pub open spec fn spec_unsupported(self) -> Option<RetainedCanvasUnsupportedReason> {
        if self.draws_shadow {
            Some(RetainedCanvasUnsupportedReason::Shadow)
        } else if !self.transform.is_identity() {
            Some(RetainedCanvasUnsupportedReason::Transform)
        } else if self.alpha != ONE_BITS || !self.source_over {
            Some(RetainedCanvasUnsupportedReason::Compositing)
        } else if !(self.style is Color) || is_below_zero(self.width) || is_below_zero(
            self.height,
        ) {
            Some(RetainedCanvasUnsupportedReason::Paint)
        } else {
            None
        }
    }

    /// Why the request cannot be retained as a filled rectangle.
    #[verifier::when_used_as_spec(spec_unsupported)]
    pub fn unsupported(self) -> (reason: Option<RetainedCanvasUnsupportedReason>)
        ensures
            reason == self.spec_unsupported(),
    {
        if self.draws_shadow {
            return Some(RetainedCanvasUnsupportedReason::Shadow);
        }
        if !self.transform.is_identity() {
            return Some(RetainedCanvasUnsupportedReason::Transform);
        }
        if self.alpha != ONE_BITS || !self.source_over {
            return Some(RetainedCanvasUnsupportedReason::Compositing);
        }
        if self.style != FillOrStrokeStyle::Color || is_below_zero(self.width) || is_below_zero(
            self.height,
        ) {
            return Some(RetainedCanvasUnsupportedReason::Paint);
        }
        None
    }
}

impl RegistryView {
    /// A filled rectangle is retained, or noted as unsupported. What of it lies on the canvas is
    /// `clipped`.
    pub open spec fn with_fill_rect(
        self,
        canvas: u64,
        request: FillRectRequest,
        clipped: Option<FilledRect>,
    ) -> RegistryView {
        match request.unsupported() {
            Some(reason) => self.marked(canvas, "fill_rect", reason),
            None => match clipped {
                None => self,
                Some(filled) => {
                    let charged = self.with_command_charge(canvas, 0, false);
                    if self.command_granted(canvas, 0, false) {
                        RegistryView {
                            canvases: charged.canvases.insert(
                                canvas,
                                SnapshotView {
                                    commands: charged.canvases[canvas].commands.push(
                                        RetainedCanvasCommand::FillRect(filled),
                                    ),
                                    ..charged.canvases[canvas]
                                },
                            ),
                            ..charged
                        }
                    } else {
                        charged
                    }
                },
            },
        }
    }

    /// A readback covers a whole canvas.
    pub open spec fn covers(
        self,
        canvas: u64,
        x: u32,
        y: u32,
        width: u32,
        height: u32,
    ) -> bool {
        &&& self.canvases.dom().contains(canvas)
        &&& x == 0
        &&& y == 0
        &&& width == self.canvases[canvas].width
        &&& height == self.canvases[canvas].height
    }

    /// A readback may be retained.
    pub open spec fn readback_granted(
        self,
        canvas: u64,
        x: u32,
        y: u32,
        width: u32,
        height: u32,
    ) -> bool {
        !oversized_raster(width, height) && self.command_granted(
            canvas,
            (width * height * 4) as u64,
            self.covers(canvas, x, y, width, height),
        )
    }

    /// A readback is charged where it may be retained; one that is too large is unsupported.
    pub open spec fn with_readback_charge(
        self,
        canvas: u64,
        x: u32,
        y: u32,
        width: u32,
        height: u32,
    ) -> RegistryView {
        if oversized_raster(width, height) {
            self.marked(canvas, "get_image_data", RetainedCanvasUnsupportedReason::RasterLimit)
        } else {
            self.with_command_charge(
                canvas,
                (width * height * 4) as u64,
                self.covers(canvas, x, y, width, height),
            )
        }
    }

    /// The pixels of a readback are retained. A readback of the whole canvas stands for every
    /// command so far, supported or not.
    pub open spec fn with_patch(
        self,
        canvas: u64,
        x: u32,
        y: u32,
        width: u32,
        height: u32,
        premultiplied_rgba: Vec<u8>,
    ) -> RegistryView {
        if !self.canvases.dom().contains(canvas) {
            self
        } else {
            let snapshot = self.canvases[canvas];
            let whole = self.covers(canvas, x, y, width, height);
            let patch = RetainedCanvasCommand::RasterPatch {
                x,
                y,
                width,
                height,
                premultiplied_rgba,
                reason: RetainedCanvasFallbackReason::PixelReadback,
            };
            RegistryView {
                canvases: self.canvases.insert(
                    canvas,
                    SnapshotView {
                        commands: if whole {
                            seq![patch]
                        } else {
                            snapshot.commands.push(patch)
                        },
                        unsupported: if whole {
                            None
                        } else {
                            snapshot.unsupported
                        },
                        ..snapshot
                    },
                ),
                ..self
            }
        }
    }
}

/// A readback is too large to be retained.
pub open spec fn oversized_raster(width: u32, height: u32) -> bool {
    ||| width > MAX_RASTER_DIMENSION
    ||| height > MAX_RASTER_DIMENSION
    ||| width * height > MAX_RASTER_PIXELS
    ||| width * height * 4 > MAX_RASTER_BYTES
}

/// The size of a canvas, to which what is drawn is clipped.
pub fn canvas_size(retention: &CanvasRetention, canvas_id: CanvasId) -> (size: Option<(u32, u32)>)
    ensures
        size == (if retention.enabled && retention.registry@.canvases.dom().contains(canvas_id.0) {
            Some(
                (
                    retention.registry@.canvases[canvas_id.0].width,
                    retention.registry@.canvases[canvas_id.0].height,
                ),
            )
        } else {
            None
        }),
{
    if !retention.enabled {
        return None;
    }
    match retention.registry.canvases.get(&canvas_id.0) {
        Some(snapshot) => Some((snapshot.width, snapshot.height)),
        None => None,
    }
}

/// A canvas has filled a rectangle. What of it lies on the canvas is `clipped`.
pub fn retain_fill_rect(
    retention: &mut CanvasRetention,
    canvas_id: CanvasId,
    request: FillRectRequest,
    clipped: Option<FilledRect>,
)
    requires
        old(retention).wf(),
    ensures
        final(retention).enabled == old(retention).enabled,
        final(retention).registry@ == retained(
            *old(retention),
            old(retention).registry@.with_fill_rect(canvas_id.0, request, clipped),
        ),
        final(retention).wf(),
{
    if !retention.enabled {
        return ;
    }
    if let Some(reason) = request.unsupported() {
        retention.registry.mark(canvas_id, "fill_rect", reason);
        return ;
    }
    if let Some(filled) = clipped {
        let ghost before = retention.registry@;
        if !retention.registry.reserve_command(canvas_id, 0, false) {
            return ;
        }
        match retention.registry.canvases.remove(&canvas_id.0) {
            Some(snapshot) => {
                let mut snapshot = snapshot;
                snapshot.commands.push(RetainedCanvasCommand::FillRect(filled));
                retention.registry.canvases.insert(canvas_id.0, snapshot);
            },
            None => {},
        }
        assert(retention.registry@.canvases =~= before.with_fill_rect(
            canvas_id.0,
            request,
            clipped,
        ).canvases);
    }
}

/// Charges a readback before its pixels are converted. Says whether they are wanted.
pub fn reserve_pixel_readback(
    retention: &mut CanvasRetention,
    canvas_id: CanvasId,
    x: u32,
    y: u32,
    width: u32,
    height: u32,
) -> (reserved: bool)
    requires
        old(retention).wf(),
    ensures
        final(retention).enabled == old(retention).enabled,
        reserved == (old(retention).enabled && old(retention).registry@.readback_granted(
            canvas_id.0,
            x,
            y,
            width,
            height,
        )),
        final(retention).registry@ == retained(
            *old(retention),
            old(retention).registry@.with_readback_charge(canvas_id.0, x, y, width, height),
        ),
        final(retention).wf(),
{
    if !retention.enabled {
        return false;
    }
    proof {
        assert(width * height <= 0xffff_ffff * 0xffff_ffff) by (nonlinear_arith)
            requires
                0 <= width <= 0xffff_ffff,
                0 <= height <= 0xffff_ffff,
        ;
    }
    let pixels: u64 = width as u64 * height as u64;
    if width as u64 > MAX_RASTER_DIMENSION || height as u64 > MAX_RASTER_DIMENSION || pixels
        > MAX_RASTER_PIXELS || pixels * 4 > MAX_RASTER_BYTES {
        retention.registry.mark(
            canvas_id,
            "get_image_data",
            RetainedCanvasUnsupportedReason::RasterLimit,
        );
        return false;
    }
    let can_replace_unsupported = match retention.registry.canvases.get(&canvas_id.0) {
        Some(canvas) => x == 0 && y == 0 && width == canvas.width && height == canvas.height,
        None => false,
    };
    retention.registry.reserve_command(canvas_id, pixels * 4, can_replace_unsupported)
}

/// Retains the pixels of a readback that has been charged.
pub fn finish_pixel_readback(
    retention: &mut CanvasRetention,
    canvas_id: CanvasId,
    x: u32,
    y: u32,
    width: u32,
    height: u32,
    premultiplied_rgba: Vec<u8>,
)
    requires
        old(retention).wf(),
    ensures
        final(retention).enabled == old(retention).enabled,
        final(retention).registry@ == old(retention).registry@.with_patch(
            canvas_id.0,
            x,
            y,
            width,
            height,
            premultiplied_rgba,
        ),
        final(retention).wf(),
{
    let ghost before = retention.registry@;
    match retention.registry.canvases.remove(&canvas_id.0) {
        Some(snapshot) => {
            let mut snapshot = snapshot;
            if x == 0 && y == 0 && width == snapshot.width && height == snapshot.height {
                snapshot.commands = Vec::new();
                snapshot.unsupported = None;
            }
            let patch = RetainedCanvasCommand::RasterPatch {
                x,
                y,
                width,
                height,
                premultiplied_rgba,
                reason: RetainedCanvasFallbackReason::PixelReadback,
            };
            snapshot.commands.push(patch);
            assert(before.covers(canvas_id.0, x, y, width, height) ==> snapshot.commands@
                =~= seq![patch]);
            retention.registry.canvases.insert(canvas_id.0, snapshot);
            assert(retention.registry@.canvases =~= before.with_patch(
                canvas_id.0,
                x,
                y,
                width,
                height,
                premultiplied_rgba,
            ).canvases);
        },
        None => {
            assert(retention.registry@.canvases =~= before.canvases);
        },
    }
}

/// A script has read pixels of a canvas back; they come as premultiplied RGBA.
pub fn retain_pixel_readback(
    retention: &mut CanvasRetention,
    canvas_id: CanvasId,
    x: u32,
    y: u32,
    width: u32,
    height: u32,
    premultiplied_rgba: Vec<u8>,
)
    requires
        old(retention).wf(),
    ensures
        final(retention).enabled == old(retention).enabled,
        final(retention).registry@ == ({
            let before = old(retention).registry@;
            let charged = before.with_readback_charge(canvas_id.0, x, y, width, height);
            retained(
                *old(retention),
                if before.readback_granted(canvas_id.0, x, y, width, height) {
                    charged.with_patch(canvas_id.0, x, y, width, height, premultiplied_rgba)
                } else {
                    charged
                },
            )
        }),
        final(retention).wf(),
{
    if reserve_pixel_readback(retention, canvas_id, x, y, width, height) {
        finish_pixel_readback(retention, canvas_id, x, y, width, height, premultiplied_rgba);
    }
}

/// A canvas has done what cannot be given as a command.
pub fn mark_unsupported(
    retention: &mut CanvasRetention,
    canvas_id: CanvasId,
    command: &'static str,
    reason: RetainedCanvasUnsupportedReason,
)
    requires
        old(retention).wf(),
    ensures
        final(retention).enabled == old(retention).enabled,
        final(retention).registry@ == retained(
            *old(retention),
            old(retention).registry@.marked(canvas_id.0, command, reason),
        ),
        final(retention).wf(),
{
    if retention.enabled {
        retention.registry.mark(canvas_id, command, reason);
    }
}

} // verus!
