//! Page sizes and margins, the page of a process, and the choice of the layout root.
use crate::au::Au;
use crate::layout_debug::LayoutDebugPageAppUnits;
use vstd::prelude::*;

verus! {

/// Single-precision bit patterns below this one are the finite values that are not negative.
pub const SINGLE_INFINITY_BITS: u32 = 0x7f80_0000;

/// A length in CSS pixels: the bits of the single-precision number, and the app units that it
/// rounds to.
#[derive(Clone, Copy, Debug, PartialEq, Eq, Structural)]
pub struct CssLength {
    pub bits: u32,
    pub length: Au,
}

impl CssLength {
    /// The app units lie in their range, and are not negative unless the number is.
    pub open spec fn wf(self) -> bool {
        &&& self.length.in_range()
        &&& self.bits < 0x8000_0000 ==> self.length.0 >= 0
    }
}

/// Page margins in CSS pixels.
#[derive(Clone, Copy, Debug, PartialEq, Eq, Structural)]
pub struct PageMargins {
    pub top: CssLength,
    pub right: CssLength,
    pub bottom: CssLength,
    pub left: CssLength,
}

impl PageMargins {
    pub fn new(top: CssLength, right: CssLength, bottom: CssLength, left: CssLength) -> (margins:
        Self)
        ensures
            margins == (PageMargins { top, right, bottom, left }),
    {
        PageMargins { top, right, bottom, left }
    }

    pub open spec fn wf(self) -> bool {
        self.top.wf() && self.right.wf() && self.bottom.wf() && self.left.wf()
    }

    /// No margin is negative or infinite or not a number.
    pub open spec fn valid(self) -> bool {
        &&& nonnegative_finite(self.top.bits)
        &&& nonnegative_finite(self.right.bits)
        &&& nonnegative_finite(self.bottom.bits)
        &&& nonnegative_finite(self.left.bits)
    }
}

/// A width and a height in app units.
#[derive(Clone, Copy, Debug, PartialEq, Eq, Structural)]
pub struct PhysicalSize {
    pub width: Au,
    pub height: Au,
}

/// Lengths at the four sides of a box.
#[derive(Clone, Copy, Debug, PartialEq, Eq, Structural)]
pub struct PhysicalSides {
    pub top: Au,
    pub right: Au,
    pub bottom: Au,
    pub left: Au,
}

impl Default for PhysicalSides {
    fn default() -> (sides: Self)
        ensures
            sides == (PhysicalSides { top: Au(0), right: Au(0), bottom: Au(0), left: Au(0) }),
    {
        PhysicalSides { top: Au::zero(), right: Au::zero(), bottom: Au::zero(), left: Au::zero() }
    }
}

/// A rectangle in app units.
#[derive(Clone, Copy, Debug, PartialEq, Eq, Structural)]
pub struct PhysicalRect {
    pub left: Au,
    pub top: Au,
    pub size: PhysicalSize,
}

/// A size in whole device pixels.
#[derive(Clone, Copy, Debug, PartialEq, Eq, Structural)]
pub struct SurfaceSize {
    pub width: u32,
    pub height: u32,
}

/// A page: its size and its margins.
#[derive(Clone, Copy, Debug, PartialEq, Eq, Structural)]
pub struct PageDefinition {
    pub size: PhysicalSize,
    pub margins: PhysicalSides,
}

/// Why a page cannot be laid out.
#[derive(Clone, Copy, Debug, PartialEq, Eq, Structural)]
pub enum PageGeometryError {
    InvalidPageSize,
    InvalidPageMargin,
    MarginsConsumePage,
}

impl PageGeometryError {
    /// What is wrong, in words.
    pub fn message(self) -> (message: &'static str)
        ensures
            message@ == match self {
                PageGeometryError::InvalidPageSize =>
                    "page width and height must be finite and positive"@,
                PageGeometryError::InvalidPageMargin =>
                    "page margins must be finite and nonnegative"@,
                PageGeometryError::MarginsConsumePage =>
                    "page margins must leave positive inline and block space"@,
            },
    {
        match self {
            PageGeometryError::InvalidPageSize =>
                "page width and height must be finite and positive",
            PageGeometryError::InvalidPageMargin => "page margins must be finite and nonnegative",
            PageGeometryError::MarginsConsumePage =>
                "page margins must leave positive inline and block space",
        }
    }
}

pub open spec fn spec_positive_finite(bits: u32) -> bool {
    0 < bits < SINGLE_INFINITY_BITS
}

/// The single-precision number with these bits is finite and above zero.
#[verifier::when_used_as_spec(spec_positive_finite)]
pub fn positive_finite(bits: u32) -> (holds: bool)
    ensures
        holds == spec_positive_finite(bits),
{
    0 < bits && bits < SINGLE_INFINITY_BITS
}

pub open spec fn spec_nonnegative_finite(bits: u32) -> bool {
    bits < SINGLE_INFINITY_BITS
}

/// The single-precision number with these bits is finite and carries no minus sign.
#[verifier::when_used_as_spec(spec_nonnegative_finite)]
pub fn nonnegative_finite(bits: u32) -> (holds: bool)
    ensures
        holds == spec_nonnegative_finite(bits),
{
    bits < SINGLE_INFINITY_BITS
}

impl PageDefinition {
    /// The page has a size, no margin is negative, and the margins leave space for content.
    pub open spec fn wf(self) -> bool {
        &&& self.size.width.0 > 0
        &&& self.size.height.0 > 0
        &&& self.margins.top.0 >= 0
        &&& self.margins.right.0 >= 0
        &&& self.margins.bottom.0 >= 0
        &&& self.margins.left.0 >= 0
        &&& self.margins.left.0 + self.margins.right.0 < self.size.width.0
        &&& self.margins.top.0 + self.margins.bottom.0 < self.size.height.0
    }

    /// The page is no larger than app-unit arithmetic goes.
    pub open spec fn in_range(self) -> bool {
        self.size.width.in_range() && self.size.height.in_range()
    }

    /// The page of a request in CSS pixels.
    pub open spec fn resolved(width: CssLength, height: CssLength, margins: PageMargins) -> Self {
        PageDefinition {
            size: PhysicalSize { width: width.length, height: height.length },
            margins: PhysicalSides {
                top: margins.top.length,
                right: margins.right.length,
                bottom: margins.bottom.length,
                left: margins.left.length,
            },
        }
    }

    /// Resolves page options in CSS pixels before layout starts. `inline_margins` and
    /// `block_margins` are the bits of the single-precision sums of the margins at the left and
    /// right, and at the top and bottom.
    pub fn new(
        width: CssLength,
        height: CssLength,
        margins: PageMargins,
        inline_margins: u32,
        block_margins: u32,
    ) -> (page: Result<Self, PageGeometryError>)
        requires
            width.wf(),
            height.wf(),
            margins.wf(),
        ensures
            page == (if !positive_finite(width.bits) || !positive_finite(height.bits) {
                Err(PageGeometryError::InvalidPageSize)
            } else if !margins.valid() {
                Err(PageGeometryError::InvalidPageMargin)
            } else if inline_margins >= width.bits || block_margins >= height.bits
                || PageDefinition::resolved(width, height, margins).available_inline_size().0 <= 0
                || PageDefinition::resolved(width, height, margins).available_block_size().0
                <= 0 {
                Err(PageGeometryError::MarginsConsumePage)
            } else {
                Ok(PageDefinition::resolved(width, height, margins))
            }),
            page matches Ok(definition) ==> definition.wf() && definition.in_range(),
    {
        if !positive_finite(width.bits) || !positive_finite(height.bits) {
            return Err(PageGeometryError::InvalidPageSize);
        }
        if !nonnegative_finite(margins.top.bits) || !nonnegative_finite(margins.right.bits)
            || !nonnegative_finite(margins.bottom.bits) || !nonnegative_finite(
            margins.left.bits,
        ) {
            return Err(PageGeometryError::InvalidPageMargin);
        }
        if inline_margins >= width.bits || block_margins >= height.bits {
            return Err(PageGeometryError::MarginsConsumePage);
        }
        let definition = PageDefinition {
            size: PhysicalSize { width: width.length, height: height.length },
            margins: PhysicalSides {
                top: margins.top.length,
                right: margins.right.length,
                bottom: margins.bottom.length,
                left: margins.left.length,
            },
        };
        if definition.available_inline_size().0 <= 0 || definition.available_block_size().0 <= 0 {
            return Err(PageGeometryError::MarginsConsumePage);
        }
        Ok(definition)
    }

    /// What comes of an exact page in app units.
    pub open spec fn exact(
        width: i32,
        height: i32,
        top: i32,
        right: i32,
        bottom: i32,
        left: i32,
    ) -> Result<PageDefinition, PageGeometryError> {
        if width <= 0 || height <= 0 {
            Err(PageGeometryError::InvalidPageSize)
        } else if top < 0 || right < 0 || bottom < 0 || left < 0 {
            Err(PageGeometryError::InvalidPageMargin)
        } else if left + right >= width || top + bottom >= height {
            Err(PageGeometryError::MarginsConsumePage)
        } else {
            Ok(
                PageDefinition {
                    size: PhysicalSize { width: Au(width), height: Au(height) },
                    margins: PhysicalSides {
                        top: Au(top),
                        right: Au(right),
                        bottom: Au(bottom),
                        left: Au(left),
                    },
                },
            )
        }
    }

    /// An exact page from app units; `margins` are those at the top, right, bottom and left.
    pub fn from_app_units(width: i32, height: i32, margins: [i32; 4]) -> (page: Result<
        Self,
        PageGeometryError,
    >)
        ensures
            page == PageDefinition::exact(
                width,
                height,
                margins[0],
                margins[1],
                margins[2],
                margins[3],
            ),
            page == (if width <= 0 || height <= 0 {
                Err(PageGeometryError::InvalidPageSize)
            } else if margins[0] < 0 || margins[1] < 0 || margins[2] < 0 || margins[3] < 0 {
                Err(PageGeometryError::InvalidPageMargin)
            } else if margins[3] + margins[1] >= width || margins[0] + margins[2] >= height {
                Err(PageGeometryError::MarginsConsumePage)
            } else {
                Ok(
                    PageDefinition {
                        size: PhysicalSize { width: Au(width), height: Au(height) },
                        margins: PhysicalSides {
                            top: Au(margins[0]),
                            right: Au(margins[1]),
                            bottom: Au(margins[2]),
                            left: Au(margins[3]),
                        },
                    },
                )
            }),
            page matches Ok(definition) ==> definition.wf(),
    {
        if width <= 0 || height <= 0 {
            return Err(PageGeometryError::InvalidPageSize);
        }
        let top: i32 = margins[0];
        let right: i32 = margins[1];
        let bottom: i32 = margins[2];
        let left: i32 = margins[3];
        if top < 0 || right < 0 || bottom < 0 || left < 0 {
            return Err(PageGeometryError::InvalidPageMargin);
        }
        if left as i64 + right as i64 >= width as i64 || top as i64 + bottom as i64
            >= height as i64 {
            return Err(PageGeometryError::MarginsConsumePage);
        }
        Ok(
            PageDefinition {
                size: PhysicalSize { width: Au(width), height: Au(height) },
                margins: PhysicalSides {
                    top: Au(top),
                    right: Au(right),
                    bottom: Au(bottom),
                    left: Au(left),
                },
            },
        )
    }

    /// The width of the page.
    pub fn width(&self) -> (width: Au)
        ensures
            width == self.size.width,
    {
        self.size.width
    }

    /// The height of the page.
    pub fn height(&self) -> (height: Au)
        ensures
            height == self.size.height,
    {
        self.size.height
    }

    /// The margins of the page.
    pub fn margins(&self) -> (margins: PhysicalSides)
        ensures
            margins == self.margins,
    {
        self.margins
    }

    /// The whole-pixel surface that covers the page.
    pub open spec fn surface(self) -> Option<SurfaceSize> {
        let width = (self.size.width.0 + 59) / 60;
        let height = (self.size.height.0 + 59) / 60;
        if width < 0 || height < 0 {
            None
        } else {
            Some(SurfaceSize { width: width as u32, height: height as u32 })
        }
    }

    /// The whole-pixel surface that covers the page, unless a side of the page is negative.
    pub fn surface_pixel_size(&self) -> (size: Option<SurfaceSize>)
        ensures
            size == self.surface(),
            ({
                let width = (self.size.width.0 + 59) / 60;
                let height = (self.size.height.0 + 59) / 60;
                size == if width < 0 || height < 0 {
                    None
                } else {
                    Some(SurfaceSize { width: width as u32, height: height as u32 })
                }
            }),
            self.wf() ==> size is Some,
    {
        let width: i32 = self.size.width.ceil_to_px();
        let height: i32 = self.size.height.ceil_to_px();
        if width < 0 || height < 0 {
            return None;
        }
        Some(SurfaceSize { width: width as u32, height: height as u32 })
    }

    pub open spec fn spec_available_inline_size(&self) -> Au {
        self.size.width.minus(self.margins.left).minus(self.margins.right)
    }

    /// The space between the margins at the left and right.
    #[verifier::when_used_as_spec(spec_available_inline_size)]
    pub fn available_inline_size(&self) -> (size: Au)
        requires
            i32::MIN <= self.size.width.0 - self.margins.left.0 <= i32::MAX,
            i32::MIN <= self.size.width.minus(self.margins.left).0 - self.margins.right.0
                <= i32::MAX,
        ensures
            size == self.spec_available_inline_size(),
    {
        self.size.width.minus(self.margins.left).minus(self.margins.right)
    }

    pub open spec fn spec_available_block_size(&self) -> Au {
        self.size.height.minus(self.margins.top).minus(self.margins.bottom)
    }

    /// The space between the margins at the top and bottom.
    #[verifier::when_used_as_spec(spec_available_block_size)]
    pub fn available_block_size(&self) -> (size: Au)
        requires
            i32::MIN <= self.size.height.0 - self.margins.top.0 <= i32::MAX,
            i32::MIN <= self.size.height.minus(self.margins.top).0 - self.margins.bottom.0
                <= i32::MAX,
        ensures
            size == self.spec_available_block_size(),
    {
        self.size.height.minus(self.margins.top).minus(self.margins.bottom)
    }

    /// The exact geometry of the page.
    pub fn debug_app_units(&self) -> (units: LayoutDebugPageAppUnits)
        requires
            self.wf(),
        ensures
            units == (LayoutDebugPageAppUnits {
                width: self.size.width.0,
                height: self.size.height.0,
                margin_top: self.margins.top.0,
                margin_right: self.margins.right.0,
                margin_bottom: self.margins.bottom.0,
                margin_left: self.margins.left.0,
                available_inline_size: self.available_inline_size().0,
                available_block_size: self.available_block_size().0,
            }),
    {
        LayoutDebugPageAppUnits {
            width: self.size.width.0,
            height: self.size.height.0,
            margin_top: self.margins.top.0,
            margin_right: self.margins.right.0,
            margin_bottom: self.margins.bottom.0,
            margin_left: self.margins.left.0,
            available_inline_size: self.available_inline_size().0,
            available_block_size: self.available_block_size().0,
        }
    }

    /// The box that content is laid out in.
    pub open spec fn content_box(self) -> PhysicalRect {
        PhysicalRect {
            left: self.margins.left,
            top: self.margins.top,
            size: PhysicalSize {
                width: self.available_inline_size(),
                height: self.available_block_size(),
            },
        }
    }

    /// The box that content is laid out in.
    pub fn content_rect(&self) -> (rect: PhysicalRect)
        requires
            self.wf(),
        ensures
            rect == self.content_box(),
            rect == (PhysicalRect {
                left: self.margins.left,
                top: self.margins.top,
                size: PhysicalSize {
                    width: self.available_inline_size(),
                    height: self.available_block_size(),
                },
            }),
    {
        PhysicalRect {
            left: self.margins.left,
            top: self.margins.top,
            size: PhysicalSize {
                width: self.available_inline_size(),
                height: self.available_block_size(),
            },
        }
    }
}

/// A page within the app-unit range leaves content space on both axes: its size less its margins.
pub proof fn law_page_leaves_content_space(page: PageDefinition)
    requires
        page.wf(),
        page.in_range(),
    ensures
        0 < page.available_inline_size().0 <= page.size.width.0,
        0 < page.available_block_size().0 <= page.size.height.0,
        page.available_inline_size().0 == page.size.width.0 - page.margins.left.0
            - page.margins.right.0,
        page.available_block_size().0 == page.size.height.0 - page.margins.top.0
            - page.margins.bottom.0,
{
}

/// Who may set the page of the process.
#[derive(Clone, Copy, Debug, PartialEq, Eq, Structural)]
pub enum PageConfigurationState {
    Available,
    Reserved,
    Committed,
}

/// The page of the process: nobody has claimed it, one session has, or it is set for good.
#[derive(Clone, Copy, Debug, PartialEq, Eq)]
pub struct ProcessPageConfiguration {
    pub state: PageConfigurationState,
    pub definition: Option<PageDefinition>,
}

/// A claim on the page of the process.
#[derive(Debug, PartialEq, Eq)]
pub struct ProcessPageReservation {
    pub definition: PageDefinition,
}

impl ProcessPageConfiguration {
    /// A page is set only once a claim has been committed.
    pub open spec fn wf(self) -> bool {
        self.definition is Some <==> self.state is Committed
    }

    /// No page and no claim.
    pub fn new() -> (configuration: Self)
        ensures
            configuration.state is Available,
            configuration.definition is None,
            configuration.wf(),
    {
        ProcessPageConfiguration { state: PageConfigurationState::Available, definition: None }
    }

    /// Whether documents of this process are paged.
    pub fn has_paged_document_configuration(&self) -> (set: bool)
        ensures
            set == self.definition is Some,
    {
        self.definition.is_some()
    }

    /// What comes of a claim, and the configuration afterwards.
    pub open spec fn claimed(self, definition: PageDefinition) -> (
        ProcessPageConfiguration,
        Result<ProcessPageReservation, PageDefinition>,
    ) {
        if self.state is Available {
            (
                ProcessPageConfiguration { state: PageConfigurationState::Reserved, ..self },
                Ok(ProcessPageReservation { definition }),
            )
        } else {
            (self, Err(definition))
        }
    }

    /// What comes of setting a claimed page, and the configuration afterwards.
    pub open spec fn committed(self, reservation: ProcessPageReservation) -> (
        ProcessPageConfiguration,
        Result<(), PageDefinition>,
    ) {
        if self.definition is None {
            (
                ProcessPageConfiguration {
                    state: PageConfigurationState::Committed,
                    definition: Some(reservation.definition),
                },
                Ok(()),
            )
        } else {
            (
                ProcessPageConfiguration { state: PageConfigurationState::Committed, ..self },
                Err(reservation.definition),
            )
        }
    }

    /// The configuration once a claim has been given up.
    pub open spec fn released(self) -> ProcessPageConfiguration {
        ProcessPageConfiguration { state: PageConfigurationState::Available, ..self }
    }

    /// Claims the page of the process. While a claim is held or a page is set, the definition is
    /// handed back and nothing changes.
    pub fn reserve_for_process(&mut self, definition: PageDefinition) -> (reservation: Result<
        ProcessPageReservation,
        PageDefinition,
    >)
        requires
            old(self).wf(),
        ensures
            (*final(self), reservation) == old(self).claimed(definition),
            final(self).wf(),
            final(self).definition == old(self).definition,
            old(self).state is Available ==> {
                &&& reservation == Ok::<_, PageDefinition>(ProcessPageReservation { definition })
                &&& final(self).state is Reserved
            },
            !(old(self).state is Available) ==> {
                &&& reservation == Err::<ProcessPageReservation, _>(definition)
                &&& *final(self) == *old(self)
            },
    {
        match self.state {
            PageConfigurationState::Available => {
                self.state = PageConfigurationState::Reserved;
                Ok(ProcessPageReservation { definition })
            },
            _ => Err(definition),
        }
    }

    /// Sets the claimed page. A page that is set already stays, and the claimed one is handed
    /// back.
    pub fn commit(&mut self, reservation: ProcessPageReservation) -> (result: Result<
        (),
        PageDefinition,
    >)
        requires
            old(self).wf(),
        ensures
            (*final(self), result) == old(self).committed(reservation),
            final(self).wf(),
            final(self).state is Committed,
            old(self).definition is None ==> {
                &&& result == Ok::<(), PageDefinition>(())
                &&& final(self).definition == Some(reservation.definition)
            },
            old(self).definition is Some ==> {
                &&& result == Err::<(), PageDefinition>(reservation.definition)
                &&& final(self).definition == old(self).definition
            },
    {
        let result = if self.definition.is_none() {
            self.definition = Some(reservation.definition);
            Ok(())
        } else {
            Err(reservation.definition)
        };
        self.state = PageConfigurationState::Committed;
        result
    }

    /// Gives up a claim before it is committed, so that a later session can claim the page.
    pub fn release(&mut self, reservation: ProcessPageReservation)
        requires
            old(self).wf(),
            old(self).state is Reserved,
        ensures
            *final(self) == old(self).released(),
            final(self).wf(),
            final(self).state is Available,
            final(self).definition == old(self).definition,
    {
        self.state = PageConfigurationState::Available;
    }

    /// Claims and sets the page in one step.
    pub fn configure_for_process(&mut self, definition: PageDefinition) -> (result: Result<
        (),
        PageDefinition,
    >)
        requires
            old(self).wf(),
        ensures
            final(self).wf(),
            old(self).state is Available ==> {
                &&& result == Ok::<(), PageDefinition>(())
                &&& final(self).state is Committed
                &&& final(self).definition == Some(definition)
            },
            !(old(self).state is Available) ==> {
                &&& result == Err::<(), PageDefinition>(definition)
                &&& *final(self) == *old(self)
            },
    {
        match self.reserve_for_process(definition) {
            Ok(reservation) => self.commit(reservation),
            Err(definition) => Err(definition),
        }
    }
}

/// The viewport of a document that is not paged.
#[derive(Clone, Copy, Debug, PartialEq, Eq, Structural)]
pub struct ContinuousViewport {
    pub size: PhysicalSize,
}

/// The pages of a paged document.
#[derive(Clone, Copy, Debug, PartialEq, Eq, Structural)]
pub struct PageSequenceContext {
    pub definition: PageDefinition,
}

/// How a document is laid out.
#[derive(Clone, Copy, Debug, PartialEq, Eq, Structural)]
pub enum LayoutRoot {
    Continuous(ContinuousViewport),
    Paged(PageSequenceContext),
}

/// How a document is laid out.
pub open spec fn layout_root(
    page: Option<PageDefinition>,
    is_iframe: bool,
    viewport: PhysicalSize,
) -> LayoutRoot {
    match page {
        Some(definition) => if is_iframe {
            LayoutRoot::Continuous(ContinuousViewport { size: viewport })
        } else {
            LayoutRoot::Paged(PageSequenceContext { definition })
        },
        None => LayoutRoot::Continuous(ContinuousViewport { size: viewport }),
    }
}

/// Layout may use the pool.
pub open spec fn may_use_pool(
    page: Option<PageDefinition>,
    is_iframe: bool,
    pool_available: bool,
) -> bool {
    pool_available && (page is None || is_iframe)
}

/// Only a top-level document of a process with a page is paged.
pub fn select_layout_root(
    page: Option<PageDefinition>,
    is_iframe: bool,
    viewport: PhysicalSize,
) -> (root: LayoutRoot)
    ensures
        root == layout_root(page, is_iframe, viewport),
        root == match page {
            Some(definition) => if is_iframe {
                LayoutRoot::Continuous(ContinuousViewport { size: viewport })
            } else {
                LayoutRoot::Paged(PageSequenceContext { definition })
            },
            None => LayoutRoot::Continuous(ContinuousViewport { size: viewport }),
        },
{
    match page {
        Some(definition) => if is_iframe {
            LayoutRoot::Continuous(ContinuousViewport { size: viewport })
        } else {
            LayoutRoot::Paged(PageSequenceContext { definition })
        },
        None => LayoutRoot::Continuous(ContinuousViewport { size: viewport }),
    }
}

/// Paged layout is sequential; all other layout may use the pool where there is one.
pub fn parallel_layout_allowed(
    page: Option<PageDefinition>,
    is_iframe: bool,
    pool_available: bool,
) -> (allowed: bool)
    ensures
        allowed == may_use_pool(page, is_iframe, pool_available),
        allowed == (pool_available && (page is None || is_iframe)),
{
    pool_available && (page.is_none() || is_iframe)
}

/// A page in app units is taken exactly where it has a size, no margin is negative, and the margins
/// leave space on both axes; it is then the page that was asked for. The first of these that does not
/// hold is the reason given.
pub proof fn law_page_is_taken_where_its_margins_leave_space(
    width: i32,
    height: i32,
    top: i32,
    right: i32,
    bottom: i32,
    left: i32,
)
    ensures
        ({
            let page = PageDefinition::exact(width, height, top, right, bottom, left);
            let margins_valid = top >= 0 && right >= 0 && bottom >= 0 && left >= 0;
            &&& page is Ok <==> margins_valid && width - left - right > 0 && height - top - bottom
                > 0
            &&& page matches Ok(definition) ==> {
                &&& definition.wf()
                &&& definition.size.width.0 == width && definition.size.height.0 == height
                &&& definition.margins.top.0 == top && definition.margins.right.0 == right
                &&& definition.margins.bottom.0 == bottom && definition.margins.left.0 == left
            }
            &&& page matches Err(error) ==> {
                &&& error is InvalidPageSize <==> width <= 0 || height <= 0
                &&& error is InvalidPageMargin <==> width > 0 && height > 0 && !margins_valid
            }
        }),
{
}

/// The box for content lies within the page, inside of all four margins, and the surface of a page is
/// the smallest of whole pixels that covers it.
pub proof fn law_content_lies_within_the_margins(page: PageDefinition)
    requires
        page.wf(),
        page.in_range(),
    ensures
        ({
            let content = page.content_box();
            let surface = page.surface();
            &&& content.left == page.margins.left
            &&& content.top == page.margins.top
            &&& content.left.0 + content.size.width.0 + page.margins.right.0 == page.size.width.0
            &&& content.top.0 + content.size.height.0 + page.margins.bottom.0 == page.size.height.0
            &&& content.size.width.0 > 0 && content.size.height.0 > 0
            &&& surface is Some
            &&& page.size.width.0 <= surface->0.width * 60 < page.size.width.0 + 60
            &&& page.size.height.0 <= surface->0.height * 60 < page.size.height.0 + 60
        }),
{
}

/// The page of a process is set once: while one session holds a claim every other is handed its page
/// back, one that gives its claim up lets the next one claim, and once a page is set it stays.
pub proof fn law_page_of_a_process_is_set_once(
    configuration: ProcessPageConfiguration,
    first: PageDefinition,
    second: PageDefinition,
)
    requires
        configuration.wf(),
        configuration.state is Available,
    ensures
        ({
            let (held, claim) = configuration.claimed(first);
            let (still, refused) = held.claimed(second);
            let (set, done) = still.committed(ProcessPageReservation { definition: first });
            let (kept, late) = set.claimed(second);
            let (same, again) = set.committed(ProcessPageReservation { definition: second });
            let (next, taken) = held.released().claimed(second);
            &&& claim == Ok::<_, PageDefinition>(ProcessPageReservation { definition: first })
            &&& held.definition is None
            &&& refused == Err::<ProcessPageReservation, _>(second) && still == held
            &&& done is Ok && set.definition == Some(first)
            &&& late == Err::<ProcessPageReservation, _>(second) && kept == set
            &&& again == Err::<(), _>(second) && same.definition == Some(first)
            &&& taken == Ok::<_, PageDefinition>(ProcessPageReservation { definition: second })
            &&& held.released().definition is None
        }),
{
}

/// A document is paged exactly where the process has a page and the document is not in a frame, and
/// a paged document is never laid out in parallel.
pub proof fn law_only_top_level_documents_are_paged(
    page: Option<PageDefinition>,
    is_iframe: bool,
    viewport: PhysicalSize,
    pool_available: bool,
)
    ensures
        layout_root(page, is_iframe, viewport) is Paged <==> page is Some && !is_iframe,
        layout_root(page, is_iframe, viewport) matches LayoutRoot::Paged(context)
            ==> context.definition == page->0 && !may_use_pool(page, is_iframe, pool_available),
        layout_root(page, is_iframe, viewport) matches LayoutRoot::Continuous(continuous)
            ==> continuous.size == viewport && may_use_pool(page, is_iframe, pool_available)
            == pool_available,
{
}

} // verus!
