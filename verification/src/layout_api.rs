//! What script and layout tell each other.
pub mod animation;
pub mod view_box;

use crate::au::Au;
use crate::ids::{Epoch, NodeId, PipelineId};
use crate::pages::geometry::{PhysicalRect, PhysicalSize};
use crate::retained_canvas::ImageKey;
use vstd::prelude::*;

verus! {

/// What the traversals of layout note on each node.
#[derive(Clone, Copy, Debug, PartialEq, Eq, Structural)]
pub struct DomParallelInfo {
    /// How many children a bottom-up traversal has still to process.
    pub children_to_process: isize,
}

impl Default for DomParallelInfo {
    fn default() -> (value: Self)
        ensures
            value == (DomParallelInfo { children_to_process: 0 }),
    {
        DomParallelInfo { children_to_process: 0 }
    }
}

/// What a node is to layout.
#[derive(Clone, Copy, Debug, PartialEq, Eq, Structural)]
pub enum LayoutNodeType {
    Element(LayoutElementType),
    Text,
}

/// What an element is to layout.
#[derive(Clone, Copy, Debug, PartialEq, Eq, Structural)]
pub enum LayoutElementType {
    Element,
    HTMLBodyElement,
    HTMLBRElement,
    HTMLCanvasElement,
    HTMLHtmlElement,
    HTMLIFrameElement,
    HTMLImageElement,
    HTMLInputElement,
    HTMLMediaElement,
    HTMLObjectElement,
    HTMLOptGroupElement,
    HTMLOptionElement,
    HTMLParagraphElement,
    HTMLPreElement,
    HTMLSelectElement,
    HTMLTableCellElement,
    HTMLTableColElement,
    HTMLTableElement,
    HTMLTableRowElement,
    HTMLTableSectionElement,
    HTMLTextAreaElement,
    SVGImageElement,
    SVGSVGElement,
}

/// Where layout needs an image.
#[derive(Clone, Copy, Debug, PartialEq, Eq, Structural)]
pub enum LayoutImageDestination {
    BoxTreeConstruction,
    DisplayListBuilding,
}

/// The size of a video.
#[derive(Clone, Copy, Debug, PartialEq, Eq, Structural)]
pub struct MediaMetadata {
    pub width: u32,
    pub height: u32,
}

/// A frame of a video.
#[derive(Clone, Copy, Debug, PartialEq, Eq, Structural)]
pub struct MediaFrame {
    pub image_key: ImageKey,
    pub width: i32,
    pub height: i32,
}

/// What there is of a video.
#[derive(Clone, Copy, Debug, PartialEq, Eq)]
pub struct HTMLMediaData {
    pub current_frame: Option<MediaFrame>,
    pub metadata: Option<MediaMetadata>,
}

/// What layout needs of a canvas.
#[derive(Clone, Copy, Debug, PartialEq, Eq)]
pub struct HTMLCanvasData {
    pub image_key: Option<ImageKey>,
    pub width: u32,
    pub height: u32,
}

/// The part of a text that is selected, in bytes and in characters.
#[derive(Clone, Copy, Debug, PartialEq, Eq, Structural)]
pub struct ScriptSelection {
    pub range: LayoutDebugUtf8Range,
    pub character_start: usize,
    pub character_end: usize,
    /// The selection shows; it does not where its node has lost the focus.
    pub enabled: bool,
}

impl Default for ScriptSelection {
    fn default() -> (selection: Self)
        ensures
            selection.range == (LayoutDebugUtf8Range { start: 0, end: 0 }),
            selection.character_start == 0,
            selection.character_end == 0,
            !selection.enabled,
    {
        ScriptSelection {
            range: LayoutDebugUtf8Range { start: 0, end: 0 },
            character_start: 0,
            character_end: 0,
            enabled: false,
        }
    }
}

/// Whether an image that is missing has been asked for.
#[derive(Clone, Debug, PartialEq, Eq)]
pub enum PendingImageState {
    /// It is to be fetched from this URL.
    Unrequested(String),
    PendingResponse,
}

/// An image that is missing.
#[derive(Clone, Debug, PartialEq, Eq)]
pub struct PendingImage {
    pub state: PendingImageState,
    pub node: NodeId,
    pub id: u64,
    pub destination: LayoutImageDestination,
    pub is_internal_request: bool,
}

/// A vector image that has not been rasterized in the size that layout needs.
#[derive(Clone, Copy, Debug, PartialEq, Eq, Structural)]
pub struct PendingRasterizationImage {
    pub node: NodeId,
    pub id: u64,
    pub width: i32,
    pub height: i32,
}

/// Where an element stands in the element that its offset is measured from.
#[derive(Clone, Copy, Debug, PartialEq, Eq)]
pub struct OffsetParentResponse {
    pub node_address: Option<NodeId>,
    pub rect: PhysicalRect,
}

impl Default for OffsetParentResponse {
    fn default() -> (response: Self)
        ensures
            response.node_address is None,
            response.rect.left == Au(0),
            response.rect.top == Au(0),
            response.rect.size == (PhysicalSize { width: Au(0), height: Au(0) }),
    {
        let size = PhysicalSize { width: Au::zero(), height: Au::zero() };
        OffsetParentResponse {
            node_address: None,
            rect: PhysicalRect { left: Au::zero(), top: Au::zero(), size },
        }
    }
}

/// How a scroll container is looked for, one bit each.
#[derive(Clone, Copy, Debug, PartialEq, Eq, Structural)]
pub struct ScrollContainerQueryFlags {
    pub bits: u8,
}

/// The question is for the scroll parent.
pub const SCROLL_CONTAINER_FOR_SCROLL_PARENT: u8 = 0x01;

/// The scroll box of the element itself counts.
pub const SCROLL_CONTAINER_INCLUSIVE: u8 = 0x02;

/// What script asks layout.
#[derive(Clone, Copy, Debug, PartialEq, Eq, Structural)]
pub enum QueryMsg {
    BoxArea,
    BoxAreas,
    ClientRectQuery,
    CurrentCSSZoomQuery,
    EffectiveOverflow,
    ElementInnerOuterTextQuery,
    ElementsFromPoint,
    InnerWindowDimensionsQuery,
    NodesFromPointQuery,
    OffsetParentQuery,
    ScrollParentQuery,
    ResolvedFontStyleQuery,
    /// The resolved value of one property, by its number.
    ResolvedStyleQuery(u32),
    ScrollingAreaOrOffsetQuery,
    StyleQuery,
    TextIndexQuery,
    PaddingQuery,
    FlushForUpdateTheRenderingQuery,
}

/// What a reflow is for.
#[derive(Clone, Copy, Debug, PartialEq, Eq, Structural)]
pub enum ReflowGoal {
    UpdateTheRendering,
    LayoutQuery(QueryMsg),
    /// A scroll root is at another offset, by the bits of its two numbers.
    UpdateScrollNode { scroll_id: u64, x_bits: u32, y_bits: u32 },
}

/// A link of a captured document.
#[derive(Clone, Debug, PartialEq, Eq)]
pub struct LayoutDebugLink {
    pub tag_id: u64,
    /// The URL, resolved.
    pub url: String,
}

/// A box of a captured document.
#[derive(Clone, Debug, PartialEq, Eq)]
pub struct LayoutDebugBox {
    pub depth: usize,
    pub kind: String,
    pub tag_id: Option<u64>,
}

/// Leads from a fragment to the commands that were retained of a canvas.
#[derive(Clone, Copy, Debug, PartialEq, Eq, Structural)]
pub struct LayoutDebugCanvasImageKey {
    pub namespace: u32,
    pub key: u32,
}

/// What a painted rectangle is part of.
#[derive(Clone, Copy, Debug, PartialEq, Eq, Structural)]
pub enum LayoutDebugPaintRectKind {
    Background,
    Border,
}

/// The bytes of a font that a captured document uses.
#[derive(Clone, Debug, PartialEq, Eq)]
pub struct LayoutDebugFontResource {
    /// The address of the content.
    pub resource: String,
    pub bytes_base64: String,
}

/// Bytes of a text run.
#[derive(Clone, Copy, Debug, PartialEq, Eq, Structural)]
pub struct LayoutDebugUtf8Range {
    pub start: usize,
    pub end: usize,
}

/// An area of a CSS box.
#[derive(Clone, Copy, Debug, PartialEq, Eq, Structural)]
pub enum BoxAreaType {
    Content,
    Padding,
    Border,
}

/// Whether a node is rendered.
#[derive(Clone, Copy, Debug, PartialEq, Eq, Structural)]
pub enum NodeRenderingType {
    Rendered,
    /// Its children are rendered instead.
    DelegatesRendering,
    NotRendered,
}

/// How much of the fragment tree a reflow has changed.
#[derive(Clone, Copy, Debug, PartialEq, Eq, Structural)]
pub struct ReflowStatistics {
    pub rebuilt_fragment_count: u32,
    pub restyle_fragment_count: u32,
    pub only_descendants_changed_count: u32,
}

impl Default for ReflowStatistics {
    fn default() -> (statistics: Self)
        ensures
            statistics == (ReflowStatistics {
                rebuilt_fragment_count: 0,
                restyle_fragment_count: 0,
                only_descendants_changed_count: 0,
            }),
    {
        ReflowStatistics {
            rebuilt_fragment_count: 0,
            restyle_fragment_count: 0,
            only_descendants_changed_count: 0,
        }
    }
}

/// The size of an iframe.
#[derive(Clone, Copy, Debug, PartialEq, Eq, Structural)]
pub struct IFrameSize {
    pub browsing_context_id: u64,
    pub pipeline_id: PipelineId,
    pub width_bits: u32,
    pub height_bits: u32,
}

/// How content that does not fit is handled.
#[derive(Clone, Copy, Debug, PartialEq, Eq, Structural)]
pub enum Overflow {
    Visible,
    Hidden,
    Scroll,
    Auto,
    Clip,
}

impl Overflow {
    pub open spec fn spec_is_scrollable(self) -> bool {
        self is Hidden || self is Scroll || self is Auto
    }

    /// The value makes a scroll container.
    #[verifier::when_used_as_spec(spec_is_scrollable)]
    pub fn is_scrollable(self) -> (scrollable: bool)
        ensures
            scrollable == self.spec_is_scrollable(),
    {
        match self {
            Overflow::Hidden | Overflow::Scroll | Overflow::Auto => true,
            Overflow::Visible | Overflow::Clip => false,
        }
    }

    pub open spec fn spec_to_scrollable(self) -> Overflow {
        match self {
            Overflow::Visible => Overflow::Auto,
            Overflow::Clip => Overflow::Hidden,
            scrollable => scrollable,
        }
    }

    /// The scrollable value that is nearest.
    #[verifier::when_used_as_spec(spec_to_scrollable)]
    pub fn to_scrollable(self) -> (scrollable: Overflow)
        ensures
            scrollable == self.spec_to_scrollable(),
    {
        match self {
            Overflow::Visible => Overflow::Auto,
            Overflow::Clip => Overflow::Hidden,
            scrollable => scrollable,
        }
    }
}

/// How content that does not fit is handled in each direction.
#[derive(Clone, Copy, Debug, PartialEq, Eq, Structural)]
pub struct AxesOverflow {
    pub x: Overflow,
    pub y: Overflow,
}

impl Default for AxesOverflow {
    fn default() -> (overflow: Self)
        ensures
            overflow == (AxesOverflow { x: Overflow::Visible, y: Overflow::Visible }),
    {
        AxesOverflow { x: Overflow::Visible, y: Overflow::Visible }
    }
}

impl AxesOverflow {
    /// Style computes both values together: either both make a scroll container, or none does.
    pub open spec fn is_computed(&self) -> bool {
        self.x.is_scrollable() == self.y.is_scrollable()
    }

    /// The scrollable values that are nearest.
    pub fn to_scrollable(&self) -> (overflow: Self)
        ensures
            overflow == (AxesOverflow { x: self.x.to_scrollable(), y: self.y.to_scrollable() }),
            overflow.x.is_scrollable(),
            overflow.y.is_scrollable(),
    {
        AxesOverflow { x: self.x.to_scrollable(), y: self.y.to_scrollable() }
    }

    /// The values make a scroll container.
    pub fn establishes_scroll_container(&self) -> (establishes: bool)
        ensures
            establishes == self.x.is_scrollable(),
            self.is_computed() ==> establishes == self.y.is_scrollable(),
    {
        self.x.is_scrollable()
    }
}

/// A scroll container.
#[derive(Clone, Copy, Debug, PartialEq, Eq, Structural)]
pub enum ScrollContainerResponse {
    Viewport(AxesOverflow),
    Element(NodeId, AxesOverflow),
}

/// Why a document is to be restyled, one bit each.
#[derive(Clone, Copy, Debug, PartialEq, Eq, Structural)]
pub struct RestyleReason {
    pub bits: u16,
}

impl Default for RestyleReason {
    fn default() -> (value: Self)
        ensures
            value == (RestyleReason { bits: 0 }),
    {
        RestyleReason { bits: 0 }
    }
}

pub const RESTYLE_STYLESHEETS_CHANGED: u16 = 0x01;

pub const RESTYLE_DOM_CHANGED: u16 = 0x02;

pub const RESTYLE_PENDING_RESTYLES: u16 = 0x04;

pub const RESTYLE_HIGHLIGHTED_DOM_NODE_CHANGED: u16 = 0x08;

pub const RESTYLE_THEME_CHANGED: u16 = 0x10;

pub const RESTYLE_VIEWPORT_CHANGED: u16 = 0x20;

pub const RESTYLE_PAINT_WORKLET_LOADED: u16 = 0x40;

impl RestyleReason {
    /// There is a reason.
    pub fn needs_restyle(&self) -> (needed: bool)
        ensures
            needed == (self.bits != 0),
    {
        self.bits != 0
    }
}

/// What a reflow has done, one bit each.
#[derive(Clone, Copy, Debug, PartialEq, Eq, Structural)]
pub struct ReflowPhasesRun {
    pub bits: u8,
}

impl Default for ReflowPhasesRun {
    fn default() -> (value: Self)
        ensures
            value == (ReflowPhasesRun { bits: 0 }),
    {
        ReflowPhasesRun { bits: 0 }
    }
}

pub const RAN_LAYOUT: u8 = 0x01;

pub const BUILT_STACKING_CONTEXT_TREE: u8 = 0x04;

pub const BUILT_DISPLAY_LIST: u8 = 0x08;

pub const UPDATED_SCROLL_NODE_OFFSET: u8 = 0x10;

pub const UPDATED_IMAGE_DATA: u8 = 0x20;

pub const UPDATED_ACCESSIBILITY_TREE: u8 = 0x40;

impl ReflowPhasesRun {
    /// A phase has run.
    pub open spec fn ran(self, phase: u8) -> bool {
        self.bits & phase != 0
    }

    /// What was done shows only in a new frame.
    pub fn needs_frame(&self) -> (needed: bool)
        ensures
            needed == (self.ran(BUILT_DISPLAY_LIST) || self.ran(UPDATED_SCROLL_NODE_OFFSET)
                || self.ran(UPDATED_IMAGE_DATA)),
    {
        self.bits & BUILT_DISPLAY_LIST != 0 || self.bits & UPDATED_SCROLL_NODE_OFFSET != 0
            || self.bits & UPDATED_IMAGE_DATA != 0
    }
}

/// What a restyle needs.
#[derive(Clone, Copy, Debug, PartialEq, Eq)]
pub struct ReflowRequestRestyle {
    pub reason: RestyleReason,
    /// Where the restyle starts.
    pub dirty_root: Option<NodeId>,
    pub stylesheets_changed: bool,
}

/// What a reflow needs.
#[derive(Clone, Copy, Debug, PartialEq, Eq)]
pub struct ReflowRequest {
    pub document: NodeId,
    pub epoch: Epoch,
    pub restyle: Option<ReflowRequestRestyle>,
    pub reflow_goal: ReflowGoal,
    /// Where animations stand, by the bits of the number.
    pub animation_timeline_value: u64,
    pub highlighted_dom_node: Option<NodeId>,
}

impl ReflowRequest {
    /// Stylesheets have changed since the last reflow.
    pub fn stylesheets_changed(&self) -> (changed: bool)
        ensures
            changed == (self.restyle matches Some(restyle) && restyle.stylesheets_changed),
    {
        match &self.restyle {
            Some(restyle) => restyle.stylesheets_changed,
            None => false,
        }
    }
}

/// A part of an element that style addresses by itself.
#[derive(Clone, Copy, Debug, PartialEq, Eq, Structural)]
pub enum PseudoElement {
    After,
    Before,
    Selection,
    FirstLetter,
    Backdrop,
    DetailsContent,
    Marker,
    ColorSwatch,
    FileSelectorButton,
    Placeholder,
    SliderFill,
    SliderThumb,
    SliderTrack,
    ServoTextControlInnerContainer,
    ServoTextControlInnerEditor,
    ServoAnonymousBox,
    ServoAnonymousTable,
    ServoAnonymousTableCell,
    ServoAnonymousTableRow,
    ServoTableGrid,
    ServoTableWrapper,
}

/// The part of a node that a scroll root is made for. It fits the two low bits of an aligned
/// address.
#[derive(Clone, Copy, Debug, PartialEq, Eq, Hash, Structural)]
pub enum FragmentType {
    FragmentBody,
    BeforePseudoContent,
    AfterPseudoContent,
    MarkerPseudoContent,
}

/// The bits of an address in which the part is kept.
pub const FRAGMENT_TYPE_MASK: usize = 3;

impl FragmentType {
    pub open spec fn spec_low_bits(self) -> u8 {
        match self {
            FragmentType::FragmentBody => 0,
            FragmentType::BeforePseudoContent => 1,
            FragmentType::AfterPseudoContent => 2,
            FragmentType::MarkerPseudoContent => 3,
        }
    }

    /// The part as two bits.
    #[verifier::when_used_as_spec(spec_low_bits)]
    pub fn low_bits(self) -> (bits: u8)
        ensures
            bits == self.spec_low_bits(),
    {
        match self {
            FragmentType::FragmentBody => 0,
            FragmentType::BeforePseudoContent => 1,
            FragmentType::AfterPseudoContent => 2,
            FragmentType::MarkerPseudoContent => 3,
        }
    }
}

/// The part that a pseudo-element is; all but three are the body.
pub open spec fn part_of(pseudo_element: Option<PseudoElement>) -> FragmentType {
    match pseudo_element {
        Some(PseudoElement::After) => FragmentType::AfterPseudoContent,
        Some(PseudoElement::Before) => FragmentType::BeforePseudoContent,
        Some(PseudoElement::Marker) => FragmentType::MarkerPseudoContent,
        _ => FragmentType::FragmentBody,
    }
}

impl vstd::std_specs::convert::FromSpecImpl<Option<PseudoElement>> for FragmentType {
    open spec fn obeys_from_spec() -> bool {
        true
    }

    open spec fn from_spec(value: Option<PseudoElement>) -> FragmentType {
        part_of(value)
    }
}

impl From<Option<PseudoElement>> for FragmentType {
    fn from(value: Option<PseudoElement>) -> (part: Self) {
        match value {
            Some(PseudoElement::After) => FragmentType::AfterPseudoContent,
            Some(PseudoElement::Before) => FragmentType::BeforePseudoContent,
            Some(PseudoElement::Marker) => FragmentType::MarkerPseudoContent,
            _ => FragmentType::FragmentBody,
        }
    }
}

/// An aligned address together with a part of the node there.
pub open spec fn spec_combined(id: usize, fragment_type: FragmentType) -> u64 {
    (id + fragment_type.low_bits()) as u64
}

/// Combines an aligned address with a part of the node there.
#[verifier::when_used_as_spec(spec_combined)]
pub fn combine_id_with_fragment_type(id: usize, fragment_type: FragmentType) -> (combined: u64)
    requires
        id % 4 == 0,
    ensures
        combined == spec_combined(id, fragment_type),
        combined == id as u64 | fragment_type.low_bits() as u64,
{
    let address: u64 = id as u64;
    let bits: u64 = fragment_type.low_bits() as u64;
    assert(address | bits == address + bits) by (bit_vector)
        requires
            address % 4 == 0,
            bits < 4,
    ;
    address | bits
}

/// The address of the node that a scroll root was made for.
pub open spec fn spec_node_address(id: usize) -> usize {
    (id - id % 4) as usize
}

/// The address of the node that a scroll root was made for.
#[verifier::when_used_as_spec(spec_node_address)]
pub fn node_id_from_scroll_id(id: usize) -> (address: usize)
    ensures
        address == spec_node_address(id),
        address % 4 == 0,
{
    id - id % 4
}

/// An address can be read back from every combination with a part, and different parts or addresses
/// give different combinations.
pub proof fn law_scroll_ids_round_trip(
    id: usize,
    part: FragmentType,
    other_id: usize,
    other_part: FragmentType,
)
    requires
        id % 4 == 0,
        other_id % 4 == 0,
    ensures
        node_id_from_scroll_id(combine_id_with_fragment_type(id, part) as usize) == id,
        combine_id_with_fragment_type(id, part) == combine_id_with_fragment_type(
            other_id,
            other_part,
        ) ==> id == other_id && part == other_part,
{
}

/// What the current thread is used for.
#[derive(Clone, Copy, Debug, PartialEq, Eq, Structural)]
pub struct ThreadState {
    pub script: bool,
    pub layout: bool,
}

impl ThreadState {
    /// Script code stops and layout code starts.
    pub fn enter_layout(&mut self)
        requires
            old(self).script,
            !old(self).layout,
        ensures
            *final(self) == (ThreadState { script: false, layout: true }),
    {
        self.script = false;
        self.layout = true;
    }

    /// Layout code stops and script code goes on.
    pub fn leave_layout(&mut self)
        requires
            old(self).layout,
            !old(self).script,
        ensures
            *final(self) == (ThreadState { script: true, layout: false }),
    {
        self.layout = false;
        self.script = true;
    }
}

/// Runs layout code on a thread that runs script code otherwise. The code is handed the state that
/// the thread is in while it runs; before and after it, the thread runs script.
pub fn with_layout_state<R, F: FnOnce(ThreadState) -> R>(state: &mut ThreadState, f: F) -> (result:
    R)
    requires
        old(state).script,
        !old(state).layout,
        call_requires(f, ((ThreadState { script: false, layout: true }),)),
    ensures
        call_ensures(f, ((ThreadState { script: false, layout: true }),), result),
        *final(state) == *old(state),
{
    state.enter_layout();
    let result = f(*state);
    state.leave_layout();
    result
}

/// What overflows can be scrolled to exactly where it is hidden, scrolled or handled by the user
/// agent. The nearest value that can be keeps one that can, and shows no more than there was: what is
/// clipped becomes hidden, what is visible is left to the user agent.
pub proof fn law_nearest_scrollable_value(overflow: Overflow)
    ensures
        overflow.to_scrollable().is_scrollable(),
        overflow.is_scrollable() ==> overflow.to_scrollable() == overflow,
        overflow.is_scrollable() <==> overflow != Overflow::Visible && overflow != Overflow::Clip,
        overflow == Overflow::Clip ==> overflow.to_scrollable() == Overflow::Hidden,
        overflow == Overflow::Visible ==> overflow.to_scrollable() == Overflow::Auto,
        overflow.to_scrollable().to_scrollable() == overflow.to_scrollable(),
{
}

/// The parts of a node are told apart by two bits, and only what stands before, behind or beside its
/// content is no part of its body.
pub proof fn law_parts_of_a_node_are_told_apart(
    part: FragmentType,
    other: FragmentType,
    pseudo_element: Option<PseudoElement>,
)
    ensures
        part.low_bits() == other.low_bits() ==> part == other,
        part.low_bits() < 4,
        part == FragmentType::FragmentBody <==> part.low_bits() == 0,
        part == FragmentType::BeforePseudoContent <==> part.low_bits() == 1,
        part == FragmentType::AfterPseudoContent <==> part.low_bits() == 2,
        part == FragmentType::MarkerPseudoContent <==> part.low_bits() == 3,
        pseudo_element == Some(PseudoElement::Marker) ==> part_of(pseudo_element)
            == FragmentType::MarkerPseudoContent,
        part_of(pseudo_element) == FragmentType::FragmentBody <==> !(pseudo_element == Some(
            PseudoElement::Before,
        ) || pseudo_element == Some(PseudoElement::After) || pseudo_element == Some(
            PseudoElement::Marker,
        )),
        pseudo_element == Some(PseudoElement::Before) ==> part_of(pseudo_element)
            == FragmentType::BeforePseudoContent,
        pseudo_element == Some(PseudoElement::After) ==> part_of(pseudo_element)
            == FragmentType::AfterPseudoContent,
{
}

} // verus!
