//! Placing one child after another, and breaking only at child boundaries.
use crate::au::{Au, MAX_AU};
use crate::layout_debug::LayoutDebugTableConstraint;
use vstd::prelude::*;

verus! {

/// A child that continues on a later page.
#[derive(Clone, Copy, Debug, PartialEq, Eq)]
pub struct BlockContinuationToken {
    pub next_child_index: usize,
    pub next_node: Option<u64>,
    pub forced: bool,
    pub break_inside_avoid: bool,
    pub retry_count: u8,
    pub resume_page_index: usize,
}

/// A line that continues on a later page.
#[derive(Clone, Copy, Debug, PartialEq, Eq)]
pub struct InlineContinuationToken {
    pub child_index: usize,
    pub next_line_index: usize,
    pub inline_item_index: usize,
    pub text_offset: usize,
    pub shaping_result_index: usize,
    pub resume_page_index: usize,
}

/// A table row that continues on a later page.
#[derive(Clone, Copy, Debug, PartialEq, Eq)]
pub struct TableContinuationToken {
    pub child_index: usize,
    pub table_node: Option<u64>,
    pub row_group_index: Option<usize>,
    pub next_row_index: usize,
    pub resume_page_index: usize,
}

/// What the page after a break resumes.
#[derive(Clone, Copy, Debug, PartialEq, Eq)]
pub enum FragmentainerContinuation {
    Block(BlockContinuationToken),
    Inline(InlineContinuationToken),
    Table(TableContinuationToken),
}

/// Where a child starts once it is placed.
#[derive(Clone, Copy, Debug, PartialEq, Eq, Structural)]
pub enum BlockBoundaryPlacement {
    CurrentPage,
    NewPage { block_origin: Au },
}

/// The break rules of a child, a row or a row group.
#[derive(Clone, Copy, Debug, PartialEq, Eq, Structural)]
pub struct ChildPageBreaks {
    pub before: bool,
    pub after: bool,
    pub inside_avoid: bool,
}

impl Default for ChildPageBreaks {
    fn default() -> (breaks: Self)
        ensures
            breaks == (ChildPageBreaks { before: false, after: false, inside_avoid: false }),
    {
        ChildPageBreaks { before: false, after: false, inside_avoid: false }
    }
}

/// Why the groups of a table are kept together.
#[derive(Clone, Copy, Debug, PartialEq, Eq, Structural)]
pub enum TableGroupUnsupportedReason {
    MultipleFooters,
    FooterTooTallAfterHeader,
    Rowspan,
    CollapsedBorders,
    UnsupportedLayout,
}

/// A place where content was kept although it does not meet its rules.
#[allow(inconsistent_fields)]
#[derive(Clone, Copy, Debug, PartialEq, Eq)]
pub enum BlockPaginationWarning {
    OversizedUnbreakable {
        child_index: usize,
        node: Option<u64>,
        block_size: Au,
        available_block_size: Au,
    },
    OversizedBreakInsideAvoid {
        child_index: usize,
        node: Option<u64>,
        block_size: Au,
        available_block_size: Au,
        retry_count: u8,
    },
    UnsupportedTableCaptionPagination { child_index: usize, node: Option<u64> },
    UnsupportedTableGroupPagination {
        child_index: usize,
        table_node: Option<u64>,
        reason: TableGroupUnsupportedReason,
    },
    UnsupportedTableRowspanPagination {
        child_index: usize,
        table_node: Option<u64>,
        first_row_index: usize,
        end_row_index: usize,
        block_size: Au,
        available_block_size: Au,
        forced_break_inside: bool,
    },
    OversizedTableCell {
        child_index: usize,
        table_node: Option<u64>,
        row_index: usize,
        cell_index: usize,
        fragment_index: usize,
        block_size: Au,
        available_block_size: Au,
    },
    OversizedTableRowBreakInsideAvoid {
        child_index: usize,
        table_node: Option<u64>,
        row_group_index: Option<usize>,
        row_index: usize,
        block_size: Au,
        available_block_size: Au,
        retry_count: u8,
        retry_limit: u8,
    },
    OversizedTableRowGroupBreakInsideAvoid {
        child_index: usize,
        table_node: Option<u64>,
        row_group_index: usize,
        block_size: Au,
        available_block_size: Au,
        retry_count: u8,
        retry_limit: u8,
    },
}

/// The space of a page and the distance between the starts of two pages.
#[derive(Clone, Copy, Debug, PartialEq, Eq, Structural)]
pub struct BlockPaginationRequest {
    pub available_block_size: Au,
    pub page_stride: Au,
}

impl BlockPaginationRequest {
    /// A page has content space, which lies within the page, and both are app-unit lengths.
    pub open spec fn wf(self) -> bool {
        0 < self.available_block_size.0 <= self.page_stride.0 <= MAX_AU
    }
}

impl FragmentainerContinuation {
    /// The page that resumes.
    pub open spec fn resume_page(self) -> usize {
        match self {
            FragmentainerContinuation::Block(token) => token.resume_page_index,
            FragmentainerContinuation::Inline(token) => token.resume_page_index,
            FragmentainerContinuation::Table(token) => token.resume_page_index,
        }
    }
}

/// What a page leaves to a later one.
#[derive(Clone, Copy, Debug, PartialEq, Eq)]
pub struct PageContinuation {
    pub page_index: usize,
    pub token: FragmentainerContinuation,
}

/// A considered break between table rows.
#[derive(Clone, Copy, Debug, PartialEq, Eq)]
pub struct TableBreakDecision {
    pub page_index: usize,
    pub table_node: Option<u64>,
    pub row_group_index: Option<usize>,
    pub next_row_index: usize,
    pub constraint: LayoutDebugTableConstraint,
    pub retry_count: u8,
    pub retry_limit: u8,
    pub selected: bool,
    pub resume_page_index: Option<usize>,
}

/// Where a cell of a fragmented row resumes.
#[derive(Clone, Copy, Debug, PartialEq, Eq)]
pub struct TableCellContinuationDecision {
    pub page_index: usize,
    pub table_node: Option<u64>,
    pub row_group_index: Option<usize>,
    pub row_index: usize,
    pub cell_index: usize,
    pub next_fragment_index: Option<usize>,
    pub resume_page_index: usize,
}

/// A header group that is painted again.
#[derive(Clone, Copy, Debug, PartialEq, Eq)]
pub struct TableGroupRepeatDecision {
    pub page_index: usize,
    pub table_node: Option<u64>,
    pub header_tag_id: u64,
    pub row_group_index: usize,
    pub source_block_start: Au,
    pub target_block_start: Au,
    pub block_size: Au,
}

/// What pagination decided.
#[derive(Debug, PartialEq, Eq)]
pub struct BlockPaginationOutcome {
    pub page_count: usize,
    pub continuations: Vec<PageContinuation>,
    pub table_breaks: Vec<TableBreakDecision>,
    pub table_cell_continuations: Vec<TableCellContinuationDecision>,
    pub table_group_repeats: Vec<TableGroupRepeatDecision>,
    pub warnings: Vec<BlockPaginationWarning>,
}

/// The decisions as mathematical sequences.
#[verifier::ext_equal]
pub struct OutcomeView {
    pub page_count: int,
    pub continuations: Seq<PageContinuation>,
    pub table_breaks: Seq<TableBreakDecision>,
    pub table_cell_continuations: Seq<TableCellContinuationDecision>,
    pub table_group_repeats: Seq<TableGroupRepeatDecision>,
    pub warnings: Seq<BlockPaginationWarning>,
}

impl View for BlockPaginationOutcome {
    type V = OutcomeView;

    open spec fn view(&self) -> OutcomeView {
        OutcomeView {
            page_count: self.page_count as int,
            continuations: self.continuations@,
            table_breaks: self.table_breaks@,
            table_cell_continuations: self.table_cell_continuations@,
            table_group_repeats: self.table_group_repeats@,
            warnings: self.warnings@,
        }
    }
}

impl OutcomeView {
    /// No decision and `page_count` pages.
    pub open spec fn empty(page_count: int) -> OutcomeView {
        OutcomeView {
            page_count,
            continuations: Seq::empty(),
            table_breaks: Seq::empty(),
            table_cell_continuations: Seq::empty(),
            table_group_repeats: Seq::empty(),
            warnings: Seq::empty(),
        }
    }

    pub open spec fn with_continuation(self, continuation: PageContinuation) -> OutcomeView {
        OutcomeView { continuations: self.continuations.push(continuation), ..self }
    }

    pub open spec fn with_table_break(self, decision: TableBreakDecision) -> OutcomeView {
        OutcomeView { table_breaks: self.table_breaks.push(decision), ..self }
    }

    pub open spec fn with_warning(self, warning: BlockPaginationWarning) -> OutcomeView {
        OutcomeView { warnings: self.warnings.push(warning), ..self }
    }

    /// At least `page_count` pages.
    pub open spec fn covering(self, page_count: int) -> OutcomeView {
        OutcomeView {
            page_count: if self.page_count < page_count {
                page_count
            } else {
                self.page_count
            },
            ..self
        }
    }
}

impl Default for BlockPaginationOutcome {
    fn default() -> (outcome: Self)
        ensures
            outcome@ == OutcomeView::empty(0),
    {
        BlockPaginationOutcome {
            page_count: 0,
            continuations: Vec::new(),
            table_breaks: Vec::new(),
            table_cell_continuations: Vec::new(),
            table_group_repeats: Vec::new(),
            warnings: Vec::new(),
        }
    }
}

/// Places one child at a time and only advances at legal boundaries.
#[derive(Debug)]
pub struct BlockPageBuilder {
    pub request: BlockPaginationRequest,
    pub current_page_index: usize,
    pub current_page_origin: Au,
    pub next_child_index: usize,
    pub page_has_content: bool,
    pub previous_break_after: bool,
    pub outcome: BlockPaginationOutcome,
}

/// The state of a builder.
#[verifier::ext_equal]
pub struct BuilderView {
    pub request: BlockPaginationRequest,
    pub page: int,
    pub origin: Au,
    pub next_child: int,
    pub has_content: bool,
    pub previous_break_after: bool,
    pub outcome: OutcomeView,
}

impl View for BlockPageBuilder {
    type V = BuilderView;

    open spec fn view(&self) -> BuilderView {
        BuilderView {
            request: self.request,
            page: self.current_page_index as int,
            origin: self.current_page_origin,
            next_child: self.next_child_index as int,
            has_content: self.page_has_content,
            previous_break_after: self.previous_break_after,
            outcome: self.outcome@,
        }
    }
}

/// The first page, from page `page` at `origin` on, that starts `offset` or less before `target`.
/// A page origin at the app-unit ceiling cannot move any further.
pub open spec fn page_reaching(page: int, origin: Au, stride: Au, offset: Au, target: Au) -> (
    int,
    Au,
)
    decreases MAX_AU - origin.0,
{
    if stride.0 <= 0 || origin.0 >= MAX_AU || origin.plus(offset).0 >= target.0 {
        (page, origin)
    } else {
        page_reaching(page + 1, origin.plus(stride), stride, offset, target)
    }
}

/// The page, from page `page` at `origin` on, in which content that ends at `end` ends.
pub open spec fn page_holding(page: int, origin: Au, stride: Au, end: Au) -> (int, Au)
    decreases MAX_AU - origin.0,
{
    if stride.0 <= 0 || origin.0 >= MAX_AU || origin.plus(stride).0 >= end.0 {
        (page, origin)
    } else {
        page_holding(page + 1, origin.plus(stride), stride, end)
    }
}

/// Every continuation leads to a later page, no later than `page`, and none starts before the one
/// recorded before it has resumed. So each page leaves at most one.
pub open spec fn continuations_advance(continuations: Seq<PageContinuation>, page: int) -> bool {
    &&& forall|i: int|
        0 <= i < continuations.len() ==> (#[trigger] continuations[i]).page_index
            < continuations[i].token.resume_page() <= page
    &&& forall|i: int, j: int|
        0 <= i < j < continuations.len() ==> (#[trigger] continuations[i]).token.resume_page()
            <= (#[trigger] continuations[j]).page_index
}

impl BuilderView {
    /// The recorded continuations lead forward, up to the current page.
    pub open spec fn orderly(self) -> bool {
        continuations_advance(self.outcome.continuations, self.page)
    }

    /// The state of a new builder.
    pub open spec fn initial(request: BlockPaginationRequest) -> BuilderView {
        BuilderView {
            request,
            page: 0,
            origin: Au(0),
            next_child: 0,
            has_content: false,
            previous_break_after: false,
            outcome: OutcomeView::empty(1),
        }
    }

    /// The page geometry is usable and the current page starts at a reachable place.
    pub open spec fn wf(self) -> bool {
        &&& self.request.wf()
        &&& 0 <= self.page
        &&& 0 <= self.origin.0 <= MAX_AU
    }

    /// An upper bound for the index of any page that starts below the app-unit ceiling.
    pub open spec fn page_bound(self) -> int {
        self.page + (MAX_AU - self.origin.0)
    }

    /// The end of the content space of the current page.
    pub open spec fn page_end(self) -> Au {
        self.origin.plus(self.request.available_block_size)
    }

    /// The content space of the current page that lies after `position`.
    pub open spec fn remaining(self, position: Au) -> Au {
        self.request.available_block_size.minus(
            position.minus(self.origin).at_least(Au(0)),
        ).at_least(Au(0))
    }

    /// The first page after the current one that starts `offset` or less before `target`.
    pub open spec fn next_page(self, offset: Au, target: Au) -> (int, Au) {
        page_reaching(
            self.page + 1,
            self.origin.plus(self.request.page_stride),
            self.request.page_stride,
            offset,
            target,
        )
    }

    /// With `page` at `origin` as the current page.
    pub open spec fn at_page(self, page: int, origin: Au) -> BuilderView {
        BuilderView { page, origin, ..self }
    }

    pub open spec fn with_outcome(self, outcome: OutcomeView) -> BuilderView {
        BuilderView { outcome, ..self }
    }

    /// What is decided once no more is placed: the current page is among the pages.
    pub open spec fn finished(self) -> OutcomeView {
        self.outcome.covering(self.page + 1)
    }

    /// Content through `end` stands on the current page and those after it.
    pub open spec fn filled_through(self, end: Au) -> BuilderView {
        BuilderView {
            has_content: true,
            outcome: self.outcome.covering(
                page_holding(self.page, self.origin, self.request.page_stride, end).0 + 1,
            ),
            ..self
        }
    }

    /// A child at `position` starts the next page that can hold it.
    pub open spec fn child_on_next_page(
        self,
        child_index: usize,
        node: Option<u64>,
        position: Au,
        forced: bool,
        break_inside_avoid: bool,
        retry_count: u8,
    ) -> BuilderView {
        let (page, origin) = self.next_page(Au(0), position);
        self.at_page(page, origin).with_outcome(
            self.outcome.with_continuation(
                PageContinuation {
                    page_index: self.page as usize,
                    token: FragmentainerContinuation::Block(
                        BlockContinuationToken {
                            next_child_index: child_index,
                            next_node: node,
                            forced,
                            break_inside_avoid,
                            retry_count,
                            resume_page_index: page as usize,
                        },
                    ),
                },
            ),
        )
    }

    /// A forced break, before this child or after the last, is due on this page.
    pub open spec fn forced_break_due(self, breaks: ChildPageBreaks) -> bool {
        (self.previous_break_after || breaks.before) && self.has_content
    }

    /// The state once the forced break before a child has been taken, if one is due.
    pub open spec fn after_forced_break(
        self,
        child_index: usize,
        node: Option<u64>,
        position: Au,
        breaks: ChildPageBreaks,
    ) -> BuilderView {
        let noted = BuilderView { previous_break_after: breaks.after, ..self };
        if self.forced_break_due(breaks) {
            noted.child_on_next_page(child_index, node, position, true, false, 0)
        } else {
            noted
        }
    }

    /// A warning is recorded for a child that no page can hold.
    pub open spec fn with_size_warning(
        self,
        child_index: usize,
        node: Option<u64>,
        block_size: Au,
        break_inside_avoid: bool,
    ) -> BuilderView {
        let available_block_size = self.request.available_block_size;
        if block_size.0 <= available_block_size.0 {
            self
        } else if break_inside_avoid {
            self.with_outcome(
                self.outcome.with_warning(
                    BlockPaginationWarning::OversizedBreakInsideAvoid {
                        child_index,
                        node,
                        block_size,
                        available_block_size,
                        retry_count: 0,
                    },
                ),
            )
        } else {
            self.with_outcome(
                self.outcome.with_warning(
                    BlockPaginationWarning::OversizedUnbreakable {
                        child_index,
                        node,
                        block_size,
                        available_block_size,
                    },
                ),
            )
        }
    }

    /// The next child has been counted.
    pub open spec fn counted(self) -> BuilderView {
        BuilderView { next_child: self.next_child + 1, ..self }
    }

    /// A child fills `current` of the page it is on, or `fresh` of a page of its own. It stays
    /// where it is when it fits what remains of the page, when nothing stands on the page yet, or
    /// when it asks not to be divided and no page can hold it; otherwise it starts a new page.
    pub open spec fn with_child(
        self,
        child_index: usize,
        node: Option<u64>,
        position: Au,
        current: Au,
        fresh: Au,
        breaks: ChildPageBreaks,
    ) -> (BuilderView, BlockBoundaryPlacement) {
        let forced = self.counted().after_forced_break(child_index, node, position, breaks);
        if self.forced_break_due(breaks) {
            (
                forced.with_size_warning(
                    child_index,
                    node,
                    fresh,
                    breaks.inside_avoid,
                ).filled_through(forced.origin.plus(fresh)),
                BlockBoundaryPlacement::NewPage { block_origin: forced.origin },
            )
        } else if breaks.inside_avoid && fresh.0 > self.request.available_block_size.0 {
            (
                forced.with_size_warning(child_index, node, fresh, true).filled_through(
                    position.plus(current),
                ),
                BlockBoundaryPlacement::CurrentPage,
            )
        } else if current.0 <= self.remaining(position).0 || !self.has_content {
            (
                forced.with_size_warning(child_index, node, fresh, false).filled_through(
                    position.plus(current),
                ),
                BlockBoundaryPlacement::CurrentPage,
            )
        } else {
            let moved = forced.child_on_next_page(
                child_index,
                node,
                position,
                false,
                breaks.inside_avoid,
                if breaks.inside_avoid {
                    1
                } else {
                    0
                },
            );
            (
                moved.with_size_warning(child_index, node, fresh, false).filled_through(
                    moved.origin.plus(fresh),
                ),
                BlockBoundaryPlacement::NewPage { block_origin: moved.origin },
            )
        }
    }
}

/// A page search stays within the pages below the app-unit ceiling.
pub proof fn lemma_page_reaching_bounds(page: int, origin: Au, stride: Au, offset: Au, target: Au)
    requires
        0 < stride.0 <= MAX_AU,
        0 <= origin.0 <= MAX_AU,
    ensures
        ({
            let (reached, start) = page_reaching(page, origin, stride, offset, target);
            &&& page <= reached
            &&& origin.0 <= start.0 <= MAX_AU
            &&& reached + (MAX_AU - start.0) <= page + (MAX_AU - origin.0)
        }),
    decreases MAX_AU - origin.0,
{
    if !(origin.0 >= MAX_AU || origin.plus(offset).0 >= target.0) {
        lemma_page_reaching_bounds(page + 1, origin.plus(stride), stride, offset, target);
    }
}

/// The page that holds the end of content lies among the pages below the app-unit ceiling.
pub proof fn lemma_page_holding_bounds(page: int, origin: Au, stride: Au, end: Au)
    requires
        0 < stride.0 <= MAX_AU,
        0 <= origin.0 <= MAX_AU,
    ensures
        ({
            let (reached, start) = page_holding(page, origin, stride, end);
            &&& page <= reached
            &&& origin.0 <= start.0 <= MAX_AU
            &&& reached + (MAX_AU - start.0) <= page + (MAX_AU - origin.0)
        }),
    decreases MAX_AU - origin.0,
{
    if !(origin.0 >= MAX_AU || origin.plus(stride).0 >= end.0) {
        lemma_page_holding_bounds(page + 1, origin.plus(stride), stride, end);
    }
}

/// The first page from `page` at `origin` on that starts `offset` or less before `target`.
pub fn find_page_reaching(
    page: usize,
    origin: Au,
    stride: Au,
    offset: Au,
    target: Au,
) -> (found: (usize, Au))
    requires
        0 < stride.0 <= MAX_AU,
        0 <= origin.0,
        origin.in_range(),
        0 <= offset.0,
        offset.in_range(),
        target.in_range(),
        page + (MAX_AU - origin.0) <= usize::MAX,
    ensures
        (found.0 as int, found.1) == page_reaching(page as int, origin, stride, offset, target),
        page <= found.0,
        origin.0 <= found.1.0 <= MAX_AU,
        found.0 + (MAX_AU - found.1.0) <= page + (MAX_AU - origin.0),
{
    let mut next_page: usize = page;
    let mut next_origin = origin;
    while next_origin.plus(offset).0 < target.0
        invariant
            0 < stride.0 <= MAX_AU,
            0 <= offset.0,
            offset.in_range(),
            target.in_range(),
            page <= next_page,
            origin.0 <= next_origin.0,
            0 <= origin.0,
            next_origin.in_range(),
            page + (MAX_AU - origin.0) <= usize::MAX,
            next_page + (MAX_AU - next_origin.0) <= page + (MAX_AU - origin.0),
            page_reaching(next_page as int, next_origin, stride, offset, target) == page_reaching(
                page as int,
                origin,
                stride,
                offset,
                target,
            ),
        decreases MAX_AU - next_origin.0,
    {
        next_page = next_page + 1;
        next_origin = next_origin.plus(stride);
    }
    (next_page, next_origin)
}

/// The page from `page` at `origin` on in which content that ends at `end` ends.
pub fn find_page_holding(page: usize, origin: Au, stride: Au, end: Au) -> (found: (usize, Au))
    requires
        0 < stride.0 <= MAX_AU,
        0 <= origin.0,
        origin.in_range(),
        end.in_range(),
        page + (MAX_AU - origin.0) <= usize::MAX,
    ensures
        (found.0 as int, found.1) == page_holding(page as int, origin, stride, end),
        page <= found.0,
        origin.0 <= found.1.0 <= MAX_AU,
        found.0 + (MAX_AU - found.1.0) <= page + (MAX_AU - origin.0),
{
    let mut next_page: usize = page;
    let mut next_origin = origin;
    while next_origin.plus(stride).0 < end.0
        invariant
            0 < stride.0 <= MAX_AU,
            end.in_range(),
            page <= next_page,
            origin.0 <= next_origin.0,
            0 <= origin.0,
            next_origin.in_range(),
            page + (MAX_AU - origin.0) <= usize::MAX,
            next_page + (MAX_AU - next_origin.0) <= page + (MAX_AU - origin.0),
            page_holding(next_page as int, next_origin, stride, end) == page_holding(
                page as int,
                origin,
                stride,
                end,
            ),
        decreases MAX_AU - next_origin.0,
    {
        next_page = next_page + 1;
        next_origin = next_origin.plus(stride);
    }
    (next_page, next_origin)
}

impl BlockPageBuilder {
    /// A builder on an empty first page.
    pub fn new(request: BlockPaginationRequest) -> (builder: Self)
        ensures
            builder@ == BuilderView::initial(request),
            builder@.orderly(),
    {
        BlockPageBuilder {
            request,
            current_page_index: 0,
            current_page_origin: Au::zero(),
            next_child_index: 0,
            page_has_content: false,
            previous_break_after: false,
            outcome: BlockPaginationOutcome {
                page_count: 1,
                continuations: Vec::new(),
                table_breaks: Vec::new(),
                table_cell_continuations: Vec::new(),
                table_group_repeats: Vec::new(),
                warnings: Vec::new(),
            },
        }
    }

    /// The content space of a page.
    pub fn available_block_size(&self) -> (size: Au)
        ensures
            size == self@.request.available_block_size,
    {
        self.request.available_block_size
    }

    /// Counts an out-of-flow child, which takes no space, changes no pending break and opens no
    /// page.
    pub fn skip_out_of_flow_child(&mut self, child_index: usize)
        requires
            child_index == old(self)@.next_child,
            child_index < usize::MAX,
        ensures
            final(self)@ == old(self)@.counted(),
    {
        self.next_child_index = self.next_child_index + 1;
    }

    /// Places an undivided child that starts at `current_block_position`.
    pub fn place_child(
        &mut self,
        child_index: usize,
        node: Option<u64>,
        current_block_position: Au,
        current_page_contribution: Au,
        fresh_page_contribution: Au,
        breaks: ChildPageBreaks,
    ) -> (placement: BlockBoundaryPlacement)
        requires
            old(self)@.wf(),
            child_index == old(self)@.next_child,
            child_index < usize::MAX,
            current_block_position.in_range(),
            current_page_contribution.in_range(),
            fresh_page_contribution.in_range(),
            old(self)@.page_bound() + 1 < usize::MAX,
        ensures
            (final(self)@, placement) == old(self)@.with_child(
                child_index,
                node,
                current_block_position,
                current_page_contribution,
                fresh_page_contribution,
                breaks,
            ),
            final(self)@.wf(),
            old(self)@.orderly() ==> final(self)@.orderly(),
            final(self)@.page_bound() <= old(self)@.page_bound() + 1,
    {
        self.next_child_index = self.next_child_index + 1;
        let forced = self.forced_break_before(child_index, node, current_block_position, breaks);
        if let Some(block_origin) = forced {
            self.warn_if_oversized(
                child_index,
                node,
                fresh_page_contribution,
                breaks.inside_avoid,
            );
            self.fill_through(block_origin.plus(fresh_page_contribution));
            return BlockBoundaryPlacement::NewPage { block_origin };
        }
        let used = current_block_position.minus(self.current_page_origin).at_least(Au::zero());
        let remaining = self.request.available_block_size.minus(used).at_least(Au::zero());
        if breaks.inside_avoid && fresh_page_contribution.0 > self.request.available_block_size.0 {
            self.warn_if_oversized(child_index, node, fresh_page_contribution, true);
            self.fill_through(current_block_position.plus(current_page_contribution));
            return BlockBoundaryPlacement::CurrentPage;
        }
        if current_page_contribution.0 <= remaining.0 || !self.page_has_content {
            self.warn_if_oversized(child_index, node, fresh_page_contribution, false);
            self.fill_through(current_block_position.plus(current_page_contribution));
            return BlockBoundaryPlacement::CurrentPage;
        }
        let retry_count: u8 = if breaks.inside_avoid {
            1
        } else {
            0
        };
        let block_origin = self.move_child_to_next_page(
            child_index,
            node,
            current_block_position,
            false,
            breaks.inside_avoid,
            retry_count,
        );
        self.warn_if_oversized(child_index, node, fresh_page_contribution, false);
        self.fill_through(block_origin.plus(fresh_page_contribution));
        BlockBoundaryPlacement::NewPage { block_origin }
    }

    /// Takes the forced break that is due before a child and tells where the child then starts.
    pub fn forced_break_before(
        &mut self,
        child_index: usize,
        node: Option<u64>,
        current_block_position: Au,
        breaks: ChildPageBreaks,
    ) -> (block_origin: Option<Au>)
        requires
            old(self)@.wf(),
            current_block_position.in_range(),
            old(self)@.page_bound() + 1 <= usize::MAX,
        ensures
            final(self)@ == old(self)@.after_forced_break(
                child_index,
                node,
                current_block_position,
                breaks,
            ),
            block_origin == (if old(self)@.forced_break_due(breaks) {
                Some(final(self)@.origin)
            } else {
                None
            }),
            final(self)@.wf(),
            old(self)@.orderly() ==> final(self)@.orderly(),
            final(self)@.page_bound() <= old(self)@.page_bound() + 1,
            !old(self)@.forced_break_due(breaks) ==> final(self)@.page_bound() == old(
                self,
            )@.page_bound(),
    {
        let forced = self.previous_break_after || breaks.before;
        self.previous_break_after = breaks.after;
        if !forced || !self.page_has_content {
            return None;
        }
        Some(self.move_child_to_next_page(child_index, node, current_block_position, true, false, 0))
    }

    /// Opens the next page that starts at or after a child's position and records that the child
    /// continues there.
    pub fn move_child_to_next_page(
        &mut self,
        child_index: usize,
        node: Option<u64>,
        current_block_position: Au,
        forced: bool,
        break_inside_avoid: bool,
        retry_count: u8,
    ) -> (block_origin: Au)
        requires
            old(self)@.wf(),
            current_block_position.in_range(),
            old(self)@.page_bound() + 1 <= usize::MAX,
        ensures
            final(self)@ == old(self)@.child_on_next_page(
                child_index,
                node,
                current_block_position,
                forced,
                break_inside_avoid,
                retry_count,
            ),
            block_origin == final(self)@.origin,
            final(self)@.wf(),
            old(self)@.orderly() ==> final(self)@.orderly(),
            final(self)@.page_bound() <= old(self)@.page_bound() + 1,
    {
        let previous_page_index: usize = self.current_page_index;
        let (page, origin) = find_page_reaching(
            self.current_page_index + 1,
            self.current_page_origin.plus(self.request.page_stride),
            self.request.page_stride,
            Au::zero(),
            current_block_position,
        );
        self.current_page_index = page;
        self.current_page_origin = origin;
        self.outcome.continuations.push(
            PageContinuation {
                page_index: previous_page_index,
                token: FragmentainerContinuation::Block(
                    BlockContinuationToken {
                        next_child_index: child_index,
                        next_node: node,
                        forced,
                        break_inside_avoid,
                        retry_count,
                        resume_page_index: page,
                    },
                ),
            },
        );
        origin
    }

    /// Records a child that no page can hold.
    pub fn warn_if_oversized(
        &mut self,
        child_index: usize,
        node: Option<u64>,
        block_size: Au,
        break_inside_avoid: bool,
    )
        ensures
            final(self)@ == old(self)@.with_size_warning(
                child_index,
                node,
                block_size,
                break_inside_avoid,
            ),
    {
        let available_block_size = self.request.available_block_size;
        if block_size.0 <= available_block_size.0 {
            return ;
        }
        if break_inside_avoid {
            self.outcome.warnings.push(
                BlockPaginationWarning::OversizedBreakInsideAvoid {
                    child_index,
                    node,
                    block_size,
                    available_block_size,
                    retry_count: 0,
                },
            );
            return ;
        }
        self.outcome.warnings.push(
            BlockPaginationWarning::OversizedUnbreakable {
                child_index,
                node,
                block_size,
                available_block_size,
            },
        );
    }

    /// Marks the current page as used and counts the pages that content through `block_end` takes.
    pub fn fill_through(&mut self, block_end: Au)
        requires
            old(self)@.wf(),
            block_end.in_range(),
            old(self)@.page_bound() < usize::MAX,
        ensures
            final(self)@ == old(self)@.filled_through(block_end),
    {
        self.page_has_content = true;
        self.include_content_through(block_end);
    }

    /// Counts the pages that content through `block_end` takes.
    pub fn include_content_through(&mut self, block_end: Au)
        requires
            old(self)@.wf(),
            block_end.in_range(),
            old(self)@.page_bound() < usize::MAX,
        ensures
            final(self)@ == old(self)@.with_outcome(
                old(self)@.outcome.covering(
                    page_holding(
                        old(self)@.page,
                        old(self)@.origin,
                        old(self)@.request.page_stride,
                        block_end,
                    ).0 + 1,
                ),
            ),
    {
        let (page, _) = find_page_holding(
            self.current_page_index,
            self.current_page_origin,
            self.request.page_stride,
            block_end,
        );
        if self.outcome.page_count < page + 1 {
            self.outcome.page_count = page + 1;
        }
    }

    /// Records that a table with captions is kept together.
    pub fn warn_unsupported_table_caption_pagination(
        &mut self,
        child_index: usize,
        node: Option<u64>,
    )
        ensures
            final(self)@ == old(self)@.with_outcome(
                old(self)@.outcome.with_warning(
                    BlockPaginationWarning::UnsupportedTableCaptionPagination { child_index, node },
                ),
            ),
    {
        self.outcome.warnings.push(
            BlockPaginationWarning::UnsupportedTableCaptionPagination { child_index, node },
        );
    }

    /// Records that the row groups of a table are kept together.
    pub fn warn_unsupported_table_group_pagination(
        &mut self,
        child_index: usize,
        table_node: Option<u64>,
        reason: TableGroupUnsupportedReason,
    )
        ensures
            final(self)@ == old(self)@.with_outcome(
                old(self)@.outcome.with_warning(
                    BlockPaginationWarning::UnsupportedTableGroupPagination {
                        child_index,
                        table_node,
                        reason,
                    },
                ),
            ),
    {
        self.outcome.warnings.push(
            BlockPaginationWarning::UnsupportedTableGroupPagination {
                child_index,
                table_node,
                reason,
            },
        );
    }

    /// The decisions, with the current page among the pages.
    pub fn finish(self) -> (outcome: BlockPaginationOutcome)
        requires
            self@.page < usize::MAX,
        ensures
            outcome@ == self@.finished(),
            outcome@ == self@.outcome.covering(self@.page + 1),
            self@.orderly() ==> continuations_advance(
                outcome.continuations@,
                outcome.page_count - 1,
            ),
    {
        let mut outcome = self.outcome;
        if outcome.page_count < self.current_page_index + 1 {
            outcome.page_count = self.current_page_index + 1;
        }
        outcome
    }
}

} // verus!
