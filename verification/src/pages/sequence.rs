//! The hand-off of pagination between the paged root and its flow, and the page sequence that
//! comes of it.
use crate::au::Au;
use crate::layout_debug::{
    LayoutDebugContinuation, LayoutDebugPage, LayoutDebugPageContinuation, LayoutDebugPageSequence,
    LayoutDebugPageStyleSource, LayoutDebugPageWarning, LayoutDebugTableBreak,
    LayoutDebugTableCellContinuation, LayoutDebugTableGroupRepeat,
    LayoutDebugTableGroupRepeatAppUnits, LayoutDebugTableGroupUnsupportedReason,
};
use crate::pages::flow::{
    BlockPageBuilder, BlockPaginationOutcome, BlockPaginationRequest, BlockPaginationWarning,
    BuilderView, FragmentainerContinuation, OutcomeView, PageContinuation, TableBreakDecision,
    TableCellContinuationDecision, TableGroupRepeatDecision, TableGroupUnsupportedReason,
};
use crate::pages::geometry::{PageDefinition, PageSequenceContext};
use vstd::prelude::*;

verus! {

/// The hand-off, for one layout, between the paged root and the outermost block container.
#[derive(Debug)]
pub struct BlockPaginationController {
    pub request: Option<BlockPaginationRequest>,
    pub claimed: bool,
    pub outcome: Option<BlockPaginationOutcome>,
}

/// What a paged layout asks for: the height of the page area, and how far apart pages start.
pub open spec fn requested(definition: PageDefinition) -> BlockPaginationRequest {
    BlockPaginationRequest {
        available_block_size: definition.available_block_size(),
        page_stride: definition.size.height,
    }
}

/// How many pages fixed children see, and how far apart those start.
pub open spec fn fixed_pages(
    request: Option<BlockPaginationRequest>,
    decided: Option<usize>,
) -> Option<(usize, Au)> {
    match (request, decided) {
        (None, _) => None,
        (Some(request), Some(page_count)) if page_count > 0 => Some(
            (page_count, request.page_stride),
        ),
        (Some(request), _) => Some((1, request.page_stride)),
    }
}

/// The pages of a document, of which there is at least one.
pub open spec fn pages_of(
    definition: PageDefinition,
    page_count: usize,
    continuations: Seq<PageContinuation>,
) -> Seq<Page> {
    Seq::new(
        if page_count == 0 {
            1
        } else {
            page_count as nat
        },
        |i: int| page_of(definition, continuations, i as usize),
    )
}

impl BlockPaginationController {
    /// No layout is paged.
    pub fn new() -> (controller: Self)
        ensures
            controller.request is None,
            !controller.claimed,
            controller.outcome is None,
    {
        BlockPaginationController { request: None, claimed: false, outcome: None }
    }

    /// Whether a paged layout is under way.
    pub fn is_active(&self) -> (active: bool)
        ensures
            active == self.request is Some,
    {
        self.request.is_some()
    }

    /// Starts a paged layout.
    pub fn begin(&mut self, definition: PageDefinition)
        requires
            definition.wf(),
        ensures
            final(self).request == Some(requested(definition)),
            final(self).request == Some(
                BlockPaginationRequest {
                    available_block_size: definition.available_block_size(),
                    page_stride: definition.size.height,
                },
            ),
            !final(self).claimed,
            final(self).outcome is None,
            definition.in_range() ==> final(self).request->0.wf(),
    {
        self.request = Some(
            BlockPaginationRequest {
                available_block_size: definition.available_block_size(),
                page_stride: definition.size.height,
            },
        );
        self.claimed = false;
        self.outcome = None;
    }

    /// A container with `child_count` children can claim pagination: a paged layout is under way,
    /// nobody has claimed it, and the container has two children or one that can be divided.
    pub open spec fn offers(
        &self,
        child_count: usize,
        supports_single_fragmentable_child: bool,
    ) -> bool {
        &&& self.request is Some
        &&& !self.claimed
        &&& child_count >= 2 || supports_single_fragmentable_child
    }

    /// The controller once pagination has been offered, and whether the container paginates.
    pub open spec fn offered(
        self,
        child_count: usize,
        supports_simple_block_pagination: bool,
        supports_single_fragmentable_child: bool,
    ) -> (BlockPaginationController, bool) {
        let takes = self.offers(child_count, supports_single_fragmentable_child);
        (
            BlockPaginationController { claimed: self.claimed || takes, ..self },
            takes && supports_simple_block_pagination,
        )
    }

    /// Offers pagination to a block container with `child_count` children. The first container
    /// that has two children, or one that can be divided, claims it; it gets a builder where simple
    /// block pagination is supported.
    pub fn claim(
        &mut self,
        child_count: usize,
        supports_simple_block_pagination: bool,
        supports_single_fragmentable_child: bool,
    ) -> (builder: Option<BlockPageBuilder>)
        ensures
            (*final(self), builder is Some) == old(self).offered(
                child_count,
                supports_simple_block_pagination,
                supports_single_fragmentable_child,
            ),
            final(self).request == old(self).request,
            final(self).outcome == old(self).outcome,
            final(self).claimed == (old(self).claimed || old(self).offers(
                child_count,
                supports_single_fragmentable_child,
            )),
            builder is Some <==> old(self).offers(child_count, supports_single_fragmentable_child)
                && supports_simple_block_pagination,
            builder matches Some(built) ==> built@ == BuilderView::initial(old(self).request->0),
    {
        if (child_count < 2 && !supports_single_fragmentable_child) || self.claimed {
            return None;
        }
        match self.request {
            None => None,
            Some(request) => {
                self.claimed = true;
                if supports_simple_block_pagination {
                    Some(BlockPageBuilder::new(request))
                } else {
                    None
                }
            },
        }
    }

    /// Takes what the claiming container decided.
    pub fn complete(&mut self, outcome: BlockPaginationOutcome)
        requires
            old(self).claimed,
            old(self).outcome is None,
        ensures
            final(self).outcome == Some(outcome),
            final(self).claimed,
            final(self).request == old(self).request,
    {
        self.outcome = Some(outcome);
    }

    /// Freezes the number of pages before fixed children are laid out, which can neither add pages
    /// nor claim pagination. Gives the number of pages and the distance between them.
    pub fn fixed_page_layout(&mut self) -> (layout: Option<(usize, Au)>)
        ensures
            final(self).request == old(self).request,
            final(self).outcome == old(self).outcome,
            layout == fixed_pages(
                old(self).request,
                match old(self).outcome {
                    Some(outcome) => Some(outcome.page_count),
                    None => None,
                },
            ),
            old(self).request is None ==> layout is None && final(self).claimed == old(
                self,
            ).claimed,
            old(self).request matches Some(request) ==> {
                &&& final(self).claimed
                &&& layout == Some(
                    (
                        match old(self).outcome {
                            Some(outcome) => if outcome.page_count == 0 {
                                1
                            } else {
                                outcome.page_count
                            },
                            None => 1,
                        },
                        request.page_stride,
                    ),
                )
            },
    {
        match self.request {
            None => None,
            Some(request) => {
                self.claimed = true;
                let page_count: usize = match &self.outcome {
                    Some(outcome) => if outcome.page_count == 0 {
                        1
                    } else {
                        outcome.page_count
                    },
                    None => 1,
                };
                Some((page_count, request.page_stride))
            },
        }
    }

    /// Ends the paged layout and gives what was decided.
    pub fn finish(&mut self) -> (outcome: BlockPaginationOutcome)
        ensures
            final(self).request is None,
            final(self).outcome is None,
            final(self).claimed == old(self).claimed,
            old(self).outcome matches Some(decided) ==> outcome == decided,
            old(self).outcome is None ==> outcome@ == OutcomeView::empty(0),
    {
        self.request = None;
        match self.outcome.take() {
            Some(outcome) => outcome,
            None => BlockPaginationOutcome::default(),
        }
    }
}

/// Pagination is claimed once: after a container has claimed it, or fixed children have frozen the
/// pages, no container can claim it for the rest of the layout.
pub proof fn law_pagination_is_claimed_once(
    controller: BlockPaginationController,
    child_count: usize,
    supports_single_fragmentable_child: bool,
)
    requires
        controller.claimed,
    ensures
        !controller.offers(child_count, supports_single_fragmentable_child),
{
}

/// What becomes of content past the end of a fragmentainer.
#[derive(Clone, Copy, Debug, PartialEq, Eq, Structural)]
pub enum FragmentainerOverflow {
    /// It stays in the fragment tree for later pagination.
    RetainInFragmentTree,
}

/// The content box of one page.
#[derive(Clone, Copy, Debug, PartialEq, Eq)]
pub struct FragmentainerContext {
    pub page_index: usize,
    pub available_inline_size: Au,
    pub available_block_size: Au,
    pub continuation: Option<FragmentainerContinuation>,
    pub overflow: FragmentainerOverflow,
}

/// One page of a document.
#[derive(Clone, Copy, Debug, PartialEq, Eq)]
pub struct Page {
    pub definition: PageDefinition,
    pub fragmentainer: FragmentainerContext,
}

/// The pages of a document, with what was decided between them.
#[derive(Clone, Debug, PartialEq, Eq)]
pub struct PageSequence {
    pub pages: Vec<Page>,
    pub table_breaks: Vec<TableBreakDecision>,
    pub table_cell_continuations: Vec<TableCellContinuationDecision>,
    pub table_group_repeats: Vec<TableGroupRepeatDecision>,
    pub warnings: Vec<BlockPaginationWarning>,
}

/// The first continuation, from `index` on, that page `page_index` leaves.
pub open spec fn continuation_of(
    continuations: Seq<PageContinuation>,
    index: int,
    page_index: usize,
) -> Option<FragmentainerContinuation>
    decreases continuations.len() - index,
{
    if index < 0 || index >= continuations.len() {
        None
    } else if continuations[index].page_index == page_index {
        Some(continuations[index].token)
    } else {
        continuation_of(continuations, index + 1, page_index)
    }
}

/// Page `page_index` of a document.
pub open spec fn page_of(
    definition: PageDefinition,
    continuations: Seq<PageContinuation>,
    page_index: usize,
) -> Page {
    Page {
        definition,
        fragmentainer: FragmentainerContext {
            page_index,
            available_inline_size: definition.available_inline_size(),
            available_block_size: definition.available_block_size(),
            continuation: continuation_of(continuations, 0, page_index),
            overflow: FragmentainerOverflow::RetainInFragmentTree,
        },
    }
}

fn find_continuation(continuations: &Vec<PageContinuation>, page_index: usize) -> (token: Option<
    FragmentainerContinuation,
>)
    ensures
        token == continuation_of(continuations@, 0, page_index),
{
    let mut index: usize = 0;
    while index < continuations.len()
        invariant
            index <= continuations.len(),
            continuation_of(continuations@, index as int, page_index) == continuation_of(
                continuations@,
                0,
                page_index,
            ),
        decreases continuations.len() - index,
    {
        if continuations[index].page_index == page_index {
            return Some(continuations[index].token);
        }
        index = index + 1;
    }
    None
}

impl PageSequenceContext {
    /// The sequence of a document without content.
    pub fn one_page_sequence(self) -> (sequence: PageSequence)
        requires
            self.definition.wf(),
        ensures
            sequence.pages@ == seq![page_of(self.definition, Seq::empty(), 0)],
            sequence.table_breaks@.len() == 0,
            sequence.table_cell_continuations@.len() == 0,
            sequence.table_group_repeats@.len() == 0,
            sequence.warnings@.len() == 0,
    {
        let sequence = self.page_sequence(BlockPaginationOutcome::default());
        assert(sequence.pages@ =~= seq![page_of(self.definition, Seq::empty(), 0)]);
        sequence
    }

    /// The pages that pagination decided on, at least one; each knows what it leaves to a later
    /// one.
    pub fn page_sequence(self, outcome: BlockPaginationOutcome) -> (sequence: PageSequence)
        requires
            self.definition.wf(),
        ensures
            sequence.pages@ == pages_of(
                self.definition,
                outcome.page_count,
                outcome.continuations@,
            ),
            sequence.pages@ == Seq::new(
                if outcome.page_count == 0 {
                    1
                } else {
                    outcome.page_count as nat
                },
                |i: int| page_of(self.definition, outcome.continuations@, i as usize),
            ),
            sequence.table_breaks == outcome.table_breaks,
            sequence.table_cell_continuations == outcome.table_cell_continuations,
            sequence.table_group_repeats == outcome.table_group_repeats,
            sequence.warnings == outcome.warnings,
    {
        let page_count: usize = if outcome.page_count == 0 {
            1
        } else {
            outcome.page_count
        };
        let mut pages: Vec<Page> = Vec::new();
        let mut page_index: usize = 0;
        while page_index < page_count
            invariant
                self.definition.wf(),
                page_index <= page_count,
                pages@ == Seq::new(
                    page_index as nat,
                    |i: int| page_of(self.definition, outcome.continuations@, i as usize),
                ),
            decreases page_count - page_index,
        {
            pages.push(
                Page {
                    definition: self.definition,
                    fragmentainer: FragmentainerContext {
                        page_index,
                        available_inline_size: self.definition.available_inline_size(),
                        available_block_size: self.definition.available_block_size(),
                        continuation: find_continuation(&outcome.continuations, page_index),
                        overflow: FragmentainerOverflow::RetainInFragmentTree,
                    },
                },
            );
            page_index = page_index + 1;
        }
        PageSequence {
            pages,
            table_breaks: outcome.table_breaks,
            table_cell_continuations: outcome.table_cell_continuations,
            table_group_repeats: outcome.table_group_repeats,
            warnings: outcome.warnings,
        }
    }
}

impl Page {
    pub open spec fn spec_debug(self) -> LayoutDebugPage {
        let definition = self.definition;
        LayoutDebugPage {
            index: self.fragmentainer.page_index,
            style_source: LayoutDebugPageStyleSource::RequestDefaults,
            app_units: crate::layout_debug::LayoutDebugPageAppUnits {
                width: definition.size.width.0,
                height: definition.size.height.0,
                margin_top: definition.margins.top.0,
                margin_right: definition.margins.right.0,
                margin_bottom: definition.margins.bottom.0,
                margin_left: definition.margins.left.0,
                available_inline_size: definition.available_inline_size().0,
                available_block_size: definition.available_block_size().0,
            },
            width: definition.size.width,
            height: definition.size.height,
            margin_top: definition.margins.top,
            margin_right: definition.margins.right,
            margin_bottom: definition.margins.bottom,
            margin_left: definition.margins.left,
            available_inline_size: self.fragmentainer.available_inline_size,
            available_block_size: self.fragmentainer.available_block_size,
        }
    }

    #[verifier::when_used_as_spec(spec_debug)]
    pub fn debug(self) -> (record: LayoutDebugPage)
        requires
            self.definition.wf(),
        ensures
            record == self.spec_debug(),
    {
        let margins = self.definition.margins();
        LayoutDebugPage {
            index: self.fragmentainer.page_index,
            style_source: LayoutDebugPageStyleSource::RequestDefaults,
            app_units: self.definition.debug_app_units(),
            width: self.definition.width(),
            height: self.definition.height(),
            margin_top: margins.top,
            margin_right: margins.right,
            margin_bottom: margins.bottom,
            margin_left: margins.left,
            available_inline_size: self.fragmentainer.available_inline_size,
            available_block_size: self.fragmentainer.available_block_size,
        }
    }
}

impl FragmentainerContinuation {
    pub open spec fn spec_debug(self) -> LayoutDebugContinuation {
        match self {
            FragmentainerContinuation::Block(token) => LayoutDebugContinuation::Block {
                next_child_index: token.next_child_index,
                next_node: token.next_node,
                forced: token.forced,
                break_inside_avoid: token.break_inside_avoid,
                retry_count: token.retry_count,
                resume_page_index: token.resume_page_index,
            },
            FragmentainerContinuation::Inline(token) => LayoutDebugContinuation::Inline {
                child_index: token.child_index,
                next_line_index: token.next_line_index,
                inline_item_index: token.inline_item_index,
                text_offset: token.text_offset,
                shaping_result_index: token.shaping_result_index,
                resume_page_index: token.resume_page_index,
            },
            FragmentainerContinuation::Table(token) => LayoutDebugContinuation::Table {
                child_index: token.child_index,
                table_node: token.table_node,
                row_group_index: token.row_group_index,
                next_row_index: token.next_row_index,
                resume_page_index: token.resume_page_index,
            },
        }
    }

    #[verifier::when_used_as_spec(spec_debug)]
    pub fn debug(self) -> (record: LayoutDebugContinuation)
        ensures
            record == self.spec_debug(),
    {
        match self {
            FragmentainerContinuation::Block(token) => LayoutDebugContinuation::Block {
                next_child_index: token.next_child_index,
                next_node: token.next_node,
                forced: token.forced,
                break_inside_avoid: token.break_inside_avoid,
                retry_count: token.retry_count,
                resume_page_index: token.resume_page_index,
            },
            FragmentainerContinuation::Inline(token) => LayoutDebugContinuation::Inline {
                child_index: token.child_index,
                next_line_index: token.next_line_index,
                inline_item_index: token.inline_item_index,
                text_offset: token.text_offset,
                shaping_result_index: token.shaping_result_index,
                resume_page_index: token.resume_page_index,
            },
            FragmentainerContinuation::Table(token) => LayoutDebugContinuation::Table {
                child_index: token.child_index,
                table_node: token.table_node,
                row_group_index: token.row_group_index,
                next_row_index: token.next_row_index,
                resume_page_index: token.resume_page_index,
            },
        }
    }
}

impl TableBreakDecision {
    pub open spec fn spec_debug(self) -> LayoutDebugTableBreak {
        LayoutDebugTableBreak {
            page_index: self.page_index,
            table_node: self.table_node,
            row_group_index: self.row_group_index,
            next_row_index: self.next_row_index,
            constraint: self.constraint,
            retry_count: self.retry_count,
            retry_limit: self.retry_limit,
            selected: self.selected,
            resume_page_index: self.resume_page_index,
        }
    }

    #[verifier::when_used_as_spec(spec_debug)]
    pub fn debug(self) -> (record: LayoutDebugTableBreak)
        ensures
            record == self.spec_debug(),
    {
        LayoutDebugTableBreak {
            page_index: self.page_index,
            table_node: self.table_node,
            row_group_index: self.row_group_index,
            next_row_index: self.next_row_index,
            constraint: self.constraint,
            retry_count: self.retry_count,
            retry_limit: self.retry_limit,
            selected: self.selected,
            resume_page_index: self.resume_page_index,
        }
    }
}

impl TableCellContinuationDecision {
    pub open spec fn spec_debug(self) -> LayoutDebugTableCellContinuation {
        LayoutDebugTableCellContinuation {
            page_index: self.page_index,
            table_node: self.table_node,
            row_group_index: self.row_group_index,
            row_index: self.row_index,
            cell_index: self.cell_index,
            next_fragment_index: self.next_fragment_index,
            resume_page_index: self.resume_page_index,
        }
    }

    #[verifier::when_used_as_spec(spec_debug)]
    pub fn debug(self) -> (record: LayoutDebugTableCellContinuation)
        ensures
            record == self.spec_debug(),
    {
        LayoutDebugTableCellContinuation {
            page_index: self.page_index,
            table_node: self.table_node,
            row_group_index: self.row_group_index,
            row_index: self.row_index,
            cell_index: self.cell_index,
            next_fragment_index: self.next_fragment_index,
            resume_page_index: self.resume_page_index,
        }
    }
}

impl TableGroupRepeatDecision {
    pub open spec fn spec_debug(self) -> LayoutDebugTableGroupRepeat {
        LayoutDebugTableGroupRepeat {
            page_index: self.page_index,
            table_node: self.table_node,
            header_tag_id: self.header_tag_id,
            row_group_index: self.row_group_index,
            source_block_start: self.source_block_start,
            target_block_start: self.target_block_start,
            block_size: self.block_size,
            app_units: Some(
                LayoutDebugTableGroupRepeatAppUnits {
                    source_block_start: self.source_block_start.0,
                    target_block_start: self.target_block_start.0,
                    block_size: self.block_size.0,
                },
            ),
        }
    }

    #[verifier::when_used_as_spec(spec_debug)]
    pub fn debug(self) -> (record: LayoutDebugTableGroupRepeat)
        ensures
            record == self.spec_debug(),
    {
        LayoutDebugTableGroupRepeat {
            page_index: self.page_index,
            table_node: self.table_node,
            header_tag_id: self.header_tag_id,
            row_group_index: self.row_group_index,
            source_block_start: self.source_block_start,
            target_block_start: self.target_block_start,
            block_size: self.block_size,
            app_units: Some(
                LayoutDebugTableGroupRepeatAppUnits {
                    source_block_start: self.source_block_start.0,
                    target_block_start: self.target_block_start.0,
                    block_size: self.block_size.0,
                },
            ),
        }
    }
}

impl TableGroupUnsupportedReason {
    pub open spec fn spec_debug(self) -> LayoutDebugTableGroupUnsupportedReason {
        match self {
            TableGroupUnsupportedReason::MultipleFooters =>
                LayoutDebugTableGroupUnsupportedReason::MultipleFooters,
            TableGroupUnsupportedReason::FooterTooTallAfterHeader =>
                LayoutDebugTableGroupUnsupportedReason::FooterTooTallAfterHeader,
            TableGroupUnsupportedReason::Rowspan =>
                LayoutDebugTableGroupUnsupportedReason::Rowspan,
            TableGroupUnsupportedReason::CollapsedBorders =>
                LayoutDebugTableGroupUnsupportedReason::CollapsedBorders,
            TableGroupUnsupportedReason::UnsupportedLayout =>
                LayoutDebugTableGroupUnsupportedReason::UnsupportedLayout,
        }
    }

    #[verifier::when_used_as_spec(spec_debug)]
    pub fn debug(self) -> (record: LayoutDebugTableGroupUnsupportedReason)
        ensures
            record == self.spec_debug(),
    {
        match self {
            TableGroupUnsupportedReason::MultipleFooters =>
                LayoutDebugTableGroupUnsupportedReason::MultipleFooters,
            TableGroupUnsupportedReason::FooterTooTallAfterHeader =>
                LayoutDebugTableGroupUnsupportedReason::FooterTooTallAfterHeader,
            TableGroupUnsupportedReason::Rowspan =>
                LayoutDebugTableGroupUnsupportedReason::Rowspan,
            TableGroupUnsupportedReason::CollapsedBorders =>
                LayoutDebugTableGroupUnsupportedReason::CollapsedBorders,
            TableGroupUnsupportedReason::UnsupportedLayout =>
                LayoutDebugTableGroupUnsupportedReason::UnsupportedLayout,
        }
    }
}

impl BlockPaginationWarning {
    pub open spec fn spec_debug(self) -> LayoutDebugPageWarning {
        match self {
            BlockPaginationWarning::OversizedUnbreakable {
                child_index,
                node,
                block_size,
                available_block_size,
            } => LayoutDebugPageWarning::OversizedUnbreakable {
                child_index,
                node,
                block_size,
                available_block_size,
            },
            BlockPaginationWarning::OversizedBreakInsideAvoid {
                child_index,
                node,
                block_size,
                available_block_size,
                retry_count,
            } => LayoutDebugPageWarning::OversizedBreakInsideAvoid {
                child_index,
                node,
                block_size,
                available_block_size,
                retry_count,
            },
            BlockPaginationWarning::UnsupportedTableCaptionPagination {
                child_index,
                node,
            } => LayoutDebugPageWarning::UnsupportedTableCaptionPagination {
                child_index,
                node,
            },
            BlockPaginationWarning::UnsupportedTableGroupPagination {
                child_index,
                table_node,
                reason,
            } => LayoutDebugPageWarning::UnsupportedTableGroupPagination {
                child_index,
                table_node,
                reason: reason.debug(),
            },
            BlockPaginationWarning::UnsupportedTableRowspanPagination {
                child_index,
                table_node,
                first_row_index,
                end_row_index,
                block_size,
                available_block_size,
                forced_break_inside,
            } => LayoutDebugPageWarning::UnsupportedTableRowspanPagination {
                child_index,
                table_node,
                first_row_index,
                end_row_index,
                block_size,
                available_block_size,
                forced_break_inside,
            },
            BlockPaginationWarning::OversizedTableCell {
                child_index,
                table_node,
                row_index,
                cell_index,
                fragment_index,
                block_size,
                available_block_size,
            } => LayoutDebugPageWarning::OversizedTableCell {
                child_index,
                table_node,
                row_index,
                cell_index,
                fragment_index,
                block_size,
                available_block_size,
            },
            BlockPaginationWarning::OversizedTableRowBreakInsideAvoid {
                child_index,
                table_node,
                row_group_index,
                row_index,
                block_size,
                available_block_size,
                retry_count,
                retry_limit,
            } => LayoutDebugPageWarning::OversizedTableRowBreakInsideAvoid {
                child_index,
                table_node,
                row_group_index,
                row_index,
                block_size,
                available_block_size,
                retry_count,
                retry_limit,
            },
            BlockPaginationWarning::OversizedTableRowGroupBreakInsideAvoid {
                child_index,
                table_node,
                row_group_index,
                block_size,
                available_block_size,
                retry_count,
                retry_limit,
            } => LayoutDebugPageWarning::OversizedTableRowGroupBreakInsideAvoid {
                child_index,
                table_node,
                row_group_index,
                block_size,
                available_block_size,
                retry_count,
                retry_limit,
            },
        }
    }

    #[verifier::when_used_as_spec(spec_debug)]
    pub fn debug(self) -> (record: LayoutDebugPageWarning)
        ensures
            record == self.spec_debug(),
    {
        match self {
            BlockPaginationWarning::OversizedUnbreakable {
                child_index,
                node,
                block_size,
                available_block_size,
            } => LayoutDebugPageWarning::OversizedUnbreakable {
                child_index,
                node,
                block_size,
                available_block_size,
            },
            BlockPaginationWarning::OversizedBreakInsideAvoid {
                child_index,
                node,
                block_size,
                available_block_size,
                retry_count,
            } => LayoutDebugPageWarning::OversizedBreakInsideAvoid {
                child_index,
                node,
                block_size,
                available_block_size,
                retry_count,
            },
            BlockPaginationWarning::UnsupportedTableCaptionPagination {
                child_index,
                node,
            } => LayoutDebugPageWarning::UnsupportedTableCaptionPagination {
                child_index,
                node,
            },
            BlockPaginationWarning::UnsupportedTableGroupPagination {
                child_index,
                table_node,
                reason,
            } => LayoutDebugPageWarning::UnsupportedTableGroupPagination {
                child_index,
                table_node,
                reason: reason.debug(),
            },
            BlockPaginationWarning::UnsupportedTableRowspanPagination {
                child_index,
                table_node,
                first_row_index,
                end_row_index,
                block_size,
                available_block_size,
                forced_break_inside,
            } => LayoutDebugPageWarning::UnsupportedTableRowspanPagination {
                child_index,
                table_node,
                first_row_index,
                end_row_index,
                block_size,
                available_block_size,
                forced_break_inside,
            },
            BlockPaginationWarning::OversizedTableCell {
                child_index,
                table_node,
                row_index,
                cell_index,
                fragment_index,
                block_size,
                available_block_size,
            } => LayoutDebugPageWarning::OversizedTableCell {
                child_index,
                table_node,
                row_index,
                cell_index,
                fragment_index,
                block_size,
                available_block_size,
            },
            BlockPaginationWarning::OversizedTableRowBreakInsideAvoid {
                child_index,
                table_node,
                row_group_index,
                row_index,
                block_size,
                available_block_size,
                retry_count,
                retry_limit,
            } => LayoutDebugPageWarning::OversizedTableRowBreakInsideAvoid {
                child_index,
                table_node,
                row_group_index,
                row_index,
                block_size,
                available_block_size,
                retry_count,
                retry_limit,
            },
            BlockPaginationWarning::OversizedTableRowGroupBreakInsideAvoid {
                child_index,
                table_node,
                row_group_index,
                block_size,
                available_block_size,
                retry_count,
                retry_limit,
            } => LayoutDebugPageWarning::OversizedTableRowGroupBreakInsideAvoid {
                child_index,
                table_node,
                row_group_index,
                block_size,
                available_block_size,
                retry_count,
                retry_limit,
            },
        }
    }
}

/// What the first `count` pages leave to later ones, in page order.
pub open spec fn debug_continuations(pages: Seq<Page>, count: int) -> Seq<
    LayoutDebugPageContinuation,
>
    decreases count,
{
    if count <= 0 || count > pages.len() {
        Seq::empty()
    } else {
        let before = debug_continuations(pages, count - 1);
        match pages[count - 1].fragmentainer.continuation {
            Some(token) => before.push(
                LayoutDebugPageContinuation {
                    page_index: pages[count - 1].fragmentainer.page_index,
                    token: token.debug(),
                },
            ),
            None => before,
        }
    }
}

impl PageSequence {
    /// Every page has a usable definition.
    pub open spec fn wf(self) -> bool {
        forall|i: int| 0 <= i < self.pages@.len() ==> (#[trigger] self.pages@[i]).definition.wf()
    }

    /// The record of the sequence: one entry for each page, continuation, considered break, cell
    /// continuation, repeated header and warning, in order, with every length kept exact.
    pub fn debug_snapshot(&self) -> (snapshot: LayoutDebugPageSequence)
        requires
            self.wf(),
        ensures
            snapshot.pages@ == self.pages@.map_values(|page: Page| page.debug()),
            snapshot.continuations@ == debug_continuations(
                self.pages@,
                self.pages@.len() as int,
            ),
            snapshot.table_breaks@ == self.table_breaks@.map_values(
                |decision: TableBreakDecision| decision.debug(),
            ),
            snapshot.table_cell_continuations@ == self.table_cell_continuations@.map_values(
                |decision: TableCellContinuationDecision| decision.debug(),
            ),
            snapshot.table_group_repeats@ == self.table_group_repeats@.map_values(
                |decision: TableGroupRepeatDecision| decision.debug(),
            ),
            snapshot.warnings@ == self.warnings@.map_values(
                |warning: BlockPaginationWarning| warning.debug(),
            ),
    {
        let mut pages: Vec<LayoutDebugPage> = Vec::new();
        let mut continuations: Vec<LayoutDebugPageContinuation> = Vec::new();
        let mut index: usize = 0;
        while index < self.pages.len()
            invariant
                self.wf(),
                index <= self.pages.len(),
                pages@ == self.pages@.take(index as int).map_values(|page: Page| page.debug()),
                continuations@ == debug_continuations(self.pages@, index as int),
            decreases self.pages.len() - index,
        {
            let page = self.pages[index];
            assert(page == self.pages@[index as int]);
            pages.push(page.debug());
            if let Some(token) = page.fragmentainer.continuation {
                continuations.push(
                    LayoutDebugPageContinuation {
                        page_index: page.fragmentainer.page_index,
                        token: token.debug(),
                    },
                );
            }
            index = index + 1;
            assert(pages@ =~= self.pages@.take(index as int).map_values(
                |page: Page| page.debug(),
            ));
        }
        assert(self.pages@.take(index as int) =~= self.pages@);
        LayoutDebugPageSequence {
            pages,
            continuations,
            table_breaks: debug_table_breaks(&self.table_breaks),
            table_cell_continuations: debug_cell_continuations(&self.table_cell_continuations),
            table_group_repeats: debug_group_repeats(&self.table_group_repeats),
            warnings: debug_warnings(&self.warnings),
        }
    }
}

fn debug_table_breaks(decisions: &Vec<TableBreakDecision>) -> (records: Vec<LayoutDebugTableBreak>)
    ensures
        records@ == decisions@.map_values(|decision: TableBreakDecision| decision.debug()),
{
    let mut records: Vec<LayoutDebugTableBreak> = Vec::new();
    let mut index: usize = 0;
    while index < decisions.len()
        invariant
            index <= decisions.len(),
            records@ == decisions@.take(index as int).map_values(
                |decision: TableBreakDecision| decision.debug(),
            ),
        decreases decisions.len() - index,
    {
        let decision = decisions[index];
        records.push(decision.debug());
        index = index + 1;
        assert(records@ =~= decisions@.take(index as int).map_values(
            |decision: TableBreakDecision| decision.debug(),
        ));
    }
    assert(decisions@.take(index as int) =~= decisions@);
    records
}

fn debug_cell_continuations(decisions: &Vec<TableCellContinuationDecision>) -> (records: Vec<LayoutDebugTableCellContinuation>)
    ensures
        records@ == decisions@.map_values(|decision: TableCellContinuationDecision| decision.debug()),
{
    let mut records: Vec<LayoutDebugTableCellContinuation> = Vec::new();
    let mut index: usize = 0;
    while index < decisions.len()
        invariant
            index <= decisions.len(),
            records@ == decisions@.take(index as int).map_values(
                |decision: TableCellContinuationDecision| decision.debug(),
            ),
        decreases decisions.len() - index,
    {
        let decision = decisions[index];
        records.push(decision.debug());
        index = index + 1;
        assert(records@ =~= decisions@.take(index as int).map_values(
            |decision: TableCellContinuationDecision| decision.debug(),
        ));
    }
    assert(decisions@.take(index as int) =~= decisions@);
    records
}

fn debug_group_repeats(decisions: &Vec<TableGroupRepeatDecision>) -> (records: Vec<LayoutDebugTableGroupRepeat>)
    ensures
        records@ == decisions@.map_values(|decision: TableGroupRepeatDecision| decision.debug()),
{
    let mut records: Vec<LayoutDebugTableGroupRepeat> = Vec::new();
    let mut index: usize = 0;
    while index < decisions.len()
        invariant
            index <= decisions.len(),
            records@ == decisions@.take(index as int).map_values(
                |decision: TableGroupRepeatDecision| decision.debug(),
            ),
        decreases decisions.len() - index,
    {
        let decision = decisions[index];
        records.push(decision.debug());
        index = index + 1;
        assert(records@ =~= decisions@.take(index as int).map_values(
            |decision: TableGroupRepeatDecision| decision.debug(),
        ));
    }
    assert(decisions@.take(index as int) =~= decisions@);
    records
}

fn debug_warnings(decisions: &Vec<BlockPaginationWarning>) -> (records: Vec<LayoutDebugPageWarning>)
    ensures
        records@ == decisions@.map_values(|decision: BlockPaginationWarning| decision.debug()),
{
    let mut records: Vec<LayoutDebugPageWarning> = Vec::new();
    let mut index: usize = 0;
    while index < decisions.len()
        invariant
            index <= decisions.len(),
            records@ == decisions@.take(index as int).map_values(
                |decision: BlockPaginationWarning| decision.debug(),
            ),
        decreases decisions.len() - index,
    {
        let decision = decisions[index];
        records.push(decision.debug());
        index = index + 1;
        assert(records@ =~= decisions@.take(index as int).map_values(
            |decision: BlockPaginationWarning| decision.debug(),
        ));
    }
    assert(decisions@.take(index as int) =~= decisions@);
    records
}

/// Of all containers that pagination is offered to, the first one with two children, or with one that
/// can be divided, takes it, also where it cannot paginate; no other paginates. Without a paged layout
/// none does.
pub proof fn law_first_container_with_something_to_divide_paginates(
    controller: BlockPaginationController,
    child_count: usize,
    simple: bool,
    single: bool,
    other_count: usize,
    other_simple: bool,
    other_single: bool,
)
    requires
        !controller.claimed,
    ensures
        ({
            let (after, paginates) = controller.offered(child_count, simple, single);
            let (later, other_paginates) = after.offered(other_count, other_simple, other_single);
            let takes = child_count >= 2 || single;
            &&& controller.request is None ==> !paginates && !other_paginates && after
                == controller
            &&& controller.request is Some ==> {
                &&& paginates <==> takes && simple
                &&& takes ==> after.claimed && !other_paginates && later == after
                &&& !takes ==> after == controller && (other_paginates <==> (other_count >= 2
                    || other_single) && other_simple)
            }
            &&& later.request == controller.request
            &&& later.outcome == controller.outcome
        }),
{
}

/// A page area is as high as the page without its margins at top and bottom, and pages start a whole
/// page apart. Fixed children see as many pages as were decided on, and one where none was.
pub proof fn law_page_areas_lie_a_whole_page_apart(
    definition: PageDefinition,
    decided: Option<usize>,
)
    requires
        definition.wf(),
        definition.in_range(),
    ensures
        ({
            let request = requested(definition);
            &&& request.page_stride.0 == definition.size.height.0
            &&& request.available_block_size.0 + definition.margins.top.0
                + definition.margins.bottom.0 == request.page_stride.0
            &&& fixed_pages(None, decided) is None
            &&& fixed_pages(Some(request), decided) matches Some(fixed) && fixed.1
                == definition.size.height && fixed.0 == (if decided is Some && decided->0 > 0 {
                decided->0
            } else {
                1
            })
        }),
{
}

/// A document has as many pages as were decided on, and one where none was. They are numbered in
/// order, and each that leaves something to a later page knows the first thing it leaves.
pub proof fn law_pages_are_numbered_in_order(
    definition: PageDefinition,
    page_count: usize,
    continuations: Seq<PageContinuation>,
    i: int,
)
    requires
        0 <= i < pages_of(definition, page_count, continuations).len(),
    ensures
        ({
            let pages = pages_of(definition, page_count, continuations);
            &&& pages.len() > 0
            &&& page_count > 0 ==> pages.len() == page_count
            &&& page_count == 0 ==> pages.len() == 1
            &&& pages[i].fragmentainer.page_index == i
            &&& pages[i].definition == definition
        }),
        forall|k: int|
            0 <= k < continuations.len() && (#[trigger] continuations[k]).page_index == i && (
            forall|l: int|
                0 <= l < k ==> (#[trigger] continuations[l]).page_index != i) ==> pages_of(
                definition,
                page_count,
                continuations,
            )[i].fragmentainer.continuation == Some(continuations[k].token),
{
    assert forall|k: int|
        0 <= k < continuations.len() && (#[trigger] continuations[k]).page_index == i && (
        forall|l: int| 0 <= l < k ==> (#[trigger] continuations[l]).page_index != i) implies pages_of(
        definition,
        page_count,
        continuations,
    )[i].fragmentainer.continuation == Some(continuations[k].token) by {
        lemma_first_continuation(continuations, 0, k);
    }
}

proof fn lemma_first_continuation(continuations: Seq<PageContinuation>, index: int, k: int)
    requires
        0 <= index <= k < continuations.len(),
        forall|l: int|
            index <= l < k ==> (#[trigger] continuations[l]).page_index
                != continuations[k].page_index,
    ensures
        continuation_of(continuations, index, continuations[k].page_index) == Some(
            continuations[k].token,
        ),
    decreases k - index,
{
    if index < k {
        lemma_first_continuation(continuations, index + 1, k);
    }
}

} // verus!
