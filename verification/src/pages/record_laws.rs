//! What holds of the records of a page sequence.
use crate::layout_debug::{
    LayoutDebugContinuation, LayoutDebugPageContinuation, LayoutDebugPageWarning,
    LayoutDebugTableGroupUnsupportedReason,
};
use crate::pages::flow::{
    BlockPaginationWarning, FragmentainerContinuation, PageContinuation, TableBreakDecision,
    TableCellContinuationDecision, TableGroupRepeatDecision,
};
use crate::pages::geometry::PageDefinition;
use crate::pages::sequence::{continuation_of, debug_continuations, page_of, Page};
use vstd::prelude::*;

verus! {

/// A record says everything that was decided: no two decisions give the same record.
pub proof fn law_records_tell_decisions_apart(
    token: FragmentainerContinuation,
    other_token: FragmentainerContinuation,
    taken: TableBreakDecision,
    other_taken: TableBreakDecision,
    cell: TableCellContinuationDecision,
    other_cell: TableCellContinuationDecision,
    repeat: TableGroupRepeatDecision,
    other_repeat: TableGroupRepeatDecision,
    warning: BlockPaginationWarning,
    other_warning: BlockPaginationWarning,
)
    ensures
        token.spec_debug() == other_token.spec_debug() ==> token == other_token,
        taken.spec_debug() == other_taken.spec_debug() ==> taken == other_taken,
        cell.spec_debug() == other_cell.spec_debug() ==> cell == other_cell,
        repeat.spec_debug() == other_repeat.spec_debug() ==> repeat == other_repeat,
        warning.spec_debug() == other_warning.spec_debug() ==> warning == other_warning,
{
}

/// The records keep pages and rows where they are: what a page leaves, where it resumes, and which
/// row is next.
pub proof fn law_records_keep_pages_and_rows(
    token: FragmentainerContinuation,
    taken: TableBreakDecision,
    cell: TableCellContinuationDecision,
    repeat: TableGroupRepeatDecision,
)
    ensures
        token.spec_debug().resume_page() == token.resume_page(),
        taken.spec_debug().page_index == taken.page_index,
        taken.spec_debug().next_row_index == taken.next_row_index,
        taken.spec_debug().selected == taken.selected,
        taken.spec_debug().constraint == taken.constraint,
        taken.spec_debug().resume_page_index == taken.resume_page_index,
        cell.spec_debug().page_index == cell.page_index,
        cell.spec_debug().row_index == cell.row_index,
        cell.spec_debug().cell_index == cell.cell_index,
        cell.spec_debug().next_fragment_index == cell.next_fragment_index,
        repeat.spec_debug().page_index == repeat.page_index,
        repeat.spec_debug().source_block_start == repeat.source_block_start,
        repeat.spec_debug().target_block_start == repeat.target_block_start,
        repeat.spec_debug().app_units is Some,
        repeat.spec_debug().app_units->0.target_block_start == repeat.target_block_start.0,
        repeat.spec_debug().app_units->0.source_block_start == repeat.source_block_start.0,
        repeat.spec_debug().app_units->0.block_size == repeat.block_size.0,
{
}

impl crate::layout_debug::LayoutDebugContinuation {
    /// The page that resumes.
    pub open spec fn resume_page(self) -> usize {
        match self {
            crate::layout_debug::LayoutDebugContinuation::Block { resume_page_index, .. } =>
                resume_page_index,
            crate::layout_debug::LayoutDebugContinuation::Inline { resume_page_index, .. } =>
                resume_page_index,
            crate::layout_debug::LayoutDebugContinuation::Table { resume_page_index, .. } =>
                resume_page_index,
        }
    }
}

proof fn lemma_recorded(pages: Seq<Page>, count: int)
    requires
        0 <= count <= pages.len(),
    ensures
        debug_continuations(pages, count).len() <= count,
        forall|k: int|
            0 <= k < debug_continuations(pages, count).len() ==> recorded_of(
                pages,
                count,
                #[trigger] debug_continuations(pages, count)[k],
            ),
        forall|i: int|
            0 <= i < count && (#[trigger] pages[i]).fragmentainer.continuation is Some
                ==> debug_continuations(pages, count).contains(
                LayoutDebugPageContinuation {
                    page_index: pages[i].fragmentainer.page_index,
                    token: pages[i].fragmentainer.continuation->0.spec_debug(),
                },
            ),
    decreases count,
{
    if count > 0 {
        lemma_recorded(pages, count - 1);
        let before = debug_continuations(pages, count - 1);
        let after = debug_continuations(pages, count);
        let page = pages[count - 1];
        assert forall|k: int| 0 <= k < after.len() implies recorded_of(
            pages,
            count,
            #[trigger] after[k],
        ) by {
            if k < before.len() {
                assert(after[k] == before[k]);
                assert(recorded_of(pages, count - 1, before[k]));
                let i = choose|i: int|
                    0 <= i < count - 1 && recorded_at(#[trigger] pages[i], before[k]);
                assert(recorded_at(pages[i], after[k]));
            } else {
                assert(recorded_at(pages[count - 1], after[k]));
            }
        }
        assert forall|i: int| 0 <= i < count && (#[trigger]
        pages[i]).fragmentainer.continuation is Some implies after.contains(
            LayoutDebugPageContinuation {
                page_index: pages[i].fragmentainer.page_index,
                token: pages[i].fragmentainer.continuation->0.spec_debug(),
            },
        ) by {
            let record = LayoutDebugPageContinuation {
                page_index: pages[i].fragmentainer.page_index,
                token: pages[i].fragmentainer.continuation->0.spec_debug(),
            };
            if i < count - 1 {
                assert(before.contains(record));
                let k = choose|k: int| 0 <= k < before.len() && before[k] == record;
                assert(after[k] == record);
            } else {
                assert(after[before.len() as int] == record);
            }
        }
    }
}

/// The record of what a page leaves.
pub open spec fn recorded_at(page: Page, record: LayoutDebugPageContinuation) -> bool {
    &&& page.fragmentainer.continuation is Some
    &&& record.page_index == page.fragmentainer.page_index
    &&& record.token == page.fragmentainer.continuation->0.spec_debug()
}

/// The record of what one of the first `count` pages leaves.
pub open spec fn recorded_of(
    pages: Seq<Page>,
    count: int,
    record: LayoutDebugPageContinuation,
) -> bool {
    exists|i: int| 0 <= i < count && recorded_at(#[trigger] pages[i], record)
}

/// What a page leaves is recorded, and nothing else is.
pub proof fn law_what_a_page_leaves_is_recorded(pages: Seq<Page>, k: int, i: int)
    ensures
        ({
            let records = debug_continuations(pages, pages.len() as int);
            &&& 0 <= k < records.len() ==> recorded_of(pages, pages.len() as int, records[k])
            &&& 0 <= i < pages.len() && pages[i].fragmentainer.continuation is Some
                ==> records.contains(
                LayoutDebugPageContinuation {
                    page_index: pages[i].fragmentainer.page_index,
                    token: pages[i].fragmentainer.continuation->0.spec_debug(),
                },
            )
        }),
{
    lemma_recorded(pages, pages.len() as int);
}

/// A page of a document has the document's geometry, its own number, and what it leaves to a later
/// page, if it leaves anything.
pub proof fn law_pages_share_their_geometry(
    definition: PageDefinition,
    continuations: Seq<PageContinuation>,
    page_index: usize,
)
    requires
        definition.wf(),
        definition.in_range(),
    ensures
        ({
            let page = page_of(definition, continuations, page_index);
            let frame = page.fragmentainer;
            &&& page.definition == definition
            &&& frame.page_index == page_index
            &&& frame.available_inline_size.0 == definition.size.width.0 - definition.margins.left.0
                - definition.margins.right.0
            &&& frame.available_block_size.0 == definition.size.height.0 - definition.margins.top.0
                - definition.margins.bottom.0
            &&& frame.continuation is None <==> forall|i: int|
                0 <= i < continuations.len() ==> (#[trigger] continuations[i]).page_index
                    != page_index
            &&& frame.continuation matches Some(token) ==> exists|i: int|
                0 <= i < continuations.len() && (#[trigger] continuations[i]).page_index
                    == page_index && continuations[i].token == token
            &&& page.spec_debug().index == page_index
            &&& page.spec_debug().app_units.width == definition.size.width.0
            &&& page.spec_debug().app_units.height == definition.size.height.0
            &&& page.spec_debug().app_units.margin_top == definition.margins.top.0
            &&& page.spec_debug().app_units.margin_right == definition.margins.right.0
            &&& page.spec_debug().app_units.margin_bottom == definition.margins.bottom.0
            &&& page.spec_debug().app_units.margin_left == definition.margins.left.0
            &&& page.spec_debug().available_block_size == frame.available_block_size
            &&& page.spec_debug().available_inline_size == frame.available_inline_size
            &&& page.spec_debug().app_units.available_block_size == frame.available_block_size.0
            &&& page.spec_debug().app_units.available_inline_size == frame.available_inline_size.0
        }),
{
    lemma_continuation(continuations, 0, page_index);
}

proof fn lemma_continuation(continuations: Seq<PageContinuation>, from: int, page_index: usize)
    requires
        0 <= from <= continuations.len(),
    ensures
        continuation_of(continuations, from, page_index) is None ==> forall|i: int|
            from <= i < continuations.len() ==> (#[trigger] continuations[i]).page_index
                != page_index,
        continuation_of(continuations, from, page_index) matches Some(token) ==> exists|i: int|
            from <= i < continuations.len() && (#[trigger] continuations[i]).page_index
                == page_index && continuations[i].token == token,
    decreases continuations.len() - from,
{
    if from < continuations.len() {
        if continuations[from].page_index == page_index {
            assert(continuations[from].token == continuations[from].token);
        } else {
            lemma_continuation(continuations, from + 1, page_index);
        }
    }
}

/// The record of a continuation says, each under its own name, what the continuation says.
pub proof fn law_continuations_are_recorded_as_they_are(token: FragmentainerContinuation)
    ensures
        match token.spec_debug() {
            LayoutDebugContinuation::Block {
                next_child_index,
                next_node,
                forced,
                break_inside_avoid,
                retry_count,
                resume_page_index,
            } => token matches FragmentainerContinuation::Block(told) && next_child_index
                == told.next_child_index && next_node == told.next_node && forced == told.forced
                && break_inside_avoid == told.break_inside_avoid && retry_count == told.retry_count
                && resume_page_index == told.resume_page_index,
            LayoutDebugContinuation::Inline {
                child_index,
                next_line_index,
                inline_item_index,
                text_offset,
                shaping_result_index,
                resume_page_index,
            } => token matches FragmentainerContinuation::Inline(told) && child_index
                == told.child_index && next_line_index == told.next_line_index
                && inline_item_index == told.inline_item_index && text_offset == told.text_offset
                && shaping_result_index == told.shaping_result_index && resume_page_index
                == told.resume_page_index,
            LayoutDebugContinuation::Table {
                child_index,
                table_node,
                row_group_index,
                next_row_index,
                resume_page_index,
            } => token matches FragmentainerContinuation::Table(told) && child_index
                == told.child_index && table_node == told.table_node && row_group_index
                == told.row_group_index && next_row_index == told.next_row_index
                && resume_page_index == told.resume_page_index,
        },
{
}

/// The record of a warning names the child and the fault, and keeps the sizes: what is too tall is
/// taller in the record than what there was room for exactly where it was in the warning.
pub proof fn law_warnings_are_recorded_as_they_are(warning: BlockPaginationWarning)
    ensures
        match warning.spec_debug() {
            LayoutDebugPageWarning::OversizedUnbreakable {
                child_index: c,
                node: n,
                block_size: b,
                available_block_size: a,
            } => warning == (BlockPaginationWarning::OversizedUnbreakable {
                child_index: c,
                node: n,
                block_size: b,
                available_block_size: a,
            }),
            LayoutDebugPageWarning::OversizedBreakInsideAvoid {
                child_index: c,
                node: n,
                block_size: b,
                available_block_size: a,
                retry_count: r,
            } => warning == (BlockPaginationWarning::OversizedBreakInsideAvoid {
                child_index: c,
                node: n,
                block_size: b,
                available_block_size: a,
                retry_count: r,
            }),
            LayoutDebugPageWarning::UnsupportedTableCaptionPagination {
                child_index: c,
                node: n,
            } => warning == (BlockPaginationWarning::UnsupportedTableCaptionPagination {
                child_index: c,
                node: n,
            }),
            LayoutDebugPageWarning::UnsupportedTableGroupPagination {
                child_index: c,
                table_node: n,
                reason: recorded,
            } => warning matches BlockPaginationWarning::UnsupportedTableGroupPagination {
                child_index,
                table_node,
                reason,
            } && child_index == c && table_node == n && match recorded {
                LayoutDebugTableGroupUnsupportedReason::MultipleFooters => reason
                    is MultipleFooters,
                LayoutDebugTableGroupUnsupportedReason::FooterTooTallAfterHeader => reason
                    is FooterTooTallAfterHeader,
                LayoutDebugTableGroupUnsupportedReason::Rowspan => reason is Rowspan,
                LayoutDebugTableGroupUnsupportedReason::CollapsedBorders => reason
                    is CollapsedBorders,
                LayoutDebugTableGroupUnsupportedReason::UnsupportedLayout => reason
                    is UnsupportedLayout,
            },
            LayoutDebugPageWarning::UnsupportedTableRowspanPagination {
                child_index: c,
                table_node: n,
                first_row_index: f,
                end_row_index: e,
                block_size: b,
                available_block_size: a,
                forced_break_inside: i,
            } => warning == (BlockPaginationWarning::UnsupportedTableRowspanPagination {
                child_index: c,
                table_node: n,
                first_row_index: f,
                end_row_index: e,
                block_size: b,
                available_block_size: a,
                forced_break_inside: i,
            }),
            LayoutDebugPageWarning::OversizedTableCell {
                child_index: c,
                table_node: n,
                row_index: r,
                cell_index: l,
                fragment_index: f,
                block_size: b,
                available_block_size: a,
            } => warning == (BlockPaginationWarning::OversizedTableCell {
                child_index: c,
                table_node: n,
                row_index: r,
                cell_index: l,
                fragment_index: f,
                block_size: b,
                available_block_size: a,
            }),
            LayoutDebugPageWarning::OversizedTableRowBreakInsideAvoid {
                child_index: c,
                table_node: n,
                row_group_index: g,
                row_index: r,
                block_size: b,
                available_block_size: a,
                retry_count: t,
                retry_limit: m,
            } => warning == (BlockPaginationWarning::OversizedTableRowBreakInsideAvoid {
                child_index: c,
                table_node: n,
                row_group_index: g,
                row_index: r,
                block_size: b,
                available_block_size: a,
                retry_count: t,
                retry_limit: m,
            }),
            LayoutDebugPageWarning::OversizedTableRowGroupBreakInsideAvoid {
                child_index: c,
                table_node: n,
                row_group_index: g,
                block_size: b,
                available_block_size: a,
                retry_count: t,
                retry_limit: m,
            } => warning == (BlockPaginationWarning::OversizedTableRowGroupBreakInsideAvoid {
                child_index: c,
                table_node: n,
                row_group_index: g,
                block_size: b,
                available_block_size: a,
                retry_count: t,
                retry_limit: m,
            }),
        },
{
}

} // verus!
