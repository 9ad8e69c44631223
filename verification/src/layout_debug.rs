//! Records of a paged layout as an embedder sees them. Lengths are exact app units.
use crate::au::Au;
use vstd::prelude::*;

verus! {

/// Where a page took its style from.
#[derive(Clone, Copy, Debug, PartialEq, Eq, Structural)]
pub enum LayoutDebugPageStyleSource {
    RequestDefaults,
}

/// The geometry of one page in app units.
#[derive(Clone, Copy, Debug, PartialEq, Eq, Structural)]
pub struct LayoutDebugPageAppUnits {
    pub width: i32,
    pub height: i32,
    pub margin_top: i32,
    pub margin_right: i32,
    pub margin_bottom: i32,
    pub margin_left: i32,
    pub available_inline_size: i32,
    pub available_block_size: i32,
}

/// One page of a sequence.
#[derive(Clone, Copy, Debug, PartialEq, Eq, Structural)]
pub struct LayoutDebugPage {
    pub index: usize,
    pub style_source: LayoutDebugPageStyleSource,
    pub app_units: LayoutDebugPageAppUnits,
    pub width: Au,
    pub height: Au,
    pub margin_top: Au,
    pub margin_right: Au,
    pub margin_bottom: Au,
    pub margin_left: Au,
    pub available_inline_size: Au,
    pub available_block_size: Au,
}

/// What a later page resumes.
#[derive(Clone, Copy, Debug, PartialEq, Eq)]
pub enum LayoutDebugContinuation {
    Block {
        next_child_index: usize,
        next_node: Option<u64>,
        forced: bool,
        break_inside_avoid: bool,
        retry_count: u8,
        resume_page_index: usize,
    },
    Inline {
        child_index: usize,
        next_line_index: usize,
        inline_item_index: usize,
        text_offset: usize,
        shaping_result_index: usize,
        resume_page_index: usize,
    },
    Table {
        child_index: usize,
        table_node: Option<u64>,
        row_group_index: Option<usize>,
        next_row_index: usize,
        resume_page_index: usize,
    },
}

/// The continuation that one page leaves behind.
#[derive(Clone, Copy, Debug, PartialEq, Eq)]
pub struct LayoutDebugPageContinuation {
    pub page_index: usize,
    pub token: LayoutDebugContinuation,
}

/// The rule that was in force where a table row was considered for a break.
#[derive(Clone, Copy, Debug, PartialEq, Eq, Structural)]
pub enum LayoutDebugTableConstraint {
    Auto,
    ForcedBefore,
    ForcedAfter,
    AvoidRow,
    AvoidGroup,
}

/// One considered break between table rows.
#[derive(Clone, Copy, Debug, PartialEq, Eq)]
pub struct LayoutDebugTableBreak {
    pub page_index: usize,
    pub table_node: Option<u64>,
    pub row_group_index: Option<usize>,
    pub next_row_index: usize,
    pub constraint: LayoutDebugTableConstraint,
    pub retry_count: u8,
    pub retry_limit: u8,
    pub selected: bool,
    pub resume_page_index: Option<usize>,
}

/// Where one cell of a fragmented row resumes.
#[derive(Clone, Copy, Debug, PartialEq, Eq)]
pub struct LayoutDebugTableCellContinuation {
    pub page_index: usize,
    pub table_node: Option<u64>,
    pub row_group_index: Option<usize>,
    pub row_index: usize,
    pub cell_index: usize,
    pub next_fragment_index: Option<usize>,
    pub resume_page_index: usize,
}

/// The geometry of a repeated header in app units.
#[derive(Clone, Copy, Debug, PartialEq, Eq, Structural)]
pub struct LayoutDebugTableGroupRepeatAppUnits {
    pub source_block_start: i32,
    pub target_block_start: i32,
    pub block_size: i32,
}

/// A header group painted again on a later page.
#[derive(Clone, Copy, Debug, PartialEq, Eq)]
pub struct LayoutDebugTableGroupRepeat {
    pub page_index: usize,
    pub table_node: Option<u64>,
    pub header_tag_id: u64,
    pub row_group_index: usize,
    pub source_block_start: Au,
    pub target_block_start: Au,
    pub block_size: Au,
    pub app_units: Option<LayoutDebugTableGroupRepeatAppUnits>,
}

/// Why the groups of a table were not paginated.
#[derive(Clone, Copy, Debug, PartialEq, Eq, Structural)]
pub enum LayoutDebugTableGroupUnsupportedReason {
    MultipleFooters,
    FooterTooTallAfterHeader,
    Rowspan,
    CollapsedBorders,
    UnsupportedLayout,
}

/// A place where pagination kept content that did not meet its rules.
#[allow(inconsistent_fields)]
#[derive(Clone, Copy, Debug, PartialEq, Eq)]
pub enum LayoutDebugPageWarning {
    OversizedUnbreakable {
        child_index: usize,
        node: Option<u64>,
        block_size: Au,
        available_block_size: Au,
    },
    OversizedBreakInsideAvoid {
        child_index: usize,
        node: Option<u64>,
        block_size: Au,
        available_block_size: Au,
        retry_count: u8,
    },
    UnsupportedTableCaptionPagination { child_index: usize, node: Option<u64> },
    UnsupportedTableGroupPagination {
        child_index: usize,
        table_node: Option<u64>,
        reason: LayoutDebugTableGroupUnsupportedReason,
    },
    UnsupportedTableRowspanPagination {
        child_index: usize,
        table_node: Option<u64>,
        first_row_index: usize,
        end_row_index: usize,
        block_size: Au,
        available_block_size: Au,
        forced_break_inside: bool,
    },
    OversizedTableCell {
        child_index: usize,
        table_node: Option<u64>,
        row_index: usize,
        cell_index: usize,
        fragment_index: usize,
        block_size: Au,
        available_block_size: Au,
    },
    OversizedTableRowBreakInsideAvoid {
        child_index: usize,
        table_node: Option<u64>,
        row_group_index: Option<usize>,
        row_index: usize,
        block_size: Au,
        available_block_size: Au,
        retry_count: u8,
        retry_limit: u8,
    },
    OversizedTableRowGroupBreakInsideAvoid {
        child_index: usize,
        table_node: Option<u64>,
        row_group_index: usize,
        block_size: Au,
        available_block_size: Au,
        retry_count: u8,
        retry_limit: u8,
    },
}

/// A whole page sequence.
#[derive(Clone, Debug, PartialEq, Eq)]
pub struct LayoutDebugPageSequence {
    pub pages: Vec<LayoutDebugPage>,
    pub continuations: Vec<LayoutDebugPageContinuation>,
    pub table_breaks: Vec<LayoutDebugTableBreak>,
    pub table_cell_continuations: Vec<LayoutDebugTableCellContinuation>,
    pub table_group_repeats: Vec<LayoutDebugTableGroupRepeat>,
    pub warnings: Vec<LayoutDebugPageWarning>,
}

} // verus!
