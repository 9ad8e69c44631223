//! Placing the retained rows of a table, and breaking between rows or inside a row that no page
//! can hold.
use crate::au::{clamp_units, Au, MAX_AU};
use crate::layout_debug::LayoutDebugTableConstraint;
use crate::pages::flow::{
    find_page_reaching, page_holding, BlockPageBuilder, BlockPaginationRequest,
    BlockPaginationWarning, BuilderView, ChildPageBreaks, FragmentainerContinuation, OutcomeView,
    PageContinuation, TableBreakDecision, TableCellContinuationDecision, TableContinuationToken,
    TableGroupRepeatDecision,
};
use crate::pages::table_rules::{
    group_starting, range_holding, TableAcceptance, TableCellFragment, TableChild, TableRow,
    TableRowGroup, TableView,
};
use vstd::prelude::*;

verus! {

/// How often a row is moved to keep it whole.
pub const TABLE_ROW_RETRY_LIMIT: u8 = 1;

/// How far the rows and cell fragments of a table are moved, how much longer each row gets, and
/// how much longer the table gets.
#[derive(Debug, PartialEq, Eq)]
pub struct TableChildPlacement {
    pub row_translations: Vec<Au>,
    pub row_block_extensions: Vec<Au>,
    pub cell_fragment_translations: Vec<Au>,
    pub added_block_size: Au,
}

/// What became of a table.
#[derive(Debug, PartialEq, Eq)]
pub enum TableChildPlacementOutcome {
    Placed(TableChildPlacement),
    WholeChild,
    Unsupported,
}

/// The placement of a table in the making.
pub struct TableRun {
    pub translation: Au,
    pub page_has_content: bool,
    pub row_translations: Vec<Au>,
    pub row_block_extensions: Vec<Au>,
    pub cell_fragment_translations: Vec<Au>,
}

/// A placement in the making as mathematical sequences.
#[verifier::ext_equal]
pub struct TableRunView {
    pub translation: Au,
    pub page_has_content: bool,
    pub row_translations: Seq<Au>,
    pub row_extensions: Seq<Au>,
    pub fragment_translations: Seq<Au>,
}

impl View for TableRun {
    type V = TableRunView;

    open spec fn view(&self) -> TableRunView {
        TableRunView {
            translation: self.translation,
            page_has_content: self.page_has_content,
            row_translations: self.row_translations@,
            row_extensions: self.row_block_extensions@,
            fragment_translations: self.cell_fragment_translations@,
        }
    }
}

/// The pages and the table on them.
#[verifier::ext_equal]
pub struct TableState {
    pub builder: BuilderView,
    pub run: TableRunView,
}

/// Where the next fragment of a cell is looked for, and how far the cell has been moved down
/// beyond its row.
pub struct CellWalk {
    pub page: int,
    pub origin: Au,
    pub shift: Au,
}

/// The fragments of a divided row: how far each is moved beyond its row, the page of each, the
/// greatest move, and the last page.
#[verifier::ext_equal]
pub struct DividedRow {
    pub translations: Seq<Au>,
    pub pages: Seq<Option<usize>>,
    pub extension: Au,
    pub last_page: int,
}

/// `values` with `value` from `from` up to, not including, `to`.
pub open spec fn filled(values: Seq<Au>, from: int, to: int, value: Au) -> Seq<Au> {
    Seq::new(
        values.len(),
        |i: int|
            if from <= i < to {
                value
            } else {
                values[i]
            },
    )
}

/// `count` pages after `origin`.
pub open spec fn origin_after(origin: Au, stride: Au, count: int) -> Au {
    Au(clamp_units(origin.0 + count * stride.0) as i32)
}

impl DividedRow {
    /// Fragment `index` stands where `walk` has arrived.
    pub open spec fn with_fragment(self, index: int, walk: CellWalk) -> DividedRow {
        DividedRow {
            translations: self.translations.update(index, walk.shift),
            pages: self.pages.update(index, Some(walk.page as usize)),
            extension: self.extension.at_least(walk.shift),
            last_page: if self.last_page < walk.page {
                walk.page
            } else {
                self.last_page
            },
        }
    }
}

/// Moves on to the page that holds `start`; each page passed adds a repeated header of
/// `header_size` above the rest of the cell. Gives the walk and where the fragment then starts.
pub open spec fn caught_up(
    request: BlockPaginationRequest,
    header_size: Au,
    walk: CellWalk,
    start: Au,
) -> (CellWalk, Au)
    decreases MAX_AU - walk.origin.0,
{
    if request.page_stride.0 <= 0 || walk.origin.0 >= MAX_AU || start.0 < walk.origin.plus(
        request.page_stride,
    ).0 {
        (walk, start)
    } else {
        caught_up(
            request,
            header_size,
            CellWalk {
                page: walk.page + 1,
                origin: walk.origin.plus(request.page_stride),
                shift: walk.shift.plus(header_size),
            },
            start.plus(header_size),
        )
    }
}

/// Places the next fragment of a cell: on the page that holds its start, or below the repeated
/// header of the page after it where it does not fit. Gives the walk and where the fragment starts.
pub open spec fn fragment_step(
    request: BlockPaginationRequest,
    header_size: Au,
    translation: Au,
    walk: CellWalk,
    fragment: TableCellFragment,
) -> (CellWalk, Au) {
    let (reached, start) = caught_up(
        request,
        header_size,
        walk,
        fragment.block_start.plus(translation).plus(walk.shift),
    );
    if start.plus(fragment.block_size).0 > reached.origin.plus(request.available_block_size).0 {
        let origin = reached.origin.plus(request.page_stride);
        (
            CellWalk {
                page: reached.page + 1,
                origin,
                shift: reached.shift.plus(origin.plus(header_size).minus(start)),
            },
            origin.plus(header_size),
        )
    } else {
        (reached, start)
    }
}

impl TableRunView {
    /// One translation for each row and each cell fragment.
    pub open spec fn wf(self, table: TableView) -> bool {
        &&& self.translation.in_range()
        &&& self.row_translations.len() == table.rows.len()
        &&& self.row_extensions.len() == table.rows.len()
        &&& self.fragment_translations.len() == table.fragments.len()
    }
}

impl BuilderView {
    /// The current page has a table row continue on the next page that starts `offset` or less
    /// before `start`.
    pub open spec fn broken_in_table(
        self,
        table: TableView,
        offset: Au,
        start: Au,
        row_group_index: Option<usize>,
        next_row_index: usize,
    ) -> BuilderView {
        let (page, origin) = self.next_page(offset, start);
        self.at_page(page, origin).with_outcome(
            self.outcome.with_continuation(
                PageContinuation {
                    page_index: self.page as usize,
                    token: FragmentainerContinuation::Table(
                        TableContinuationToken {
                            child_index: table.child_index,
                            table_node: table.table_node,
                            row_group_index,
                            next_row_index,
                            resume_page_index: page as usize,
                        },
                    ),
                },
            ),
        )
    }

    /// The header of the table, if it has one, is painted again on a page.
    pub open spec fn with_header_repeat(
        self,
        table: TableView,
        source: Option<Au>,
        page: int,
        target: Au,
    ) -> BuilderView {
        match (table.header(), source) {
            (Some(header), Some(source_block_start)) => match header.tag_id {
                Some(header_tag_id) => self.with_outcome(
                    OutcomeView {
                        table_group_repeats: self.outcome.table_group_repeats.push(
                            TableGroupRepeatDecision {
                                page_index: page as usize,
                                table_node: table.table_node,
                                header_tag_id,
                                row_group_index: header.row_group_index,
                                source_block_start,
                                target_block_start: target,
                                block_size: header.block_size,
                            },
                        ),
                        ..self.outcome
                    },
                ),
                None => self,
            },
            _ => self,
        }
    }

    /// A considered break is recorded.
    pub open spec fn with_break_decision(
        self,
        table: TableView,
        page: int,
        row_group_index: Option<usize>,
        next_row_index: usize,
        constraint: LayoutDebugTableConstraint,
        retry_count: u8,
        selected: bool,
        resume_page: int,
    ) -> BuilderView {
        self.with_outcome(
            self.outcome.with_table_break(
                TableBreakDecision {
                    page_index: page as usize,
                    table_node: table.table_node,
                    row_group_index,
                    next_row_index,
                    constraint,
                    retry_count,
                    retry_limit: TABLE_ROW_RETRY_LIMIT,
                    selected,
                    resume_page_index: if selected {
                        Some(resume_page as usize)
                    } else {
                        None
                    },
                },
            ),
        )
    }

    /// A cell fragment that no page can hold is recorded.
    pub open spec fn with_cell_warning(
        self,
        table: TableView,
        fragment: TableCellFragment,
    ) -> BuilderView {
        self.with_outcome(
            self.outcome.with_warning(
                BlockPaginationWarning::OversizedTableCell {
                    child_index: table.child_index,
                    table_node: table.table_node,
                    row_index: fragment.row_index,
                    cell_index: fragment.cell_index,
                    fragment_index: fragment.fragment_index,
                    block_size: fragment.block_size,
                    available_block_size: self.request.available_block_size,
                },
            ),
        )
    }

    /// A row that asks not to be divided, and that no page can hold, is recorded.
    pub open spec fn with_row_warning(
        self,
        table: TableView,
        row: TableRow,
        capacity: Au,
    ) -> BuilderView {
        self.with_outcome(
            self.outcome.with_warning(
                BlockPaginationWarning::OversizedTableRowBreakInsideAvoid {
                    child_index: table.child_index,
                    table_node: table.table_node,
                    row_group_index: row.row_group_index,
                    row_index: row.row_index,
                    block_size: row.block_size,
                    available_block_size: capacity,
                    retry_count: 0,
                    retry_limit: TABLE_ROW_RETRY_LIMIT,
                },
            ),
        )
    }

    /// A row group that asks not to be divided, and that no page can hold, is recorded.
    pub open spec fn with_group_warning(
        self,
        table: TableView,
        group: TableRowGroup,
        block_size: Au,
        capacity: Au,
    ) -> BuilderView {
        self.with_outcome(
            self.outcome.with_warning(
                BlockPaginationWarning::OversizedTableRowGroupBreakInsideAvoid {
                    child_index: table.child_index,
                    table_node: table.table_node,
                    row_group_index: group.row_group_index,
                    block_size,
                    available_block_size: capacity,
                    retry_count: 0,
                    retry_limit: TABLE_ROW_RETRY_LIMIT,
                },
            ),
        )
    }

    /// The cells of `row` from `cell` on each resume on page `resume`.
    pub open spec fn with_cell_continuations(
        self,
        table: TableView,
        row: TableRow,
        pages: Seq<Option<usize>>,
        resume: int,
        cell: int,
    ) -> BuilderView
        decreases row.cell_count - cell,
    {
        if cell >= row.cell_count {
            self
        } else {
            self.with_outcome(
                OutcomeView {
                    table_cell_continuations: self.outcome.table_cell_continuations.push(
                        TableCellContinuationDecision {
                            page_index: (resume - 1) as usize,
                            table_node: table.table_node,
                            row_group_index: row.row_group_index,
                            row_index: row.row_index,
                            cell_index: cell as usize,
                            next_fragment_index: table.next_fragment(
                                row.row_index,
                                cell as usize,
                                pages,
                                resume,
                                0,
                            ),
                            resume_page_index: resume as usize,
                        },
                    ),
                    ..self.outcome
                },
            ).with_cell_continuations(table, row, pages, resume, cell + 1)
        }
    }

    /// A divided row resumes on each page from `resume` through `last`; page `first` is where it
    /// started, at `first_origin`.
    pub open spec fn with_row_resumed(
        self,
        table: TableView,
        row: TableRow,
        source: Option<Au>,
        pages: Seq<Option<usize>>,
        first: int,
        first_origin: Au,
        resume: int,
        last: int,
    ) -> BuilderView
        decreases last - resume + 1,
    {
        if resume > last {
            self
        } else {
            self.with_outcome(
                self.outcome.with_continuation(
                    PageContinuation {
                        page_index: (resume - 1) as usize,
                        token: FragmentainerContinuation::Table(
                            TableContinuationToken {
                                child_index: table.child_index,
                                table_node: table.table_node,
                                row_group_index: row.row_group_index,
                                next_row_index: row.row_index,
                                resume_page_index: resume as usize,
                            },
                        ),
                    },
                ),
            ).with_header_repeat(
                table,
                source,
                resume,
                origin_after(first_origin, self.request.page_stride, resume - first),
            ).with_cell_continuations(table, row, pages, resume, 0).with_row_resumed(
                table,
                row,
                source,
                pages,
                first,
                first_origin,
                resume + 1,
                last,
            )
        }
    }
}

/// 1 where a break was taken for a row or group that asks not to be divided.
pub open spec fn retries(selected: bool, constraint: LayoutDebugTableConstraint) -> u8 {
    if selected && (constraint == LayoutDebugTableConstraint::AvoidRow || constraint
        == LayoutDebugTableConstraint::AvoidGroup) {
        1
    } else {
        0
    }
}

impl TableView {
    /// How many of the first `count` fragments belong to a row.
    pub open spec fn row_fragments(self, row_index: int, count: int) -> int
        decreases count,
    {
        if count <= 0 || count > self.fragments.len() {
            0
        } else {
            self.row_fragments(row_index, count - 1) + if self.fragments[count - 1].row_index
                == row_index {
                1int
            } else {
                0int
            }
        }
    }

    /// How many of the first `count` fragments belong to the rows before a row.
    pub open spec fn fragments_before(self, row_index: int, count: int) -> int
        decreases count,
    {
        if count <= 0 || count > self.fragments.len() {
            0
        } else {
            self.fragments_before(row_index, count - 1) + if self.fragments[count - 1].row_index
                < row_index {
                1int
            } else {
                0int
            }
        }
    }

    /// The table can be divided.
    pub open spec fn accepted(self, available: Au) -> bool {
        self.acceptance(available) is Accepted
    }

    /// A break is demanded at some row or group of the table.
    pub open spec fn has_forced_break(self) -> bool {
        ||| exists|i: int|
            0 <= i < self.rows.len() && ((#[trigger] self.rows[i]).breaks.before
                || self.rows[i].breaks.after)
        ||| exists|g: int|
            0 <= g < self.groups.len() && ((#[trigger] self.groups[g]).breaks.before
                || self.groups[g].breaks.after)
    }

    /// A group ends before row `position` with a break after it.
    pub open spec fn group_break_after(self, position: int) -> bool {
        exists|g: int|
            0 <= g < self.groups.len() && (#[trigger] self.groups[g]).end_row_index == position
                && self.groups[g].breaks.after
    }

    pub open spec fn starting_group(self, position: int) -> Option<TableRowGroup> {
        group_starting(self.groups, 0, position as usize)
    }

    /// The group that starts at row `position` and asks not to be divided.
    pub open spec fn avoided_group(self, position: int) -> Option<TableRowGroup> {
        match self.starting_group(position) {
            Some(group) => if group.breaks.inside_avoid {
                Some(group)
            } else {
                None
            },
            None => None,
        }
    }

    /// The block size of the rows of a group that starts at row `position`.
    pub open spec fn group_block_size(self, position: int, group: TableRowGroup) -> Au {
        self.rows[group.end_row_index - 1].block_end().minus(self.rows[position].block_start)
    }

    /// A break is demanded before row `position`.
    pub open spec fn forced_before(self, position: int) -> bool {
        self.rows[position].breaks.before || (self.starting_group(position) matches Some(group)
            && group.breaks.before)
    }

    /// A break is demanded after what precedes row `position`.
    pub open spec fn forced_after(self, position: int) -> bool {
        position > 0 && (self.rows[position - 1].breaks.after || self.group_break_after(position))
    }

    /// The rule in force at row `position` of the body.
    pub open spec fn row_constraint(self, position: int) -> LayoutDebugTableConstraint {
        if self.forced_before(position) {
            LayoutDebugTableConstraint::ForcedBefore
        } else if self.forced_after(position) {
            LayoutDebugTableConstraint::ForcedAfter
        } else if self.avoided_group(position) is Some {
            LayoutDebugTableConstraint::AvoidGroup
        } else if self.rows[position].breaks.inside_avoid {
            LayoutDebugTableConstraint::AvoidRow
        } else {
            LayoutDebugTableConstraint::Auto
        }
    }

    /// The rule in force at the header.
    pub open spec fn header_constraint(self, header: TableRowGroup) -> LayoutDebugTableConstraint {
        let first_row = self.rows[header.first_row_index as int];
        if first_row.breaks.before || header.breaks.before {
            LayoutDebugTableConstraint::ForcedBefore
        } else if header.breaks.inside_avoid {
            LayoutDebugTableConstraint::AvoidGroup
        } else if first_row.breaks.inside_avoid {
            LayoutDebugTableConstraint::AvoidRow
        } else {
            LayoutDebugTableConstraint::Auto
        }
    }

    /// The rule in force at the footer.
    pub open spec fn footer_constraint(self, footer: TableRowGroup) -> LayoutDebugTableConstraint {
        let first = footer.first_row_index as int;
        if self.rows[first].breaks.before || footer.breaks.before {
            LayoutDebugTableConstraint::ForcedBefore
        } else if self.forced_after(first) {
            LayoutDebugTableConstraint::ForcedAfter
        } else if footer.breaks.inside_avoid {
            LayoutDebugTableConstraint::AvoidGroup
        } else if self.rows[first].breaks.inside_avoid {
            LayoutDebugTableConstraint::AvoidRow
        } else {
            LayoutDebugTableConstraint::Auto
        }
    }

    /// The first fragment of a row, from `index` on, that is taller than `capacity`.
    pub open spec fn tall_fragment(self, row_index: usize, capacity: Au, index: int) -> Option<
        TableCellFragment,
    >
        decreases self.fragments.len() - index,
    {
        if index < 0 || index >= self.fragments.len() {
            None
        } else if self.fragments[index].row_index == row_index
            && self.fragments[index].block_size.0 > capacity.0 {
            Some(self.fragments[index])
        } else {
            self.tall_fragment(row_index, capacity, index + 1)
        }
    }

    /// The last fragment of a row before `end`.
    pub open spec fn last_fragment(self, row_index: usize, end: int) -> Option<TableCellFragment>
        decreases end,
    {
        if end <= 0 || end > self.fragments.len() {
            None
        } else if self.fragments[end - 1].row_index == row_index {
            Some(self.fragments[end - 1])
        } else {
            self.last_fragment(row_index, end - 1)
        }
    }

    /// The number of the first fragment of a cell, from `index` on, on page `resume` or later.
    pub open spec fn next_fragment(
        self,
        row_index: usize,
        cell_index: usize,
        pages: Seq<Option<usize>>,
        resume: int,
        index: int,
    ) -> Option<usize>
        decreases self.fragments.len() - index,
    {
        if index < 0 || index >= self.fragments.len() {
            None
        } else if self.fragments[index].row_index == row_index && self.fragments[index].cell_index
            == cell_index && (pages[index] matches Some(page) && page >= resume) {
            Some(self.fragments[index].fragment_index)
        } else {
            self.next_fragment(row_index, cell_index, pages, resume, index + 1)
        }
    }

    /// The fragments of one cell from `index` on are placed in order.
    pub open spec fn with_cell_divided(
        self,
        request: BlockPaginationRequest,
        row_index: usize,
        cell_index: usize,
        translation: Au,
        index: int,
        walk: CellWalk,
        divided: DividedRow,
    ) -> DividedRow
        decreases self.fragments.len() - index,
    {
        if index < 0 || index >= self.fragments.len() {
            divided
        } else if self.fragments[index].row_index == row_index && self.fragments[index].cell_index
            == cell_index {
            let next = fragment_step(
                request,
                self.header_block_size(),
                translation,
                walk,
                self.fragments[index],
            ).0;
            self.with_cell_divided(
                request,
                row_index,
                cell_index,
                translation,
                index + 1,
                next,
                divided.with_fragment(index, next),
            )
        } else {
            self.with_cell_divided(
                request,
                row_index,
                cell_index,
                translation,
                index + 1,
                walk,
                divided,
            )
        }
    }

    /// The cells of a row from `cell` on are divided, each from the page that the row starts on.
    pub open spec fn with_cells_divided(
        self,
        request: BlockPaginationRequest,
        row: TableRow,
        translation: Au,
        start: CellWalk,
        cell: int,
        divided: DividedRow,
    ) -> DividedRow
        decreases row.cell_count - cell,
    {
        if cell >= row.cell_count {
            divided
        } else {
            self.with_cells_divided(
                request,
                row,
                translation,
                start,
                cell + 1,
                self.with_cell_divided(
                    request,
                    row.row_index,
                    cell as usize,
                    translation,
                    0,
                    start,
                    divided,
                ),
            )
        }
    }

    /// The fragments of a row that starts on the builder's page, divided between pages.
    pub open spec fn divided(
        self,
        builder: BuilderView,
        row: TableRow,
        translation: Au,
        translations: Seq<Au>,
    ) -> DividedRow {
        self.with_cells_divided(
            builder.request,
            row,
            translation,
            CellWalk { page: builder.page, origin: builder.origin, shift: Au(0) },
            0,
            DividedRow {
                translations,
                pages: Seq::new(self.fragments.len(), |i: int| None),
                extension: Au(0),
                last_page: builder.page,
            },
        )
    }

    /// The header is placed: on this page, or on the next if a break is demanded or it does not
    /// fit.
    pub open spec fn with_header(self, state: TableState) -> TableState {
        match self.header() {
            None => state,
            Some(header) => {
                let builder = state.builder;
                let start = header.block_start.plus(state.run.translation);
                let constraint = self.header_constraint(header);
                let selected = state.run.page_has_content && (constraint
                    == LayoutDebugTableConstraint::ForcedBefore || start.plus(header.block_size).0
                    > builder.page_end().0);
                let moved = if selected {
                    builder.broken_in_table(
                        self,
                        Au(0),
                        start,
                        Some(header.row_group_index),
                        header.first_row_index,
                    )
                } else {
                    builder
                };
                let placed = if selected {
                    moved.origin.plus(Au(0))
                } else {
                    start
                };
                let translation = if selected {
                    state.run.translation.plus(placed.minus(start))
                } else {
                    state.run.translation
                };
                let noted = if constraint == LayoutDebugTableConstraint::Auto {
                    moved
                } else {
                    moved.with_break_decision(
                        self,
                        builder.page,
                        Some(header.row_group_index),
                        header.first_row_index,
                        constraint,
                        retries(selected, constraint),
                        selected,
                        moved.page,
                    )
                };
                TableState {
                    builder: noted.filled_through(placed.plus(header.block_size)),
                    run: TableRunView {
                        translation,
                        page_has_content: true,
                        row_translations: if selected {
                            filled(
                                state.run.row_translations,
                                header.first_row_index as int,
                                header.end_row_index as int,
                                translation,
                            )
                        } else {
                            state.run.row_translations
                        },
                        ..state.run
                    },
                }
            },
        }
    }

    /// The rule in force at row `position` asks for a break before it. Within rows tied by a
    /// rowspan no break is taken.
    pub open spec fn constraint_selects(self, state: TableState, position: int) -> bool {
        let row = self.rows[position];
        let start = row.block_start.plus(state.run.translation);
        let capacity = self.body_page_capacity(state.builder.request.available_block_size);
        let end = state.builder.page_end();
        &&& state.run.page_has_content
        &&& range_holding(self.ranges(), 0, position as usize) matches Some(range) ==> range.start
            == position
        &&& match self.row_constraint(position) {
            LayoutDebugTableConstraint::ForcedBefore => true,
            LayoutDebugTableConstraint::ForcedAfter => true,
            LayoutDebugTableConstraint::AvoidGroup => {
                let size = self.group_block_size(position, self.avoided_group(position)->0);
                size.0 <= capacity.0 && start.plus(size).0 > end.0
            },
            LayoutDebugTableConstraint::Auto => row.block_size.0 <= capacity.0 && start.plus(
                row.block_size,
            ).0 > end.0,
            LayoutDebugTableConstraint::AvoidRow => row.block_size.0 <= capacity.0 && start.plus(
                row.block_size,
            ).0 > end.0,
        }
    }

    /// Row `position` starts rows tied by a rowspan that pass the end of the page.
    pub open spec fn rowspan_selects(self, state: TableState, position: int) -> bool {
        let start = self.rows[position].block_start.plus(state.run.translation);
        &&& state.run.page_has_content
        &&& !self.constraint_selects(state, position)
        &&& range_holding(self.ranges(), 0, position as usize) matches Some(range) && range.start
            == position && start.plus(self.range_block_size(range)).0
            > state.builder.page_end().0
    }

    /// A break is taken before row `position`.
    pub open spec fn row_selected(self, state: TableState, position: int) -> bool {
        self.constraint_selects(state, position) || self.rowspan_selects(state, position)
    }

    /// Row `position` after the break before it, if one is taken: the pages, the translation of the
    /// row and where it starts.
    pub open spec fn row_after_break(
        self,
        state: TableState,
        source: Option<Au>,
        position: int,
    ) -> (BuilderView, Au, Au) {
        let row = self.rows[position];
        let start = row.block_start.plus(state.run.translation);
        let header_size = self.header_block_size();
        if self.row_selected(state, position) {
            let broken = state.builder.broken_in_table(
                self,
                header_size,
                start,
                row.row_group_index,
                row.row_index,
            );
            let placed = broken.origin.plus(header_size);
            (
                broken.with_header_repeat(self, source, broken.page, broken.origin),
                state.run.translation.plus(placed.minus(start)),
                placed,
            )
        } else {
            (state.builder, state.run.translation, start)
        }
    }

    /// The warnings for row `position`.
    pub open spec fn with_row_warnings(self, builder: BuilderView, position: int) -> BuilderView {
        let row = self.rows[position];
        let capacity = self.body_page_capacity(builder.request.available_block_size);
        let oversized = row.block_size.0 > capacity.0;
        let first = if oversized && row.breaks.inside_avoid {
            builder.with_row_warning(self, row, capacity)
        } else {
            builder
        };
        let second = match self.avoided_group(position) {
            Some(group) => {
                let size = self.group_block_size(position, group);
                if size.0 > capacity.0 {
                    first.with_group_warning(self, group, size, capacity)
                } else {
                    first
                }
            },
            None => first,
        };
        match self.tall_fragment(row.row_index, capacity, 0) {
            Some(fragment) => if oversized {
                second.with_cell_warning(self, fragment)
            } else {
                second
            },
            None => second,
        }
    }

    /// Row `position` is divided between pages: the pages after it, its fragments, and the
    /// translation of what follows it.
    pub open spec fn row_divided(
        self,
        builder: BuilderView,
        source: Option<Au>,
        position: int,
        translation: Au,
        translations: Seq<Au>,
    ) -> (BuilderView, DividedRow, Au) {
        let row = self.rows[position];
        let divided = self.divided(builder, row, translation, translations);
        let warned = if divided.last_page == builder.page {
            let last = self.last_fragment(row.row_index, self.fragments.len() as int)->0;
            builder.with_cell_warning(
                self,
                TableCellFragment {
                    row_index: row.row_index,
                    cell_index: last.cell_index,
                    fragment_index: (last.fragment_index + 1) as usize,
                    block_start: row.block_start,
                    block_size: row.block_size,
                },
            )
        } else {
            builder
        };
        (
            warned.with_row_resumed(
                self,
                row,
                source,
                divided.pages,
                builder.page,
                builder.origin,
                builder.page + 1,
                divided.last_page,
            ).at_page(
                divided.last_page,
                origin_after(
                    builder.origin,
                    builder.request.page_stride,
                    divided.last_page - builder.page,
                ),
            ),
            divided,
            translation.plus(divided.extension),
        )
    }

    /// Row `position` of the body is placed.
    pub open spec fn with_row(
        self,
        state: TableState,
        source: Option<Au>,
        position: int,
    ) -> TableState {
        let row = self.rows[position];
        let capacity = self.body_page_capacity(state.builder.request.available_block_size);
        let oversized = row.block_size.0 > capacity.0;
        let tall = oversized && self.tall_fragment(row.row_index, capacity, 0) is Some;
        let constraint = self.row_constraint(position);
        let selected = self.row_selected(state, position);
        let (broken, translation, broken_start) = self.row_after_break(state, source, position);
        let warned = self.with_row_warnings(broken, position);
        let (divided_builder, divided, after) = self.row_divided(
            warned,
            source,
            position,
            translation,
            state.run.fragment_translations,
        );
        let divides = oversized && !tall;
        let reached = if divides {
            divided_builder
        } else {
            warned
        };
        let next_translation = if divides {
            after
        } else {
            translation
        };
        let start = if divides {
            row.block_start.plus(after)
        } else {
            broken_start
        };
        let passed = if oversized && (tall || reached.page == state.builder.page) {
            let (page, origin) = page_holding(
                reached.page,
                reached.origin,
                reached.request.page_stride,
                start.plus(row.block_size),
            );
            reached.at_page(page, origin)
        } else {
            reached
        };
        let noted = if position > 0 || constraint != LayoutDebugTableConstraint::Auto
            || self.rowspan_selects(state, position) {
            passed.with_break_decision(
                self,
                state.builder.page,
                row.row_group_index,
                row.row_index,
                constraint,
                retries(self.constraint_selects(state, position), constraint),
                selected,
                broken.page,
            )
        } else {
            passed
        };
        TableState {
            builder: noted.filled_through(start.plus(row.block_size)),
            run: TableRunView {
                translation: next_translation,
                page_has_content: true,
                row_translations: state.run.row_translations.update(position, translation),
                row_extensions: state.run.row_extensions.update(
                    position,
                    if divides {
                        divided.extension
                    } else {
                        Au(0)
                    },
                ),
                fragment_translations: if divides {
                    divided.translations
                } else {
                    state.run.fragment_translations
                },
            },
        }
    }

    /// The rows of the body from `position` up to `end` are placed in order.
    pub open spec fn with_rows(
        self,
        state: TableState,
        source: Option<Au>,
        position: int,
        end: int,
    ) -> TableState
        decreases end - position,
    {
        if position >= end {
            state
        } else {
            self.with_rows(self.with_row(state, source, position), source, position + 1, end)
        }
    }

    /// The footer is placed: on this page, or on the next if a break is demanded or it does not
    /// fit.
    pub open spec fn with_footer(self, state: TableState, source: Option<Au>) -> TableState {
        match self.footer() {
            None => state,
            Some(footer) => {
                let builder = state.builder;
                let header_size = self.header_block_size();
                let start = footer.block_start.plus(state.run.translation);
                let constraint = self.footer_constraint(footer);
                let selected = state.run.page_has_content && (constraint
                    == LayoutDebugTableConstraint::ForcedBefore || constraint
                    == LayoutDebugTableConstraint::ForcedAfter || start.plus(footer.block_size).0
                    > builder.page_end().0);
                let broken = builder.broken_in_table(
                    self,
                    header_size,
                    start,
                    Some(footer.row_group_index),
                    footer.first_row_index,
                );
                let moved = if selected {
                    broken.with_header_repeat(self, source, broken.page, broken.origin)
                } else {
                    builder
                };
                let placed = if selected {
                    broken.origin.plus(header_size)
                } else {
                    start
                };
                let translation = if selected {
                    state.run.translation.plus(placed.minus(start))
                } else {
                    state.run.translation
                };
                TableState {
                    builder: moved.with_break_decision(
                        self,
                        builder.page,
                        Some(footer.row_group_index),
                        footer.first_row_index,
                        constraint,
                        retries(selected, constraint),
                        selected,
                        broken.page,
                    ).filled_through(placed.plus(footer.block_size)),
                    run: TableRunView {
                        translation,
                        row_translations: filled(
                            state.run.row_translations,
                            footer.first_row_index as int,
                            footer.end_row_index as int,
                            translation,
                        ),
                        ..state.run
                    },
                }
            },
        }
    }

    /// A break is demanded after the table by its last row or by a group that ends it.
    pub open spec fn break_after(self) -> bool {
        ||| self.rows.last().breaks.after
        ||| self.groups.len() > 0 && self.groups.last().end_row_index == self.rows.len()
            && self.groups.last().breaks.after
    }
}

impl BuilderView {
    /// The state before the first row of an accepted table.
    pub open spec fn at_table(
        self,
        table: TableView,
        position: Au,
        fresh: Au,
        breaks: ChildPageBreaks,
    ) -> TableState {
        let warned = if breaks.inside_avoid {
            self.with_size_warning(table.child_index, table.table_node, fresh, true)
        } else {
            self
        };
        let forced = warned.counted().after_forced_break(
            table.child_index,
            table.table_node,
            position,
            breaks,
        );
        let due = self.forced_break_due(breaks);
        let translation = if due {
            forced.origin.minus(position)
        } else {
            Au(0)
        };
        TableState {
            builder: forced,
            run: TableRunView {
                translation,
                page_has_content: self.has_content && !due,
                row_translations: Seq::new(table.rows.len(), |i: int| translation),
                row_extensions: Seq::new(table.rows.len(), |i: int| Au(0)),
                fragment_translations: Seq::new(table.fragments.len(), |i: int| Au(0)),
            },
        }
    }

    /// An accepted table is placed: its header, its rows, its footer.
    pub open spec fn with_table_rows(
        self,
        table: TableView,
        position: Au,
        fresh: Au,
        breaks: ChildPageBreaks,
    ) -> TableState {
        let headed = table.with_header(self.at_table(table, position, fresh, breaks));
        let source = match table.header() {
            Some(header) => Some(header.block_start.plus(headed.run.translation)),
            None => None,
        };
        let filled_rows = table.with_rows(headed, source, table.body_start(), table.body_end());
        let footed = table.with_footer(filled_rows, source);
        TableState {
            builder: BuilderView {
                previous_break_after: footed.builder.previous_break_after || table.break_after(),
                ..footed.builder
            },
            run: footed.run,
        }
    }

    /// The table is kept whole: it asks not to be divided, a page can hold it, and no break is
    /// demanded inside it.
    pub open spec fn keeps_table_whole(
        self,
        table: TableView,
        fresh: Au,
        breaks: ChildPageBreaks,
    ) -> bool {
        breaks.inside_avoid && fresh.0 <= self.request.available_block_size.0
            && !table.has_forced_break()
    }

    /// The state once a table has been found not to be divided, because it cannot be or because it
    /// is to stay whole: a warning may have been recorded.
    pub open spec fn with_undivided_table(self, table: TableView) -> BuilderView {
        match table.acceptance(self.request.available_block_size) {
            TableAcceptance::RefusedWith(warning) => self.with_outcome(
                self.outcome.with_warning(warning),
            ),
            _ => self,
        }
    }
}

pub proof fn lemma_fragment_numbers(table: TableView, available: Au, index: int)
    requires
        table.supported(available),
        0 <= index < table.fragments.len(),
    ensures
        table.fragments[index].fragment_index <= index,
    decreases index,
{
    assert(table.fragment_in_order(index));
    if index > 0 {
        lemma_fragment_numbers(table, available, index - 1);
    }
}

pub proof fn lemma_last_fragment(table: TableView, row_index: usize, end: int)
    requires
        0 <= end <= table.fragments.len(),
    ensures
        table.last_fragment(row_index, end) matches Some(fragment) ==> exists|j: int|
            0 <= j < end && #[trigger] table.fragments[j] == fragment,
        table.last_fragment(row_index, end) is None ==> forall|j: int|
            0 <= j < end ==> (#[trigger] table.fragments[j]).row_index != row_index,
    decreases end,
{
    if end > 0 && table.fragments[end - 1].row_index != row_index {
        lemma_last_fragment(table, row_index, end - 1);
    }
}

pub proof fn lemma_first_group_member(
    groups: Seq<TableRowGroup>,
    index: int,
    kind: crate::pages::table_rules::TableRowGroupKind,
)
    requires
        0 <= index,
    ensures
        crate::pages::table_rules::first_group(groups, index, kind) matches Some(group)
            ==> exists|i: int| 0 <= i < groups.len() && groups[i] == group,
    decreases groups.len() - index,
{
    if index < groups.len() && groups[index].kind != kind {
        lemma_first_group_member(groups, index + 1, kind);
    }
}

/// Among more fragments a row has no fewer of its own.
pub proof fn lemma_row_fragments(table: TableView, row_index: int, few: int, count: int)
    requires
        0 <= few <= count <= table.fragments.len(),
    ensures
        0 <= table.row_fragments(row_index, few) <= table.row_fragments(row_index, count) <= count,
    decreases count,
{
    if count > 0 {
        if few == count {
            lemma_row_fragments(table, row_index, few - 1, count - 1);
        } else {
            lemma_row_fragments(table, row_index, few, count - 1);
        }
    }
}

/// The fragments of the rows before the next row are those before this row and its own.
pub proof fn lemma_fragments_before(table: TableView, row_index: int, count: int)
    requires
        0 <= count <= table.fragments.len(),
    ensures
        table.fragments_before(row_index + 1, count) == table.fragments_before(row_index, count)
            + table.row_fragments(row_index, count),
        0 <= table.fragments_before(row_index, count) <= table.fragments_before(
            row_index + 1,
            count,
        ) <= count,
    decreases count,
{
    if count > 0 {
        lemma_fragments_before(table, row_index, count - 1);
    }
}

/// What acceptance settles about the header, the footer and the rows of the body.
pub proof fn lemma_accepted(table: TableView, available: Au)
    requires
        table.accepted(available),
        0 < available.0 <= MAX_AU,
        table.in_range(),
    ensures
        table.supported(available),
        table.header_repeatable(available),
        table.footer_fits(available),
        table.segments_ordered(available),
        0 <= table.header_block_size().0 < available.0,
        table.header() matches Some(header) ==> {
            &&& header.in_range()
            &&& header.first_row_index < header.end_row_index <= table.rows.len()
        },
        table.footer() matches Some(footer) ==> {
            &&& footer.in_range()
            &&& footer.first_row_index < footer.end_row_index <= table.rows.len()
        },
{
    lemma_first_group_member(
        table.groups,
        0,
        crate::pages::table_rules::TableRowGroupKind::Header,
    );
    lemma_first_group_member(
        table.groups,
        0,
        crate::pages::table_rules::TableRowGroupKind::Footer,
    );
    if let Some(header) = table.header() {
        let i = choose|i: int| 0 <= i < table.groups.len() && table.groups[i] == header;
        assert(table.group_in_order(i));
    }
    if let Some(footer) = table.footer() {
        let i = choose|i: int| 0 <= i < table.groups.len() && table.groups[i] == footer;
        assert(table.group_in_order(i));
    }
}

/// The fragments of a divided row: the page of each, the greatest move beyond the row, and the
/// last page.
pub struct RowPages {
    pub pages: Vec<Option<usize>>,
    pub extension: Au,
    pub last_page: usize,
}

/// Where the next fragment of a cell is looked for.
pub struct CellPosition {
    pub page: usize,
    pub origin: Au,
    pub shift: Au,
}

impl View for CellPosition {
    type V = CellWalk;

    open spec fn view(&self) -> CellWalk {
        CellWalk { page: self.page as int, origin: self.origin, shift: self.shift }
    }
}

/// Places the next fragment of a cell.
fn place_cell_fragment(
    request: BlockPaginationRequest,
    header_size: Au,
    translation: Au,
    walk: CellPosition,
    fragment: TableCellFragment,
) -> (next: CellPosition)
    requires
        request.wf(),
        0 <= header_size.0 <= MAX_AU,
        translation.in_range(),
        walk.shift.in_range(),
        0 <= walk.origin.0 <= MAX_AU,
        fragment.in_range(),
        walk.page + (MAX_AU - walk.origin.0) + 1 <= usize::MAX,
    ensures
        next@ == fragment_step(request, header_size, translation, walk@, fragment).0,
        next.shift.in_range(),
        walk.origin.0 <= next.origin.0 <= MAX_AU,
        walk.page <= next.page,
        next.page + (MAX_AU - next.origin.0) <= walk.page + (MAX_AU - walk.origin.0) + 1,
{
    let mut page: usize = walk.page;
    let mut origin = walk.origin;
    let mut shift = walk.shift;
    let mut start = fragment.block_start.plus(translation).plus(walk.shift);
    let ghost first_start = start;
    while start.0 >= origin.plus(request.page_stride).0 && origin.0 < MAX_AU
        invariant
            request.wf(),
            0 <= header_size.0 <= MAX_AU,
            shift.in_range(),
            start.in_range(),
            walk.page <= page,
            walk.origin.0 <= origin.0 <= MAX_AU,
            0 <= walk.origin.0,
            walk.page + (MAX_AU - walk.origin.0) + 1 <= usize::MAX,
            page + (MAX_AU - origin.0) <= walk.page + (MAX_AU - walk.origin.0),
            caught_up(
                request,
                header_size,
                CellWalk { page: page as int, origin, shift },
                start,
            ) == caught_up(request, header_size, walk@, first_start),
        decreases MAX_AU - origin.0,
    {
        page = page + 1;
        origin = origin.plus(request.page_stride);
        shift = shift.plus(header_size);
        start = start.plus(header_size);
    }
    if start.plus(fragment.block_size).0 > origin.plus(request.available_block_size).0 {
        page = page + 1;
        origin = origin.plus(request.page_stride);
        shift = shift.plus(origin.plus(header_size).minus(start));
    }
    CellPosition { page, origin, shift }
}

impl BlockPageBuilder {
    pub(crate) fn break_in_table(
        &mut self,
        table: &TableChild<'_>,
        offset: Au,
        start: Au,
        row_group_index: Option<usize>,
        next_row_index: usize,
    )
        requires
            old(self)@.wf(),
            0 <= offset.0 <= MAX_AU,
            start.in_range(),
            old(self)@.page_bound() + 1 <= usize::MAX,
        ensures
            final(self)@ == old(self)@.broken_in_table(
                table@,
                offset,
                start,
                row_group_index,
                next_row_index,
            ),
            final(self)@.wf(),
            old(self)@.orderly() ==> final(self)@.orderly(),
            final(self)@.page_bound() <= old(self)@.page_bound() + 1,
    {
        let previous_page_index: usize = self.current_page_index;
        let (page, origin) = find_page_reaching(
            self.current_page_index + 1,
            self.current_page_origin.plus(self.request.page_stride),
            self.request.page_stride,
            offset,
            start,
        );
        self.current_page_index = page;
        self.current_page_origin = origin;
        self.outcome.continuations.push(
            PageContinuation {
                page_index: previous_page_index,
                token: FragmentainerContinuation::Table(
                    TableContinuationToken {
                        child_index: table.child_index,
                        table_node: table.table_node,
                        row_group_index,
                        next_row_index,
                        resume_page_index: page,
                    },
                ),
            },
        );
    }

    /// Records that the header is painted again on a page.
    pub(crate) fn push_table_header_repeat(
        &mut self,
        table: &TableChild<'_>,
        header: Option<TableRowGroup>,
        source_block_start: Option<Au>,
        page_index: usize,
        target_block_start: Au,
    )
        requires
            header == table@.header(),
        ensures
            final(self)@ == old(self)@.with_header_repeat(
                table@,
                source_block_start,
                page_index as int,
                target_block_start,
            ),
    {
        if let (Some(header), Some(source_block_start)) = (header, source_block_start) {
            if let Some(header_tag_id) = header.tag_id {
                self.outcome.table_group_repeats.push(
                    TableGroupRepeatDecision {
                        page_index,
                        table_node: table.table_node,
                        header_tag_id,
                        row_group_index: header.row_group_index,
                        source_block_start,
                        target_block_start,
                        block_size: header.block_size,
                    },
                );
            }
        }
    }

    pub(crate) fn push_table_break(
        &mut self,
        table: &TableChild<'_>,
        page_index: usize,
        row_group_index: Option<usize>,
        next_row_index: usize,
        constraint: LayoutDebugTableConstraint,
        retry_count: u8,
        selected: bool,
        resume_page: usize,
    )
        ensures
            final(self)@ == old(self)@.with_break_decision(
                table@,
                page_index as int,
                row_group_index,
                next_row_index,
                constraint,
                retry_count,
                selected,
                resume_page as int,
            ),
    {
        let resume_page_index: Option<usize> = if selected {
            Some(resume_page)
        } else {
            None
        };
        self.outcome.table_breaks.push(
            TableBreakDecision {
                page_index,
                table_node: table.table_node,
                row_group_index,
                next_row_index,
                constraint,
                retry_count,
                retry_limit: TABLE_ROW_RETRY_LIMIT,
                selected,
                resume_page_index,
            },
        );
    }

    pub(crate) fn warn_oversized_table_cell(&mut self, table: &TableChild<'_>, fragment: TableCellFragment)
        ensures
            final(self)@ == old(self)@.with_cell_warning(table@, fragment),
    {
        self.outcome.warnings.push(
            BlockPaginationWarning::OversizedTableCell {
                child_index: table.child_index,
                table_node: table.table_node,
                row_index: fragment.row_index,
                cell_index: fragment.cell_index,
                fragment_index: fragment.fragment_index,
                block_size: fragment.block_size,
                available_block_size: self.request.available_block_size,
            },
        );
    }

    pub(crate) fn warn_oversized_table_row_avoid(
        &mut self,
        table: &TableChild<'_>,
        row: TableRow,
        available_block_size: Au,
    )
        ensures
            final(self)@ == old(self)@.with_row_warning(table@, row, available_block_size),
    {
        self.outcome.warnings.push(
            BlockPaginationWarning::OversizedTableRowBreakInsideAvoid {
                child_index: table.child_index,
                table_node: table.table_node,
                row_group_index: row.row_group_index,
                row_index: row.row_index,
                block_size: row.block_size,
                available_block_size,
                retry_count: 0,
                retry_limit: TABLE_ROW_RETRY_LIMIT,
            },
        );
    }

    pub(crate) fn warn_oversized_table_row_group_avoid(
        &mut self,
        table: &TableChild<'_>,
        group: TableRowGroup,
        block_size: Au,
        available_block_size: Au,
    )
        ensures
            final(self)@ == old(self)@.with_group_warning(
                table@,
                group,
                block_size,
                available_block_size,
            ),
    {
        self.outcome.warnings.push(
            BlockPaginationWarning::OversizedTableRowGroupBreakInsideAvoid {
                child_index: table.child_index,
                table_node: table.table_node,
                row_group_index: group.row_group_index,
                block_size,
                available_block_size,
                retry_count: 0,
                retry_limit: TABLE_ROW_RETRY_LIMIT,
            },
        );
    }

    /// Divides the fragments of the cells of a row between pages.
    pub(crate) fn divide_row(
        &self,
        table: &TableChild<'_>,
        row: TableRow,
        translation: Au,
        header_size: Au,
        translations: &mut Vec<Au>,
    ) -> (divided: RowPages)
        requires
            self@.wf(),
            table@.in_range(),
            translation.in_range(),
            0 <= header_size.0 <= MAX_AU,
            header_size == table@.header_block_size(),
            old(translations)@.len() == table@.fragments.len(),
            self@.page_bound() + table@.row_fragments(
                row.row_index as int,
                table@.fragments.len() as int,
            ) < usize::MAX,
        ensures
            table@.divided(self@, row, translation, old(translations)@) == (DividedRow {
                translations: final(translations)@,
                pages: divided.pages@,
                extension: divided.extension,
                last_page: divided.last_page as int,
            }),
            final(translations)@.len() == table@.fragments.len(),
            divided.pages@.len() == table@.fragments.len(),
            divided.extension.in_range(),
            self@.page <= divided.last_page <= self@.page_bound() + table@.row_fragments(
                row.row_index as int,
                table@.fragments.len() as int,
            ),
    {
        let ghost own = table@.row_fragments(row.row_index as int, table@.fragments.len() as int);
        proof {
            lemma_row_fragments(
                table@,
                row.row_index as int,
                0,
                table@.fragments.len() as int,
            );
        }
        let ghost whole = table@.divided(self@, row, translation, translations@);
        let ghost first = CellWalk { page: self@.page, origin: self@.origin, shift: Au(0) };
        let request = self.request;
        let mut pages: Vec<Option<usize>> = Vec::new();
        let mut count: usize = 0;
        while count < table.cell_fragments.len()
            invariant
                count <= table.cell_fragments.len(),
                pages@ == Seq::new(count as nat, |i: int| None::<usize>),
            decreases table.cell_fragments.len() - count,
        {
            pages.push(None);
            count = count + 1;
        }
        let mut extension = Au::zero();
        let mut last_page: usize = self.current_page_index;
        let mut cell_index: usize = 0;
        assert(pages@ == Seq::new(table@.fragments.len(), |i: int| None::<usize>));
        while cell_index < row.cell_count
            invariant
                self@.wf(),
                table@.in_range(),
                request == self@.request,
                translation.in_range(),
                0 <= header_size.0 <= MAX_AU,
                header_size == table@.header_block_size(),
                translations@.len() == table@.fragments.len(),
                pages@.len() == table@.fragments.len(),
                extension.in_range(),
                first == (CellWalk { page: self@.page, origin: self@.origin, shift: Au(0) }),
                own == table@.row_fragments(row.row_index as int, table@.fragments.len() as int),
                self@.page_bound() + own < usize::MAX,
                self@.page <= last_page <= self@.page_bound() + own,
                cell_index <= row.cell_count,
                table@.with_cells_divided(
                    request,
                    row,
                    translation,
                    first,
                    cell_index as int,
                    DividedRow {
                        translations: translations@,
                        pages: pages@,
                        extension,
                        last_page: last_page as int,
                    },
                ) == whole,
            decreases row.cell_count - cell_index,
        {
            let ghost cell_before = DividedRow {
                translations: translations@,
                pages: pages@,
                extension,
                last_page: last_page as int,
            };
            let ghost cell_after = table@.with_cell_divided(
                request,
                row.row_index,
                cell_index,
                translation,
                0,
                first,
                cell_before,
            );
            let mut walk = CellPosition {
                page: self.current_page_index,
                origin: self.current_page_origin,
                shift: Au::zero(),
            };
            let mut index: usize = 0;
            while index < table.cell_fragments.len()
                invariant
                    self@.wf(),
                    table@.in_range(),
                    request == self@.request,
                    translation.in_range(),
                    0 <= header_size.0 <= MAX_AU,
                    header_size == table@.header_block_size(),
                    translations@.len() == table@.fragments.len(),
                    pages@.len() == table@.fragments.len(),
                    extension.in_range(),
                    own == table@.row_fragments(
                        row.row_index as int,
                        table@.fragments.len() as int,
                    ),
                    self@.page_bound() + own < usize::MAX,
                    self@.page <= last_page <= self@.page_bound() + own,
                    index <= table@.fragments.len(),
                    walk.shift.in_range(),
                    0 <= walk.origin.0 <= MAX_AU,
                    walk.page + (MAX_AU - walk.origin.0) <= self@.page_bound()
                        + table@.row_fragments(row.row_index as int, index as int),
                    table@.with_cell_divided(
                        request,
                        row.row_index,
                        cell_index,
                        translation,
                        index as int,
                        walk@,
                        DividedRow {
                            translations: translations@,
                            pages: pages@,
                            extension,
                            last_page: last_page as int,
                        },
                    ) == cell_after,
                decreases table.cell_fragments.len() - index,
            {
                proof {
                    lemma_row_fragments(
                        table@,
                        row.row_index as int,
                        index + 1,
                        table@.fragments.len() as int,
                    );
                }
                let fragment = table.cell_fragments[index];
                assert(table@.fragments[index as int].in_range());
                if fragment.row_index == row.row_index && fragment.cell_index == cell_index {
                    walk = place_cell_fragment(request, header_size, translation, walk, fragment);
                    translations.set(index, walk.shift);
                    pages.set(index, Some(walk.page));
                    extension = extension.at_least(walk.shift);
                    if last_page < walk.page {
                        last_page = walk.page;
                    }
                }
                index = index + 1;
            }
            cell_index = cell_index + 1;
        }
        RowPages { pages, extension, last_page }
    }

    pub(crate) fn push_cell_continuations(
        &mut self,
        table: &TableChild<'_>,
        row: TableRow,
        pages: &Vec<Option<usize>>,
        resume: usize,
    )
        requires
            pages@.len() == table@.fragments.len(),
            0 < resume,
        ensures
            final(self)@ == old(self)@.with_cell_continuations(
                table@,
                row,
                pages@,
                resume as int,
                0,
            ),
            final(self)@.with_outcome(old(self)@.outcome) == old(self)@,
            final(self)@.outcome.continuations == old(self)@.outcome.continuations,
    {
        let ghost target = self@.with_cell_continuations(table@, row, pages@, resume as int, 0);
        let ghost start = self@;
        let mut cell_index: usize = 0;
        while cell_index < row.cell_count
            invariant
                pages@.len() == table@.fragments.len(),
                0 < resume,
                cell_index <= row.cell_count,
                self@.with_outcome(start.outcome) == start,
                self@.outcome.continuations == start.outcome.continuations,
                self@.with_cell_continuations(
                    table@,
                    row,
                    pages@,
                    resume as int,
                    cell_index as int,
                ) == target,
            decreases row.cell_count - cell_index,
        {
            let ghost before = self@;
            let mut next_fragment_index: Option<usize> = None;
            let mut index: usize = 0;
            while index < table.cell_fragments.len() && next_fragment_index.is_none()
                invariant
                    pages@.len() == table@.fragments.len(),
                    index <= table@.fragments.len(),
                    next_fragment_index is None ==> table@.next_fragment(
                        row.row_index,
                        cell_index,
                        pages@,
                        resume as int,
                        index as int,
                    ) == table@.next_fragment(row.row_index, cell_index, pages@, resume as int, 0),
                    next_fragment_index is Some ==> next_fragment_index == table@.next_fragment(
                        row.row_index,
                        cell_index,
                        pages@,
                        resume as int,
                        0,
                    ),
                decreases
                        table.cell_fragments.len() - index,
            {
                let fragment = table.cell_fragments[index];
                if fragment.row_index == row.row_index && fragment.cell_index == cell_index {
                    if let Some(page) = pages[index] {
                        if page >= resume {
                            next_fragment_index = Some(fragment.fragment_index);
                        }
                    }
                }
                index = index + 1;
            }
            assert(next_fragment_index == table@.next_fragment(
                row.row_index,
                cell_index,
                pages@,
                resume as int,
                0,
            ));
            self.outcome.table_cell_continuations.push(
                TableCellContinuationDecision {
                    page_index: resume - 1,
                    table_node: table.table_node,
                    row_group_index: row.row_group_index,
                    row_index: row.row_index,
                    cell_index,
                    next_fragment_index,
                    resume_page_index: resume,
                },
            );
            cell_index = cell_index + 1;
        }
    }
}

} // verus!
