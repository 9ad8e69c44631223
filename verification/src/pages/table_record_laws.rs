//! What is recorded where a table is divided, told by its rows and groups.
use crate::au::{Au, MAX_AU, MIN_AU};
use crate::layout_debug::LayoutDebugTableConstraint;
use crate::pages::flow::{
    lemma_page_holding_bounds, lemma_page_reaching_bounds, page_holding, BlockPaginationRequest,
    BlockPaginationWarning, BuilderView, ChildPageBreaks, FragmentainerContinuation, OutcomeView,
    PageContinuation, TableCellContinuationDecision, TableContinuationToken,
    TableGroupRepeatDecision,
};
use crate::pages::flow_laws::{
    law_next_page_is_the_first_that_reaches, law_pages_are_counted_as_far_as_content_reaches,
};
use crate::pages::laws::{
    law_page_reaching_is_first, law_table_row_moves_down, lemma_origin_after_step,
};
use crate::pages::table_flow::{
    fragment_step, lemma_accepted, origin_after, CellWalk, DividedRow, TableState,
};
use crate::pages::table_laws::{
    break_demanded, lemma_groups_in_order, lemma_run_holding, lemma_starting_group_is,
};
use crate::pages::table_rules::{TableCellFragment, TableRow, TableView};
use vstd::prelude::*;

verus! {

/// Where a table starts: a break that is demanded before it, or behind what stands above it, is
/// taken where something stands on the page, and only there. The table then starts at the top of the
/// first page that begins at or below its place, and all of it is moved as far. Nothing else moves it
/// yet.
pub proof fn law_demanded_break_is_taken_before_a_table(
    before: BuilderView,
    table: TableView,
    position: Au,
    fresh: Au,
    breaks: ChildPageBreaks,
)
    requires
        before.wf(),
        position.in_range(),
    ensures
        ({
            let start = before.at_table(table, position, fresh, breaks);
            let builder = start.builder;
            let demanded = before.has_content && (before.previous_break_after || breaks.before);
            let old = before.outcome;
            let new = builder.outcome;
            let available = before.request.available_block_size;
            &&& builder.next_child == before.next_child + 1
            &&& builder.previous_break_after == breaks.after
            &&& builder.request == before.request
            &&& demanded ==> {
                &&& builder.page > before.page
                &&& position.0 <= builder.origin.0
                &&& builder.origin.0 - position.0 <= MAX_AU ==> start.run.translation.0
                    == builder.origin.0 - position.0
                &&& builder.origin.0 < MAX_AU && builder.page > before.page + 1
                    ==> builder.origin.0 - before.request.page_stride.0 < position.0
                &&& new.continuations.len() == old.continuations.len() + 1
                &&& new.continuations.last().page_index == before.page as usize
                &&& new.continuations.last().token matches FragmentainerContinuation::Block(token)
                    && token.forced && token.next_child_index == table.child_index
                    && token.next_node == table.table_node && token.resume_page_index
                    == builder.page as usize
                &&& !start.run.page_has_content
            }
            &&& !demanded ==> {
                &&& builder.page == before.page && builder.origin == before.origin
                &&& start.run.translation.0 == 0
                &&& new.continuations == old.continuations
                &&& start.run.page_has_content == before.has_content
            }
            &&& new.warnings == if breaks.inside_avoid && fresh.0 > available.0 {
                old.warnings.push(
                    BlockPaginationWarning::OversizedBreakInsideAvoid {
                        child_index: table.child_index,
                        node: table.table_node,
                        block_size: fresh,
                        available_block_size: available,
                        retry_count: 0,
                    },
                )
            } else {
                old.warnings
            }
            &&& start.run.row_translations.len() == table.rows.len()
            &&& forall|i: int|
                0 <= i < table.rows.len() ==> #[trigger] start.run.row_translations[i]
                    == start.run.translation
            &&& forall|i: int|
                0 <= i < table.rows.len() ==> (#[trigger] start.run.row_extensions[i]).0 == 0
            &&& forall|i: int|
                0 <= i < table.fragments.len() ==> (#[trigger]
                start.run.fragment_translations[i]).0 == 0
        }),
{
    law_next_page_is_the_first_that_reaches(before, Au(0), position);
}

/// A table is kept whole exactly where it asks not to be divided, a page can hold it, and neither a
/// row nor a group of it demands a break.
pub proof fn law_table_is_kept_whole_where_it_can_be(
    before: BuilderView,
    table: TableView,
    fresh: Au,
    breaks: ChildPageBreaks,
)
    ensures
        before.keeps_table_whole(table, fresh, breaks) <==> {
            &&& breaks.inside_avoid
            &&& fresh.0 <= before.request.available_block_size.0
            &&& forall|i: int|
                0 <= i < table.rows.len() ==> !(#[trigger] table.rows[i]).breaks.before
                    && !table.rows[i].breaks.after
            &&& forall|g: int|
                0 <= g < table.groups.len() ==> !(#[trigger] table.groups[g]).breaks.before
                    && !table.groups[g].breaks.after
        },
{
}

/// Behind a table a break is pending where one is demanded behind the table, behind its last row, or
/// behind a group that ends it.
pub proof fn law_break_behind_a_table_is_pending(
    before: BuilderView,
    table: TableView,
    position: Au,
    fresh: Au,
    breaks: ChildPageBreaks,
)
    requires
        before.wf(),
        table.in_range(),
        table.accepted(before.request.available_block_size),
        position.in_range(),
    ensures
        before.with_table_rows(table, position, fresh, breaks).builder.previous_break_after <==> {
            ||| breaks.after
            ||| table.rows.last().breaks.after
            ||| exists|g: int|
                0 <= g < table.groups.len() && (#[trigger] table.groups[g]).end_row_index
                    == table.rows.len() && table.groups[g].breaks.after
        },
        before.with_table_rows(table, position, fresh, breaks).builder.next_child
            == before.next_child + 1,
{
    let available = before.request.available_block_size;
    lemma_accepted(table, available);
    let headed = table.with_header(before.at_table(table, position, fresh, breaks));
    let source = match table.header() {
        Some(header) => Some(header.block_start.plus(headed.run.translation)),
        None => None,
    };
    lemma_rows_keep_flags(table, headed, source, table.body_start(), table.body_end());
    if exists|g: int|
        0 <= g < table.groups.len() && (#[trigger] table.groups[g]).end_row_index
            == table.rows.len() && table.groups[g].breaks.after {
        let g = choose|g: int|
            0 <= g < table.groups.len() && (#[trigger] table.groups[g]).end_row_index
                == table.rows.len() && table.groups[g].breaks.after;
        if g < table.groups.len() - 1 {
            lemma_groups_in_order(table, available, g, table.groups.len() - 1);
        }
    }
    if table.groups.len() > 0 {
        assert(table.groups[table.groups.len() - 1] == table.groups.last());
    }
}

/// Nothing but continuations and repeated headers was recorded between `before` and `after`.
spec fn same_but_records(before: BuilderView, after: BuilderView) -> bool {
    &&& after == before.with_outcome(after.outcome)
    &&& after.outcome.table_breaks == before.outcome.table_breaks
    &&& after.outcome.warnings == before.outcome.warnings
    &&& after.outcome.page_count == before.outcome.page_count
}

/// What dividing a row leaves alone, and the page it ends on.
proof fn lemma_row_divided_keeps(
    table: TableView,
    state: TableState,
    source: Option<Au>,
    position: int,
)
    ensures
        ({
            let row = table.rows[position];
            let (broken, translation, _) = table.row_after_break(state, source, position);
            let warned = table.with_row_warnings(broken, position);
            let (divided, pages, _) = table.row_divided(
                warned,
                source,
                position,
                translation,
                state.run.fragment_translations,
            );
            &&& warned == broken.with_outcome(warned.outcome)
            &&& warned.outcome.table_breaks == state.builder.outcome.table_breaks
            &&& divided.outcome.table_breaks == state.builder.outcome.table_breaks
            &&& warned.outcome.page_count == state.builder.outcome.page_count
            &&& divided.outcome.page_count == state.builder.outcome.page_count
            &&& warned.previous_break_after == state.builder.previous_break_after
            &&& divided.previous_break_after == state.builder.previous_break_after
            &&& warned.next_child == state.builder.next_child
            &&& divided.next_child == state.builder.next_child
            &&& warned.request == state.builder.request
            &&& divided.request == state.builder.request
            &&& divided.page == pages.last_page
            &&& divided.origin == origin_after(
                warned.origin,
                warned.request.page_stride,
                pages.last_page - warned.page,
            )
            &&& pages.last_page >= warned.page
        }),
{
    let row = table.rows[position];
    let (broken, translation, _) = table.row_after_break(state, source, position);
    let warned = table.with_row_warnings(broken, position);
    let divided = table.divided(warned, row, translation, state.run.fragment_translations);
    let last = table.last_fragment(row.row_index, table.fragments.len() as int)->0;
    let noted = if divided.last_page == warned.page {
        warned.with_cell_warning(
            table,
            TableCellFragment {
                row_index: row.row_index,
                cell_index: last.cell_index,
                fragment_index: (last.fragment_index + 1) as usize,
                block_start: row.block_start,
                block_size: row.block_size,
            },
        )
    } else {
        warned
    };
    lemma_resumed_keeps(
        noted,
        table,
        row,
        source,
        divided.pages,
        warned.page,
        warned.origin,
        warned.page + 1,
        divided.last_page,
    );
    lemma_divided_pages(table, warned, row, translation, state.run.fragment_translations);
}

proof fn lemma_row_keeps_flags(
    table: TableView,
    state: TableState,
    source: Option<Au>,
    position: int,
)
    ensures
        ({
            let after = table.with_row(state, source, position).builder;
            &&& after.previous_break_after == state.builder.previous_break_after
            &&& after.next_child == state.builder.next_child
        }),
{
    lemma_row_divided_keeps(table, state, source, position);
}

proof fn lemma_resumed_keeps(
    builder: BuilderView,
    table: TableView,
    row: TableRow,
    source: Option<Au>,
    pages: Seq<Option<usize>>,
    first: int,
    first_origin: Au,
    resume: int,
    last: int,
)
    ensures
        ({
            let after = builder.with_row_resumed(
                table,
                row,
                source,
                pages,
                first,
                first_origin,
                resume,
                last,
            );
            same_but_records(builder, after)
        }),
    decreases last - resume + 1,
{
    if resume <= last {
        let continued = builder.with_outcome(
            builder.outcome.with_continuation(
                PageContinuation {
                    page_index: (resume - 1) as usize,
                    token: FragmentainerContinuation::Table(
                        TableContinuationToken {
                            child_index: table.child_index,
                            table_node: table.table_node,
                            row_group_index: row.row_group_index,
                            next_row_index: row.row_index,
                            resume_page_index: resume as usize,
                        },
                    ),
                },
            ),
        ).with_header_repeat(
            table,
            source,
            resume,
            origin_after(
                first_origin,
                builder.request.page_stride,
                resume - first,
            ),
        );
        let next = continued.with_cell_continuations(table, row, pages, resume, 0);
        lemma_cells_keep(continued, table, row, pages, resume, 0);
        lemma_resumed_keeps(
            next,
            table,
            row,
            source,
            pages,
            first,
            first_origin,
            resume + 1,
            last,
        );
    }
}

proof fn lemma_cells_keep(
    builder: BuilderView,
    table: TableView,
    row: TableRow,
    pages: Seq<Option<usize>>,
    resume: int,
    cell: int,
)
    ensures
        ({
            let after = builder.with_cell_continuations(table, row, pages, resume, cell);
            same_but_records(builder, after)
        }),
    decreases row.cell_count - cell,
{
    if cell < row.cell_count {
        lemma_cells_keep(
            builder.with_outcome(
                OutcomeView {
                    table_cell_continuations: builder.outcome.table_cell_continuations.push(
                        cell_record(table, row, pages, resume, cell),
                    ),
                    ..builder.outcome
                },
            ),
            table,
            row,
            pages,
            resume,
            cell + 1,
        );
    }
}

proof fn lemma_rows_keep_flags(
    table: TableView,
    state: TableState,
    source: Option<Au>,
    position: int,
    end: int,
)
    ensures
        ({
            let after = table.with_rows(state, source, position, end).builder;
            &&& after.previous_break_after == state.builder.previous_break_after
            &&& after.next_child == state.builder.next_child
        }),
    decreases end - position,
{
    if position < end {
        lemma_row_keeps_flags(table, state, source, position);
        lemma_rows_keep_flags(
            table,
            table.with_row(state, source, position),
            source,
            position + 1,
            end,
        );
    }
}

spec fn cell_record(
    table: TableView,
    row: TableRow,
    pages: Seq<Option<usize>>,
    resume: int,
    cell: int,
) -> TableCellContinuationDecision {
    TableCellContinuationDecision {
        page_index: (resume - 1) as usize,
        table_node: table.table_node,
        row_group_index: row.row_group_index,
        row_index: row.row_index,
        cell_index: cell as usize,
        next_fragment_index: table.next_fragment(row.row_index, cell as usize, pages, resume, 0),
        resume_page_index: resume as usize,
    }
}

proof fn lemma_next_fragment(
    table: TableView,
    row_index: usize,
    cell_index: usize,
    pages: Seq<Option<usize>>,
    resume: int,
    index: int,
)
    requires
        0 <= index <= table.fragments.len(),
    ensures
        match table.next_fragment(row_index, cell_index, pages, resume, index) {
            None => forall|i: int|
                index <= i < table.fragments.len() ==> !resumes_later(
                    table,
                    row_index,
                    cell_index,
                    pages,
                    resume,
                    i,
                ),
            Some(number) => exists|i: int|
                index <= i < table.fragments.len() && #[trigger] resumes_later(
                    table,
                    row_index,
                    cell_index,
                    pages,
                    resume,
                    i,
                ) && table.fragments[i].fragment_index == number && forall|k: int|
                    index <= k < i ==> !resumes_later(
                        table,
                        row_index,
                        cell_index,
                        pages,
                        resume,
                        k,
                    ),
        },
    decreases table.fragments.len() - index,
{
    if index < table.fragments.len() {
        if resumes_later(table, row_index, cell_index, pages, resume, index) {
            assert(table.fragments[index].fragment_index == table.fragments[index].fragment_index);
        } else {
            lemma_next_fragment(table, row_index, cell_index, pages, resume, index + 1);
        }
    }
}

/// Piece `i` belongs to a cell and stands on page `resume` or later.
pub open spec fn resumes_later(
    table: TableView,
    row_index: usize,
    cell_index: usize,
    pages: Seq<Option<usize>>,
    resume: int,
    i: int,
) -> bool {
    &&& table.fragments[i].row_index == row_index
    &&& table.fragments[i].cell_index == cell_index
    &&& pages[i] is Some
    &&& pages[i]->0 >= resume
}

proof fn lemma_cell_records(
    builder: BuilderView,
    table: TableView,
    row: TableRow,
    pages: Seq<Option<usize>>,
    resume: int,
    cell: int,
)
    requires
        0 <= cell <= row.cell_count,
    ensures
        ({
            let old = builder.outcome.table_cell_continuations;
            let new = builder.with_cell_continuations(
                table,
                row,
                pages,
                resume,
                cell,
            ).outcome.table_cell_continuations;
            &&& new.len() == old.len() + (row.cell_count - cell)
            &&& forall|k: int| 0 <= k < old.len() ==> #[trigger] new[k] == old[k]
            &&& forall|c: int|
                cell <= c < row.cell_count ==> new[old.len() + (c - cell)] == #[trigger] cell_record(
                    table,
                    row,
                    pages,
                    resume,
                    c,
                )
        }),
    decreases row.cell_count - cell,
{
    if cell < row.cell_count {
        let old = builder.outcome.table_cell_continuations;
        let next = builder.with_outcome(
            OutcomeView {
                table_cell_continuations: old.push(cell_record(table, row, pages, resume, cell)),
                ..builder.outcome
            },
        );
        lemma_cell_records(next, table, row, pages, resume, cell + 1);
        let new = builder.with_cell_continuations(
            table,
            row,
            pages,
            resume,
            cell,
        ).outcome.table_cell_continuations;
        assert(new == next.with_cell_continuations(
            table,
            row,
            pages,
            resume,
            cell + 1,
        ).outcome.table_cell_continuations);
        let mid = next.outcome.table_cell_continuations;
        assert(new[old.len() as int] == mid[old.len() as int]);
        assert forall|k: int| 0 <= k < old.len() implies #[trigger] new[k] == old[k] by {
            assert(new[k] == mid[k]);
        }
        assert forall|c: int| cell <= c < row.cell_count implies new[old.len() + (c - cell)]
            == #[trigger] cell_record(table, row, pages, resume, c) by {
            if c > cell {
                assert(new[mid.len() + (c - (cell + 1))] == cell_record(
                    table,
                    row,
                    pages,
                    resume,
                    c,
                ));
            }
        }
    }
}

/// Where a divided row resumes on a page, every cell of it has one record there, in order: it names
/// the first piece of the cell that stands on that page or later, and none where no such piece is
/// left.
pub proof fn law_each_cell_resumes_at_its_next_piece(
    builder: BuilderView,
    table: TableView,
    row: TableRow,
    pages: Seq<Option<usize>>,
    resume: int,
    cell: int,
)
    requires
        0 <= cell < row.cell_count,
        0 < resume <= usize::MAX,
    ensures
        ({
            let old = builder.outcome.table_cell_continuations;
            let after = builder.with_cell_continuations(table, row, pages, resume, 0).outcome;
            let new = after.table_cell_continuations;
            let record = new[old.len() + cell];
            &&& new.len() == old.len() + row.cell_count
            &&& forall|k: int| 0 <= k < old.len() ==> #[trigger] new[k] == old[k]
            &&& record.cell_index == cell
            &&& record.row_index == row.row_index
            &&& record.row_group_index == row.row_group_index
            &&& record.table_node == table.table_node
            &&& record.resume_page_index == resume
            &&& record.page_index == resume - 1
            &&& match record.next_fragment_index {
                None => forall|i: int|
                    0 <= i < table.fragments.len() ==> !#[trigger] resumes_later(
                        table,
                        row.row_index,
                        cell as usize,
                        pages,
                        resume,
                        i,
                    ),
                Some(number) => exists|i: int|
                    0 <= i < table.fragments.len() && #[trigger] resumes_later(
                        table,
                        row.row_index,
                        cell as usize,
                        pages,
                        resume,
                        i,
                    ) && table.fragments[i].fragment_index == number && forall|k: int|
                        0 <= k < i ==> !#[trigger] resumes_later(
                            table,
                            row.row_index,
                            cell as usize,
                            pages,
                            resume,
                            k,
                        ),
            }
        }),
{
    lemma_cell_records(builder, table, row, pages, resume, 0);
    lemma_next_fragment(table, row.row_index, cell as usize, pages, resume, 0);
    let old = builder.outcome.table_cell_continuations;
    assert(old.len() + (cell - 0) == old.len() + cell);
    let record = cell_record(table, row, pages, resume, cell);
    assert(record.cell_index == cell);
}

/// The break that is considered at a row of the body is recorded with the rule in force: a break that
/// is demanded before it goes before one demanded behind what stands above, before a group and before
/// a row that ask not to be divided. Only where one of the last two moved the row has it been tried
/// again, once. At the first row of a table nothing is recorded unless a rule is in force.
pub proof fn law_considered_break_is_recorded_with_its_rule(
    table: TableView,
    state: TableState,
    source: Option<Au>,
    position: int,
)
    requires
        state.builder.wf(),
        table.in_range(),
        table.accepted(state.builder.request.available_block_size),
        table.rows.len() <= usize::MAX,
        state.run.wf(table),
        table.body_start() <= position < table.body_end(),
    ensures
        ({
            let after = table.with_row(state, source, position).builder;
            let broken = table.row_after_break(state, source, position).0;
            let old = state.builder.outcome.table_breaks;
            let new = after.outcome.table_breaks;
            let row = table.rows[position];
            let taken = broken.page > state.builder.page;
            let before_it = row.breaks.before || exists|g: int|
                0 <= g < table.groups.len() && (#[trigger] table.groups[g]).first_row_index
                    == position && table.groups[g].breaks.before;
            let avoiding = exists|g: int|
                0 <= g < table.groups.len() && (#[trigger] table.groups[g]).first_row_index
                    == position && table.groups[g].breaks.inside_avoid;
            let rule = if before_it {
                LayoutDebugTableConstraint::ForcedBefore
            } else if break_demanded(table, position) {
                LayoutDebugTableConstraint::ForcedAfter
            } else if avoiding {
                LayoutDebugTableConstraint::AvoidGroup
            } else if row.breaks.inside_avoid {
                LayoutDebugTableConstraint::AvoidRow
            } else {
                LayoutDebugTableConstraint::Auto
            };
            &&& position > 0 || !(rule is Auto) ==> new.len() == old.len() + 1
            &&& new.len() == old.len() || new.len() == old.len() + 1
            &&& new.len() == old.len() + 1 ==> {
                let record = new.last();
                &&& record.constraint == rule
                &&& record.selected == taken
                &&& record.page_index == state.builder.page as usize
                &&& record.next_row_index == row.row_index
                &&& record.row_group_index == row.row_group_index
                &&& record.table_node == table.table_node
                &&& record.resume_page_index == if taken {
                    Some(broken.page as usize)
                } else {
                    None
                }
                &&& record.retry_count <= 1
                &&& record.retry_limit == 1
                &&& record.retry_count == 1 ==> taken && (rule is AvoidGroup || rule is AvoidRow)
                &&& taken && rule is AvoidRow && !row.has_rowspan ==> record.retry_count == 1
            }
        }),
{
    let available = state.builder.request.available_block_size;
    lemma_accepted(table, available);
    let row = table.rows[position];
    assert(row.in_range());
    let start = row.block_start.plus(state.run.translation);
    law_next_page_is_the_first_that_reaches(state.builder, table.header_block_size(), start);
    lemma_starting_group_is(table, available, position);
    lemma_run_holding(table.rows, 0, position);
    lemma_row_divided_keeps(table, state, source, position);
    if exists|g: int|
        0 <= g < table.groups.len() && (#[trigger] table.groups[g]).first_row_index == position
            && table.groups[g].breaks.inside_avoid {
        let g = choose|g: int|
            0 <= g < table.groups.len() && (#[trigger] table.groups[g]).first_row_index == position
                && table.groups[g].breaks.inside_avoid;
        assert(table.starting_group(position) == Some(table.groups[g]));
    }
    if exists|g: int|
        0 <= g < table.groups.len() && (#[trigger] table.groups[g]).first_row_index == position
            && table.groups[g].breaks.before {
        let g = choose|g: int|
            0 <= g < table.groups.len() && (#[trigger] table.groups[g]).first_row_index == position
                && table.groups[g].breaks.before;
        assert(table.starting_group(position) == Some(table.groups[g]));
    }
    if let Some(group) = table.starting_group(position) {
        let g = choose|g: int|
            0 <= g < table.groups.len() && #[trigger] table.groups[g] == group
                && group.first_row_index == position;
        assert(table.groups[g].first_row_index == position);
    }
}

/// A row that is taller than the space below the header, and a group that is and asks not to be
/// divided, leave a warning each where they ask not to be divided; so does a piece of a tall row that
/// is taller than that space. Other rows leave none.
pub proof fn law_rows_and_groups_that_no_page_holds_are_warned_about(
    table: TableView,
    builder: BuilderView,
    position: int,
)
    requires
        builder.wf(),
        table.in_range(),
        table.accepted(builder.request.available_block_size),
        table.rows.len() <= usize::MAX,
        table.body_start() <= position < table.body_end(),
    ensures
        ({
            let after = table.with_row_warnings(builder, position);
            let row = table.rows[position];
            let available = builder.request.available_block_size.0;
            let header_size = table.header_block_size().0;
            let tall = row.block_size.0 + header_size > available;
            let piece = exists|k: int|
                0 <= k < table.fragments.len() && (#[trigger] table.fragments[k]).row_index
                    == row.row_index && table.fragments[k].block_size.0 + header_size > available;
            let group = table.avoided_group(position);
            let old = builder.outcome.warnings;
            let new = after.outcome.warnings;
            &&& after == builder.with_outcome(after.outcome)
            &&& old.is_prefix_of(new)
            &&& group is None ==> new.len() == old.len() + (if tall && row.breaks.inside_avoid {
                1int
            } else {
                0int
            }) + (if tall && piece {
                1int
            } else {
                0int
            })
            &&& tall && row.breaks.inside_avoid ==> new[old.len() as int]
                == (BlockPaginationWarning::OversizedTableRowBreakInsideAvoid {
                child_index: table.child_index,
                table_node: table.table_node,
                row_group_index: row.row_group_index,
                row_index: row.row_index,
                block_size: row.block_size,
                available_block_size: Au((available - header_size) as i32),
                retry_count: 0,
                retry_limit: 1,
            })
            &&& tall && piece ==> new.last() is OversizedTableCell
            &&& group is Some ==> new.len() <= old.len() + 3
        }),
{
    let available = builder.request.available_block_size;
    lemma_accepted(table, available);
    let row = table.rows[position];
    assert(row.in_range());
    let capacity = table.body_page_capacity(available);
    lemma_tall_fragment(table, row.row_index, capacity, 0);
    let old = builder.outcome.warnings;
    let new = table.with_row_warnings(builder, position).outcome.warnings;
    assert(old =~= new.take(old.len() as int));
    let piece = exists|k: int|
        0 <= k < table.fragments.len() && (#[trigger] table.fragments[k]).row_index
            == row.row_index && table.fragments[k].block_size.0 + table.header_block_size().0
            > available.0;
    if piece {
        let k = choose|k: int|
            0 <= k < table.fragments.len() && (#[trigger] table.fragments[k]).row_index
                == row.row_index && table.fragments[k].block_size.0 + table.header_block_size().0
                > available.0;
        assert(table.fragments[k].block_size.0 > capacity.0);
    }
}

proof fn lemma_tall_fragment(table: TableView, row_index: usize, capacity: Au, index: int)
    requires
        0 <= index <= table.fragments.len(),
    ensures
        table.tall_fragment(row_index, capacity, index) is Some <==> exists|k: int|
            index <= k < table.fragments.len() && (#[trigger] table.fragments[k]).row_index
                == row_index && table.fragments[k].block_size.0 > capacity.0,
    decreases table.fragments.len() - index,
{
    if index < table.fragments.len() {
        if table.fragments[index].row_index == row_index && table.fragments[index].block_size.0
            > capacity.0 {
        } else {
            lemma_tall_fragment(table, row_index, capacity, index + 1);
        }
    }
}

proof fn lemma_divided_pages(
    table: TableView,
    builder: BuilderView,
    row: TableRow,
    translation: Au,
    translations: Seq<Au>,
)
    ensures
        builder.page <= table.divided(builder, row, translation, translations).last_page,
{
    lemma_cells_pages(
        table,
        builder.request,
        row,
        translation,
        CellWalk {
            page: builder.page,
            origin: builder.origin,
            shift: Au(0),
        },
        0,
        DividedRow {
            translations,
            pages: Seq::new(table.fragments.len(), |i: int| None),
            extension: Au(0),
            last_page: builder.page,
        },
    );
}

proof fn lemma_cell_pages(
    table: TableView,
    request: BlockPaginationRequest,
    row_index: usize,
    cell_index: usize,
    translation: Au,
    index: int,
    walk: CellWalk,
    divided: DividedRow,
)
    ensures
        divided.last_page <= table.with_cell_divided(
            request,
            row_index,
            cell_index,
            translation,
            index,
            walk,
            divided,
        ).last_page,
    decreases table.fragments.len() - index,
{
    if 0 <= index < table.fragments.len() {
        let fragment = table.fragments[index];
        if fragment.row_index == row_index && fragment.cell_index == cell_index {
            let next = fragment_step(
                request,
                table.header_block_size(),
                translation,
                walk,
                fragment,
            ).0;
            lemma_cell_pages(
                table,
                request,
                row_index,
                cell_index,
                translation,
                index + 1,
                next,
                divided.with_fragment(index, next),
            );
        } else {
            lemma_cell_pages(
                table,
                request,
                row_index,
                cell_index,
                translation,
                index + 1,
                walk,
                divided,
            );
        }
    }
}

proof fn lemma_cells_pages(
    table: TableView,
    request: BlockPaginationRequest,
    row: TableRow,
    translation: Au,
    start: CellWalk,
    cell: int,
    divided: DividedRow,
)
    ensures
        divided.last_page <= table.with_cells_divided(
            request,
            row,
            translation,
            start,
            cell,
            divided,
        ).last_page,
    decreases row.cell_count - cell,
{
    if cell < row.cell_count {
        lemma_cell_pages(
            table,
            request,
            row.row_index,
            cell as usize,
            translation,
            0,
            start,
            divided,
        );
        lemma_cells_pages(
            table,
            request,
            row,
            translation,
            start,
            cell + 1,
            table.with_cell_divided(
                request,
                row.row_index,
                cell as usize,
                translation,
                0,
                start,
                divided,
            ),
        );
    }
}

/// A row that is divided reaches at least the last page that a piece of it stands on, and what stands
/// below it is moved further by as much as the row grows. A tall row with a piece that no page can
/// hold is not divided. The pages that are counted reach as far as the row does.
pub proof fn law_divided_row_moves_what_stands_below_it(
    table: TableView,
    state: TableState,
    source: Option<Au>,
    position: int,
)
    requires
        state.builder.wf(),
        table.in_range(),
        table.accepted(state.builder.request.available_block_size),
        state.run.wf(table),
        table.body_start() <= position < table.body_end(),
    ensures
        ({
            let after = table.with_row(state, source, position);
            let (broken, translation, start) = table.row_after_break(state, source, position);
            let row = table.rows[position];
            let available = state.builder.request.available_block_size.0;
            let header_size = table.header_block_size().0;
            let piece = exists|k: int|
                0 <= k < table.fragments.len() && (#[trigger] table.fragments[k]).row_index
                    == row.row_index && table.fragments[k].block_size.0 + header_size > available;
            let divides = row.block_size.0 + header_size > available && !piece;
            let pages = table.divided(
                table.with_row_warnings(broken, position),
                row,
                translation,
                state.run.fragment_translations,
            );
            &&& !divides ==> after.run.translation == translation
                && after.run.row_extensions[position].0 == 0 && after.run.fragment_translations
                == state.run.fragment_translations
            &&& divides ==> {
                &&& after.run.row_extensions[position] == pages.extension
                &&& after.run.fragment_translations == pages.translations
                &&& after.builder.page >= pages.last_page
                &&& MIN_AU <= translation.0 + pages.extension.0 <= MAX_AU
                    ==> after.run.translation.0 == translation.0 + pages.extension.0
            }
            &&& after.builder.outcome.page_count > after.builder.page
            &&& after.builder.outcome.page_count >= state.builder.outcome.page_count
        }),
{
    let available = state.builder.request.available_block_size;
    lemma_accepted(table, available);
    let row = table.rows[position];
    assert(row.in_range());
    let capacity = table.body_page_capacity(available);
    lemma_tall_fragment(table, row.row_index, capacity, 0);
    lemma_row_divided_keeps(table, state, source, position);
    let (broken, translation, broken_start) = table.row_after_break(state, source, position);
    let warned = table.with_row_warnings(broken, position);
    let (divided_builder, divided, moved) = table.row_divided(
        warned,
        source,
        position,
        translation,
        state.run.fragment_translations,
    );
    let stride = state.builder.request.page_stride;
    let start = row.block_start.plus(state.run.translation);
    law_next_page_is_the_first_that_reaches(state.builder, table.header_block_size(), start);
    lemma_page_reaching_bounds(
        state.builder.page + 1,
        state.builder.origin.plus(stride),
        stride,
        table.header_block_size(),
        start,
    );
    assert((divided.last_page - warned.page) * stride.0 >= 0) by (nonlinear_arith)
        requires
            divided.last_page >= warned.page,
            stride.0 > 0,
    ;
    let piece = exists|k: int|
        0 <= k < table.fragments.len() && (#[trigger] table.fragments[k]).row_index
            == row.row_index && table.fragments[k].block_size.0 + table.header_block_size().0
            > available.0;
    if piece {
        let k = choose|k: int|
            0 <= k < table.fragments.len() && (#[trigger] table.fragments[k]).row_index
                == row.row_index && table.fragments[k].block_size.0 + table.header_block_size().0
                > available.0;
        assert(table.fragments[k].block_size.0 > capacity.0);
    }
    let divides = row.block_size.0 > capacity.0 && !piece;
    let reached = if divides {
        divided_builder
    } else {
        warned
    };
    let end = (if divides {
        row.block_start.plus(moved)
    } else {
        broken_start
    }).plus(row.block_size);
    assert(0 <= warned.origin.0 <= MAX_AU);
    assert(0 <= reached.origin.0 <= MAX_AU);
    lemma_page_holding_bounds(reached.page, reached.origin, stride, end);
    let (page, origin) = page_holding(reached.page, reached.origin, stride, end);
    lemma_page_holding_bounds(page, origin, stride, end);
}

/// A repeated header stands at the top of its page, told by a page and where that starts.
spec fn starts_its_page(
    repeat: TableGroupRepeatDecision,
    page: int,
    origin: Au,
    stride: Au,
) -> bool {
    &&& repeat.page_index > page
    &&& repeat.target_block_start == origin_after(origin, stride, repeat.page_index - page)
}

/// The repeats from the `from`th on stand at the top of their pages.
spec fn start_their_pages(
    repeats: Seq<TableGroupRepeatDecision>,
    from: int,
    page: int,
    origin: Au,
    stride: Au,
) -> bool {
    forall|k: int|
        from <= k < repeats.len() ==> starts_its_page(#[trigger] repeats[k], page, origin, stride)
}

proof fn lemma_origin_after_adds(origin: Au, stride: Au, first: int, second: int)
    requires
        0 <= origin.0 <= MAX_AU,
        0 < stride.0 <= MAX_AU,
        0 <= first,
        0 <= second,
    ensures
        origin_after(origin_after(origin, stride, first), stride, second) == origin_after(
            origin,
            stride,
            first + second,
        ),
{
    assert((first + second) * stride.0 == first * stride.0 + second * stride.0)
        by (nonlinear_arith);
    assert(first * stride.0 >= 0 && second * stride.0 >= 0) by (nonlinear_arith)
        requires
            first >= 0,
            second >= 0,
            stride.0 > 0,
    ;
}

proof fn lemma_cells_keep_repeats(
    builder: BuilderView,
    table: TableView,
    row: TableRow,
    pages: Seq<Option<usize>>,
    resume: int,
    cell: int,
)
    ensures
        builder.with_cell_continuations(
            table,
            row,
            pages,
            resume,
            cell,
        ).outcome.table_group_repeats == builder.outcome.table_group_repeats,
    decreases row.cell_count - cell,
{
    if cell < row.cell_count {
        lemma_cells_keep_repeats(
            builder.with_outcome(
                OutcomeView {
                    table_cell_continuations: builder.outcome.table_cell_continuations.push(
                        cell_record(table, row, pages, resume, cell),
                    ),
                    ..builder.outcome
                },
            ),
            table,
            row,
            pages,
            resume,
            cell + 1,
        );
    }
}

proof fn lemma_resumed_repeats_start_pages(
    builder: BuilderView,
    table: TableView,
    row: TableRow,
    source: Option<Au>,
    pages: Seq<Option<usize>>,
    first: int,
    first_origin: Au,
    resume: int,
    last: int,
    from: int,
    page: int,
    origin: Au,
)
    requires
        0 <= origin.0 <= MAX_AU,
        builder.request.wf(),
        0 <= page <= first < resume,
        0 <= from,
        last <= usize::MAX,
        first_origin == origin_after(origin, builder.request.page_stride, first - page),
        start_their_pages(
            builder.outcome.table_group_repeats,
            from,
            page,
            origin,
            builder.request.page_stride,
        ),
    ensures
        start_their_pages(
            builder.with_row_resumed(
                table,
                row,
                source,
                pages,
                first,
                first_origin,
                resume,
                last,
            ).outcome.table_group_repeats,
            from,
            page,
            origin,
            builder.request.page_stride,
        ),
    decreases last - resume + 1,
{
    if resume <= last {
        let stride = builder.request.page_stride;
        let target = origin_after(first_origin, stride, resume - first);
        let continued = builder.with_outcome(
            builder.outcome.with_continuation(
                PageContinuation {
                    page_index: (resume - 1) as usize,
                    token: FragmentainerContinuation::Table(
                        TableContinuationToken {
                            child_index: table.child_index,
                            table_node: table.table_node,
                            row_group_index: row.row_group_index,
                            next_row_index: row.row_index,
                            resume_page_index: resume as usize,
                        },
                    ),
                },
            ),
        );
        let repeated = continued.with_header_repeat(table, source, resume, target);
        let next = repeated.with_cell_continuations(table, row, pages, resume, 0);
        lemma_origin_after_adds(origin, stride, first - page, resume - first);
        lemma_cells_keep(repeated, table, row, pages, resume, 0);
        lemma_cells_keep_repeats(repeated, table, row, pages, resume, 0);
        let old = builder.outcome.table_group_repeats;
        let new = repeated.outcome.table_group_repeats;
        assert forall|k: int| from <= k < new.len() implies starts_its_page(
            #[trigger] new[k],
            page,
            origin,
            stride,
        ) by {
            if k < old.len() {
                assert(new[k] == old[k]);
            }
        }
        lemma_resumed_repeats_start_pages(
            next,
            table,
            row,
            source,
            pages,
            first,
            first_origin,
            resume + 1,
            last,
            from,
            page,
            origin,
        );
    }
}

/// The break before a row leads to a page that starts among the lengths that there are.
proof fn lemma_break_stays_in_range(
    table: TableView,
    state: TableState,
    source: Option<Au>,
    position: int,
)
    requires
        state.builder.wf(),
        table.in_range(),
        table.accepted(state.builder.request.available_block_size),
        table.body_start() <= position < table.body_end(),
    ensures
        state.builder.page <= table.row_after_break(state, source, position).0.page,
        0 <= table.row_after_break(state, source, position).0.origin.0 <= MAX_AU,
{
    let builder = state.builder;
    let stride = builder.request.page_stride;
    lemma_accepted(table, builder.request.available_block_size);
    lemma_page_reaching_bounds(
        builder.page + 1,
        builder.origin.plus(stride),
        stride,
        table.header_block_size(),
        table.rows[position].block_start.plus(state.run.translation),
    );
}

/// Where the break before a row leads, told by the page it started from, and that it repeats the
/// header there.
proof fn lemma_break_repeats_at_the_top(
    table: TableView,
    state: TableState,
    source: Option<Au>,
    position: int,
)
    requires
        state.builder.wf(),
        table.in_range(),
        table.accepted(state.builder.request.available_block_size),
        state.run.wf(table),
        table.body_start() <= position < table.body_end(),
        0 <= state.builder.page,
        table.row_after_break(state, source, position).0.page <= usize::MAX,
    ensures
        ({
            let builder = state.builder;
            let stride = builder.request.page_stride;
            let (broken, translation, _) = table.row_after_break(state, source, position);
            let warned = table.with_row_warnings(broken, position);
            &&& broken.page >= builder.page
            &&& 0 <= broken.origin.0 <= MAX_AU
            &&& broken.origin == origin_after(builder.origin, stride, broken.page - builder.page)
            &&& warned.page == broken.page && warned.origin == broken.origin
            &&& start_their_pages(
                warned.outcome.table_group_repeats,
                builder.outcome.table_group_repeats.len() as int,
                builder.page,
                builder.origin,
                stride,
            )
        }),
{
    let builder = state.builder;
    let stride = builder.request.page_stride;
    lemma_accepted(table, builder.request.available_block_size);
    let row = table.rows[position];
    assert(row.in_range());
    let start = row.block_start.plus(state.run.translation);
    law_page_reaching_is_first(
        builder.page + 1,
        builder.origin.plus(stride),
        stride,
        table.header_block_size(),
        start,
    );
    lemma_page_reaching_bounds(
        builder.page + 1,
        builder.origin.plus(stride),
        stride,
        table.header_block_size(),
        start,
    );
    let broken = table.row_after_break(state, source, position).0;
    lemma_origin_after_step(
        builder.origin,
        stride,
        if broken.page > builder.page {
            broken.page - builder.page - 1
        } else {
            0
        },
    );
}

/// The page that a row has reached, and the headers repeated by then, before the row is passed.
proof fn lemma_row_reaches(table: TableView, state: TableState, source: Option<Au>, position: int)
    requires
        state.builder.request.wf(),
        0 <= table.row_after_break(state, source, position).0.origin.0 <= MAX_AU,
    ensures
        ({
            let (broken, translation, _) = table.row_after_break(state, source, position);
            let warned = table.with_row_warnings(broken, position);
            let divided = table.row_divided(
                warned,
                source,
                position,
                translation,
                state.run.fragment_translations,
            ).0;
            let after = table.with_row(state, source, position).builder;
            let repeats = after.outcome.table_group_repeats;
            ||| repeats == warned.outcome.table_group_repeats && warned.page <= after.page
            ||| repeats == divided.outcome.table_group_repeats && divided.page <= after.page
        }),
{
    let row = table.rows[position];
    let stride = state.builder.request.page_stride;
    lemma_row_divided_keeps(table, state, source, position);
    let (broken, translation, broken_start) = table.row_after_break(state, source, position);
    let warned = table.with_row_warnings(broken, position);
    let (divided, pages, moved) = table.row_divided(
        warned,
        source,
        position,
        translation,
        state.run.fragment_translations,
    );
    assert((pages.last_page - warned.page) * stride.0 >= 0) by (nonlinear_arith)
        requires
            pages.last_page >= warned.page,
            stride.0 > 0,
    ;
    lemma_page_holding_bounds(
        warned.page,
        warned.origin,
        stride,
        broken_start.plus(row.block_size),
    );
    lemma_page_holding_bounds(
        divided.page,
        divided.origin,
        stride,
        row.block_start.plus(moved).plus(row.block_size),
    );
}

/// Where a break before a row, or the division of a row, has the header painted again, it is painted
/// at the very top of the page that resumes.
pub proof fn law_repeated_header_stands_at_the_top_of_its_page(
    table: TableView,
    state: TableState,
    source: Option<Au>,
    position: int,
    k: int,
)
    requires
        state.builder.wf(),
        table.in_range(),
        table.accepted(state.builder.request.available_block_size),
        state.run.wf(table),
        table.body_start() <= position < table.body_end(),
        0 <= state.builder.page,
        table.with_row(state, source, position).builder.page <= usize::MAX,
        state.builder.outcome.table_group_repeats.len() <= k < table.with_row(
            state,
            source,
            position,
        ).builder.outcome.table_group_repeats.len(),
    ensures
        ({
            let repeat = table.with_row(
                state,
                source,
                position,
            ).builder.outcome.table_group_repeats[k];
            let top = state.builder.origin.0 + (repeat.page_index - state.builder.page)
                * state.builder.request.page_stride.0;
            &&& repeat.page_index > state.builder.page
            &&& top <= MAX_AU ==> repeat.target_block_start.0 == top
            &&& top > MAX_AU ==> repeat.target_block_start.0 == MAX_AU
        }),
{
    let builder = state.builder;
    let stride = builder.request.page_stride;
    let row = table.rows[position];
    let (broken, translation, _) = table.row_after_break(state, source, position);
    let warned = table.with_row_warnings(broken, position);
    let from = builder.outcome.table_group_repeats.len() as int;
    lemma_row_divided_keeps(table, state, source, position);
    lemma_break_stays_in_range(table, state, source, position);
    lemma_row_reaches(table, state, source, position);
    lemma_break_repeats_at_the_top(table, state, source, position);
    let (divided_builder, divided, _) = table.row_divided(
        warned,
        source,
        position,
        translation,
        state.run.fragment_translations,
    );
    let repeats = table.with_row(state, source, position).builder.outcome.table_group_repeats;
    if repeats != warned.outcome.table_group_repeats {
        let last = table.last_fragment(row.row_index, table.fragments.len() as int)->0;
        let noted = if divided.last_page == warned.page {
            warned.with_cell_warning(
                table,
                TableCellFragment {
                    row_index: row.row_index,
                    cell_index: last.cell_index,
                    fragment_index: (last.fragment_index + 1) as usize,
                    block_start: row.block_start,
                    block_size: row.block_size,
                },
            )
        } else {
            warned
        };
        lemma_resumed_repeats_start_pages(
            noted,
            table,
            row,
            source,
            divided.pages,
            warned.page,
            warned.origin,
            warned.page + 1,
            divided.last_page,
            from,
            builder.page,
            builder.origin,
        );
    }
    let repeat = repeats[k];
    assert(starts_its_page(repeat, builder.page, builder.origin, stride));
    assert((repeat.page_index - builder.page) * stride.0 >= 0) by (nonlinear_arith)
        requires
            repeat.page_index > builder.page,
            stride.0 > 0,
    ;
}

/// The pages that are counted reach as far as a row does, where it stands in the end and with what it
/// has grown by.
pub proof fn law_pages_reach_as_far_as_a_row(
    table: TableView,
    state: TableState,
    source: Option<Au>,
    position: int,
)
    requires
        state.builder.wf(),
        table.in_range(),
        table.accepted(state.builder.request.available_block_size),
        state.run.wf(table),
        0 <= state.run.translation.0,
        table.body_start() <= position < table.body_end(),
        table.rows[position].block_start.0 + state.run.translation.0 > -MAX_AU,
        table.with_row(state, source, position).run.translation.0 < MAX_AU,
        table.rows[position].block_start.0 + table.with_row(
            state,
            source,
            position,
        ).run.translation.0 < MAX_AU,
        table.rows[position].block_start.0 + table.with_row(
            state,
            source,
            position,
        ).run.translation.0 + table.rows[position].block_size.0 < MAX_AU,
    ensures
        ({
            let after = table.with_row(state, source, position);
            let row = table.rows[position];
            row.block_start.0 + after.run.translation.0 + row.block_size.0
                <= after.builder.origin.0 + (after.builder.outcome.page_count
                - after.builder.page) * after.builder.request.page_stride.0
        }),
{
    let available = state.builder.request.available_block_size;
    lemma_accepted(table, available);
    let row = table.rows[position];
    assert(row.in_range());
    law_table_row_moves_down(table, state, source, position);
    let after = table.with_row(state, source, position);
    let start = row.block_start.plus(state.run.translation);
    law_next_page_is_the_first_that_reaches(state.builder, table.header_block_size(), start);
    let end = row.block_start.plus(after.run.translation).plus(row.block_size);
    law_pages_are_counted_as_far_as_content_reaches(after.builder, end);
    lemma_row_is_counted(table, state, source, position);
}

/// The end of a row is counted from the page that it leaves.
proof fn lemma_row_is_counted(
    table: TableView,
    state: TableState,
    source: Option<Au>,
    position: int,
)
    requires
        state.builder.wf(),
        table.in_range(),
        table.accepted(state.builder.request.available_block_size),
        state.run.wf(table),
        0 <= state.run.translation.0,
        table.body_start() <= position < table.body_end(),
        table.rows[position].block_start.0 + state.run.translation.0 > -MAX_AU,
        table.with_row(state, source, position).run.translation.0 < MAX_AU,
        table.rows[position].block_start.0 + table.with_row(
            state,
            source,
            position,
        ).run.translation.0 < MAX_AU,
    ensures
        ({
            let after = table.with_row(state, source, position);
            let row = table.rows[position];
            let end = row.block_start.plus(after.run.translation).plus(row.block_size);
            after.builder.outcome.page_count > page_holding(
                after.builder.page,
                after.builder.origin,
                after.builder.request.page_stride,
                end,
            ).0
        }),
{
    let available = state.builder.request.available_block_size;
    lemma_accepted(table, available);
    let row = table.rows[position];
    assert(row.in_range());
    law_table_row_moves_down(table, state, source, position);
    let after = table.with_row(state, source, position);
    let start = row.block_start.plus(state.run.translation);
    law_next_page_is_the_first_that_reaches(state.builder, table.header_block_size(), start);
    let (broken, translation, broken_start) = table.row_after_break(state, source, position);
    assert(after.run.row_translations[position] == translation);
    assert(broken_start == row.block_start.plus(translation));
}

/// The pages that are counted reach as far as the footer does, where it stands in the end.
pub proof fn law_pages_reach_as_far_as_the_footer(
    table: TableView,
    state: TableState,
    source: Option<Au>,
    g: int,
)
    requires
        state.builder.wf(),
        table.in_range(),
        table.accepted(state.builder.request.available_block_size),
        state.run.wf(table),
        0 <= state.run.translation.0,
        0 <= g < table.groups.len(),
        table.footer() == Some(table.groups[g]),
        table.groups[g].block_start.0 + state.run.translation.0 > -MAX_AU,
        table.with_footer(state, source).run.translation.0 < MAX_AU,
        table.groups[g].block_start.0 + table.with_footer(state, source).run.translation.0 < MAX_AU,
        table.groups[g].block_start.0 + table.with_footer(state, source).run.translation.0
            + table.groups[g].block_size.0 < MAX_AU,
    ensures
        ({
            let after = table.with_footer(state, source);
            let footer = table.groups[g];
            footer.block_start.0 + after.run.translation.0 + footer.block_size.0
                <= after.builder.origin.0 + (after.builder.outcome.page_count
                - after.builder.page) * after.builder.request.page_stride.0
        }),
{
    lemma_accepted(table, state.builder.request.available_block_size);
    let footer = table.groups[g];
    assert(footer.in_range());
    let stride = state.builder.request.page_stride;
    let after = table.with_footer(state, source);
    let start = footer.block_start.plus(state.run.translation);
    law_next_page_is_the_first_that_reaches(state.builder, table.header_block_size(), start);
    lemma_page_reaching_bounds(
        state.builder.page + 1,
        state.builder.origin.plus(stride),
        stride,
        table.header_block_size(),
        start,
    );
    let end = footer.block_start.plus(after.run.translation).plus(footer.block_size);
    assert(after.builder.wf());
    law_pages_are_counted_as_far_as_content_reaches(after.builder, end);
}

/// The pages that are counted reach as far as the header does, where it stands in the end.
pub proof fn law_pages_reach_as_far_as_the_header(table: TableView, state: TableState, g: int)
    requires
        state.builder.wf(),
        table.in_range(),
        table.accepted(state.builder.request.available_block_size),
        state.run.wf(table),
        0 <= state.run.translation.0,
        0 <= g < table.groups.len(),
        table.header() == Some(table.groups[g]),
        table.groups[g].block_start.0 + state.run.translation.0 > -MAX_AU,
        table.with_header(state).run.translation.0 < MAX_AU,
        table.groups[g].block_start.0 + table.with_header(state).run.translation.0 < MAX_AU,
        table.groups[g].block_start.0 + table.with_header(state).run.translation.0
            + table.groups[g].block_size.0 < MAX_AU,
    ensures
        ({
            let after = table.with_header(state);
            let header = table.groups[g];
            header.block_start.0 + after.run.translation.0 + header.block_size.0
                <= after.builder.origin.0 + (after.builder.outcome.page_count
                - after.builder.page) * after.builder.request.page_stride.0
        }),
{
    lemma_accepted(table, state.builder.request.available_block_size);
    let header = table.groups[g];
    assert(header.in_range());
    let stride = state.builder.request.page_stride;
    let after = table.with_header(state);
    let start = header.block_start.plus(state.run.translation);
    law_next_page_is_the_first_that_reaches(state.builder, Au(0), start);
    lemma_page_reaching_bounds(
        state.builder.page + 1,
        state.builder.origin.plus(stride),
        stride,
        Au(0),
        start,
    );
    let end = header.block_start.plus(after.run.translation).plus(header.block_size);
    assert(after.builder.wf());
    law_pages_are_counted_as_far_as_content_reaches(after.builder, end);
}

/// The break that is considered at the footer is recorded with the rule in force, as at a row; one
/// that was taken for a footer or row that asks not to be divided has been tried again, once.
pub proof fn law_footer_is_recorded_with_its_rule(
    table: TableView,
    state: TableState,
    source: Option<Au>,
    g: int,
)
    requires
        0 <= g < table.groups.len(),
        table.footer() == Some(table.groups[g]),
        table.groups[g].first_row_index < table.rows.len(),
    ensures
        ({
            let after = table.with_footer(state, source).builder;
            let footer = table.groups[g];
            let first = table.rows[footer.first_row_index as int];
            let record = after.outcome.table_breaks.last();
            let behind = footer.first_row_index > 0 && (table.rows[footer.first_row_index
                - 1].breaks.after || exists|h: int|
                0 <= h < table.groups.len() && (#[trigger] table.groups[h]).end_row_index
                    == footer.first_row_index && table.groups[h].breaks.after);
            let rule = if first.breaks.before || footer.breaks.before {
                LayoutDebugTableConstraint::ForcedBefore
            } else if behind {
                LayoutDebugTableConstraint::ForcedAfter
            } else if footer.breaks.inside_avoid {
                LayoutDebugTableConstraint::AvoidGroup
            } else if first.breaks.inside_avoid {
                LayoutDebugTableConstraint::AvoidRow
            } else {
                LayoutDebugTableConstraint::Auto
            };
            &&& after.outcome.table_breaks.len() == state.builder.outcome.table_breaks.len() + 1
            &&& record.constraint == rule
            &&& record.table_node == table.table_node
            &&& record.row_group_index == Some(footer.row_group_index)
            &&& record.retry_limit == 1
            &&& record.retry_count == if record.selected && (rule is AvoidGroup || rule
                is AvoidRow) {
                1int
            } else {
                0int
            }
        }),
{
}

/// The break that is considered at the header is recorded only where a rule is in force, and with
/// that rule.
pub proof fn law_header_is_recorded_with_its_rule(table: TableView, state: TableState, g: int)
    requires
        0 <= g < table.groups.len(),
        table.header() == Some(table.groups[g]),
        table.groups[g].first_row_index < table.rows.len(),
    ensures
        ({
            let after = table.with_header(state).builder;
            let header = table.groups[g];
            let first = table.rows[header.first_row_index as int];
            let old = state.builder.outcome.table_breaks;
            let new = after.outcome.table_breaks;
            let rule = if first.breaks.before || header.breaks.before {
                LayoutDebugTableConstraint::ForcedBefore
            } else if header.breaks.inside_avoid {
                LayoutDebugTableConstraint::AvoidGroup
            } else if first.breaks.inside_avoid {
                LayoutDebugTableConstraint::AvoidRow
            } else {
                LayoutDebugTableConstraint::Auto
            };
            &&& rule is Auto ==> new == old
            &&& !(rule is Auto) ==> {
                &&& new.len() == old.len() + 1
                &&& new.last().constraint == rule
                &&& new.last().table_node == table.table_node
                &&& new.last().next_row_index == header.first_row_index
                &&& new.last().row_group_index == Some(header.row_group_index)
                &&& new.last().page_index == state.builder.page as usize
                &&& new.last().retry_limit == 1
                &&& new.last().retry_count == if new.last().selected && !(rule is ForcedBefore) {
                    1int
                } else {
                    0int
                }
            }
        }),
{
}

/// A group of the body that asks not to be divided and is taller, from its first row to the end of
/// its last, than the space below the header leaves a warning with that size, where its first row
/// is placed; one that is not leaves none.
pub proof fn law_groups_that_no_page_holds_are_warned_about(
    table: TableView,
    builder: BuilderView,
    position: int,
    g: int,
)
    requires
        builder.wf(),
        table.in_range(),
        table.accepted(builder.request.available_block_size),
        table.rows.len() <= usize::MAX,
        table.body_start() <= position < table.body_end(),
        0 <= g < table.groups.len(),
        table.groups[g].first_row_index == position,
        table.groups[g].breaks.inside_avoid,
        0 < table.groups[g].end_row_index <= table.rows.len(),
        ({
            let last = table.rows[table.groups[g].end_row_index - 1];
            &&& last.block_start.0 + last.block_size.0 <= MAX_AU
            &&& MIN_AU <= last.block_start.0 + last.block_size.0
                - table.rows[position].block_start.0 <= MAX_AU
        }),
    ensures
        ({
            let after = table.with_row_warnings(builder, position);
            let row = table.rows[position];
            let last = table.rows[table.groups[g].end_row_index - 1];
            let size = last.block_start.0 + last.block_size.0 - row.block_start.0;
            let available = builder.request.available_block_size.0;
            let header_size = table.header_block_size().0;
            let tall = row.block_size.0 + header_size > available;
            let before_it = builder.outcome.warnings.len() + (if tall && row.breaks.inside_avoid {
                1int
            } else {
                0int
            });
            let new = after.outcome.warnings;
            let group_warning = BlockPaginationWarning::OversizedTableRowGroupBreakInsideAvoid {
                child_index: table.child_index,
                table_node: table.table_node,
                row_group_index: table.groups[g].row_group_index,
                block_size: Au(size as i32),
                available_block_size: Au((available - header_size) as i32),
                retry_count: 0,
                retry_limit: 1,
            };
            if size + header_size > available {
                new.len() > before_it && new[before_it] == group_warning
            } else {
                new.len() > before_it ==> new[before_it] is OversizedTableCell
            }
        }),
{
    let available = builder.request.available_block_size;
    lemma_accepted(table, available);
    let row = table.rows[position];
    assert(row.in_range());
    let last = table.rows[table.groups[g].end_row_index - 1];
    assert(last.in_range());
    lemma_starting_group_is(table, available, position);
    assert(table.starting_group(position) == Some(table.groups[g]));
}

} // verus!
