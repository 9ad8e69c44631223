//! What holds of dividing a table, told by lengths and by what its rows and groups demand.
use crate::au::{Au, MAX_AU};
use crate::pages::flow::{BuilderView, ChildPageBreaks, FragmentainerContinuation};
use crate::pages::flow_laws::law_next_page_is_the_first_that_reaches;
use crate::pages::laws::law_table_row_moves_down;
use crate::pages::table_flow::{lemma_accepted, TableState};
use crate::pages::table_rules::{
    first_group, group_starting, range_holding, rowspan_ranges, rowspan_run_end, RowRange,
    TableRow, TableRowGroup, TableRowGroupKind, TableView,
};
use vstd::prelude::*;

verus! {

/// A break is demanded between the rows above row `position` and that row, by a row or by a group.
pub open spec fn break_demanded(table: TableView, position: int) -> bool {
    ||| table.rows[position].breaks.before
    ||| exists|g: int|
        0 <= g < table.groups.len() && (#[trigger] table.groups[g]).first_row_index == position
            && table.groups[g].breaks.before
    ||| position > 0 && table.rows[position - 1].breaks.after
    ||| position > 0 && exists|g: int|
        0 <= g < table.groups.len() && (#[trigger] table.groups[g]).end_row_index == position
            && table.groups[g].breaks.after
}

/// A rowspan ties row `position` to the row above it.
pub open spec fn tied_to_row_above(table: TableView, position: int) -> bool {
    position > 0 && table.rows[position - 1].has_rowspan && table.rows[position].has_rowspan
}

pub proof fn lemma_groups_in_order(table: TableView, available: Au, i: int, j: int)
    requires
        table.supported(available),
        0 <= i < j < table.groups.len(),
    ensures
        table.groups[i].end_row_index <= table.groups[j].first_row_index,
        table.groups[i].first_row_index < table.groups[i].end_row_index,
        table.groups[j].first_row_index < table.groups[j].end_row_index <= table.rows.len(),
    decreases j - i,
{
    assert(table.group_in_order(j));
    assert(table.group_in_order(i));
    if i + 1 < j {
        lemma_groups_in_order(table, available, i, j - 1);
    }
}

pub proof fn lemma_first_group_is(
    groups: Seq<TableRowGroup>,
    index: int,
    kind: TableRowGroupKind,
    g: int,
)
    requires
        0 <= index <= g < groups.len(),
        groups[g].kind == kind,
        forall|i: int| index <= i < g ==> (#[trigger] groups[i]).kind != kind,
    ensures
        first_group(groups, index, kind) == Some(groups[g]),
    decreases g - index,
{
    if index < g {
        lemma_first_group_is(groups, index + 1, kind, g);
    }
}

pub proof fn lemma_no_first_group(groups: Seq<TableRowGroup>, index: int, kind: TableRowGroupKind)
    requires
        0 <= index,
        forall|i: int| index <= i < groups.len() ==> (#[trigger] groups[i]).kind != kind,
    ensures
        first_group(groups, index, kind) is None,
    decreases groups.len() - index,
{
    if index < groups.len() {
        lemma_no_first_group(groups, index + 1, kind);
    }
}

pub proof fn lemma_first_group_found(groups: Seq<TableRowGroup>, index: int, kind: TableRowGroupKind)
    requires
        0 <= index <= groups.len(),
    ensures
        first_group(groups, index, kind) matches Some(group) ==> exists|g: int|
            index <= g < groups.len() && #[trigger] groups[g] == group && group.kind == kind
                && forall|i: int| index <= i < g ==> (#[trigger] groups[i]).kind != kind,
        first_group(groups, index, kind) is None ==> forall|i: int|
            index <= i < groups.len() ==> (#[trigger] groups[i]).kind != kind,
    decreases groups.len() - index,
{
    if index < groups.len() {
        if groups[index].kind == kind {
            assert(groups[index] == groups[index]);
        } else {
            lemma_first_group_found(groups, index + 1, kind);
        }
    }
}

/// The footer is the one footer group of a table, and ends the table; the header is the one that
/// starts it.
pub proof fn lemma_footer_is(table: TableView, available: Au, g: int)
    requires
        0 < available.0 <= MAX_AU,
        table.in_range(),
        table.accepted(available),
        0 <= g < table.groups.len(),
        table.groups[g].kind == TableRowGroupKind::Footer,
    ensures
        table.footer() == Some(table.groups[g]),
        table.groups[g].first_row_index < table.groups[g].end_row_index,
        table.groups[g].end_row_index == table.rows.len(),
{
    lemma_accepted(table, available);
    lemma_first_group_found(table.groups, 0, TableRowGroupKind::Footer);
    if table.footer() is None {
        assert(table.groups[g].kind != TableRowGroupKind::Footer);
    }
    let found = table.footer()->0;
    let f = choose|f: int|
        0 <= f < table.groups.len() && #[trigger] table.groups[f] == found && found.kind
            == TableRowGroupKind::Footer && forall|i: int|
            0 <= i < f ==> (#[trigger] table.groups[i]).kind != TableRowGroupKind::Footer;
    if g < f {
        assert(table.groups[g].kind != TableRowGroupKind::Footer);
    } else if f < g {
        lemma_groups_in_order(table, available, f, g);
    }
}

/// The state of a table behind its rows.
proof fn lemma_rows_keep_state(
    table: TableView,
    state: TableState,
    source: Option<Au>,
    position: int,
    end: int,
)
    requires
        state.builder.wf(),
        table.in_range(),
        table.accepted(state.builder.request.available_block_size),
        state.run.wf(table),
        table.body_start() <= position,
        end <= table.body_end(),
    ensures
        ({
            let after = table.with_rows(state, source, position, end);
            &&& after.builder.wf()
            &&& after.builder.request == state.builder.request
            &&& after.run.wf(table)
            &&& state.run.translation.0 <= after.run.translation.0
            &&& after.run.page_has_content == (state.run.page_has_content || position < end)
        }),
    decreases end - position,
{
    if position < end {
        lemma_accepted(table, state.builder.request.available_block_size);
        law_table_row_moves_down(table, state, source, position);
        lemma_rows_keep_state(
            table,
            table.with_row(state, source, position),
            source,
            position + 1,
            end,
        );
    }
}

/// A table behind the break before it, if one is demanded, and behind its header.
proof fn lemma_headed(
    before: BuilderView,
    table: TableView,
    position: Au,
    fresh: Au,
    breaks: ChildPageBreaks,
)
    requires
        before.wf(),
        table.in_range(),
        table.accepted(before.request.available_block_size),
        position.in_range(),
    ensures
        ({
            let headed = table.with_header(before.at_table(table, position, fresh, breaks));
            let demanded = before.has_content && (before.previous_break_after || breaks.before);
            &&& headed.builder.wf()
            &&& headed.builder.request == before.request
            &&& headed.run.wf(table)
            &&& 0 <= headed.run.translation.0
            &&& headed.run.page_has_content == (table.header() is Some || (before.has_content
                && !demanded))
        }),
{
    lemma_accepted(table, before.request.available_block_size);
    law_next_page_is_the_first_that_reaches(before, Au(0), position);
    let entered = before.at_table(table, position, fresh, breaks);
    assert(entered.builder.wf() && entered.builder.request == before.request);
    if let Some(header) = table.header() {
        law_next_page_is_the_first_that_reaches(
            entered.builder,
            Au(0),
            header.block_start.plus(entered.run.translation),
        );
    }
}

/// The footer of an accepted table moves to a new page exactly where something stands above it on
/// the page and a break is demanded before it or it passes the end of the page; it then stands below
/// the repeated header. Else it is moved as far as the rows above it. All of its rows are moved
/// equally far, no other row is, and the decision is recorded.
pub proof fn law_footer_moves_only_where_it_must(
    table: TableView,
    state: TableState,
    source: Option<Au>,
    g: int,
)
    requires
        state.builder.wf(),
        table.in_range(),
        table.accepted(state.builder.request.available_block_size),
        state.run.wf(table),
        0 <= state.run.translation.0,
        0 <= g < table.groups.len(),
        table.groups[g].kind == TableRowGroupKind::Footer,
        table.groups[g].block_start.0 + state.run.translation.0 + table.groups[g].block_size.0
            < MAX_AU,
        table.groups[g].block_start.0 + state.run.translation.0 > -MAX_AU,
        table.with_footer(state, source).run.translation.0 < MAX_AU,
    ensures
        ({
            let after = table.with_footer(state, source);
            let footer = table.groups[g];
            let first = footer.first_row_index as int;
            let available = state.builder.request.available_block_size.0;
            let start = footer.block_start.0 + state.run.translation.0;
            let demanded = break_demanded(table, first);
            let fits = start + footer.block_size.0 <= state.builder.origin.0 + available;
            let moves = state.run.page_has_content && (demanded || !fits);
            let old = state.builder.outcome;
            let new = after.builder.outcome;
            &&& after.builder.page > state.builder.page <==> moves
            &&& moves ==> {
                &&& footer.block_start.0 + after.run.translation.0 <= after.builder.origin.0
                    + table.header_block_size().0
                &&& after.builder.origin.0 + table.header_block_size().0 <= MAX_AU
                    ==> footer.block_start.0 + after.run.translation.0 == after.builder.origin.0
                    + table.header_block_size().0
                &&& start <= after.builder.origin.0 + table.header_block_size().0
                &&& new.continuations.len() == old.continuations.len() + 1
                &&& new.continuations.last().page_index == state.builder.page as usize
                &&& new.continuations.last().token matches FragmentainerContinuation::Table(token)
                    && token.resume_page_index == after.builder.page as usize
                    && token.next_row_index == footer.first_row_index && token.row_group_index
                    == Some(footer.row_group_index) && token.child_index == table.child_index
                    && token.table_node == table.table_node
            }
            &&& !moves ==> {
                &&& after.run.translation == state.run.translation
                &&& after.builder.page == state.builder.page
                &&& after.builder.origin == state.builder.origin
                &&& new.continuations == old.continuations
                &&& new.table_group_repeats == old.table_group_repeats
            }
            &&& new.warnings == old.warnings
            &&& new.table_breaks.len() == old.table_breaks.len() + 1
            &&& new.table_breaks.last().selected == moves
            &&& new.table_breaks.last().page_index == state.builder.page as usize
            &&& new.table_breaks.last().next_row_index == footer.first_row_index
            &&& new.table_breaks.last().resume_page_index == if moves {
                Some(after.builder.page as usize)
            } else {
                None
            }
            &&& after.run.row_extensions == state.run.row_extensions
            &&& after.run.fragment_translations == state.run.fragment_translations
            &&& after.run.row_translations.len() == table.rows.len()
            &&& forall|i: int|
                0 <= i < table.rows.len() ==> #[trigger] after.run.row_translations[i] == if i
                    < first {
                    state.run.row_translations[i]
                } else {
                    after.run.translation
                }
        }),
{
    let available = state.builder.request.available_block_size;
    lemma_accepted(table, available);
    lemma_footer_is(table, available, g);
    let footer = table.groups[g];
    let first = footer.first_row_index as int;
    let start = footer.block_start.plus(state.run.translation);
    law_next_page_is_the_first_that_reaches(state.builder, table.header_block_size(), start);
    let constraint = table.footer_constraint(footer);
    lemma_break_demanded_at_group(table, available, g);
    if table.group_break_after(first) {
        let k = choose|k: int|
            0 <= k < table.groups.len() && (#[trigger] table.groups[k]).end_row_index == first
                && table.groups[k].breaks.after;
        assert(table.groups[k].end_row_index == first);
    }
}

/// The breaks that are demanded at the first row of a group.
proof fn lemma_break_demanded_at_group(table: TableView, available: Au, g: int)
    requires
        table.supported(available),
        0 <= g < table.groups.len(),
    ensures
        ({
            let first = table.groups[g].first_row_index as int;
            break_demanded(table, first) <==> table.rows[first].breaks.before
                || table.groups[g].breaks.before || table.forced_after(first)
        }),
{
    let first = table.groups[g].first_row_index as int;
    assert(table.groups[g].first_row_index == first);
    assert forall|k: int| 0 <= k < table.groups.len() && (#[trigger]
    table.groups[k]).first_row_index == first implies k == g by {
        if k < g {
            lemma_groups_in_order(table, available, k, g);
        } else if g < k {
            lemma_groups_in_order(table, available, g, k);
        }
    }
}

/// Where an accepted table with a footer has been placed and no length reaches the limit of app
/// units, the footer ends within the space of the page that it stands on, if anything stood on that
/// page before it. All of its rows are moved equally far.
pub proof fn law_footer_fits_its_page(
    before: BuilderView,
    table: TableView,
    position: Au,
    fresh: Au,
    breaks: ChildPageBreaks,
    g: int,
)
    requires
        before.wf(),
        table.in_range(),
        table.accepted(before.request.available_block_size),
        position.in_range(),
        0 <= g < table.groups.len(),
        table.groups[g].kind == TableRowGroupKind::Footer,
        table.groups[g].first_row_index > 0 || (before.has_content && !(before.previous_break_after
            || breaks.before)),
        ({
            let placed = before.with_table_rows(table, position, fresh, breaks);
            let footer = table.groups[g];
            let moved = placed.run.row_translations[footer.first_row_index as int].0;
            moved < MAX_AU && footer.block_start.0 + moved + footer.block_size.0 < MAX_AU
        }),
    ensures
        ({
            let placed = before.with_table_rows(table, position, fresh, breaks);
            let footer = table.groups[g];
            let moved = placed.run.row_translations[footer.first_row_index as int];
            &&& footer.block_start.0 + moved.0 + footer.block_size.0 <= placed.builder.origin.0
                + before.request.available_block_size.0
            &&& 0 <= moved.0
            &&& footer.end_row_index == table.rows.len()
            &&& forall|i: int|
                footer.first_row_index <= i < table.rows.len()
                    ==> #[trigger] placed.run.row_translations[i] == moved
        }),
{
    let available = before.request.available_block_size;
    lemma_accepted(table, available);
    lemma_footer_is(table, available, g);
    lemma_headed(before, table, position, fresh, breaks);
    let headed = table.with_header(before.at_table(table, position, fresh, breaks));
    let source = match table.header() {
        Some(header) => Some(header.block_start.plus(headed.run.translation)),
        None => None,
    };
    lemma_rows_keep_state(table, headed, source, table.body_start(), table.body_end());
    let rows = table.with_rows(headed, source, table.body_start(), table.body_end());
    let footer = table.groups[g];
    let start = footer.block_start.plus(rows.run.translation);
    law_next_page_is_the_first_that_reaches(rows.builder, table.header_block_size(), start);
    let footed = table.with_footer(rows, source);
    assert(footed.run.row_translations[footer.first_row_index as int] == footed.run.translation);
    assert(rows.run.page_has_content);
}

/// The header of an accepted table is placed above its rows: it moves to a new page exactly where
/// something stands on the page and a break is demanded before it or it passes the end of the page,
/// and then starts that page. It always ends within its page if something stood there before or
/// nothing forced it down.
pub proof fn law_header_moves_only_where_it_must(table: TableView, state: TableState, g: int)
    requires
        state.builder.wf(),
        table.in_range(),
        table.accepted(state.builder.request.available_block_size),
        state.run.wf(table),
        0 <= state.run.translation.0,
        0 <= g < table.groups.len(),
        table.groups[g].kind == TableRowGroupKind::Header,
        forall|i: int|
            0 <= i < g ==> (#[trigger] table.groups[i]).kind != TableRowGroupKind::Header,
        table.groups[g].block_start.0 + state.run.translation.0 + table.groups[g].block_size.0
            < MAX_AU,
        table.groups[g].block_start.0 + state.run.translation.0 > -MAX_AU,
        table.with_header(state).run.translation.0 < MAX_AU,
    ensures
        ({
            let after = table.with_header(state);
            let header = table.groups[g];
            let available = state.builder.request.available_block_size.0;
            let start = header.block_start.0 + state.run.translation.0;
            let demanded = table.rows[header.first_row_index as int].breaks.before
                || header.breaks.before;
            let fits = start + header.block_size.0 <= state.builder.origin.0 + available;
            let moves = state.run.page_has_content && (demanded || !fits);
            let old = state.builder.outcome;
            let new = after.builder.outcome;
            &&& header.first_row_index == 0
            &&& table.header_block_size() == header.block_size
            &&& after.run.page_has_content
            &&& after.builder.page > state.builder.page <==> moves
            &&& moves ==> {
                &&& header.block_start.0 + after.run.translation.0 == after.builder.origin.0
                &&& start <= after.builder.origin.0
                &&& header.block_size.0 <= available
                &&& new.continuations.len() == old.continuations.len() + 1
                &&& new.continuations.last().page_index == state.builder.page as usize
                &&& new.continuations.last().token matches FragmentainerContinuation::Table(token)
                    && token.resume_page_index == after.builder.page as usize
                    && token.next_row_index == 0 && token.row_group_index == Some(
                    header.row_group_index,
                )
            }
            &&& !moves ==> {
                &&& after.run.translation == state.run.translation
                &&& after.builder.page == state.builder.page
                &&& after.builder.origin == state.builder.origin
                &&& new.continuations == old.continuations
                &&& after.run.row_translations == state.run.row_translations
            }
            &&& new.table_group_repeats == old.table_group_repeats
            &&& new.warnings == old.warnings
            &&& after.run.row_extensions == state.run.row_extensions
            &&& after.run.fragment_translations == state.run.fragment_translations
            &&& forall|i: int|
                0 <= i < table.rows.len() ==> #[trigger] after.run.row_translations[i] == if moves
                    && i < header.end_row_index {
                    after.run.translation
                } else {
                    state.run.row_translations[i]
                }
        }),
{
    let available = state.builder.request.available_block_size;
    lemma_accepted(table, available);
    lemma_first_group_is(table.groups, 0, TableRowGroupKind::Header, g);
    let header = table.groups[g];
    let start = header.block_start.plus(state.run.translation);
    law_next_page_is_the_first_that_reaches(state.builder, Au(0), start);
}

/// A table without a header group has nothing to place before its rows.
pub proof fn law_no_header_no_step(table: TableView, state: TableState)
    requires
        forall|i: int|
            0 <= i < table.groups.len() ==> (#[trigger] table.groups[i]).kind
                != TableRowGroupKind::Header,
    ensures
        table.with_header(state) == state,
        table.header_block_size().0 == 0,
        table.body_start() == 0,
{
    lemma_no_first_group(table.groups, 0, TableRowGroupKind::Header);
}

/// A table without a footer group has nothing to place behind its rows.
pub proof fn law_no_footer_no_step(table: TableView, state: TableState, source: Option<Au>)
    requires
        forall|i: int|
            0 <= i < table.groups.len() ==> (#[trigger] table.groups[i]).kind
                != TableRowGroupKind::Footer,
    ensures
        table.with_footer(state, source) == state,
        table.body_end() == table.rows.len(),
{
    lemma_no_first_group(table.groups, 0, TableRowGroupKind::Footer);
}

proof fn lemma_range_shift(first: RowRange, rest: Seq<RowRange>, index: int, position: usize)
    requires
        0 <= index,
    ensures
        range_holding(seq![first] + rest, index + 1, position) == range_holding(
            rest,
            index,
            position,
        ),
    decreases rest.len() - index,
{
    if index < rest.len() {
        assert((seq![first] + rest)[index + 1] == rest[index]);
        lemma_range_shift(first, rest, index + 1, position);
    }
}

pub proof fn lemma_run(rows: Seq<TableRow>, from: int)
    requires
        0 <= from <= rows.len(),
    ensures
        ({
            let end = rowspan_run_end(rows, from);
            &&& from <= end <= rows.len()
            &&& forall|i: int| from <= i < end ==> (#[trigger] rows[i]).has_rowspan
            &&& end < rows.len() ==> !rows[end].has_rowspan
        }),
    decreases rows.len() - from,
{
    if from < rows.len() && rows[from].has_rowspan {
        lemma_run(rows, from + 1);
    }
}

/// The run of rows that a rowspan ties a row to: all of them have a rowspan, and no longer run does.
pub proof fn lemma_run_holding(rows: Seq<TableRow>, from: int, position: int)
    requires
        0 <= from <= position < rows.len(),
        rows.len() <= usize::MAX,
    ensures
        match range_holding(rowspan_ranges(rows, from), 0, position as usize) {
            None => !rows[position].has_rowspan,
            Some(range) => {
                &&& from <= range.start <= position < range.end <= rows.len()
                &&& forall|i: int| range.start <= i < range.end ==> (#[trigger] rows[i]).has_rowspan
                &&& range.end < rows.len() ==> !rows[range.end as int].has_rowspan
                &&& range.start > from ==> !rows[range.start - 1].has_rowspan
            },
        },
    decreases rows.len() - from,
{
    if !rows[from].has_rowspan {
        if from < position {
            lemma_run_holding(rows, from + 1, position);
            let ranges = rowspan_ranges(rows, from + 1);
            assert(rowspan_ranges(rows, from) == ranges);
        } else {
            lemma_none_before(rows, from + 1, position as usize);
            assert(rowspan_ranges(rows, from) == rowspan_ranges(rows, from + 1));
        }
    } else {
        lemma_run(rows, from);
        let end = rowspan_run_end(rows, from);
        assert(rows[from].has_rowspan);
        if end == from {
            assert(!rows[end].has_rowspan);
        }
        let rest = rowspan_ranges(rows, end);
        let first = RowRange { start: from as usize, end: end as usize };
        assert(rowspan_ranges(rows, from) == seq![first] + rest);
        assert((seq![first] + rest)[0] == first);
        lemma_range_shift(first, rest, 0, position as usize);
        if position >= end {
            lemma_run_holding(rows, end, position);
            if let Some(range) = range_holding(rest, 0, position as usize) {
                if range.start == end {
                    assert(rows[range.start as int].has_rowspan);
                }
            }
        }
    }
}

proof fn lemma_none_before(rows: Seq<TableRow>, from: int, position: usize)
    requires
        position < from <= rows.len(),
        rows.len() <= usize::MAX,
    ensures
        range_holding(rowspan_ranges(rows, from), 0, position) is None,
    decreases rows.len() - from,
{
    if from < rows.len() {
        if !rows[from].has_rowspan {
            lemma_none_before(rows, from + 1, position);
        } else {
            lemma_run(rows, from);
            let end = rowspan_run_end(rows, from);
            if end == from {
                assert(!rows[end].has_rowspan);
            }
            let rest = rowspan_ranges(rows, end);
            let first = RowRange { start: from as usize, end: end as usize };
            assert((seq![first] + rest)[0] == first);
            lemma_none_before(rows, end, position);
            lemma_range_shift(first, rest, 0, position);
        }
    }
}

proof fn lemma_group_starting(groups: Seq<TableRowGroup>, index: int, position: usize)
    requires
        0 <= index <= groups.len(),
    ensures
        group_starting(groups, index, position) matches Some(group) ==> exists|g: int|
            index <= g < groups.len() && #[trigger] groups[g] == group && group.first_row_index
                == position,
        group_starting(groups, index, position) is None ==> forall|g: int|
            index <= g < groups.len() ==> (#[trigger] groups[g]).first_row_index != position,
    decreases groups.len() - index,
{
    if index < groups.len() {
        if groups[index].first_row_index == position {
            assert(groups[index] == groups[index]);
        } else {
            lemma_group_starting(groups, index + 1, position);
        }
    }
}

/// The group that starts at a row is the one that does.
pub proof fn lemma_starting_group_is(table: TableView, available: Au, position: int)
    requires
        table.supported(available),
        0 <= position < table.rows.len(),
        table.rows.len() <= usize::MAX,
    ensures
        forall|g: int|
            0 <= g < table.groups.len() && (#[trigger] table.groups[g]).first_row_index == position
                ==> table.starting_group(position) == Some(table.groups[g]),
        table.starting_group(position) matches Some(group) ==> exists|g: int|
            0 <= g < table.groups.len() && #[trigger] table.groups[g] == group
                && group.first_row_index == position,
        break_demanded(table, position) <==> table.forced_before(position) || table.forced_after(
            position,
        ),
{
    lemma_group_starting(table.groups, 0, position as usize);
    if let Some(group) = table.starting_group(position) {
        let k = choose|k: int|
            0 <= k < table.groups.len() && #[trigger] table.groups[k] == group
                && group.first_row_index == position;
        assert forall|g: int| 0 <= g < table.groups.len() && (#[trigger]
        table.groups[g]).first_row_index == position implies table.starting_group(position)
            == Some(table.groups[g]) by {
            if k < g {
                lemma_groups_in_order(table, available, k, g);
            } else if g < k {
                lemma_groups_in_order(table, available, g, k);
            }
        }
        assert(table.groups[k].first_row_index == position);
    }
    if table.group_break_after(position) {
        let k = choose|k: int|
            0 <= k < table.groups.len() && (#[trigger] table.groups[k]).end_row_index == position
                && table.groups[k].breaks.after;
        assert(table.groups[k].end_row_index == position);
    }
}

pub proof fn lemma_rows_go_down(table: TableView, available: Au, i: int, j: int)
    requires
        table.supported(available),
        table.in_range(),
        0 <= i <= j < table.rows.len(),
    ensures
        table.rows[i].block_start.0 <= table.rows[j].block_start.0,
        table.rows[i].block_end().0 <= table.rows[j].block_end().0,
    decreases j - i,
{
    if i < j {
        assert(table.row_in_order(j));
        assert(table.row_in_order(i));
        assert(table.row_in_order(j - 1));
        assert(table.rows[j].in_range() && table.rows[i].in_range() && table.rows[j - 1].in_range());
        lemma_rows_go_down(table, available, i, j - 1);
    }
}

/// The rows from `position` up to `end` start together: they are one row, rows that a rowspan ties
/// to each other, or the rows of a group that asks not to be divided and that a page can hold.
pub open spec fn kept_together(table: TableView, available: int, position: int, end: int) -> bool {
    let size = table.rows[end - 1].block_start.0 + table.rows[end - 1].block_size.0
        - table.rows[position].block_start.0;
    &&& position < end <= table.rows.len()
    &&& {
        ||| end == position + 1 && size + table.header_block_size().0 <= available
        ||| forall|i: int| position <= i < end ==> (#[trigger] table.rows[i]).has_rowspan
        ||| size + table.header_block_size().0 <= available && exists|g: int|
            0 <= g < table.groups.len() && (#[trigger] table.groups[g]).first_row_index == position
                && table.groups[g].end_row_index == end && table.groups[g].breaks.inside_avoid
    }
}

/// A group that asks not to be divided starts at this row.
pub open spec fn avoiding_group_starts(table: TableView, position: int) -> bool {
    exists|g: int|
        0 <= g < table.groups.len() && (#[trigger] table.groups[g]).first_row_index == position
            && table.groups[g].breaks.inside_avoid
}

/// A break is taken before a row of the body exactly where it must be. None is taken where nothing
/// stands on the page or a rowspan ties the row to the one above. Else one is taken where it is
/// demanded; where it is not, one is taken only if rows that start together with this one pass the
/// end of the page, and one is taken if the row does, unless the row starts a group that asks, in
/// vain, not to be divided. The row then stands below the repeated header of the next page.
pub proof fn law_break_before_a_row_is_taken_where_it_must_be(
    table: TableView,
    state: TableState,
    source: Option<Au>,
    position: int,
)
    requires
        state.builder.wf(),
        table.in_range(),
        table.accepted(state.builder.request.available_block_size),
        table.rows.len() <= usize::MAX,
        state.run.wf(table),
        0 <= state.run.translation.0,
        table.body_start() <= position < table.body_end(),
        forall|i: int|
            position <= i < table.rows.len() ==> -MAX_AU < (#[trigger] table.rows[i]).block_start.0
                && table.rows[i].block_start.0 + state.run.translation.0
                + table.rows[i].block_size.0 < MAX_AU && table.rows[i].block_start.0
                + table.rows[i].block_size.0 - table.rows[position].block_start.0 < MAX_AU,
        table.row_after_break(state, source, position).1.0 < MAX_AU,
    ensures
        ({
            let (broken, translation, start) = table.row_after_break(state, source, position);
            let row = table.rows[position];
            let available = state.builder.request.available_block_size.0;
            let page_end = state.builder.origin.0 + available;
            let moved = state.run.translation.0;
            let taken = broken.page > state.builder.page;
            &&& !state.run.page_has_content || tied_to_row_above(table, position) ==> !taken
            &&& state.run.page_has_content && !tied_to_row_above(table, position)
                && break_demanded(table, position) ==> taken
            &&& taken && !break_demanded(table, position) ==> exists|end: int|
                #[trigger] kept_together(table, available as int, position, end)
                    && table.rows[end - 1].block_start.0 + table.rows[end - 1].block_size.0 + moved
                    > page_end
            &&& state.run.page_has_content && !tied_to_row_above(table, position) && !taken ==> {
                &&& row.block_size.0 + table.header_block_size().0 <= available
                    && !avoiding_group_starts(table, position) ==> row.block_start.0
                    + row.block_size.0 + moved <= page_end
                &&& forall|end: int| #[trigger]
                    kept_together(table, available as int, position, end) && end > position + 1
                        ==> table.rows[end - 1].block_start.0 + table.rows[end - 1].block_size.0
                        + moved <= page_end
            }
            &&& !taken ==> translation == state.run.translation && broken == state.builder
            &&& taken ==> {
                &&& row.block_start.0 + translation.0 <= broken.origin.0
                    + table.header_block_size().0
                &&& broken.origin.0 + table.header_block_size().0 <= MAX_AU ==> row.block_start.0
                    + translation.0 == broken.origin.0 + table.header_block_size().0
                &&& row.block_start.0 + moved <= broken.origin.0 + table.header_block_size().0
                &&& broken.outcome.continuations.len() == state.builder.outcome.continuations.len()
                    + 1
                &&& broken.outcome.continuations.last().page_index == state.builder.page as usize
                &&& broken.outcome.continuations.last().token matches
                    FragmentainerContinuation::Table(token) && token.resume_page_index
                    == broken.page as usize && token.next_row_index == row.row_index
                    && token.row_group_index == row.row_group_index
            }
        }),
{
    let available = state.builder.request.available_block_size;
    lemma_accepted(table, available);
    let row = table.rows[position];
    assert(row.in_range());
    assert(table.row_in_order(position));
    let start = row.block_start.plus(state.run.translation);
    law_next_page_is_the_first_that_reaches(state.builder, table.header_block_size(), start);
    lemma_starting_group_is(table, available, position);
    lemma_run_holding(table.rows, 0, position);
    let capacity = table.body_page_capacity(available);
    let held = range_holding(table.ranges(), 0, position as usize);
    if let Some(range) = held {
        assert(table.rows[range.end - 1].in_range());
        lemma_rows_go_down(table, available, position, range.end - 1);
        if range.start < position {
            assert(table.rows[position - 1].has_rowspan);
            assert(table.rows[position].has_rowspan);
        }
        if range.start == position && position > 0 {
            assert(!table.rows[position - 1].has_rowspan);
        }
    }
    if let Some(group) = table.avoided_group(position) {
        let g = choose|g: int|
            0 <= g < table.groups.len() && #[trigger] table.groups[g] == group
                && group.first_row_index == position;
        assert(table.group_in_order(g));
        assert(table.rows[group.end_row_index - 1].in_range());
        lemma_rows_go_down(table, available, position, group.end_row_index - 1);
        assert(table.groups[g].first_row_index == position);
        assert(avoiding_group_starts(table, position));
        if table.group_block_size(position, group).0 <= capacity.0 {
            assert(kept_together(
                table,
                available.0 as int,
                position,
                group.end_row_index as int,
            ));
        }
    }
    if held is Some && held->0.start == position {
        assert(kept_together(table, available.0 as int, position, held->0.end as int));
    }
    if row.block_size.0 <= capacity.0 {
        assert(kept_together(table, available.0 as int, position, position + 1));
    }
    if avoiding_group_starts(table, position) {
        let g = choose|g: int|
            0 <= g < table.groups.len() && (#[trigger] table.groups[g]).first_row_index == position
                && table.groups[g].breaks.inside_avoid;
        assert(table.starting_group(position) == Some(table.groups[g]));
    }
    let broken = table.row_after_break(state, source, position).0;
    if state.run.page_has_content && !tied_to_row_above(table, position) && broken.page
        == state.builder.page {
        assert forall|end: int| #[trigger]
            kept_together(table, available.0 as int, position, end) && end > position + 1
            implies table.rows[end - 1].block_start.0 + table.rows[end - 1].block_size.0
            + state.run.translation.0 <= state.builder.origin.0 + available.0 by {
            assert(table.rows[end - 1].in_range());
            if forall|i: int| position <= i < end ==> (#[trigger] table.rows[i]).has_rowspan {
                assert(table.rows[position].has_rowspan);
                let range = held->0;
                if range.end < end {
                    assert(table.rows[range.end as int].has_rowspan);
                }
                lemma_rows_go_down(table, available, end - 1, range.end - 1);
                assert(table.rows[range.end - 1].in_range());
            } else {
                let g = choose|g: int|
                    0 <= g < table.groups.len() && (#[trigger]
                    table.groups[g]).first_row_index == position && table.groups[g].end_row_index
                        == end && table.groups[g].breaks.inside_avoid;
                assert(table.starting_group(position) == Some(table.groups[g]));
                assert(table.avoided_group(position) == Some(table.groups[g]));
            }
        }
    }
}

/// What is decided before a row holds of the row: it is moved as far as the break before it asks, and
/// a row that the space below a header can hold ends where the builder then is. A row keeps the
/// moves of the rows above it.
pub proof fn law_row_stands_where_the_break_before_it_leads(
    table: TableView,
    state: TableState,
    source: Option<Au>,
    position: int,
)
    requires
        table.in_range(),
        state.builder.wf(),
        table.accepted(state.builder.request.available_block_size),
        state.run.wf(table),
        table.body_start() <= position < table.body_end(),
    ensures
        ({
            let (broken, translation, start) = table.row_after_break(state, source, position);
            let after = table.with_row(state, source, position);
            let row = table.rows[position];
            let whole = row.block_size.0 + table.header_block_size().0
                <= state.builder.request.available_block_size.0;
            &&& after.run.row_translations == state.run.row_translations.update(
                position,
                translation,
            )
            &&& after.run.page_has_content
            &&& forall|i: int|
                0 <= i < table.rows.len() && i != position ==> #[trigger]
                after.run.row_extensions[i] == state.run.row_extensions[i]
            &&& whole ==> {
                &&& after.builder.page == broken.page
                &&& after.builder.origin == broken.origin
                &&& after.builder.outcome.continuations == broken.outcome.continuations
                &&& after.builder.outcome.table_group_repeats == broken.outcome.table_group_repeats
                &&& after.run.translation == translation
                &&& after.run.row_extensions[position].0 == 0
                &&& after.run.fragment_translations == state.run.fragment_translations
            }
        }),
{
    lemma_accepted(table, state.builder.request.available_block_size);
    assert(table.rows[position].in_range());
    law_table_row_moves_down(table, state, source, position);
}

} // verus!
