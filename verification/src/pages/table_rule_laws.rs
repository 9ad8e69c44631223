//! Which tables can be divided, told by their rows, groups and pieces.
use crate::au::{Au, MAX_AU};
use crate::pages::flow::{BlockPaginationWarning, TableGroupUnsupportedReason};
use crate::pages::table_laws::{
    break_demanded, lemma_first_group_found, lemma_groups_in_order, lemma_rows_go_down, lemma_run,
    lemma_run_holding,
};
use crate::pages::table_rules::{
    first_group, group_holding, range_holding, rowspan_ranges, rowspan_run_end, RowRange, TableAcceptance,
    TableCellFragment, TableRow, TableRowGroupKind, TableView,
};
use vstd::prelude::*;

verus! {

/// No row and no piece of a cell ends beyond app units.
pub open spec fn table_unsaturated(table: TableView) -> bool {
    &&& table.in_range()
    &&& table.rows.len() <= usize::MAX
    &&& forall|i: int|
        0 <= i < table.rows.len() ==> -MAX_AU < (#[trigger] table.rows[i]).block_start.0
            && table.rows[i].block_start.0 + table.rows[i].block_size.0 < MAX_AU
    &&& forall|i: int|
        0 <= i < table.fragments.len() ==> -MAX_AU < (#[trigger] table.fragments[i]).block_start.0
            && -MAX_AU < table.fragments[i].block_start.0 + table.fragments[i].block_size.0
            < MAX_AU
    &&& forall|i: int, j: int|
        0 <= i < table.rows.len() && 0 <= j < table.rows.len() ==> (#[trigger]
        table.rows[i]).block_start.0 + table.rows[i].block_size.0 - (#[trigger]
        table.rows[j]).block_start.0 < MAX_AU
}

/// Rows are numbered from zero, have cells and a size, and stand below each other.
pub open spec fn rows_stand_below_each_other(table: TableView) -> bool {
    &&& table.rows.len() > 0
    &&& forall|i: int|
        0 <= i < table.rows.len() ==> (#[trigger] table.rows[i]).row_index == i
            && table.rows[i].cell_count > 0 && table.rows[i].block_size.0 > 0
    &&& forall|i: int, j: int|
        0 <= i < j < table.rows.len() ==> (#[trigger] table.rows[i]).block_start.0
            + table.rows[i].block_size.0 <= (#[trigger] table.rows[j]).block_start.0
}

/// Groups hold rows of the table, and no two share one; they come in the order of their rows.
pub open spec fn groups_hold_rows(table: TableView) -> bool {
    &&& forall|g: int|
        0 <= g < table.groups.len() ==> (#[trigger] table.groups[g]).first_row_index
            < table.groups[g].end_row_index && table.groups[g].end_row_index <= table.rows.len()
    &&& forall|g: int, h: int|
        0 <= g < h < table.groups.len() ==> (#[trigger] table.groups[g]).end_row_index <= (
        #[trigger] table.groups[h]).first_row_index
}

/// Group `g` holds row `i`.
pub open spec fn holds_row(table: TableView, g: int, i: int) -> bool {
    0 <= g < table.groups.len() && table.groups[g].first_row_index <= i
        < table.groups[g].end_row_index
}

/// Each row names the group that holds it, and no group where none does.
pub open spec fn rows_name_their_groups(table: TableView) -> bool {
    &&& forall|g: int, i: int|
        0 <= i < table.rows.len() && #[trigger] holds_row(table, g, i)
            ==> table.rows[i].row_group_index == Some(table.groups[g].row_group_index)
    &&& forall|i: int|
        0 <= i < table.rows.len() && (#[trigger] table.rows[i]).row_group_index is Some
            ==> exists|g: int| #[trigger] holds_row(table, g, i)
}

/// The rows from `start` up to `end` are a run that a rowspan ties together: all of them have a
/// rowspan, and neither of the rows around them does.
pub open spec fn tied_run(table: TableView, start: int, end: int) -> bool {
    &&& 0 <= start < end <= table.rows.len()
    &&& forall|i: int| start <= i < end ==> (#[trigger] table.rows[i]).has_rowspan
    &&& start > 0 ==> !table.rows[start - 1].has_rowspan
    &&& end < table.rows.len() ==> !table.rows[end].has_rowspan
}

/// The run that a rowspan ties row `position` to.
proof fn lemma_tied_run(table: TableView, position: int)
    requires
        table.rows.len() <= usize::MAX,
        0 <= position < table.rows.len(),
    ensures
        match range_holding(table.ranges(), 0, position as usize) {
            None => !table.rows[position].has_rowspan,
            Some(range) => tied_run(table, range.start as int, range.end as int) && range.start
                <= position < range.end,
        },
{
    lemma_run_holding(table.rows, 0, position);
}

proof fn lemma_one_run(table: TableView, start: int, end: int, position: int)
    requires
        table.rows.len() <= usize::MAX,
        tied_run(table, start, end),
        start <= position < end,
    ensures
        range_holding(table.ranges(), 0, position as usize) == Some(
            RowRange { start: start as usize, end: end as usize },
        ),
{
    lemma_tied_run(table, position);
    assert(table.rows[position].has_rowspan);
    let range = range_holding(table.ranges(), 0, position as usize)->0;
    if range.start < start {
        assert(table.rows[start - 1].has_rowspan);
    }
    if start < range.start {
        assert(table.rows[range.start - 1].has_rowspan);
    }
    if range.end < end {
        assert(table.rows[range.end as int].has_rowspan);
    }
    if end < range.end {
        assert(table.rows[end].has_rowspan);
    }
}

/// Each piece has a size and lies within its cell, which reaches to the end of its row or of the
/// rows that a rowspan ties the row to.
pub open spec fn pieces_lie_in_cells(table: TableView) -> bool {
    &&& forall|k: int|
        0 <= k < table.fragments.len() ==> {
            let piece = #[trigger] table.fragments[k];
            let row = table.rows[piece.row_index as int];
            &&& piece.row_index < table.rows.len()
            &&& piece.cell_index < row.cell_count
            &&& piece.block_size.0 > 0
            &&& piece.block_start.0 >= row.block_start.0
            &&& !row.has_rowspan ==> piece.block_start.0 + piece.block_size.0 <= row.block_start.0
                + row.block_size.0
        }
    &&& forall|k: int, start: int, end: int|
        0 <= k < table.fragments.len() && #[trigger] tied_run(table, start, end) && start <= (
        #[trigger] table.fragments[k]).row_index < end ==> table.fragments[k].block_start.0
            + table.fragments[k].block_size.0 <= table.rows[end - 1].block_start.0
            + table.rows[end - 1].block_size.0
}

/// Pieces are listed by row, cell and number; those of a cell are numbered from zero without a gap
/// and stand below each other.
pub open spec fn pieces_are_listed(table: TableView) -> bool {
    forall|k: int|
        0 <= k < table.fragments.len() ==> piece_is_next(
            if k == 0 {
                None
            } else {
                Some(table.fragments[k - 1])
            },
            #[trigger] table.fragments[k],
        )
}

/// A piece comes next behind another, or first.
pub open spec fn piece_is_next(
    above: Option<TableCellFragment>,
    piece: TableCellFragment,
) -> bool {
    match above {
        None => piece.fragment_index == 0,
        Some(above) => if piece.fragment_index == 0 {
            above.row_index < piece.row_index || (above.row_index == piece.row_index
                && above.cell_index < piece.cell_index)
        } else {
            &&& above.row_index == piece.row_index
            &&& above.cell_index == piece.cell_index
            &&& above.fragment_index + 1 == piece.fragment_index
            &&& above.block_start.0 + above.block_size.0 <= piece.block_start.0
        },
    }
}

/// A row that is taller than a page has pieces.
pub open spec fn tall_rows_have_pieces(table: TableView, available: int) -> bool {
    forall|i: int|
        0 <= i < table.rows.len() && (#[trigger] table.rows[i]).block_size.0 > available
            ==> exists|k: int|
            0 <= k < table.fragments.len() && (#[trigger] table.fragments[k]).row_index == i
}

/// The rows, groups and pieces of a table are supported exactly where they describe a table that can
/// be divided.
pub proof fn law_supported_tables_are_well_described(table: TableView, available: Au)
    requires
        table_unsaturated(table),
    ensures
        table.supported(available) <==> {
            &&& rows_stand_below_each_other(table)
            &&& groups_hold_rows(table)
            &&& rows_name_their_groups(table)
            &&& pieces_lie_in_cells(table)
            &&& pieces_are_listed(table)
            &&& tall_rows_have_pieces(table, available.0 as int)
        },
{
    if table.supported(available) {
        assert forall|i: int| 0 <= i < table.rows.len() implies (#[trigger]
        table.rows[i]).row_index == i && table.rows[i].cell_count > 0 && table.rows[i].block_size.0
            > 0 by {
            assert(table.row_in_order(i));
        }
        assert forall|i: int, j: int| 0 <= i < j < table.rows.len() implies (#[trigger]
        table.rows[i]).block_start.0 + table.rows[i].block_size.0 <= (#[trigger]
        table.rows[j]).block_start.0 by {
            assert(table.row_in_order(j));
            lemma_rows_go_down(table, available, i, j - 1);
            assert(table.rows[i].in_range() && table.rows[j - 1].in_range());
        }
        assert forall|g: int| 0 <= g < table.groups.len() implies (#[trigger]
        table.groups[g]).first_row_index < table.groups[g].end_row_index
            && table.groups[g].end_row_index <= table.rows.len() by {
            assert(table.group_in_order(g));
        }
        assert forall|g: int, h: int| 0 <= g < h < table.groups.len() implies (#[trigger]
        table.groups[g]).end_row_index <= (#[trigger] table.groups[h]).first_row_index by {
            lemma_groups_in_order(table, available, g, h);
        }
        lemma_names(table);
        lemma_pieces(table);
    }
    if rows_stand_below_each_other(table) && groups_hold_rows(table) && rows_name_their_groups(
        table,
    ) && pieces_lie_in_cells(table) && pieces_are_listed(table) && tall_rows_have_pieces(
        table,
        available.0 as int,
    ) {
        assert forall|i: int| 0 <= i < table.rows.len() implies #[trigger] table.row_in_order(
            i,
        ) by {
            assert(table.rows[i].row_index == i);
            if i > 0 {
                assert(table.rows[i - 1].in_range());
                assert(table.rows[i - 1].block_start.0 + table.rows[i - 1].block_size.0
                    <= table.rows[i].block_start.0);
            }
        }
        assert forall|g: int| 0 <= g < table.groups.len() implies #[trigger] table.group_in_order(
            g,
        ) by {
            assert(table.groups[g].first_row_index < table.groups[g].end_row_index);
            if g > 0 {
                assert(table.groups[g - 1].end_row_index <= table.groups[g].first_row_index);
            }
        }
        lemma_names(table);
        lemma_pieces(table);
        assert forall|i: int| 0 <= i < table.rows.len() && (#[trigger] table.rows[i]).block_size.0
            > available.0 implies table.has_fragment(table.rows[i].row_index) by {
            let k = choose|k: int|
                0 <= k < table.fragments.len() && (#[trigger] table.fragments[k]).row_index == i;
            assert(table.fragments[k].row_index == table.rows[i].row_index);
        }
    }
}

proof fn lemma_group_holding(table: TableView, index: int, i: int)
    requires
        0 <= index <= table.groups.len(),
        0 <= i <= usize::MAX,
    ensures
        match group_holding(table.groups, index, i as usize) {
            Some(group) => exists|g: int|
                index <= g && #[trigger] holds_row(table, g, i) && table.groups[g] == group,
            None => forall|g: int| index <= g ==> !#[trigger] holds_row(table, g, i),
        },
    decreases table.groups.len() - index,
{
    if index < table.groups.len() {
        if holds_row(table, index, i) {
            assert(table.groups[index] == group_holding(table.groups, index, i as usize)->0);
        } else {
            lemma_group_holding(table, index + 1, i);
        }
    }
}

/// Rows name their groups.
proof fn lemma_names(table: TableView)
    requires
        table.rows.len() <= usize::MAX,
        groups_hold_rows(table),
    ensures
        rows_name_their_groups(table) <==> forall|i: int|
            0 <= i < table.rows.len() ==> #[trigger] table.row_names_group(i),
{
    if forall|i: int| 0 <= i < table.rows.len() ==> #[trigger] table.row_names_group(i) {
        assert forall|g: int, i: int| 0 <= i < table.rows.len() && #[trigger] holds_row(
            table,
            g,
            i,
        ) implies table.rows[i].row_group_index == Some(table.groups[g].row_group_index) by {
            assert(table.row_names_group(i));
            lemma_group_holding(table, 0, i);
            let found = choose|found: int|
                0 <= found && #[trigger] holds_row(table, found, i) && table.groups[found]
                    == group_holding(table.groups, 0, i as usize)->0;
            if found < g {
                assert(table.groups[found].end_row_index <= table.groups[g].first_row_index);
            } else if g < found {
                assert(table.groups[g].end_row_index <= table.groups[found].first_row_index);
            }
        }
        assert forall|i: int| 0 <= i < table.rows.len() && (#[trigger]
        table.rows[i]).row_group_index is Some implies exists|g: int| #[trigger]
            holds_row(table, g, i) by {
            assert(table.row_names_group(i));
            lemma_group_holding(table, 0, i);
        }
    }
    if rows_name_their_groups(table) {
        assert forall|i: int| 0 <= i < table.rows.len() implies #[trigger] table.row_names_group(
            i,
        ) by {
            lemma_group_holding(table, 0, i);
            if group_holding(table.groups, 0, i as usize) is Some {
                let found = choose|found: int|
                    0 <= found && #[trigger] holds_row(table, found, i) && table.groups[found]
                        == group_holding(table.groups, 0, i as usize)->0;
                assert(table.rows[i].row_group_index == Some(
                    table.groups[found].row_group_index,
                ));
            } else if table.rows[i].row_group_index is Some {
                let g = choose|g: int| #[trigger] holds_row(table, g, i);
                assert(!holds_row(table, g, i));
            }
        }
    }
}

/// Pieces lie in their cells and are listed.
proof fn lemma_pieces(table: TableView)
    requires
        table_unsaturated(table),
        rows_stand_below_each_other(table),
    ensures
        pieces_lie_in_cells(table) <==> forall|k: int|
            0 <= k < table.fragments.len() ==> #[trigger] table.fragment_in_cell(k),
        pieces_lie_in_cells(table) ==> (pieces_are_listed(table) <==> forall|k: int|
            0 <= k < table.fragments.len() ==> #[trigger] table.fragment_in_order(k)),
{
    if forall|k: int| 0 <= k < table.fragments.len() ==> #[trigger] table.fragment_in_cell(k) {
        assert forall|k: int| 0 <= k < table.fragments.len() implies {
            let piece = #[trigger] table.fragments[k];
            let row = table.rows[piece.row_index as int];
            &&& piece.row_index < table.rows.len()
            &&& piece.cell_index < row.cell_count
            &&& piece.block_size.0 > 0
            &&& piece.block_start.0 >= row.block_start.0
            &&& !row.has_rowspan ==> piece.block_start.0 + piece.block_size.0 <= row.block_start.0
                + row.block_size.0
        } by {
            assert(table.fragment_in_cell(k));
            let piece = table.fragments[k];
            assert(piece.in_range());
            assert(table.rows[piece.row_index as int].in_range());
            lemma_tied_run(table, piece.row_index as int);
            if let Some(range) = range_holding(table.ranges(), 0, piece.row_index) {
                assert(table.rows[piece.row_index as int].has_rowspan);
            }
        }
        assert forall|k: int, start: int, end: int| 0 <= k < table.fragments.len() && #[trigger]
            tied_run(table, start, end) && start <= (#[trigger] table.fragments[k]).row_index
            < end implies table.fragments[k].block_start.0 + table.fragments[k].block_size.0
            <= table.rows[end - 1].block_start.0 + table.rows[end - 1].block_size.0 by {
            assert(table.fragment_in_cell(k));
            let piece = table.fragments[k];
            assert(piece.in_range());
            assert(table.rows[end - 1].in_range());
            lemma_one_run(table, start, end, piece.row_index as int);
        }
    }
    if pieces_lie_in_cells(table) {
        assert forall|k: int| 0 <= k < table.fragments.len() implies #[trigger]
            table.fragment_in_cell(k) by {
            let piece = table.fragments[k];
            assert(piece.row_index < table.rows.len());
            assert(piece.in_range());
            assert(table.rows[piece.row_index as int].in_range());
            lemma_tied_run(table, piece.row_index as int);
            if let Some(range) = range_holding(table.ranges(), 0, piece.row_index) {
                assert(tied_run(table, range.start as int, range.end as int));
                assert(table.rows[range.end - 1].in_range());
            }
        }
        if pieces_are_listed(table) {
            assert forall|k: int| 0 <= k < table.fragments.len() implies #[trigger]
                table.fragment_in_order(k) by {
                lemma_piece_order(table, k);
            }
        }
        if forall|k: int| 0 <= k < table.fragments.len() ==> #[trigger] table.fragment_in_order(
            k,
        ) {
            assert forall|k: int| 0 <= k < table.fragments.len() implies piece_is_next(
                if k == 0 {
                    None
                } else {
                    Some(table.fragments[k - 1])
                },
                #[trigger] table.fragments[k],
            ) by {
                assert(table.fragment_in_order(k));
                lemma_piece_order(table, k);
            }
        }
    }
}

proof fn lemma_piece_order(table: TableView, k: int)
    requires
        table_unsaturated(table),
        0 <= k < table.fragments.len(),
    ensures
        table.fragment_in_order(k) <==> piece_is_next(
            if k == 0 {
                None
            } else {
                Some(table.fragments[k - 1])
            },
            table.fragments[k],
        ),
{
    assert(table.fragments[k].in_range());
    if k > 0 {
        assert(table.fragments[k - 1].in_range());
    }
}

/// A table with a header group that cannot be repeated, or whose header does not start it, whose
/// footer does not end it or does not fit below the header, is not divided; nor is one with a run of
/// tied rows that a page cannot hold, that reaches over the header or the footer, or that a break is
/// demanded in; nor one with a row below a header that its pieces do not divide.
pub proof fn law_accepted_tables_can_be_divided(
    table: TableView,
    available: Au,
    h: int,
    f: int,
    start: int,
    end: int,
)
    requires
        table_unsaturated(table),
        0 < available.0 <= MAX_AU,
        table.accepted(available),
    ensures
        table.supported(available),
        0 <= h < table.groups.len() && table.groups[h].kind == TableRowGroupKind::Header && (
        forall|i: int|
            0 <= i < h ==> (#[trigger] table.groups[i]).kind != TableRowGroupKind::Header) ==> {
            &&& table.groups[h].first_row_index == 0
            &&& table.groups[h].tag_id is Some
            &&& 0 < table.groups[h].block_size.0 < available.0
            &&& 0 <= f < table.groups.len() && table.groups[f].kind == TableRowGroupKind::Footer
                ==> table.groups[h].block_size.0 + table.groups[f].block_size.0 <= available.0
            &&& tied_run(table, start, end) ==> !(start < table.groups[h].end_row_index < end) && (
            table.groups[h].end_row_index <= start ==> table.rows[end - 1].block_start.0
                + table.rows[end - 1].block_size.0 - table.rows[start].block_start.0
                + table.groups[h].block_size.0 <= available.0)
        },
        0 <= f < table.groups.len() && table.groups[f].kind == TableRowGroupKind::Footer ==> {
            &&& table.groups[f].end_row_index == table.rows.len()
            &&& 0 < table.groups[f].block_size.0 <= available.0
            &&& tied_run(table, start, end) ==> !(start < table.groups[f].first_row_index < end)
        },
        tied_run(table, start, end) ==> {
            &&& table.rows[end - 1].block_start.0 + table.rows[end - 1].block_size.0
                - table.rows[start].block_start.0 <= available.0
            &&& forall|p: int| start < p < end ==> !#[trigger] break_demanded(table, p)
        },
{
    crate::pages::table_flow::lemma_accepted(table, available);
    lemma_first_group_found(table.groups, 0, TableRowGroupKind::Header);
    lemma_first_group_found(table.groups, 0, TableRowGroupKind::Footer);
    if 0 <= h < table.groups.len() && table.groups[h].kind == TableRowGroupKind::Header && (
    forall|i: int| 0 <= i < h ==> (#[trigger] table.groups[i]).kind != TableRowGroupKind::Header) {
        crate::pages::table_laws::lemma_first_group_is(
            table.groups,
            0,
            TableRowGroupKind::Header,
            h,
        );
        assert(table.groups[h].in_range());
    }
    if 0 <= f < table.groups.len() && table.groups[f].kind == TableRowGroupKind::Footer {
        crate::pages::table_laws::lemma_footer_is(table, available, f);
        assert(table.groups[f].in_range());
    }
    if tied_run(table, start, end) {
        lemma_one_run(table, start, end, start);
        lemma_no_resisting_range(table, available, 0, start);
        let range = RowRange { start: start as usize, end: end as usize };
        assert(!table.range_resists(range, available));
        assert(table.rows[end - 1].in_range() && table.rows[start].in_range());
        assert forall|p: int| start < p < end implies !#[trigger] break_demanded(table, p) by {
            assert(!table.forced_break_at(p));
            if exists|g: int|
                0 <= g < table.groups.len() && (#[trigger] table.groups[g]).first_row_index == p
                    && table.groups[g].breaks.before {
                let g = choose|g: int|
                    0 <= g < table.groups.len() && (#[trigger] table.groups[g]).first_row_index == p
                        && table.groups[g].breaks.before;
                assert(table.group_breaks_at(g, p));
            }
            if exists|g: int|
                0 <= g < table.groups.len() && (#[trigger] table.groups[g]).end_row_index == p
                    && table.groups[g].breaks.after {
                let g = choose|g: int|
                    0 <= g < table.groups.len() && (#[trigger] table.groups[g]).end_row_index == p
                        && table.groups[g].breaks.after;
                assert(table.group_breaks_at(g, p));
            }
        }
    }
}

/// A run that holds a row is among the runs that do not resist.
proof fn lemma_no_resisting_range(table: TableView, available: Au, index: int, position: int)
    requires
        0 <= index,
        0 <= position <= usize::MAX,
        table.resisting_range(table.ranges(), index, available) is None,
    ensures
        range_holding(table.ranges(), index, position as usize) matches Some(range)
            ==> !table.range_resists(range, available),
    decreases table.ranges().len() - index,
{
    if index < table.ranges().len() && !table.ranges()[index].holds(position as usize) {
        lemma_no_resisting_range(table, available, index + 1, position);
    }
}

/// Below a header, a row that is taller than the space there is divided by its pieces: it has some,
/// none is taller than that space, and one reaches beyond it.
pub proof fn law_tall_rows_below_a_header_have_pieces_that_fit(
    table: TableView,
    available: Au,
    h: int,
    i: int,
)
    requires
        table_unsaturated(table),
        0 < available.0 <= MAX_AU,
        table.accepted(available),
        0 <= h < table.groups.len(),
        table.groups[h].kind == TableRowGroupKind::Header,
        forall|k: int|
            0 <= k < h ==> (#[trigger] table.groups[k]).kind != TableRowGroupKind::Header,
        table.groups[h].end_row_index <= i < table.rows.len(),
        forall|g: int|
            0 <= g < table.groups.len() && (#[trigger] table.groups[g]).kind
                == TableRowGroupKind::Footer ==> i < table.groups[g].first_row_index,
        table.rows[i].block_size.0 + table.groups[h].block_size.0 > available.0,
        table.rows[i].block_start.0 + available.0 < MAX_AU,
    ensures
        exists|k: int|
            0 <= k < table.fragments.len() && (#[trigger] table.fragments[k]).row_index == i
                && table.fragments[k].block_start.0 + table.fragments[k].block_size.0
                + table.groups[h].block_size.0 > table.rows[i].block_start.0 + available.0,
        forall|k: int|
            0 <= k < table.fragments.len() && (#[trigger] table.fragments[k]).row_index == i
                ==> table.fragments[k].block_size.0 + table.groups[h].block_size.0 <= available.0,
{
    crate::pages::table_flow::lemma_accepted(table, available);
    crate::pages::table_laws::lemma_first_group_is(table.groups, 0, TableRowGroupKind::Header, h);
    lemma_first_group_found(table.groups, 0, TableRowGroupKind::Footer);
    assert(table.row_in_order(i));
    assert(table.rows[i].in_range());
    let capacity = table.body_page_capacity(available);
    if let Some(footer) = table.footer() {
        let g = choose|g: int|
            0 <= g < table.groups.len() && #[trigger] table.groups[g] == footer && footer.kind
                == TableRowGroupKind::Footer && forall|k: int|
                0 <= k < g ==> (#[trigger] table.groups[k]).kind != TableRowGroupKind::Footer;
        assert(table.groups[g].kind == TableRowGroupKind::Footer);
    }
    assert(!table.row_resists(table.rows[i], capacity));
    let k = choose|k: int|
        0 <= k < table.fragments.len() && #[trigger] table.fragment_crosses(
            k,
            table.rows[i],
            capacity,
        );
    assert(table.fragments[k].in_range());
    assert(table.fragments[k].row_index == i);
    assert forall|j: int| 0 <= j < table.fragments.len() && (#[trigger]
    table.fragments[j]).row_index == i implies table.fragments[j].block_size.0
        + table.groups[h].block_size.0 <= available.0 by {
        assert(!table.fragment_too_tall(j, table.rows[i], capacity));
        assert(table.fragments[j].in_range());
    }
}

/// A table that is refused says why: a table without header and footer is refused silently where it
/// is not well described, and with its tied rows where they cannot be kept together; one with a
/// header or a footer gives one reason.
pub proof fn law_refused_tables_say_why(table: TableView, available: Au)
    requires
        table_unsaturated(table),
        0 < available.0 <= MAX_AU,
    ensures
        ({
            let segmented = exists|g: int|
                0 <= g < table.groups.len() && (#[trigger] table.groups[g]).kind
                    != TableRowGroupKind::Body;
            match table.acceptance(available) {
                TableAcceptance::Accepted => table.supported(available),
                TableAcceptance::Refused => !segmented && !table.supported(available),
                TableAcceptance::RefusedWith(warning) => match warning {
                    BlockPaginationWarning::UnsupportedTableGroupPagination {
                        child_index,
                        table_node,
                        reason,
                    } => {
                        &&& segmented
                        &&& child_index == table.child_index
                        &&& table_node == table.table_node
                        &&& !table.supported(available) ==> reason
                            == TableGroupUnsupportedReason::UnsupportedLayout
                        &&& reason == TableGroupUnsupportedReason::UnsupportedLayout || reason
                            == TableGroupUnsupportedReason::FooterTooTallAfterHeader || reason
                            == TableGroupUnsupportedReason::Rowspan
                        &&& reason == TableGroupUnsupportedReason::Rowspan ==> exists|
                            start: int,
                            end: int,
                        |
                            #[trigger] tied_run(table, start, end)
                    },
                    BlockPaginationWarning::UnsupportedTableRowspanPagination {
                        child_index,
                        table_node,
                        first_row_index,
                        end_row_index,
                        block_size,
                        available_block_size,
                        forced_break_inside,
                    } => {
                        let start = first_row_index as int;
                        let end = end_row_index as int;
                        let size = table.rows[end - 1].block_start.0 + table.rows[end
                            - 1].block_size.0 - table.rows[start].block_start.0;
                        &&& !segmented
                        &&& table.supported(available)
                        &&& child_index == table.child_index
                        &&& table_node == table.table_node
                        &&& tied_run(table, start, end)
                        &&& block_size.0 == size
                        &&& available_block_size == available
                        &&& forced_break_inside <==> exists|p: int|
                            start < p < end && #[trigger] break_demanded(table, p)
                        &&& size > available.0 || forced_break_inside
                    },
                    _ => false,
                },
            }
        }),
{
    lemma_first_group_found(table.groups, 0, TableRowGroupKind::Header);
    lemma_first_group_found(table.groups, 0, TableRowGroupKind::Footer);
    let segmented = exists|g: int|
        0 <= g < table.groups.len() && (#[trigger] table.groups[g]).kind
            != TableRowGroupKind::Body;
    if segmented {
        let g = choose|g: int|
            0 <= g < table.groups.len() && (#[trigger] table.groups[g]).kind
                != TableRowGroupKind::Body;
        assert(table.groups[g].kind == TableRowGroupKind::Header || table.groups[g].kind
            == TableRowGroupKind::Footer);
        assert(table.header() is Some || table.footer() is Some);
    }
    if table.header() is Some {
        let g = choose|g: int|
            0 <= g < table.groups.len() && #[trigger] table.groups[g] == table.header()->0
                && table.header()->0.kind == TableRowGroupKind::Header && forall|k: int|
                0 <= k < g ==> (#[trigger] table.groups[k]).kind != TableRowGroupKind::Header;
        assert(table.groups[g].kind != TableRowGroupKind::Body);
    }
    if table.footer() is Some {
        let g = choose|g: int|
            0 <= g < table.groups.len() && #[trigger] table.groups[g] == table.footer()->0
                && table.footer()->0.kind == TableRowGroupKind::Footer && forall|k: int|
                0 <= k < g ==> (#[trigger] table.groups[k]).kind != TableRowGroupKind::Footer;
        assert(table.groups[g].kind != TableRowGroupKind::Body);
    }
    if let Some(range) = table.resisting_range(table.ranges(), 0, available) {
        lemma_resisting_is_a_run(table, available, 0);
        let start = range.start as int;
        let end = range.end as int;
        assert(table.rows[end - 1].in_range() && table.rows[start].in_range());
        if table.supported(available) {
            lemma_rows_go_down(table, available, start, end - 1);
            assert(table.row_in_order(end - 1));
            assert(table.row_in_order(start));
        }
        lemma_forced_inside(table, start, end);
    }
}

proof fn lemma_forced_inside(table: TableView, start: int, end: int)
    requires
        0 <= start < end <= table.rows.len(),
        table.rows.len() <= usize::MAX,
    ensures
        table.range_forced_inside(RowRange { start: start as usize, end: end as usize })
            <==> exists|p: int| start < p < end && #[trigger] break_demanded(table, p),
{
    assert forall|p: int| start < p < end implies #[trigger] table.forced_break_at(p)
        == break_demanded(table, p) by {
        if table.group_break_at(p) {
            let g = choose|g: int| 0 <= g < table.groups.len() && table.group_breaks_at(g, p);
            assert(table.groups[g].first_row_index == p || table.groups[g].end_row_index == p);
        }
        if exists|g: int|
            0 <= g < table.groups.len() && (#[trigger] table.groups[g]).first_row_index == p
                && table.groups[g].breaks.before {
            let g = choose|g: int|
                0 <= g < table.groups.len() && (#[trigger] table.groups[g]).first_row_index == p
                    && table.groups[g].breaks.before;
            assert(table.group_breaks_at(g, p));
        }
        if exists|g: int|
            0 <= g < table.groups.len() && (#[trigger] table.groups[g]).end_row_index == p
                && table.groups[g].breaks.after {
            let g = choose|g: int|
                0 <= g < table.groups.len() && (#[trigger] table.groups[g]).end_row_index == p
                    && table.groups[g].breaks.after;
            assert(table.group_breaks_at(g, p));
        }
    }
    let range = RowRange { start: start as usize, end: end as usize };
    if table.range_forced_inside(range) {
        let p = choose|p: int| range.start < p < range.end && #[trigger] table.forced_break_at(p);
        assert(break_demanded(table, p));
    }
    if exists|p: int| start < p < end && #[trigger] break_demanded(table, p) {
        let p = choose|p: int| start < p < end && #[trigger] break_demanded(table, p);
        assert(table.forced_break_at(p));
    }
}

/// Every run in the list is a run.
proof fn lemma_runs(rows: Seq<TableRow>, from: int, index: int)
    requires
        0 <= from <= rows.len(),
        rows.len() <= usize::MAX,
        0 <= index < rowspan_ranges(rows, from).len(),
        from > 0 ==> !rows[from - 1].has_rowspan || (from < rows.len() && !rows[from].has_rowspan)
            || from == rows.len(),
    ensures
        ({
            let range = rowspan_ranges(rows, from)[index];
            &&& from <= range.start < range.end <= rows.len()
            &&& forall|i: int| range.start <= i < range.end ==> (#[trigger] rows[i]).has_rowspan
            &&& range.end < rows.len() ==> !rows[range.end as int].has_rowspan
            &&& range.start > 0 ==> !rows[range.start - 1].has_rowspan
        }),
    decreases rows.len() - from,
{
    if from < rows.len() {
        if !rows[from].has_rowspan {
            assert(rowspan_ranges(rows, from) == rowspan_ranges(rows, from + 1));
            lemma_runs(rows, from + 1, index);
        } else {
            lemma_run(rows, from);
            let end = rowspan_run_end(rows, from);
            if end == from {
                assert(!rows[end].has_rowspan);
            }
            let rest = rowspan_ranges(rows, end);
            let first = RowRange { start: from as usize, end: end as usize };
            assert(rowspan_ranges(rows, from) == seq![first] + rest);
            if index > 0 {
                assert((seq![first] + rest)[index] == rest[index - 1]);
                lemma_runs(rows, end, index - 1);
            } else {
                assert((seq![first] + rest)[0] == first);
            }
        }
    }
}

proof fn lemma_resisting_is_a_run(table: TableView, available: Au, index: int)
    requires
        0 <= index,
        table.rows.len() <= usize::MAX,
    ensures
        table.resisting_range(table.ranges(), index, available) matches Some(range) ==> tied_run(
            table,
            range.start as int,
            range.end as int,
        ) && table.range_resists(range, available),
    decreases table.ranges().len() - index,
{
    if index < table.ranges().len() {
        if table.range_resists(table.ranges()[index], available) {
            lemma_runs(table.rows, 0, index);
        } else {
            lemma_resisting_is_a_run(table, available, index + 1);
        }
    }
}

/// There is such a group, of this kind.
pub open spec fn of_kind(table: TableView, g: int, kind: TableRowGroupKind) -> bool {
    0 <= g < table.groups.len() && table.groups[g].kind == kind
}

/// A row of the body below header `h`, taller than the space there, is divided by its pieces.
pub open spec fn divided_below(table: TableView, available: int, h: int, i: int) -> bool {
    let header_size = table.groups[h].block_size.0;
    let row = table.rows[i];
    row.block_size.0 + header_size > available ==> {
        &&& exists|k: int|
            0 <= k < table.fragments.len() && (#[trigger] table.fragments[k]).row_index == i
                && table.fragments[k].block_start.0 + table.fragments[k].block_size.0 + header_size
                > row.block_start.0 + available
        &&& forall|k: int|
            0 <= k < table.fragments.len() && (#[trigger] table.fragments[k]).row_index == i
                ==> table.fragments[k].block_size.0 + header_size <= available
    }
}

/// Every header group starts the table and can be repeated.
pub open spec fn headers_can_be_repeated(table: TableView, available: int) -> bool {
    forall|h: int| #[trigger]
        of_kind(table, h, TableRowGroupKind::Header) ==> table.groups[h].first_row_index == 0
            && table.groups[h].tag_id is Some && 0 < table.groups[h].block_size.0 < available
}

/// Every footer group ends the table, comes behind the header, and fits a page below it.
pub open spec fn footers_fit(table: TableView, available: int) -> bool {
    &&& forall|f: int| #[trigger]
        of_kind(table, f, TableRowGroupKind::Footer) ==> table.groups[f].end_row_index
            == table.rows.len() && 0 < table.groups[f].block_size.0 <= available
    &&& forall|h: int, f: int| #[trigger]
        of_kind(table, h, TableRowGroupKind::Header) && #[trigger] of_kind(
            table,
            f,
            TableRowGroupKind::Footer,
        ) ==> table.groups[h].end_row_index <= table.groups[f].first_row_index
            && table.groups[h].block_size.0 + table.groups[f].block_size.0 <= available
}

/// The rows below a header are divided by their pieces where they are too tall.
pub open spec fn rows_divided_below_headers(table: TableView, available: int) -> bool {
    forall|h: int, i: int|
        of_kind(table, h, TableRowGroupKind::Header) && table.groups[h].end_row_index <= i
            < table.rows.len() ==> #[trigger] divided_below(table, available, h, i)
}

/// A run of tied rows can be kept together: a page can hold it, below the header where it stands
/// there, it reaches over neither the header nor the footer, and no break is demanded in it.
pub open spec fn run_kept(table: TableView, available: int, start: int, end: int) -> bool {
    let size = table.rows[end - 1].block_start.0 + table.rows[end - 1].block_size.0
        - table.rows[start].block_start.0;
    &&& size <= available
    &&& forall|p: int| start < p < end ==> !#[trigger] break_demanded(table, p)
    &&& forall|h: int| #[trigger]
        of_kind(table, h, TableRowGroupKind::Header) ==> !(start < table.groups[h].end_row_index
            < end) && (table.groups[h].end_row_index <= start ==> size
            + table.groups[h].block_size.0 <= available)
    &&& forall|f: int| #[trigger]
        of_kind(table, f, TableRowGroupKind::Footer) ==> !(start < table.groups[f].first_row_index
            < end)
}

/// A table is divided where nothing speaks against it: it is well described, its header starts it and
/// can be repeated, its footer ends it and fits below the header, the rows below a header are divided
/// by their pieces where they are too tall, and every run of tied rows can be kept together.
pub proof fn law_tables_that_can_be_divided_are_accepted(table: TableView, available: Au)
    requires
        table_unsaturated(table),
        0 < available.0 <= MAX_AU,
        table.supported(available),
        forall|i: int|
            0 <= i < table.rows.len() ==> (#[trigger] table.rows[i]).block_start.0 + available.0
                < MAX_AU,
        headers_can_be_repeated(table, available.0 as int),
        footers_fit(table, available.0 as int),
        rows_divided_below_headers(table, available.0 as int),
        forall|start: int, end: int| #[trigger]
            tied_run(table, start, end) ==> run_kept(table, available.0 as int, start, end),
    ensures
        table.accepted(available),
{
    let h = lemma_group_of(table, TableRowGroupKind::Header);
    let f = lemma_group_of(table, TableRowGroupKind::Footer);
    lemma_segments(table, available, h, f);
    if let Some(range) = table.resisting_range(table.ranges(), 0, available) {
        lemma_resisting_is_a_run(table, available, 0);
        let start = range.start as int;
        let end = range.end as int;
        assert(tied_run(table, start, end));
        lemma_kept_run_does_not_resist(table, available, h, f, start, end);
        assert(range == RowRange { start: start as usize, end: end as usize });
    }
}

proof fn lemma_group_of(table: TableView, kind: TableRowGroupKind) -> (g: int)
    ensures
        first_group(table.groups, 0, kind) matches Some(group) ==> of_kind(table, g, kind)
            && table.groups[g] == group,
{
    lemma_first_group_found(table.groups, 0, kind);
    if first_group(table.groups, 0, kind) is Some {
        let group = first_group(table.groups, 0, kind)->0;
        choose|g: int|
            0 <= g < table.groups.len() && #[trigger] table.groups[g] == group && group.kind == kind
                && forall|k: int| 0 <= k < g ==> (#[trigger] table.groups[k]).kind != kind
    } else {
        -1
    }
}

proof fn lemma_segments(table: TableView, available: Au, h: int, f: int)
    requires
        table_unsaturated(table),
        0 < available.0 <= MAX_AU,
        table.supported(available),
        forall|i: int|
            0 <= i < table.rows.len() ==> (#[trigger] table.rows[i]).block_start.0 + available.0
                < MAX_AU,
        headers_can_be_repeated(table, available.0 as int),
        footers_fit(table, available.0 as int),
        rows_divided_below_headers(table, available.0 as int),
        table.header() matches Some(group) ==> of_kind(table, h, TableRowGroupKind::Header)
            && table.groups[h] == group,
        table.footer() matches Some(group) ==> of_kind(table, f, TableRowGroupKind::Footer)
            && table.groups[f] == group,
    ensures
        table.header_repeatable(available),
        table.footer_fits(available),
        table.segments_ordered(available),
{
    if table.header() is Some {
        assert(table.group_in_order(h));
        assert(table.groups[h].in_range());
        assert forall|i: int| table.body_start() <= i < table.body_end() implies !table.row_resists(
            #[trigger] table.rows[i],
            table.body_page_capacity(available),
        ) by {
            if table.footer() is Some {
                assert(table.group_in_order(f));
            }
            assert(divided_below(table, available.0 as int, h, i));
            lemma_row_does_not_resist(table, available, h, i);
        }
    }
    if table.footer() is Some {
        assert(table.group_in_order(f));
        assert(table.groups[f].in_range());
    }
}

proof fn lemma_kept_run_does_not_resist(
    table: TableView,
    available: Au,
    h: int,
    f: int,
    start: int,
    end: int,
)
    requires
        table_unsaturated(table),
        0 < available.0 <= MAX_AU,
        table.supported(available),
        table.header_repeatable(available),
        tied_run(table, start, end),
        run_kept(table, available.0 as int, start, end),
        table.header() matches Some(group) ==> of_kind(table, h, TableRowGroupKind::Header)
            && table.groups[h] == group,
        table.footer() matches Some(group) ==> of_kind(table, f, TableRowGroupKind::Footer)
            && table.groups[f] == group,
    ensures
        !table.range_resists(RowRange { start: start as usize, end: end as usize }, available),
{
    assert(table.rows[end - 1].in_range() && table.rows[start].in_range());
    lemma_rows_go_down(table, available, start, end - 1);
    assert(table.row_in_order(end - 1));
    assert(table.row_in_order(start));
    lemma_forced_inside(table, start, end);
}

proof fn lemma_row_does_not_resist(table: TableView, available: Au, h: int, i: int)
    requires
        table_unsaturated(table),
        table.supported(available),
        0 < available.0 <= MAX_AU,
        of_kind(table, h, TableRowGroupKind::Header),
        table.header() == Some(table.groups[h]),
        0 < table.groups[h].block_size.0 < available.0,
        0 <= i < table.rows.len(),
        table.rows[i].block_start.0 + available.0 < MAX_AU,
        divided_below(table, available.0 as int, h, i),
    ensures
        !table.row_resists(table.rows[i], table.body_page_capacity(available)),
{
    let capacity = table.body_page_capacity(available);
    let row = table.rows[i];
    assert(table.row_in_order(i));
    assert(row.in_range());
    if row.block_size.0 > capacity.0 {
        let k = choose|k: int|
            0 <= k < table.fragments.len() && (#[trigger] table.fragments[k]).row_index == i
                && table.fragments[k].block_start.0 + table.fragments[k].block_size.0
                + table.groups[h].block_size.0 > row.block_start.0 + available.0;
        assert(table.fragments[k].in_range());
        assert(table.fragments[k].row_index == row.row_index);
        assert(table.fragment_crosses(k, row, capacity));
        if exists|j: int|
            0 <= j < table.fragments.len() && #[trigger] table.fragment_too_tall(
                j,
                row,
                capacity,
            ) {
            let j = choose|j: int|
                0 <= j < table.fragments.len() && #[trigger] table.fragment_too_tall(
                    j,
                    row,
                    capacity,
                );
            assert(table.fragments[j].row_index == i);
        }
    }
}

} // verus!
