//! The placement of a table, step by step: header, rows, footer.
use crate::au::{Au, MAX_AU};
use crate::layout_debug::LayoutDebugTableConstraint;
use crate::pages::flow::{
    continuations_advance, find_page_holding, BlockPageBuilder, ChildPageBreaks,
};
use crate::pages::table_flow::{
    filled, lemma_accepted, lemma_fragment_numbers, lemma_fragments_before, lemma_last_fragment,
    lemma_row_fragments, origin_after, retries,
    TableChildPlacement, TableChildPlacementOutcome, TableRun, TableState,
};
use crate::pages::flow::{FragmentainerContinuation, PageContinuation, TableContinuationToken};
use crate::pages::table_rules::{
    find_group_starting, find_range_holding, ranges_within, table_rowspan_ranges, RowRange,
    TableAcceptance, TableCellFragment, TableChild, TableRow, TableRowGroup, TableShape, TableView,
};
use vstd::prelude::*;

verus! {

/// What is decided at a row of the body.
struct RowBreak {
    constraint: LayoutDebugTableConstraint,
    by_constraint: bool,
    by_rowspan: bool,
}

/// The shape is that of the table on pages with `available` space.
spec fn shape_of(shape: TableShape, table: TableView, available: Au) -> bool {
    &&& shape.header == table.header()
    &&& shape.footer == table.footer()
    &&& shape.header_block_size == table.header_block_size()
    &&& shape.body_page_capacity == table.body_page_capacity(available)
    &&& shape.body_page_capacity.in_range()
    &&& shape.body_start == table.body_start()
    &&& shape.body_end == table.body_end()
}

/// How many pages at the app-unit ceiling the first `count` rows can open: one each, and one for
/// each fragment of their cells.
spec fn row_steps(table: TableView, count: int) -> int {
    count + table.fragments_before(count, table.fragments.len() as int)
}

/// How many pages at the app-unit ceiling a table can open.
pub open spec fn table_steps(table: TableView) -> nat {
    table.rows.len() + table.fragments.len() + 3
}

/// The arguments of a placement as a table.
pub open spec fn table_view(
    child_index: usize,
    table_node: Option<u64>,
    rows: &[TableRow],
    groups: &[TableRowGroup],
    cell_fragments: &[TableCellFragment],
) -> TableView {
    TableView {
        child_index,
        table_node,
        rows: rows@,
        groups: groups@,
        fragments: cell_fragments@,
    }
}

/// How many pages at the app-unit ceiling one row can open.
spec fn steps_of_row(table: TableView, row_index: int) -> int {
    table.row_fragments(row_index, table.fragments.len() as int) + 1
}

proof fn lemma_row_steps(table: TableView, count: int)
    requires
        0 <= count,
    ensures
        0 <= row_steps(table, count) <= count + table.fragments.len(),
        row_steps(table, count + 1) == row_steps(table, count) + steps_of_row(table, count),
        row_steps(table, count + 1) <= count + 1 + table.fragments.len(),
        0 < steps_of_row(table, count) <= table.fragments.len() + 1,
{
    lemma_fragments_before(table, count, table.fragments.len() as int);
    lemma_row_fragments(table, count, 0, table.fragments.len() as int);
}

proof fn lemma_origin_after(origin: Au, stride: Au, count: int)
    requires
        0 <= origin.0 <= MAX_AU,
        0 < stride.0 <= MAX_AU,
        0 <= count <= i32::MAX,
    ensures
        origin.plus(stride.times(count as i32)) == origin_after(origin, stride, count),
        origin.0 <= origin_after(origin, stride, count).0 <= MAX_AU,
        count + (MAX_AU - origin_after(origin, stride, count).0) <= if MAX_AU - origin.0 < count {
            count
        } else {
            MAX_AU - origin.0
        },
{
    assert(stride.0 * count == count * stride.0) by (nonlinear_arith);
    assert(count * stride.0 >= count) by (nonlinear_arith)
        requires
            stride.0 >= 1,
            count >= 0,
    ;
}

fn pages_after(origin: Au, stride: Au, count: usize) -> (start: Au)
    requires
        0 <= origin.0 <= MAX_AU,
        0 < stride.0 <= MAX_AU,
        count <= i32::MAX,
    ensures
        start == origin_after(origin, stride, count as int),
        origin.0 <= start.0 <= MAX_AU,
{
    proof {
        lemma_origin_after(origin, stride, count as int);
    }
    origin.plus(stride.times(count as i32))
}

fn retry_count(selected: bool, constraint: LayoutDebugTableConstraint) -> (count: u8)
    ensures
        count == retries(selected, constraint),
{
    if selected && (constraint == LayoutDebugTableConstraint::AvoidRow || constraint
        == LayoutDebugTableConstraint::AvoidGroup) {
        1
    } else {
        0
    }
}

fn fill_lengths(values: &mut Vec<Au>, from: usize, to: usize, value: Au)
    requires
        from <= to <= old(values)@.len(),
    ensures
        final(values)@ == filled(old(values)@, from as int, to as int, value),
{
    let ghost before = values@;
    let mut index: usize = from;
    while index < to
        invariant
            from <= index <= to <= values@.len(),
            values@ == filled(before, from as int, index as int, value),
        decreases to - index,
    {
        values.set(index, value);
        index = index + 1;
        assert(values@ =~= filled(before, from as int, index as int, value));
    }
}

fn repeated(value: Au, count: usize) -> (values: Vec<Au>)
    ensures
        values@ == Seq::new(count as nat, |i: int| value),
{
    let mut values: Vec<Au> = Vec::new();
    let mut index: usize = 0;
    while index < count
        invariant
            index <= count,
            values@ == Seq::new(index as nat, |i: int| value),
        decreases count - index,
    {
        values.push(value);
        index = index + 1;
    }
    values
}

impl<'a> TableChild<'a> {
    fn demands_break(&self) -> (demanded: bool)
        ensures
            demanded == self@.has_forced_break(),
    {
        let mut index: usize = 0;
        while index < self.rows.len()
            invariant
                index <= self.rows.len(),
                forall|i: int|
                    0 <= i < index ==> !((#[trigger] self@.rows[i]).breaks.before
                        || self@.rows[i].breaks.after),
            decreases self.rows.len() - index,
        {
            let row = self.rows[index];
            assert(row == self@.rows[index as int]);
            if row.breaks.before || row.breaks.after {
                return true;
            }
            index = index + 1;
        }
        let mut position: usize = 0;
        while position < self.groups.len()
            invariant
                position <= self.groups.len(),
                forall|i: int|
                    0 <= i < self@.rows.len() ==> !((#[trigger] self@.rows[i]).breaks.before
                        || self@.rows[i].breaks.after),
                forall|g: int|
                    0 <= g < position ==> !((#[trigger] self@.groups[g]).breaks.before
                        || self@.groups[g].breaks.after),
            decreases self.groups.len() - position,
        {
            let group = self.groups[position];
            assert(group == self@.groups[position as int]);
            if group.breaks.before || group.breaks.after {
                return true;
            }
            position = position + 1;
        }
        false
    }

    fn group_demands_break_after(&self, position: usize) -> (demanded: bool)
        ensures
            demanded == self@.group_break_after(position as int),
    {
        let mut index: usize = 0;
        while index < self.groups.len()
            invariant
                index <= self.groups.len(),
                forall|g: int|
                    0 <= g < index ==> !((#[trigger] self@.groups[g]).end_row_index == position
                        && self@.groups[g].breaks.after),
            decreases self.groups.len() - index,
        {
            let group = self.groups[index];
            assert(group == self@.groups[index as int]);
            if group.end_row_index == position && group.breaks.after {
                return true;
            }
            index = index + 1;
        }
        false
    }

    fn break_after_demanded(&self, position: usize) -> (demanded: bool)
        requires
            position < self@.rows.len(),
        ensures
            demanded == self@.forced_after(position as int),
    {
        position > 0 && (self.rows[position - 1].breaks.after || self.group_demands_break_after(
            position,
        ))
    }

    fn find_tall_fragment(&self, row_index: usize, capacity: Au) -> (fragment: Option<
        TableCellFragment,
    >)
        ensures
            fragment == self@.tall_fragment(row_index, capacity, 0),
    {
        let mut index: usize = 0;
        while index < self.cell_fragments.len()
            invariant
                index <= self.cell_fragments.len(),
                self@.tall_fragment(row_index, capacity, index as int) == self@.tall_fragment(
                    row_index,
                    capacity,
                    0,
                ),
            decreases self.cell_fragments.len() - index,
        {
            let fragment = self.cell_fragments[index];
            if fragment.row_index == row_index && fragment.block_size.0 > capacity.0 {
                return Some(fragment);
            }
            index = index + 1;
        }
        None
    }

    fn find_last_fragment(&self, row_index: usize) -> (fragment: Option<TableCellFragment>)
        ensures
            fragment == self@.last_fragment(row_index, self@.fragments.len() as int),
    {
        let mut end: usize = self.cell_fragments.len();
        while end > 0
            invariant
                end <= self.cell_fragments.len(),
                self@.last_fragment(row_index, end as int) == self@.last_fragment(
                    row_index,
                    self@.fragments.len() as int,
                ),
            decreases end,
        {
            let fragment = self.cell_fragments[end - 1];
            if fragment.row_index == row_index {
                return Some(fragment);
            }
            end = end - 1;
        }
        None
    }

    fn find_avoided_group(&self, position: usize) -> (group: Option<TableRowGroup>)
        ensures
            group == self@.avoided_group(position as int),
            group matches Some(found) ==> exists|i: int|
                0 <= i < self@.groups.len() && self@.groups[i] == found,
    {
        match find_group_starting(self.groups, position) {
            Some(group) => if group.breaks.inside_avoid {
                Some(group)
            } else {
                None
            },
            None => None,
        }
    }

    fn rows_of_group_size(&self, position: usize, group: TableRowGroup, available: Au) -> (size: Au)
        requires
            self@.in_range(),
            self@.supported(available),
            position < self@.rows.len(),
            exists|i: int| 0 <= i < self@.groups.len() && self@.groups[i] == group,
        ensures
            size == self@.group_block_size(position as int, group),
            size.in_range(),
    {
        proof {
            let i = choose|i: int| 0 <= i < self@.groups.len() && self@.groups[i] == group;
            assert(self@.group_in_order(i));
            assert(self@.rows[group.end_row_index - 1].in_range());
            assert(self@.rows[position as int].in_range());
        }
        let last_row = self.rows[group.end_row_index - 1];
        last_row.block_end().minus(self.rows[position].block_start)
    }

    fn constraint_at(&self, position: usize) -> (constraint: LayoutDebugTableConstraint)
        requires
            position < self@.rows.len(),
        ensures
            constraint == self@.row_constraint(position as int),
    {
        let row = self.rows[position];
        let group_before = match find_group_starting(self.groups, position) {
            Some(group) => group.breaks.before,
            None => false,
        };
        if row.breaks.before || group_before {
            return LayoutDebugTableConstraint::ForcedBefore;
        }
        if self.break_after_demanded(position) {
            return LayoutDebugTableConstraint::ForcedAfter;
        }
        if self.find_avoided_group(position).is_some() {
            return LayoutDebugTableConstraint::AvoidGroup;
        }
        if row.breaks.inside_avoid {
            return LayoutDebugTableConstraint::AvoidRow;
        }
        LayoutDebugTableConstraint::Auto
    }

    fn constraint_at_header(&self, header: TableRowGroup) -> (constraint:
        LayoutDebugTableConstraint)
        requires
            header.first_row_index < self@.rows.len(),
        ensures
            constraint == self@.header_constraint(header),
    {
        let first_row = self.rows[header.first_row_index];
        if first_row.breaks.before || header.breaks.before {
            LayoutDebugTableConstraint::ForcedBefore
        } else if header.breaks.inside_avoid {
            LayoutDebugTableConstraint::AvoidGroup
        } else if first_row.breaks.inside_avoid {
            LayoutDebugTableConstraint::AvoidRow
        } else {
            LayoutDebugTableConstraint::Auto
        }
    }

    fn constraint_at_footer(&self, footer: TableRowGroup) -> (constraint:
        LayoutDebugTableConstraint)
        requires
            footer.first_row_index < self@.rows.len(),
        ensures
            constraint == self@.footer_constraint(footer),
    {
        let first_row = self.rows[footer.first_row_index];
        if first_row.breaks.before || footer.breaks.before {
            LayoutDebugTableConstraint::ForcedBefore
        } else if self.break_after_demanded(footer.first_row_index) {
            LayoutDebugTableConstraint::ForcedAfter
        } else if footer.breaks.inside_avoid {
            LayoutDebugTableConstraint::AvoidGroup
        } else if first_row.breaks.inside_avoid {
            LayoutDebugTableConstraint::AvoidRow
        } else {
            LayoutDebugTableConstraint::Auto
        }
    }
}

impl BlockPageBuilder {
    fn place_table_header(&mut self, table: &TableChild<'_>, shape: &TableShape, run: &mut TableRun)
        requires
            old(self)@.wf(),
            table@.in_range(),
            table@.accepted(old(self)@.request.available_block_size),
            shape_of(*shape, table@, old(self)@.request.available_block_size),
            old(run)@.wf(table@),
            old(self)@.page_bound() + 1 < usize::MAX,
        ensures
            (TableState { builder: final(self)@, run: final(run)@ }) == table@.with_header(
                TableState { builder: old(self)@, run: old(run)@ },
            ),
            final(self)@.wf(),
            old(self)@.orderly() ==> final(self)@.orderly(),
            final(self)@.request == old(self)@.request,
            final(self)@.page_bound() <= old(self)@.page_bound() + 1,
            final(run)@.wf(table@),
    {
        let ghost before = TableState { builder: self@, run: run@ };
        proof {
            lemma_accepted(table@, self@.request.available_block_size);
        }
        if let Some(header) = shape.header {
            let constraint = table.constraint_at_header(header);
            let mut block_start = header.block_start.plus(run.translation);
            let page_end = self.current_page_origin.plus(self.request.available_block_size);
            let considered_page_index: usize = self.current_page_index;
            let selected = run.page_has_content && (constraint
                == LayoutDebugTableConstraint::ForcedBefore || block_start.plus(
                header.block_size,
            ).0 > page_end.0);
            if selected {
                self.break_in_table(
                    table,
                    Au::zero(),
                    block_start,
                    Some(header.row_group_index),
                    header.first_row_index,
                );
                let placed = self.current_page_origin.plus(Au::zero());
                run.translation = run.translation.plus(placed.minus(block_start));
                block_start = placed;
                fill_lengths(
                    &mut run.row_translations,
                    header.first_row_index,
                    header.end_row_index,
                    run.translation,
                );
            }
            if constraint != LayoutDebugTableConstraint::Auto {
                self.push_table_break(
                    table,
                    considered_page_index,
                    Some(header.row_group_index),
                    header.first_row_index,
                    constraint,
                    retry_count(selected, constraint),
                    selected,
                    self.current_page_index,
                );
            }
            run.page_has_content = true;
            self.fill_through(block_start.plus(header.block_size));
        }
        assert((TableState { builder: self@, run: run@ }) =~= table@.with_header(before));
    }

    fn row_break(
        &self,
        table: &TableChild<'_>,
        ranges: &Vec<RowRange>,
        shape: &TableShape,
        run: &TableRun,
        position: usize,
    ) -> (decided: RowBreak)
        requires
            self@.wf(),
            table@.in_range(),
            table@.accepted(self@.request.available_block_size),
            shape_of(*shape, table@, self@.request.available_block_size),
            ranges@ == table@.ranges(),
            ranges_within(ranges@, table@.rows.len() as int),
            run@.wf(table@),
            position < table@.rows.len(),
        ensures
            decided.constraint == table@.row_constraint(position as int),
            decided.by_constraint == table@.constraint_selects(
                TableState { builder: self@, run: run@ },
                position as int,
            ),
            decided.by_rowspan == table@.rowspan_selects(
                TableState { builder: self@, run: run@ },
                position as int,
            ),
    {
        let ghost state = TableState { builder: self@, run: run@ };
        proof {
            lemma_accepted(table@, self@.request.available_block_size);
            lemma_row_steps(table@, position as int);
            assert(table@.rows[position as int].in_range());
        }
        let row = table.rows[position];
        let capacity = shape.body_page_capacity;
        let block_start = row.block_start.plus(run.translation);
        let page_end = self.current_page_origin.plus(self.request.available_block_size);
        let range = find_range_holding(ranges, position);
        let constraint = table.constraint_at(position);
        let at_boundary = match range {
            Some(range) => range.start == position,
            None => true,
        };
        let asks = match constraint {
            LayoutDebugTableConstraint::ForcedBefore => true,
            LayoutDebugTableConstraint::ForcedAfter => true,
            LayoutDebugTableConstraint::AvoidGroup => {
                match table.find_avoided_group(position) {
                    Some(group) => {
                        let size = table.rows_of_group_size(
                            position,
                            group,
                            self.request.available_block_size,
                        );
                        size.0 <= capacity.0 && block_start.plus(size).0 > page_end.0
                    },
                    None => false,
                }
            },
            LayoutDebugTableConstraint::Auto => {
                row.block_size.0 <= capacity.0 && block_start.plus(row.block_size).0 > page_end.0
            },
            LayoutDebugTableConstraint::AvoidRow => {
                row.block_size.0 <= capacity.0 && block_start.plus(row.block_size).0 > page_end.0
            },
        };
        let by_constraint = run.page_has_content && at_boundary && asks;
        let mut by_rowspan = false;
        if run.page_has_content && !by_constraint {
            if let Some(range) = range {
                if range.start == position {
                    assert(table@.rows[range.end - 1].in_range());
                    let last_row = table.rows[range.end - 1];
                    let size = last_row.block_end().minus(row.block_start);
                    by_rowspan = block_start.plus(size).0 > page_end.0;
                }
            }
        }
        RowBreak { constraint, by_constraint, by_rowspan }
    }

    fn warn_about_row(&mut self, table: &TableChild<'_>, shape: &TableShape, position: usize) -> (
        tall: bool)
        requires
            table@.in_range(),
            table@.supported(old(self)@.request.available_block_size),
            shape.body_page_capacity == table@.body_page_capacity(
                old(self)@.request.available_block_size,
            ),
            position < table@.rows.len(),
        ensures
            final(self)@ == table@.with_row_warnings(old(self)@, position as int),
            tall == (table@.rows[position as int].block_size.0 > shape.body_page_capacity.0
                && table@.tall_fragment(
                table@.rows[position as int].row_index,
                shape.body_page_capacity,
                0,
            ) is Some),
            final(self)@.with_outcome(old(self)@.outcome) == old(self)@,
    {
        let row = table.rows[position];
        let capacity = shape.body_page_capacity;
        let oversized = row.block_size.0 > capacity.0;
        if oversized && row.breaks.inside_avoid {
            self.warn_oversized_table_row_avoid(table, row, capacity);
        }
        if let Some(group) = table.find_avoided_group(position) {
            let size = table.rows_of_group_size(position, group, self.request.available_block_size);
            if size.0 > capacity.0 {
                self.warn_oversized_table_row_group_avoid(table, group, size, capacity);
            }
        }
        match table.find_tall_fragment(row.row_index, capacity) {
            Some(fragment) => {
                if oversized {
                    self.warn_oversized_table_cell(table, fragment);
                }
                oversized
            },
            None => false,
        }
    }

    fn resume_row(
        &mut self,
        table: &TableChild<'_>,
        shape: &TableShape,
        row: TableRow,
        source: Option<Au>,
        pages: &Vec<Option<usize>>,
        last_page: usize,
    )
        requires
            old(self)@.wf(),
            shape.header == table@.header(),
            pages@.len() == table@.fragments.len(),
            old(self)@.page <= last_page < usize::MAX,
            last_page - old(self)@.page <= i32::MAX,
        ensures
            final(self)@ == old(self)@.with_row_resumed(
                table@,
                row,
                source,
                pages@,
                old(self)@.page,
                old(self)@.origin,
                old(self)@.page + 1,
                last_page as int,
            ),
            final(self)@.with_outcome(old(self)@.outcome) == old(self)@,
            old(self)@.orderly() ==> continuations_advance(
                final(self)@.outcome.continuations,
                last_page as int,
            ),
    {
        let ghost start = self@;
        let ghost target = self@.with_row_resumed(
            table@,
            row,
            source,
            pages@,
            self@.page,
            self@.origin,
            self@.page + 1,
            last_page as int,
        );
        let mut resume: usize = self.current_page_index + 1;
        while resume <= last_page
            invariant
                start.wf(),
                self@.with_outcome(start.outcome) == start,
                start.orderly() ==> continuations_advance(
                    self@.outcome.continuations,
                    resume - 1,
                ),
                shape.header == table@.header(),
                pages@.len() == table@.fragments.len(),
                start.page < resume <= last_page + 1,
                last_page < usize::MAX,
                last_page - start.page <= i32::MAX,
                self@.with_row_resumed(
                    table@,
                    row,
                    source,
                    pages@,
                    start.page,
                    start.origin,
                    resume as int,
                    last_page as int,
                ) == target,
            decreases last_page + 1 - resume,
        {
            assert(self@.request == start.request && self@.page == start.page && self@.origin
                == start.origin);
            let target_block_start = pages_after(
                self.current_page_origin,
                self.request.page_stride,
                resume - self.current_page_index,
            );
            self.outcome.continuations.push(
                PageContinuation {
                    page_index: resume - 1,
                    token: FragmentainerContinuation::Table(
                        TableContinuationToken {
                            child_index: table.child_index,
                            table_node: table.table_node,
                            row_group_index: row.row_group_index,
                            next_row_index: row.row_index,
                            resume_page_index: resume,
                        },
                    ),
                },
            );
            self.push_table_header_repeat(table, shape.header, source, resume, target_block_start);
            self.push_cell_continuations(table, row, pages, resume);
            resume = resume + 1;
        }
    }

    fn place_divided_row(
        &mut self,
        table: &TableChild<'_>,
        shape: &TableShape,
        source: Option<Au>,
        position: usize,
        run: &mut TableRun,
    ) -> (extension: Au)
        requires
            old(self)@.wf(),
            table@.in_range(),
            table@.accepted(old(self)@.request.available_block_size),
            shape_of(*shape, table@, old(self)@.request.available_block_size),
            old(run)@.wf(table@),
            table@.body_start() <= position < table@.body_end(),
            table@.rows[position as int].block_size.0 > shape.body_page_capacity.0,
            old(self)@.page_bound() + steps_of_row(table@, position as int) <= usize::MAX,
            table@.fragments.len() <= 0x4000_0000,
        ensures
            ({
                let (builder, divided, translation) = table@.row_divided(
                    old(self)@,
                    source,
                    position as int,
                    old(run)@.translation,
                    old(run)@.fragment_translations,
                );
                &&& final(self)@ == builder
                &&& extension == divided.extension
                &&& final(run)@.fragment_translations == divided.translations
                &&& final(run)@.translation == translation
            }),
            final(run)@.page_has_content == old(run)@.page_has_content,
            final(run)@.row_translations == old(run)@.row_translations,
            final(run)@.row_extensions == old(run)@.row_extensions,
            final(run)@.wf(table@),
            final(self)@.wf(),
            old(self)@.orderly() ==> final(self)@.orderly(),
            final(self)@.request == old(self)@.request,
            final(self)@.page_bound() <= old(self)@.page_bound() + steps_of_row(
                table@,
                position as int,
            ) - 1,
    {
        let ghost before = self@;
        proof {
            lemma_accepted(table@, self@.request.available_block_size);
            lemma_row_steps(table@, position as int);
            assert(table@.row_in_order(position as int));
            assert(table@.has_fragment(table@.rows[position as int].row_index)) by {
                if table@.header() is None {
                    assert(table@.body_page_capacity(self@.request.available_block_size)
                        == self@.request.available_block_size);
                } else {
                    assert(!table@.row_resists(
                        table@.rows[position as int],
                        shape.body_page_capacity,
                    ));
                }
            }
        }
        let row = table.rows[position];
        let divided = self.divide_row(
            table,
            row,
            run.translation,
            shape.header_block_size,
            &mut run.cell_fragment_translations,
        );
        if divided.last_page == self.current_page_index {
            proof {
                lemma_last_fragment(table@, row.row_index, table@.fragments.len() as int);
                let last = table@.last_fragment(row.row_index, table@.fragments.len() as int);
                assert(last is Some);
                let j = choose|j: int|
                    0 <= j < table@.fragments.len() && #[trigger] table@.fragments[j] == last->0;
                lemma_fragment_numbers(table@, self@.request.available_block_size, j);
            }
            if let Some(last) = table.find_last_fragment(row.row_index) {
                self.warn_oversized_table_cell(
                    table,
                    TableCellFragment {
                        row_index: row.row_index,
                        cell_index: last.cell_index,
                        fragment_index: last.fragment_index + 1,
                        block_start: row.block_start,
                        block_size: row.block_size,
                    },
                );
            }
        }
        self.resume_row(table, shape, row, source, &divided.pages, divided.last_page);
        proof {
            lemma_origin_after(
                before.origin,
                before.request.page_stride,
                divided.last_page - before.page,
            );
        }
        let origin = pages_after(
            self.current_page_origin,
            self.request.page_stride,
            divided.last_page - self.current_page_index,
        );
        self.current_page_index = divided.last_page;
        self.current_page_origin = origin;
        run.translation = run.translation.plus(divided.extension);
        divided.extension
    }

    #[verifier::rlimit(60)]
    #[verifier::spinoff_prover]
    fn place_table_row(
        &mut self,
        table: &TableChild<'_>,
        ranges: &Vec<RowRange>,
        shape: &TableShape,
        source: Option<Au>,
        position: usize,
        run: &mut TableRun,
    )
        requires
            old(self)@.wf(),
            table@.in_range(),
            table@.accepted(old(self)@.request.available_block_size),
            shape_of(*shape, table@, old(self)@.request.available_block_size),
            ranges@ == table@.ranges(),
            ranges_within(ranges@, table@.rows.len() as int),
            old(run)@.wf(table@),
            table@.body_start() <= position < table@.body_end(),
            old(self)@.page_bound() + steps_of_row(table@, position as int) < usize::MAX,
            table@.fragments.len() <= 0x4000_0000,
        ensures
            (TableState { builder: final(self)@, run: final(run)@ }) == table@.with_row(
                TableState { builder: old(self)@, run: old(run)@ },
                source,
                position as int,
            ),
            final(self)@.wf(),
            old(self)@.orderly() ==> final(self)@.orderly(),
            final(self)@.request == old(self)@.request,
            final(self)@.page_bound() <= old(self)@.page_bound() + steps_of_row(
                table@,
                position as int,
            ),
            final(run)@.wf(table@),
    {
        let ghost before = TableState { builder: self@, run: run@ };
        proof {
            lemma_accepted(table@, self@.request.available_block_size);
            lemma_row_steps(table@, position as int);
            assert(table@.rows[position as int].in_range());
        }
        let row = table.rows[position];
        let decided = self.row_break(table, ranges, shape, run, position);
        let selected = decided.by_constraint || decided.by_rowspan;
        let mut block_start = row.block_start.plus(run.translation);
        let considered_page_index: usize = self.current_page_index;
        let oversized = row.block_size.0 > shape.body_page_capacity.0;
        if selected {
            self.break_in_table(
                table,
                shape.header_block_size,
                block_start,
                row.row_group_index,
                row.row_index,
            );
            let placed = self.current_page_origin.plus(shape.header_block_size);
            run.translation = run.translation.plus(placed.minus(block_start));
            block_start = placed;
            self.push_table_header_repeat(
                table,
                shape.header,
                source,
                self.current_page_index,
                self.current_page_origin,
            );
        }
        let resume_page: usize = self.current_page_index;
        assert((self@, run@.translation, block_start) == table@.row_after_break(
            before,
            source,
            position as int,
        ));
        let tall = self.warn_about_row(table, shape, position);
        run.row_translations.set(position, run.translation);
        let mut extension = Au::zero();
        if oversized && !tall {
            extension = self.place_divided_row(table, shape, source, position, run);
            block_start = row.block_start.plus(run.translation);
        }
        if oversized && (tall || self.current_page_index == considered_page_index) {
            let (page, origin) = find_page_holding(
                self.current_page_index,
                self.current_page_origin,
                self.request.page_stride,
                block_start.plus(row.block_size),
            );
            self.current_page_index = page;
            self.current_page_origin = origin;
        }
        if position > 0 || decided.constraint != LayoutDebugTableConstraint::Auto
            || decided.by_rowspan {
            self.push_table_break(
                table,
                considered_page_index,
                row.row_group_index,
                row.row_index,
                decided.constraint,
                retry_count(decided.by_constraint, decided.constraint),
                selected,
                resume_page,
            );
        }
        run.row_block_extensions.set(position, extension);
        run.page_has_content = true;
        self.fill_through(block_start.plus(row.block_size));
        assert((TableState { builder: self@, run: run@ }) =~= table@.with_row(
            before,
            source,
            position as int,
        ));
    }

    fn place_table_rows(
        &mut self,
        table: &TableChild<'_>,
        ranges: &Vec<RowRange>,
        shape: &TableShape,
        source: Option<Au>,
        run: &mut TableRun,
    )
        requires
            old(self)@.wf(),
            table@.in_range(),
            table@.accepted(old(self)@.request.available_block_size),
            shape_of(*shape, table@, old(self)@.request.available_block_size),
            ranges@ == table@.ranges(),
            ranges_within(ranges@, table@.rows.len() as int),
            old(run)@.wf(table@),
            old(self)@.page_bound() + table@.rows.len() + table@.fragments.len() < usize::MAX,
            table@.fragments.len() <= 0x4000_0000,
        ensures
            (TableState { builder: final(self)@, run: final(run)@ }) == table@.with_rows(
                TableState { builder: old(self)@, run: old(run)@ },
                source,
                table@.body_start(),
                table@.body_end(),
            ),
            final(self)@.wf(),
            old(self)@.orderly() ==> final(self)@.orderly(),
            final(self)@.request == old(self)@.request,
            final(self)@.page_bound() <= old(self)@.page_bound() + table@.rows.len()
                + table@.fragments.len(),
            final(run)@.wf(table@),
    {
        proof {
            lemma_accepted(table@, self@.request.available_block_size);
            lemma_row_steps(table@, shape.body_start as int);
        }
        let ghost start = TableState { builder: self@, run: run@ };
        let mut position: usize = shape.body_start;
        while position < shape.body_end
            invariant
                self@.wf(),
                start.builder.orderly() ==> self@.orderly(),
                self@.request == start.builder.request,
                table@.in_range(),
                table@.accepted(self@.request.available_block_size),
                shape_of(*shape, table@, self@.request.available_block_size),
                ranges@ == table@.ranges(),
                ranges_within(ranges@, table@.rows.len() as int),
                run@.wf(table@),
                shape.body_start <= position <= shape.body_end <= table@.rows.len(),
                start.builder.page_bound() + table@.rows.len() + table@.fragments.len()
                    < usize::MAX,
                table@.fragments.len() <= 0x4000_0000,
                self@.page_bound() <= start.builder.page_bound() + row_steps(
                    table@,
                    position as int,
                ),
                table@.with_rows(
                    TableState { builder: self@, run: run@ },
                    source,
                    position as int,
                    table@.body_end(),
                ) == table@.with_rows(start, source, table@.body_start(), table@.body_end()),
            decreases shape.body_end - position,
        {
            proof {
                lemma_row_steps(table@, position as int);
            }
            self.place_table_row(table, ranges, shape, source, position, run);
            position = position + 1;
        }
        proof {
            lemma_row_steps(table@, position as int);
        }
    }

    fn place_table_footer(
        &mut self,
        table: &TableChild<'_>,
        shape: &TableShape,
        source: Option<Au>,
        run: &mut TableRun,
    )
        requires
            old(self)@.wf(),
            table@.in_range(),
            table@.accepted(old(self)@.request.available_block_size),
            shape_of(*shape, table@, old(self)@.request.available_block_size),
            old(run)@.wf(table@),
            old(self)@.page_bound() + 1 < usize::MAX,
        ensures
            (TableState { builder: final(self)@, run: final(run)@ }) == table@.with_footer(
                TableState { builder: old(self)@, run: old(run)@ },
                source,
            ),
            final(self)@.wf(),
            old(self)@.orderly() ==> final(self)@.orderly(),
            final(self)@.request == old(self)@.request,
            final(self)@.page_bound() <= old(self)@.page_bound() + 1,
            final(run)@.wf(table@),
    {
        let ghost before = TableState { builder: self@, run: run@ };
        proof {
            lemma_accepted(table@, self@.request.available_block_size);
        }
        if let Some(footer) = shape.footer {
            let constraint = table.constraint_at_footer(footer);
            let mut block_start = footer.block_start.plus(run.translation);
            let page_end = self.current_page_origin.plus(self.request.available_block_size);
            let considered_page_index: usize = self.current_page_index;
            let selected = run.page_has_content && (constraint
                == LayoutDebugTableConstraint::ForcedBefore || constraint
                == LayoutDebugTableConstraint::ForcedAfter || block_start.plus(
                footer.block_size,
            ).0 > page_end.0);
            if selected {
                self.break_in_table(
                    table,
                    shape.header_block_size,
                    block_start,
                    Some(footer.row_group_index),
                    footer.first_row_index,
                );
                let placed = self.current_page_origin.plus(shape.header_block_size);
                run.translation = run.translation.plus(placed.minus(block_start));
                block_start = placed;
                self.push_table_header_repeat(
                    table,
                    shape.header,
                    source,
                    self.current_page_index,
                    self.current_page_origin,
                );
            }
            self.push_table_break(
                table,
                considered_page_index,
                Some(footer.row_group_index),
                footer.first_row_index,
                constraint,
                retry_count(selected, constraint),
                selected,
                self.current_page_index,
            );
            fill_lengths(
                &mut run.row_translations,
                footer.first_row_index,
                footer.end_row_index,
                run.translation,
            );
            self.fill_through(block_start.plus(footer.block_size));
        }
        assert((TableState { builder: self@, run: run@ }) =~= table@.with_footer(before, source));
    }

    fn place_accepted_table(
        &mut self,
        table: &TableChild<'_>,
        ranges: &Vec<RowRange>,
        shape: &TableShape,
        current_block_position: Au,
        fresh_block_size: Au,
        breaks: ChildPageBreaks,
    ) -> (result: TableChildPlacement)
        requires
            old(self)@.wf(),
            old(self)@.next_child < usize::MAX,
            current_block_position.in_range(),
            table@.in_range(),
            table@.accepted(old(self)@.request.available_block_size),
            shape_of(*shape, table@, old(self)@.request.available_block_size),
            ranges@ == table@.ranges(),
            ranges_within(ranges@, table@.rows.len() as int),
            table@.fragments.len() <= 0x4000_0000,
            old(self)@.page_bound() + table_steps(table@) < usize::MAX,
        ensures
            ({
                let placed = old(self)@.with_table_rows(
                    table@,
                    current_block_position,
                    fresh_block_size,
                    breaks,
                );
                &&& final(self)@ == placed.builder
                &&& result.row_translations@ == placed.run.row_translations
                &&& result.row_block_extensions@ == placed.run.row_extensions
                &&& result.cell_fragment_translations@ == placed.run.fragment_translations
                &&& result.added_block_size == placed.run.translation
            }),
            result.row_translations@.len() == table@.rows.len(),
            result.row_block_extensions@.len() == table@.rows.len(),
            result.cell_fragment_translations@.len() == table@.fragments.len(),
            final(self)@.wf(),
            old(self)@.orderly() ==> final(self)@.orderly(),
            final(self)@.page_bound() <= old(self)@.page_bound() + table_steps(table@),
    {
        let available = self.request.available_block_size;
        let child_index: usize = table.child_index;
        let table_node = table.table_node;
        let rows = table.rows;
        let groups = table.groups;
        let cell_fragments = table.cell_fragments;
        if breaks.inside_avoid {
            self.warn_if_oversized(child_index, table_node, fresh_block_size, true);
        }
        self.next_child_index = self.next_child_index + 1;
        let had_content = self.page_has_content;
        let forced_origin = self.forced_break_before(
            child_index,
            table_node,
            current_block_position,
            breaks,
        );
        let translation = match forced_origin {
            Some(block_origin) => block_origin.minus(current_block_position),
            None => Au::zero(),
        };
        let mut run = TableRun {
            translation,
            page_has_content: had_content && forced_origin.is_none(),
            row_translations: repeated(translation, rows.len()),
            row_block_extensions: repeated(Au::zero(), rows.len()),
            cell_fragment_translations: repeated(Au::zero(), cell_fragments.len()),
        };
        assert((TableState { builder: self@, run: run@ }) =~= old(self)@.at_table(
            table@,
            current_block_position,
            fresh_block_size,
            breaks,
        ));
        self.place_table_header(table, shape, &mut run);
        proof {
            lemma_accepted(table@, available);
        }
        let source: Option<Au> = match shape.header {
            Some(header) => Some(header.block_start.plus(run.translation)),
            None => None,
        };
        self.place_table_rows(table, ranges, shape, source, &mut run);
        self.place_table_footer(table, shape, source, &mut run);
        let row_break_after = rows[rows.len() - 1].breaks.after;
        let group_break_after = groups.len() > 0 && groups[groups.len() - 1].end_row_index
            == rows.len() && groups[groups.len() - 1].breaks.after;
        self.previous_break_after = self.previous_break_after || row_break_after
            || group_break_after;
        TableChildPlacement {
            row_translations: run.row_translations,
            row_block_extensions: run.row_block_extensions,
            cell_fragment_translations: run.cell_fragment_translations,
            added_block_size: run.translation,
        }
    }

    /// Places the retained rows of a table at legal row boundaries without laying the table out
    /// again. A table that cannot be divided leaves the pages as they are but for the recorded
    /// warning; one that is to stay whole leaves them as they are.
    pub fn place_table_child(
        &mut self,
        child_index: usize,
        table_node: Option<u64>,
        current_block_position: Au,
        fresh_block_size: Au,
        rows: &[TableRow],
        groups: &[TableRowGroup],
        cell_fragments: &[TableCellFragment],
        breaks: ChildPageBreaks,
    ) -> (placement: TableChildPlacementOutcome)
        requires
            old(self)@.wf(),
            child_index == old(self)@.next_child,
            child_index < usize::MAX,
            current_block_position.in_range(),
            fresh_block_size.in_range(),
            table_view(child_index, table_node, rows, groups, cell_fragments).in_range(),
            ({
                let table = table_view(child_index, table_node, rows, groups, cell_fragments);
                table.accepted(old(self)@.request.available_block_size) && !old(
                    self,
                )@.keeps_table_whole(table, fresh_block_size, breaks) ==> cell_fragments@.len()
                    <= 0x4000_0000 && old(self)@.page_bound() + table_steps(table) < usize::MAX
            }),
        ensures
            ({
                let table = table_view(child_index, table_node, rows, groups, cell_fragments);
                match table.acceptance(old(self)@.request.available_block_size) {
                    TableAcceptance::Refused => {
                        &&& placement is Unsupported
                        &&& final(self)@ == old(self)@
                        &&& final(self)@ == old(self)@.with_undivided_table(table)
                    },
                    TableAcceptance::RefusedWith(warning) => {
                        &&& placement is Unsupported
                        &&& final(self)@ == old(self)@.with_outcome(
                            old(self)@.outcome.with_warning(warning),
                        )
                        &&& final(self)@ == old(self)@.with_undivided_table(table)
                    },
                    TableAcceptance::Accepted => if old(self)@.keeps_table_whole(
                        table,
                        fresh_block_size,
                        breaks,
                    ) {
                        &&& placement is WholeChild
                        &&& final(self)@ == old(self)@
                        &&& final(self)@ == old(self)@.with_undivided_table(table)
                    } else {
                        let placed = old(self)@.with_table_rows(
                            table,
                            current_block_position,
                            fresh_block_size,
                            breaks,
                        );
                        &&& final(self)@ == placed.builder
                        &&& placement matches TableChildPlacementOutcome::Placed(result)
                        &&& result.row_translations@ == placed.run.row_translations
                        &&& result.row_block_extensions@ == placed.run.row_extensions
                        &&& result.cell_fragment_translations@ == placed.run.fragment_translations
                        &&& result.added_block_size == placed.run.translation
                    },
                }
            }),
            placement matches TableChildPlacementOutcome::Placed(result) ==> {
                &&& result.row_translations@.len() == rows@.len()
                &&& result.row_block_extensions@.len() == rows@.len()
                &&& result.cell_fragment_translations@.len() == cell_fragments@.len()
            },
            final(self)@.wf(),
            old(self)@.orderly() ==> final(self)@.orderly(),
            final(self)@.page_bound() <= old(self)@.page_bound() + table_steps(
                table_view(child_index, table_node, rows, groups, cell_fragments),
            ),
    {
        let table = TableChild { child_index, table_node, rows, groups, cell_fragments };
        let available = self.request.available_block_size;
        let ranges = table_rowspan_ranges(rows);
        let shape = table.shape(available);
        let acceptance = table.accept(available, &ranges, &shape);
        match acceptance {
            TableAcceptance::Refused => {
                return TableChildPlacementOutcome::Unsupported;
            },
            TableAcceptance::RefusedWith(warning) => {
                self.outcome.warnings.push(warning);
                return TableChildPlacementOutcome::Unsupported;
            },
            TableAcceptance::Accepted => {},
        }
        if breaks.inside_avoid && fresh_block_size.0 <= available.0 && !table.demands_break() {
            return TableChildPlacementOutcome::WholeChild;
        }
        TableChildPlacementOutcome::Placed(
            self.place_accepted_table(
                &table,
                &ranges,
                &shape,
                current_block_position,
                fresh_block_size,
                breaks,
            ),
        )
    }
}

} // verus!
