//! Which tables can be divided between rows.
use crate::au::Au;
use crate::pages::flow::{BlockPaginationWarning, ChildPageBreaks, TableGroupUnsupportedReason};
use vstd::prelude::*;

verus! {

/// A table row, at its place in the root before pagination.
#[derive(Clone, Copy, Debug, PartialEq, Eq)]
pub struct TableRow {
    pub row_index: usize,
    pub row_group_index: Option<usize>,
    pub cell_count: usize,
    pub has_rowspan: bool,
    pub block_start: Au,
    pub block_size: Au,
    pub breaks: ChildPageBreaks,
}

/// The part of the table that a row group belongs to.
#[derive(Clone, Copy, Debug, PartialEq, Eq, Structural)]
pub enum TableRowGroupKind {
    Header,
    Body,
    Footer,
}

/// A row group over the rows from `first_row_index` up to, not including, `end_row_index`.
#[derive(Clone, Copy, Debug, PartialEq, Eq)]
pub struct TableRowGroup {
    pub tag_id: Option<u64>,
    pub row_group_index: usize,
    pub first_row_index: usize,
    pub end_row_index: usize,
    pub block_start: Au,
    pub block_size: Au,
    pub kind: TableRowGroupKind,
    pub breaks: ChildPageBreaks,
}

/// An undivided piece of a cell, at its place in the root before pagination.
#[derive(Clone, Copy, Debug, PartialEq, Eq, Structural)]
pub struct TableCellFragment {
    pub row_index: usize,
    pub cell_index: usize,
    pub fragment_index: usize,
    pub block_start: Au,
    pub block_size: Au,
}

/// Rows from `start` up to, not including, `end`.
#[derive(Clone, Copy, Debug, PartialEq, Eq, Structural)]
pub struct RowRange {
    pub start: usize,
    pub end: usize,
}

impl TableRow {
    pub open spec fn in_range(self) -> bool {
        self.block_start.in_range() && self.block_size.in_range()
    }

    pub open spec fn spec_block_end(self) -> Au {
        self.block_start.plus(self.block_size)
    }

    /// Where the row ends.
    #[verifier::when_used_as_spec(spec_block_end)]
    pub fn block_end(self) -> (end: Au)
        requires
            self.in_range(),
        ensures
            end == self.spec_block_end(),
            end.in_range(),
    {
        self.block_start.plus(self.block_size)
    }
}

impl TableRowGroup {
    pub open spec fn in_range(self) -> bool {
        self.block_start.in_range() && self.block_size.in_range()
    }
}

impl TableCellFragment {
    pub open spec fn in_range(self) -> bool {
        self.block_start.in_range() && self.block_size.in_range()
    }

    pub open spec fn spec_block_end(self) -> Au {
        self.block_start.plus(self.block_size)
    }

    /// Where the fragment ends.
    #[verifier::when_used_as_spec(spec_block_end)]
    pub fn block_end(self) -> (end: Au)
        requires
            self.in_range(),
        ensures
            end == self.spec_block_end(),
            end.in_range(),
    {
        self.block_start.plus(self.block_size)
    }
}

impl RowRange {
    pub open spec fn spec_holds(self, position: usize) -> bool {
        self.start <= position < self.end
    }

    /// Whether a row is in the range.
    #[verifier::when_used_as_spec(spec_holds)]
    pub fn holds(self, position: usize) -> (held: bool)
        ensures
            held == self.spec_holds(position),
    {
        self.start <= position && position < self.end
    }
}

/// A table that is a child of the paged flow.
#[derive(Clone, Copy, Debug)]
pub struct TableChild<'a> {
    pub child_index: usize,
    pub table_node: Option<u64>,
    pub rows: &'a [TableRow],
    pub groups: &'a [TableRowGroup],
    pub cell_fragments: &'a [TableCellFragment],
}

/// A table as mathematical sequences.
pub struct TableView {
    pub child_index: usize,
    pub table_node: Option<u64>,
    pub rows: Seq<TableRow>,
    pub groups: Seq<TableRowGroup>,
    pub fragments: Seq<TableCellFragment>,
}

impl<'a> View for TableChild<'a> {
    type V = TableView;

    open spec fn view(&self) -> TableView {
        TableView {
            child_index: self.child_index,
            table_node: self.table_node,
            rows: self.rows@,
            groups: self.groups@,
            fragments: self.cell_fragments@,
        }
    }
}

/// The end of the run of rows with a rowspan that starts at `from`.
pub open spec fn rowspan_run_end(rows: Seq<TableRow>, from: int) -> int
    decreases rows.len() - from,
{
    if 0 <= from < rows.len() && rows[from].has_rowspan {
        rowspan_run_end(rows, from + 1)
    } else {
        from
    }
}

proof fn lemma_rowspan_run_end(rows: Seq<TableRow>, from: int)
    requires
        0 <= from <= rows.len(),
    ensures
        from <= rowspan_run_end(rows, from) <= rows.len(),
        from < rows.len() && rows[from].has_rowspan ==> from < rowspan_run_end(rows, from),
    decreases rows.len() - from,
{
    if from < rows.len() && rows[from].has_rowspan {
        lemma_rowspan_run_end(rows, from + 1);
    }
}

/// The runs of adjacent rows with a rowspan, from row `from` on, in order.
pub open spec fn rowspan_ranges(rows: Seq<TableRow>, from: int) -> Seq<RowRange>
    decreases rows.len() - from,
    when 0 <= from
    via rowspan_ranges_decreases
{
    if from >= rows.len() {
        Seq::empty()
    } else if !rows[from].has_rowspan {
        rowspan_ranges(rows, from + 1)
    } else {
        let end = rowspan_run_end(rows, from);
        seq![RowRange { start: from as usize, end: end as usize }] + rowspan_ranges(rows, end)
    }
}

#[via_fn]
proof fn rowspan_ranges_decreases(rows: Seq<TableRow>, from: int) {
    if from < rows.len() {
        lemma_rowspan_run_end(rows, from);
    }
}

/// Every range holds a row of the table.
pub open spec fn ranges_within(ranges: Seq<RowRange>, count: int) -> bool {
    forall|i: int|
        0 <= i < ranges.len() ==> (#[trigger] ranges[i]).start < ranges[i].end && ranges[i].end
            <= count
}

/// The first of `ranges` from `index` on that holds `position`.
pub open spec fn range_holding(ranges: Seq<RowRange>, index: int, position: usize) -> Option<
    RowRange,
>
    decreases ranges.len() - index,
{
    if index < 0 || index >= ranges.len() {
        None
    } else if ranges[index].holds(position) {
        Some(ranges[index])
    } else {
        range_holding(ranges, index + 1, position)
    }
}

/// The first of `groups` from `index` on with the given kind.
pub open spec fn first_group(
    groups: Seq<TableRowGroup>,
    index: int,
    kind: TableRowGroupKind,
) -> Option<TableRowGroup>
    decreases groups.len() - index,
{
    if index < 0 || index >= groups.len() {
        None
    } else if groups[index].kind == kind {
        Some(groups[index])
    } else {
        first_group(groups, index + 1, kind)
    }
}

/// The first of `groups` from `index` on that holds the row at `position`.
pub open spec fn group_holding(
    groups: Seq<TableRowGroup>,
    index: int,
    position: usize,
) -> Option<TableRowGroup>
    decreases groups.len() - index,
{
    if index < 0 || index >= groups.len() {
        None
    } else if groups[index].first_row_index <= position < groups[index].end_row_index {
        Some(groups[index])
    } else {
        group_holding(groups, index + 1, position)
    }
}

/// The first of `groups` from `index` on that starts at `position`.
pub open spec fn group_starting(
    groups: Seq<TableRowGroup>,
    index: int,
    position: usize,
) -> Option<TableRowGroup>
    decreases groups.len() - index,
{
    if index < 0 || index >= groups.len() {
        None
    } else if groups[index].first_row_index == position {
        Some(groups[index])
    } else {
        group_starting(groups, index + 1, position)
    }
}

/// What a table needs for its rows to be placed: where its header and footer are, what they leave
/// of a page, and which rows lie between them.
#[derive(Clone, Copy, Debug)]
pub struct TableShape {
    pub header: Option<TableRowGroup>,
    pub footer: Option<TableRowGroup>,
    pub header_block_size: Au,
    pub body_page_capacity: Au,
    pub body_start: usize,
    pub body_end: usize,
}

/// Whether a table can be divided, and what is recorded where it cannot.
#[derive(Clone, Copy, Debug, PartialEq, Eq)]
pub enum TableAcceptance {
    Accepted,
    Refused,
    RefusedWith(BlockPaginationWarning),
}

impl TableView {
    /// All lengths are app-unit lengths.
    pub open spec fn in_range(self) -> bool {
        &&& forall|i: int| 0 <= i < self.rows.len() ==> (#[trigger] self.rows[i]).in_range()
        &&& forall|i: int| 0 <= i < self.groups.len() ==> (#[trigger] self.groups[i]).in_range()
        &&& forall|i: int|
            0 <= i < self.fragments.len() ==> (#[trigger] self.fragments[i]).in_range()
    }

    /// The runs of rows that a rowspan ties together.
    pub open spec fn ranges(self) -> Seq<RowRange> {
        rowspan_ranges(self.rows, 0)
    }

    pub open spec fn header(self) -> Option<TableRowGroup> {
        first_group(self.groups, 0, TableRowGroupKind::Header)
    }

    pub open spec fn footer(self) -> Option<TableRowGroup> {
        first_group(self.groups, 0, TableRowGroupKind::Footer)
    }

    /// Row `i` is numbered by its position, has cells and a size, and does not start before the
    /// row above it ends.
    pub open spec fn row_in_order(self, i: int) -> bool {
        let row = self.rows[i];
        &&& row.row_index == i
        &&& row.cell_count != 0
        &&& row.block_size.0 > 0
        &&& i > 0 ==> row.block_start.0 >= self.rows[i - 1].block_end().0
    }

    /// Group `i` holds rows of the table and comes after the group before it.
    pub open spec fn group_in_order(self, i: int) -> bool {
        let group = self.groups[i];
        &&& group.first_row_index < group.end_row_index
        &&& group.end_row_index <= self.rows.len()
        &&& i > 0 ==> group.first_row_index >= self.groups[i - 1].end_row_index
    }

    /// Row `i` names the group that holds it.
    pub open spec fn row_names_group(self, i: int) -> bool {
        self.rows[i].row_group_index == match group_holding(self.groups, 0, i as usize) {
            Some(group) => Some(group.row_group_index),
            None => None,
        }
    }

    /// Where the cells of row `row_index` may end: at the end of the row, or of the rows that a
    /// rowspan ties it to.
    pub open spec fn cells_end(self, row_index: usize) -> Au {
        match range_holding(self.ranges(), 0, row_index) {
            Some(range) => self.rows[range.end - 1].block_end(),
            None => self.rows[row_index as int].block_end(),
        }
    }

    /// Fragment `i` has a size and lies within its cell.
    pub open spec fn fragment_in_cell(self, i: int) -> bool {
        let fragment = self.fragments[i];
        let row = self.rows[fragment.row_index as int];
        &&& fragment.row_index < self.rows.len()
        &&& fragment.cell_index < row.cell_count
        &&& fragment.block_size.0 > 0
        &&& fragment.block_start.0 >= row.block_start.0
        &&& fragment.block_end().0 <= self.cells_end(fragment.row_index).0
    }

    /// Fragment `i` follows the one before it: in the same cell with the next number and not
    /// before its end, or as the first of a later cell.
    pub open spec fn fragment_in_order(self, i: int) -> bool {
        let fragment = self.fragments[i];
        if i == 0 {
            fragment.fragment_index == 0
        } else {
            let previous = self.fragments[i - 1];
            if fragment.row_index == previous.row_index && fragment.cell_index
                == previous.cell_index {
                &&& fragment.fragment_index == previous.fragment_index + 1
                &&& fragment.block_start.0 >= previous.block_end().0
            } else {
                &&& fragment.fragment_index == 0
                &&& fragment.row_index > previous.row_index || (fragment.row_index
                    == previous.row_index && fragment.cell_index > previous.cell_index)
            }
        }
    }

    /// A fragment of row `row_index` is retained.
    pub open spec fn has_fragment(self, row_index: usize) -> bool {
        exists|j: int|
            0 <= j < self.fragments.len() && (#[trigger] self.fragments[j]).row_index == row_index
    }

    /// The rows, groups and cell fragments describe a table whose rows can be divided.
    pub open spec fn supported(self, available: Au) -> bool {
        &&& self.rows.len() > 0
        &&& forall|i: int| 0 <= i < self.rows.len() ==> #[trigger] self.row_in_order(i)
        &&& forall|i: int| 0 <= i < self.groups.len() ==> #[trigger] self.group_in_order(i)
        &&& forall|i: int| 0 <= i < self.rows.len() ==> #[trigger] self.row_names_group(i)
        &&& forall|i: int| 0 <= i < self.fragments.len() ==> #[trigger] self.fragment_in_cell(i)
        &&& forall|i: int| 0 <= i < self.fragments.len() ==> #[trigger] self.fragment_in_order(i)
        &&& forall|i: int|
            0 <= i < self.rows.len() && (#[trigger] self.rows[i]).block_size.0 > available.0
                ==> self.has_fragment(self.rows[i].row_index)
    }

    pub open spec fn header_block_size(self) -> Au {
        match self.header() {
            Some(group) => group.block_size,
            None => Au(0),
        }
    }

    /// What the header leaves of a page.
    pub open spec fn body_page_capacity(self, available: Au) -> Au {
        available.minus(self.header_block_size())
    }

    pub open spec fn body_start(self) -> int {
        match self.header() {
            Some(group) => group.end_row_index as int,
            None => 0,
        }
    }

    pub open spec fn body_end(self) -> int {
        match self.footer() {
            Some(group) => group.first_row_index as int,
            None => self.rows.len() as int,
        }
    }

    /// The header can be repeated: it has an identity and a size that leaves space on a page.
    pub open spec fn header_repeatable(self, available: Au) -> bool {
        self.header() matches Some(group) ==> group.tag_id is Some && 0 < group.block_size.0
            < available.0
    }

    /// The footer fits the space that the header leaves.
    pub open spec fn footer_fits(self, available: Au) -> bool {
        self.footer() matches Some(group) ==> 0 < group.block_size.0 <= self.body_page_capacity(
            available,
        ).0
    }

    /// Fragment `j` belongs to `row` and passes `capacity` from the start of the row.
    pub open spec fn fragment_crosses(self, j: int, row: TableRow, capacity: Au) -> bool {
        self.fragments[j].row_index == row.row_index && self.fragments[j].block_end().0
            > row.block_start.plus(capacity).0
    }

    /// Fragment `j` belongs to `row` and is taller than `capacity`.
    pub open spec fn fragment_too_tall(self, j: int, row: TableRow, capacity: Au) -> bool {
        self.fragments[j].row_index == row.row_index && self.fragments[j].block_size.0 > capacity.0
    }

    /// `row` is taller than the space below the header and its fragments do not divide it.
    pub open spec fn row_resists(self, row: TableRow, capacity: Au) -> bool {
        &&& row.block_size.0 > capacity.0
        &&& {
            ||| !self.has_fragment(row.row_index)
            ||| forall|j: int|
                0 <= j < self.fragments.len() ==> !#[trigger] self.fragment_crosses(
                    j,
                    row,
                    capacity,
                )
            ||| exists|j: int|
                0 <= j < self.fragments.len() && #[trigger] self.fragment_too_tall(
                    j,
                    row,
                    capacity,
                )
        }
    }

    /// The header comes first, the footer last, and below a header every row can be divided.
    pub open spec fn segments_ordered(self, available: Au) -> bool {
        &&& self.body_start() <= self.body_end() <= self.rows.len()
        &&& self.header() matches Some(group) ==> group.first_row_index == 0
        &&& self.footer() matches Some(group) ==> group.end_row_index == self.rows.len()
        &&& self.header() is Some ==> forall|i: int|
            self.body_start() <= i < self.body_end() ==> !self.row_resists(
                #[trigger] self.rows[i],
                self.body_page_capacity(available),
            )
    }

    /// The block size of a run of rows.
    pub open spec fn range_block_size(self, range: RowRange) -> Au {
        self.rows[range.end - 1].block_end().minus(self.rows[range.start as int].block_start)
    }

    /// The run of rows lies across the end of the header or the start of the footer.
    pub open spec fn range_crosses_segment(self, range: RowRange) -> bool {
        ||| range.start < self.body_start() < range.end
        ||| range.start < self.body_end() < range.end
    }

    /// The space that a page has for the run of rows.
    pub open spec fn range_capacity(self, range: RowRange, available: Au) -> Au {
        if range.end <= self.body_start() {
            available
        } else {
            self.body_page_capacity(available)
        }
    }

    /// A group demands a break before row `position`.
    pub open spec fn group_break_at(self, position: int) -> bool {
        exists|g: int|
            0 <= g < self.groups.len() && self.group_breaks_at(g, position)
    }

    /// Group `g` starts at row `position` with a break before it, or ends there with one after it.
    pub open spec fn group_breaks_at(self, g: int, position: int) -> bool {
        let group = self.groups[g];
        ||| group.first_row_index == position && group.breaks.before
        ||| group.end_row_index == position && group.breaks.after
    }

    /// A break is demanded between the row before `position` and the row at `position`.
    pub open spec fn forced_break_at(self, position: int) -> bool {
        ||| self.rows[position].breaks.before
        ||| self.rows[position - 1].breaks.after
        ||| self.group_break_at(position)
    }

    /// A break is demanded within a run of rows.
    pub open spec fn range_forced_inside(self, range: RowRange) -> bool {
        exists|p: int| range.start < p < range.end && #[trigger] self.forced_break_at(p)
    }

    /// A run of rows cannot be kept together.
    pub open spec fn range_resists(self, range: RowRange, available: Au) -> bool {
        ||| self.range_crosses_segment(range)
        ||| self.range_block_size(range).0 > self.range_capacity(range, available).0
        ||| self.range_forced_inside(range)
    }

    /// The first run from `index` on that cannot be kept together.
    pub open spec fn resisting_range(
        self,
        ranges: Seq<RowRange>,
        index: int,
        available: Au,
    ) -> Option<RowRange>
        decreases ranges.len() - index,
    {
        if index < 0 || index >= ranges.len() {
            None
        } else if self.range_resists(ranges[index], available) {
            Some(ranges[index])
        } else {
            self.resisting_range(ranges, index + 1, available)
        }
    }

    /// The warning that the row groups are kept together.
    pub open spec fn group_warning(self, reason: TableGroupUnsupportedReason) -> TableAcceptance {
        TableAcceptance::RefusedWith(
            BlockPaginationWarning::UnsupportedTableGroupPagination {
                child_index: self.child_index,
                table_node: self.table_node,
                reason,
            },
        )
    }

    /// Whether the table can be divided between rows, and what is recorded where it cannot.
    pub open spec fn acceptance(self, available: Au) -> TableAcceptance {
        if !self.supported(available) {
            if self.header() is Some || self.footer() is Some {
                self.group_warning(TableGroupUnsupportedReason::UnsupportedLayout)
            } else {
                TableAcceptance::Refused
            }
        } else if !self.header_repeatable(available) {
            self.group_warning(TableGroupUnsupportedReason::UnsupportedLayout)
        } else if !self.footer_fits(available) {
            self.group_warning(TableGroupUnsupportedReason::FooterTooTallAfterHeader)
        } else if !self.segments_ordered(available) {
            self.group_warning(TableGroupUnsupportedReason::UnsupportedLayout)
        } else {
            match self.resisting_range(self.ranges(), 0, available) {
                None => TableAcceptance::Accepted,
                Some(range) => if self.header() is Some || self.footer() is Some {
                    self.group_warning(TableGroupUnsupportedReason::Rowspan)
                } else {
                    TableAcceptance::RefusedWith(
                        BlockPaginationWarning::UnsupportedTableRowspanPagination {
                            child_index: self.child_index,
                            table_node: self.table_node,
                            first_row_index: range.start,
                            end_row_index: range.end,
                            block_size: self.range_block_size(range),
                            available_block_size: self.range_capacity(range, available),
                            forced_break_inside: self.range_forced_inside(range),
                        },
                    )
                },
            }
        }
    }
}

proof fn lemma_rowspan_ranges_within(rows: Seq<TableRow>, from: int)
    requires
        0 <= from <= rows.len(),
        rows.len() <= usize::MAX,
    ensures
        ranges_within(rowspan_ranges(rows, from), rows.len() as int),
    decreases rows.len() - from,
{
    if from < rows.len() {
        if !rows[from].has_rowspan {
            lemma_rowspan_ranges_within(rows, from + 1);
        } else {
            lemma_rowspan_run_end(rows, from);
            lemma_rowspan_ranges_within(rows, rowspan_run_end(rows, from));
        }
    }
}

/// The runs of adjacent rows with a rowspan, in order.
pub fn table_rowspan_ranges(rows: &[TableRow]) -> (ranges: Vec<RowRange>)
    ensures
        ranges@ == rowspan_ranges(rows@, 0),
        ranges_within(ranges@, rows@.len() as int),
{
    let mut ranges: Vec<RowRange> = Vec::new();
    let mut position: usize = 0;
    while position < rows.len()
        invariant
            position <= rows.len(),
            ranges@ + rowspan_ranges(rows@, position as int) == rowspan_ranges(rows@, 0),
        decreases rows.len() - position,
    {
        if !rows[position].has_rowspan {
            position = position + 1;
        } else {
            let start: usize = position;
            let ghost found = ranges@;
            while position < rows.len() && rows[position].has_rowspan
                invariant
                    start <= position <= rows.len(),
                    rowspan_run_end(rows@, position as int) == rowspan_run_end(
                        rows@,
                        start as int,
                    ),
                decreases rows.len() - position,
            {
                position = position + 1;
            }
            proof {
                lemma_rowspan_run_end(rows@, start as int);
                assert(position == rowspan_run_end(rows@, start as int));
            }
            let range = RowRange { start, end: position };
            ranges.push(range);
            assert(ranges@ + rowspan_ranges(rows@, position as int) =~= found + rowspan_ranges(
                rows@,
                start as int,
            ));
        }
    }
    proof {
        assert(ranges@ + rowspan_ranges(rows@, position as int) =~= ranges@);
        lemma_rowspan_ranges_within(rows@, 0);
    }
    ranges
}

/// The first of `ranges` that holds a row.
pub fn find_range_holding(ranges: &Vec<RowRange>, position: usize) -> (range: Option<RowRange>)
    ensures
        range == range_holding(ranges@, 0, position),
        range matches Some(held) ==> held.holds(position) && exists|i: int|
            0 <= i < ranges@.len() && ranges@[i] == held,
{
    let mut index: usize = 0;
    while index < ranges.len()
        invariant
            index <= ranges.len(),
            range_holding(ranges@, index as int, position) == range_holding(ranges@, 0, position),
        decreases ranges.len() - index,
    {
        let range = ranges[index];
        if range.holds(position) {
            assert(ranges@[index as int] == range);
            return Some(range);
        }
        index = index + 1;
    }
    None
}

/// The first group of a kind.
pub fn find_group(groups: &[TableRowGroup], kind: TableRowGroupKind) -> (group: Option<
    TableRowGroup,
>)
    ensures
        group == first_group(groups@, 0, kind),
        group matches Some(found) ==> exists|i: int| 0 <= i < groups@.len() && groups@[i] == found,
{
    let mut index: usize = 0;
    while index < groups.len()
        invariant
            index <= groups.len(),
            first_group(groups@, index as int, kind) == first_group(groups@, 0, kind),
        decreases groups.len() - index,
    {
        let group = groups[index];
        if group.kind == kind {
            assert(groups@[index as int] == group);
            return Some(group);
        }
        index = index + 1;
    }
    None
}

/// The first group that holds a row.
pub fn find_group_holding(groups: &[TableRowGroup], position: usize) -> (group: Option<
    TableRowGroup,
>)
    ensures
        group == group_holding(groups@, 0, position),
{
    let mut index: usize = 0;
    while index < groups.len()
        invariant
            index <= groups.len(),
            group_holding(groups@, index as int, position) == group_holding(groups@, 0, position),
        decreases groups.len() - index,
    {
        let group = groups[index];
        if group.first_row_index <= position && position < group.end_row_index {
            return Some(group);
        }
        index = index + 1;
    }
    None
}

/// The first group that starts at a row.
pub fn find_group_starting(groups: &[TableRowGroup], position: usize) -> (group: Option<
    TableRowGroup,
>)
    ensures
        group == group_starting(groups@, 0, position),
        group matches Some(found) ==> exists|i: int| 0 <= i < groups@.len() && groups@[i] == found,
{
    let mut index: usize = 0;
    while index < groups.len()
        invariant
            index <= groups.len(),
            group_starting(groups@, index as int, position) == group_starting(
                groups@,
                0,
                position,
            ),
        decreases groups.len() - index,
    {
        let group = groups[index];
        if group.first_row_index == position {
            assert(groups@[index as int] == group);
            return Some(group);
        }
        index = index + 1;
    }
    None
}

fn same_group_index(left: Option<usize>, right: Option<usize>) -> (same: bool)
    ensures
        same == (left == right),
{
    match (left, right) {
        (Some(left), Some(right)) => left == right,
        (None, None) => true,
        _ => false,
    }
}

impl<'a> TableChild<'a> {
    fn rows_in_order(&self) -> (ordered: bool)
        requires
            self@.in_range(),
        ensures
            ordered == (self@.rows.len() > 0 && forall|i: int|
                0 <= i < self@.rows.len() ==> #[trigger] self@.row_in_order(i)),
    {
        if self.rows.len() == 0 {
            return false;
        }
        let mut position: usize = 0;
        while position < self.rows.len()
            invariant
                self@.in_range(),
                position <= self.rows.len(),
                forall|i: int| 0 <= i < position ==> #[trigger] self@.row_in_order(i),
            decreases self.rows.len() - position,
        {
            let row = self.rows[position];
            if row.row_index != position || row.cell_count == 0 || row.block_size.0 <= 0 {
                assert(!self@.row_in_order(position as int));
                return false;
            }
            if position > 0 {
                let previous = self.rows[position - 1];
                assert(self@.rows[position - 1].in_range());
                if row.block_start.0 < previous.block_end().0 {
                    assert(!self@.row_in_order(position as int));
                    return false;
                }
            }
            assert(self@.row_in_order(position as int));
            position = position + 1;
        }
        true
    }

    fn groups_in_order(&self) -> (ordered: bool)
        ensures
            ordered == (forall|i: int|
                0 <= i < self@.groups.len() ==> #[trigger] self@.group_in_order(i)),
    {
        let mut position: usize = 0;
        while position < self.groups.len()
            invariant
                position <= self.groups.len(),
                forall|i: int| 0 <= i < position ==> #[trigger] self@.group_in_order(i),
            decreases self.groups.len() - position,
        {
            let group = self.groups[position];
            if group.first_row_index >= group.end_row_index || group.end_row_index
                > self.rows.len() || (position > 0 && group.first_row_index < self.groups[position
                - 1].end_row_index) {
                assert(!self@.group_in_order(position as int));
                return false;
            }
            assert(self@.group_in_order(position as int));
            position = position + 1;
        }
        true
    }

    fn rows_name_groups(&self) -> (named: bool)
        ensures
            named == (forall|i: int|
                0 <= i < self@.rows.len() ==> #[trigger] self@.row_names_group(i)),
    {
        let mut position: usize = 0;
        while position < self.rows.len()
            invariant
                position <= self.rows.len(),
                forall|i: int| 0 <= i < position ==> #[trigger] self@.row_names_group(i),
            decreases self.rows.len() - position,
        {
            let held_by: Option<usize> = match find_group_holding(self.groups, position) {
                Some(group) => Some(group.row_group_index),
                None => None,
            };
            if !same_group_index(self.rows[position].row_group_index, held_by) {
                assert(!self@.row_names_group(position as int));
                return false;
            }
            assert(self@.row_names_group(position as int));
            position = position + 1;
        }
        true
    }

    fn fragment_is_in_cell(&self, ranges: &Vec<RowRange>, index: usize) -> (placed: bool)
        requires
            self@.in_range(),
            ranges@ == self@.ranges(),
            ranges_within(ranges@, self@.rows.len() as int),
            index < self@.fragments.len(),
        ensures
            placed == self@.fragment_in_cell(index as int),
    {
        let fragment = self.cell_fragments[index];
        assert(self@.fragments[index as int].in_range());
        if fragment.row_index >= self.rows.len() {
            return false;
        }
        let row = self.rows[fragment.row_index];
        assert(self@.rows[fragment.row_index as int].in_range());
        let row_block_end = match find_range_holding(ranges, fragment.row_index) {
            Some(range) => {
                let last_row = self.rows[range.end - 1];
                assert(self@.rows[range.end - 1].in_range());
                last_row.block_end()
            },
            None => row.block_end(),
        };
        !(fragment.cell_index >= row.cell_count || fragment.block_size.0 <= 0
            || fragment.block_start.0 < row.block_start.0 || fragment.block_end().0
            > row_block_end.0)
    }

    fn fragment_is_in_order(&self, index: usize) -> (ordered: bool)
        requires
            self@.in_range(),
            index < self@.fragments.len(),
        ensures
            ordered == self@.fragment_in_order(index as int),
    {
        let fragment = self.cell_fragments[index];
        if index == 0 {
            return fragment.fragment_index == 0;
        }
        let previous = self.cell_fragments[index - 1];
        assert(self@.fragments[index - 1].in_range());
        if fragment.row_index == previous.row_index && fragment.cell_index == previous.cell_index {
            fragment.fragment_index > previous.fragment_index && fragment.fragment_index - 1
                == previous.fragment_index && fragment.block_start.0 >= previous.block_end().0
        } else {
            fragment.fragment_index == 0 && (fragment.row_index > previous.row_index || (
            fragment.row_index == previous.row_index && fragment.cell_index > previous.cell_index))
        }
    }

    fn fragments_in_order(&self, ranges: &Vec<RowRange>) -> (ordered: bool)
        requires
            self@.in_range(),
            ranges@ == self@.ranges(),
            ranges_within(ranges@, self@.rows.len() as int),
        ensures
            ordered == {
                &&& forall|i: int|
                    0 <= i < self@.fragments.len() ==> #[trigger] self@.fragment_in_cell(i)
                &&& forall|i: int|
                    0 <= i < self@.fragments.len() ==> #[trigger] self@.fragment_in_order(i)
            },
    {
        let mut index: usize = 0;
        while index < self.cell_fragments.len()
            invariant
                self@.in_range(),
                ranges@ == self@.ranges(),
                ranges_within(ranges@, self@.rows.len() as int),
                index <= self.cell_fragments.len(),
                forall|i: int| 0 <= i < index ==> #[trigger] self@.fragment_in_cell(i),
                forall|i: int| 0 <= i < index ==> #[trigger] self@.fragment_in_order(i),
            decreases self.cell_fragments.len() - index,
        {
            if !self.fragment_is_in_cell(ranges, index) {
                assert(!self@.fragment_in_cell(index as int));
                return false;
            }
            if !self.fragment_is_in_order(index) {
                assert(!self@.fragment_in_order(index as int));
                return false;
            }
            index = index + 1;
        }
        true
    }

    fn row_has_fragment(&self, row_index: usize) -> (found: bool)
        ensures
            found == self@.has_fragment(row_index),
    {
        let mut index: usize = 0;
        while index < self.cell_fragments.len()
            invariant
                index <= self.cell_fragments.len(),
                forall|j: int|
                    0 <= j < index ==> (#[trigger] self@.fragments[j]).row_index != row_index,
            decreases self.cell_fragments.len() - index,
        {
            if self.cell_fragments[index].row_index == row_index {
                assert(self@.fragments[index as int].row_index == row_index);
                return true;
            }
            index = index + 1;
        }
        false
    }

    fn oversized_rows_have_fragments(&self, available: Au) -> (divisible: bool)
        ensures
            divisible == (forall|i: int|
                0 <= i < self@.rows.len() && (#[trigger] self@.rows[i]).block_size.0 > available.0
                    ==> self@.has_fragment(self@.rows[i].row_index)),
    {
        let mut position: usize = 0;
        while position < self.rows.len()
            invariant
                position <= self.rows.len(),
                forall|i: int|
                    0 <= i < position && (#[trigger] self@.rows[i]).block_size.0 > available.0
                        ==> self@.has_fragment(self@.rows[i].row_index),
            decreases self.rows.len() - position,
        {
            let row = self.rows[position];
            assert(row == self@.rows[position as int]);
            if row.block_size.0 > available.0 && !self.row_has_fragment(row.row_index) {
                return false;
            }
            position = position + 1;
        }
        true
    }

    /// Whether the rows, groups and cell fragments describe a table whose rows can be divided.
    pub fn table_rows_support(&self, available: Au, ranges: &Vec<RowRange>) -> (supported: bool)
        requires
            self@.in_range(),
            ranges@ == self@.ranges(),
            ranges_within(ranges@, self@.rows.len() as int),
        ensures
            supported == self@.supported(available),
    {
        self.rows_in_order() && self.groups_in_order() && self.rows_name_groups()
            && self.fragments_in_order(ranges) && self.oversized_rows_have_fragments(available)
    }

    fn row_is_indivisible(&self, row: TableRow, capacity: Au) -> (resists: bool)
        requires
            self@.in_range(),
            row.in_range(),
            capacity.in_range(),
        ensures
            resists == self@.row_resists(row, capacity),
    {
        if row.block_size.0 <= capacity.0 {
            return false;
        }
        let mut has_fragment = false;
        let mut crosses = false;
        let mut fits = true;
        let mut index: usize = 0;
        while index < self.cell_fragments.len()
            invariant
                self@.in_range(),
                row.in_range(),
                capacity.in_range(),
                index <= self.cell_fragments.len(),
                has_fragment == exists|j: int|
                    0 <= j < index && (#[trigger] self@.fragments[j]).row_index == row.row_index,
                crosses == exists|j: int|
                    0 <= j < index && #[trigger] self@.fragment_crosses(j, row, capacity),
                fits == !exists|j: int|
                    0 <= j < index && #[trigger] self@.fragment_too_tall(j, row, capacity),
            decreases self.cell_fragments.len() - index,
        {
            let fragment = self.cell_fragments[index];
            assert(self@.fragments[index as int].in_range());
            let ghost had = has_fragment;
            let ghost crossed = crosses;
            let ghost fitted = fits;
            if fragment.row_index == row.row_index {
                has_fragment = true;
                if fragment.block_end().0 > row.block_start.plus(capacity).0 {
                    crosses = true;
                    assert(self@.fragment_crosses(index as int, row, capacity));
                }
                if fragment.block_size.0 > capacity.0 {
                    fits = false;
                    assert(self@.fragment_too_tall(index as int, row, capacity));
                }
            }
            proof {
                let n = index + 1;
                if crossed {
                    let j = choose|j: int|
                        0 <= j < index && #[trigger] self@.fragment_crosses(j, row, capacity);
                    assert(0 <= j < n && self@.fragment_crosses(j, row, capacity));
                }
                if !fitted {
                    let j = choose|j: int|
                        0 <= j < index && #[trigger] self@.fragment_too_tall(j, row, capacity);
                    assert(0 <= j < n && self@.fragment_too_tall(j, row, capacity));
                }
                if had {
                    let j = choose|j: int|
                        0 <= j < index && (#[trigger] self@.fragments[j]).row_index
                            == row.row_index;
                    assert(0 <= j < n && self@.fragments[j].row_index == row.row_index);
                }
            }
            index = index + 1;
        }
        !has_fragment || !crosses || !fits
    }

    fn group_demands_break_at(&self, position: usize) -> (demanded: bool)
        ensures
            demanded == self@.group_break_at(position as int),
    {
        let mut index: usize = 0;
        while index < self.groups.len()
            invariant
                index <= self.groups.len(),
                forall|g: int|
                    0 <= g < index ==> !#[trigger] self@.group_breaks_at(g, position as int),
            decreases self.groups.len() - index,
        {
            let group = self.groups[index];
            if (group.first_row_index == position && group.breaks.before) || (group.end_row_index
                == position && group.breaks.after) {
                assert(self@.group_breaks_at(index as int, position as int));
                return true;
            }
            index = index + 1;
        }
        false
    }

    fn break_demanded_inside(&self, range: RowRange) -> (demanded: bool)
        requires
            range.start < range.end <= self@.rows.len(),
        ensures
            demanded == self@.range_forced_inside(range),
    {
        let mut position: usize = range.start + 1;
        while position < range.end
            invariant
                range.start < position <= range.end <= self@.rows.len(),
                forall|p: int|
                    range.start < p < position ==> !#[trigger] self@.forced_break_at(p),
            decreases range.end - position,
        {
            if self.rows[position].breaks.before || self.rows[position - 1].breaks.after
                || self.group_demands_break_at(position) {
                assert(self@.forced_break_at(position as int));
                return true;
            }
            assert(!self@.forced_break_at(position as int));
            position = position + 1;
        }
        false
    }

    fn group_refusal(&self, reason: TableGroupUnsupportedReason) -> (refusal: TableAcceptance)
        ensures
            refusal == self@.group_warning(reason),
    {
        TableAcceptance::RefusedWith(
            BlockPaginationWarning::UnsupportedTableGroupPagination {
                child_index: self.child_index,
                table_node: self.table_node,
                reason,
            },
        )
    }

    /// Where the header, the body and the footer are. The rows between header and footer are only
    /// meaningful for an accepted table.
    pub fn shape(&self, available: Au) -> (shape: TableShape)
        requires
            self@.in_range(),
            available.in_range(),
        ensures
            shape.header == self@.header(),
            shape.footer == self@.footer(),
            shape.header_block_size == self@.header_block_size(),
            shape.header_block_size.in_range(),
            shape.body_page_capacity == self@.body_page_capacity(available),
            shape.body_page_capacity.in_range(),
            shape.body_start == self@.body_start(),
            shape.body_end == self@.body_end(),
    {
        let header = find_group(self.groups, TableRowGroupKind::Header);
        let footer = find_group(self.groups, TableRowGroupKind::Footer);
        let header_block_size = match header {
            Some(group) => group.block_size,
            None => Au::zero(),
        };
        let body_page_capacity = available.minus(header_block_size);
        let body_start: usize = match header {
            Some(group) => group.end_row_index,
            None => 0,
        };
        let body_end: usize = match footer {
            Some(group) => group.first_row_index,
            None => self.rows.len(),
        };
        TableShape { header, footer, header_block_size, body_page_capacity, body_start, body_end }
    }

    fn segments_in_order(&self, shape: &TableShape, available: Au) -> (ordered: bool)
        requires
            self@.in_range(),
            shape.header == self@.header(),
            shape.footer == self@.footer(),
            shape.body_page_capacity == self@.body_page_capacity(available),
            shape.body_page_capacity.in_range(),
            shape.body_start == self@.body_start(),
            shape.body_end == self@.body_end(),
        ensures
            ordered == self@.segments_ordered(available),
    {
        if shape.body_start > shape.body_end || shape.body_end > self.rows.len() {
            return false;
        }
        if let Some(group) = shape.header {
            if group.first_row_index != 0 {
                return false;
            }
        }
        if let Some(group) = shape.footer {
            if group.end_row_index != self.rows.len() {
                return false;
            }
        }
        if shape.header.is_some() {
            let mut position: usize = shape.body_start;
            while position < shape.body_end
                invariant
                    self@.in_range(),
                    shape.header is Some,
                    shape.header == self@.header(),
                    shape.body_page_capacity == self@.body_page_capacity(available),
                    shape.body_start == self@.body_start(),
                    shape.body_end == self@.body_end(),
                    shape.body_start <= position <= shape.body_end <= self@.rows.len(),
                    shape.body_page_capacity.in_range(),
                    forall|i: int|
                        shape.body_start <= i < position ==> !self@.row_resists(
                            #[trigger] self@.rows[i],
                            shape.body_page_capacity,
                        ),
                decreases shape.body_end - position,
            {
                let row = self.rows[position];
                assert(row == self@.rows[position as int]);
                if self.row_is_indivisible(row, shape.body_page_capacity) {
                    return false;
                }
                position = position + 1;
            }
        }
        true
    }

    /// Whether the table can be divided between rows, and what is recorded where it cannot.
    pub fn accept(&self, available: Au, ranges: &Vec<RowRange>, shape: &TableShape) -> (acceptance:
        TableAcceptance)
        requires
            self@.in_range(),
            available.in_range(),
            ranges@ == self@.ranges(),
            ranges_within(ranges@, self@.rows.len() as int),
            shape.header == self@.header(),
            shape.footer == self@.footer(),
            shape.header_block_size == self@.header_block_size(),
            shape.body_page_capacity == self@.body_page_capacity(available),
            shape.body_page_capacity.in_range(),
            shape.body_start == self@.body_start(),
            shape.body_end == self@.body_end(),
        ensures
            acceptance == self@.acceptance(available),
    {
        if !self.table_rows_support(available, ranges) {
            if shape.header.is_some() || shape.footer.is_some() {
                return self.group_refusal(TableGroupUnsupportedReason::UnsupportedLayout);
            }
            return TableAcceptance::Refused;
        }
        if let Some(group) = shape.header {
            if group.tag_id.is_none() || group.block_size.0 <= 0 || group.block_size.0
                >= available.0 {
                return self.group_refusal(TableGroupUnsupportedReason::UnsupportedLayout);
            }
        }
        if let Some(group) = shape.footer {
            if group.block_size.0 <= 0 || group.block_size.0 > shape.body_page_capacity.0 {
                return self.group_refusal(TableGroupUnsupportedReason::FooterTooTallAfterHeader);
            }
        }
        if !self.segments_in_order(shape, available) {
            return self.group_refusal(TableGroupUnsupportedReason::UnsupportedLayout);
        }
        let mut index: usize = 0;
        while index < ranges.len()
            invariant
                self@.in_range(),
                available.in_range(),
                index <= ranges.len(),
                ranges@ == self@.ranges(),
                ranges_within(ranges@, self@.rows.len() as int),
                shape.header == self@.header(),
                shape.footer == self@.footer(),
                shape.body_page_capacity == self@.body_page_capacity(available),
                shape.body_start == self@.body_start(),
                shape.body_end == self@.body_end(),
                self@.supported(available),
                self@.header_repeatable(available),
                self@.footer_fits(available),
                self@.segments_ordered(available),
                self@.resisting_range(ranges@, index as int, available) == self@.resisting_range(
                    ranges@,
                    0,
                    available,
                ),
            decreases ranges.len() - index,
        {
            let range = ranges[index];
            assert(ranges@[index as int] == range);
            assert(self@.rows[range.start as int].in_range());
            assert(self@.rows[range.end - 1].in_range());
            let first_row = self.rows[range.start];
            let last_row = self.rows[range.end - 1];
            let block_size = last_row.block_end().minus(first_row.block_start);
            let crosses = (range.start < shape.body_start && range.end > shape.body_start) || (
            range.start < shape.body_end && range.end > shape.body_end);
            let available_block_size = if range.end <= shape.body_start {
                available
            } else {
                shape.body_page_capacity
            };
            let forced_break_inside = self.break_demanded_inside(range);
            if crosses || block_size.0 > available_block_size.0 || forced_break_inside {
                if shape.header.is_some() || shape.footer.is_some() {
                    return self.group_refusal(TableGroupUnsupportedReason::Rowspan);
                }
                return TableAcceptance::RefusedWith(
                    BlockPaginationWarning::UnsupportedTableRowspanPagination {
                        child_index: self.child_index,
                        table_node: self.table_node,
                        first_row_index: range.start,
                        end_row_index: range.end,
                        block_size,
                        available_block_size,
                        forced_break_inside,
                    },
                );
            }
            index = index + 1;
        }
        TableAcceptance::Accepted
    }
}

} // verus!
