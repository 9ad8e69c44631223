//! The table model: its grid of slots, and the profile of its collapsed borders.
pub mod borders;
pub mod laws;

use crate::ids::NodeId;
use vstd::prelude::*;

verus! {

/// Names a computed style.
#[derive(Clone, Copy, Debug, PartialEq, Eq, Structural)]
pub struct StyleId(pub u64);

/// Where a fragment comes from.
#[derive(Clone, Copy, Debug, PartialEq, Eq)]
pub struct BaseFragmentInfo {
    /// The node, unless the box is anonymous.
    pub tag: Option<NodeId>,
}

/// What every box of the box tree has.
#[derive(Clone, Copy, Debug, PartialEq, Eq)]
pub struct LayoutBoxBase {
    pub base_fragment_info: BaseFragmentInfo,
    pub style: StyleId,
}

/// What a cell or a caption holds.
#[derive(Clone, Copy, Debug, PartialEq, Eq)]
pub struct IndependentFormattingContext {
    pub base: LayoutBoxBase,
    /// How many boxes there are in it.
    pub subtree_size: usize,
}

/// How many columns and rows a table has.
#[derive(Clone, Copy, Debug, PartialEq, Eq, Structural)]
pub struct TableSize {
    pub width: usize,
    pub height: usize,
}

/// A slot, by its column and row.
#[derive(Clone, Copy, Debug, PartialEq, Eq, Structural)]
pub struct TableSlotCoordinates {
    pub x: usize,
    pub y: usize,
}

/// How many columns and rows lie between a slot and the cell that spans it.
#[derive(Clone, Copy, Debug, PartialEq, Eq, Structural)]
pub struct TableSlotOffset {
    pub x: usize,
    pub y: usize,
}

/// A cell.
#[derive(Clone, Copy, Debug, PartialEq, Eq)]
pub struct TableSlotCell {
    pub context: IndependentFormattingContext,
    /// How many columns the cell spans.
    pub colspan: usize,
    /// How many rows the cell spans; zero stands for all that are left in the row group.
    pub rowspan: usize,
}

impl TableSlotCell {
    /// A cell of a node with nothing in it.
    pub fn mock_for_testing(id: usize, colspan: usize, rowspan: usize) -> (cell: Self)
        ensures
            cell.node_id() == id,
            cell.colspan == colspan,
            cell.rowspan == rowspan,
            cell.context.subtree_size == 1,
    {
        TableSlotCell {
            context: IndependentFormattingContext {
                base: LayoutBoxBase {
                    base_fragment_info: BaseFragmentInfo { tag: Some(NodeId(id)) },
                    style: StyleId(0),
                },
                subtree_size: 1,
            },
            colspan,
            rowspan,
        }
    }

    pub open spec fn spec_node_id(&self) -> usize {
        match self.context.base.base_fragment_info.tag {
            Some(node) => node.0,
            None => 0,
        }
    }

    /// The node of the cell; zero stands for none.
    #[verifier::when_used_as_spec(spec_node_id)]
    pub fn node_id(&self) -> (node: usize)
        ensures
            node == self.spec_node_id(),
    {
        match self.context.base.base_fragment_info.tag {
            Some(node) => node.0,
            None => 0,
        }
    }
}

/// A place in the grid of a table.
#[derive(Debug, PartialEq, Eq)]
pub enum TableSlot {
    /// A cell starts here.
    Cell(TableSlotCell),
    /// Cells that start earlier reach here, the most recent first. More than one is an error of the
    /// table model that is kept.
    Spanned(Vec<TableSlotOffset>),
    /// Nothing is here.
    Empty,
}

impl TableSlot {
    /// A slot that one cell reaches.
    pub fn new_spanned(offset: TableSlotOffset) -> (slot: Self)
        ensures
            slot matches TableSlot::Spanned(offsets) && offsets@ == seq![offset],
    {
        let mut offsets: Vec<TableSlotOffset> = Vec::new();
        offsets.push(offset);
        assert(offsets@ =~= seq![offset]);
        TableSlot::Spanned(offsets)
    }

    pub open spec fn spec_subtree_size(&self) -> usize {
        match self {
            TableSlot::Cell(cell) => cell.context.subtree_size,
            _ => 0,
        }
    }

    /// How many boxes there are in the slot.
    #[verifier::when_used_as_spec(spec_subtree_size)]
    pub fn subtree_size(&self) -> (size: usize)
        ensures
            size == self.spec_subtree_size(),
    {
        match self {
            TableSlot::Cell(cell) => cell.context.subtree_size,
            _ => 0,
        }
    }
}

/// A row or column.
#[derive(Clone, Copy, Debug, PartialEq, Eq)]
pub struct TableTrack {
    pub base: LayoutBoxBase,
    /// The row or column group that it belongs to.
    pub group_index: Option<usize>,
    pub is_anonymous: bool,
    /// The style by which cells draw the track's background.
    pub shared_background_style: StyleId,
}

impl TableTrack {
    /// The track has another style.
    pub fn repair_style(&mut self, new_style: StyleId)
        ensures
            *final(self) == (TableTrack {
                base: LayoutBoxBase { style: new_style, ..old(self).base },
                shared_background_style: new_style,
                ..*old(self)
            }),
    {
        self.base.style = new_style;
        self.shared_background_style = new_style;
    }
}

/// What a group of rows or columns is for.
#[derive(Clone, Copy, Debug, PartialEq, Eq, Structural)]
pub enum TableTrackGroupType {
    HeaderGroup,
    FooterGroup,
    RowGroup,
    ColumnGroup,
}

/// The tracks from `start` up to `end`.
#[derive(Clone, Copy, Debug, PartialEq, Eq, Structural)]
pub struct TrackRange {
    pub start: usize,
    pub end: usize,
}

/// A group of rows or columns.
#[derive(Clone, Copy, Debug, PartialEq, Eq)]
pub struct TableTrackGroup {
    pub base: LayoutBoxBase,
    pub group_type: TableTrackGroupType,
    pub track_range: TrackRange,
    /// The style by which cells draw the group's background.
    pub shared_background_style: StyleId,
}

impl TableTrackGroup {
    /// The group has no track.
    pub fn is_empty(&self) -> (empty: bool)
        ensures
            empty == (self.track_range.start >= self.track_range.end),
    {
        self.track_range.start >= self.track_range.end
    }

    /// The group has another style.
    pub fn repair_style(&mut self, new_style: StyleId)
        ensures
            *final(self) == (TableTrackGroup {
                base: LayoutBoxBase { style: new_style, ..old(self).base },
                shared_background_style: new_style,
                ..*old(self)
            }),
    {
        self.base.style = new_style;
        self.shared_background_style = new_style;
    }
}

/// A caption.
#[derive(Clone, Copy, Debug, PartialEq, Eq)]
pub struct TableCaption {
    pub context: IndependentFormattingContext,
}

/// A table.
#[derive(Debug)]
pub struct Table {
    /// The style of the box around grid and captions.
    pub style: StyleId,
    /// The style of the grid.
    pub grid_style: StyleId,
    pub grid_base_fragment_info: BaseFragmentInfo,
    pub captions: Vec<TableCaption>,
    pub column_groups: Vec<TableTrackGroup>,
    pub columns: Vec<TableTrack>,
    pub row_groups: Vec<TableTrackGroup>,
    pub rows: Vec<TableTrack>,
    /// The slots, row by row.
    pub slots: Vec<Vec<TableSlot>>,
    pub size: TableSize,
    pub anonymous: bool,
    pub percentage_columns_allowed_for_inline_content_sizes: bool,
}

/// How many boxes there are in the first `count` slots of a row.
pub open spec fn row_subtree_size(row: Seq<TableSlot>, count: int) -> int
    decreases count,
{
    if count <= 0 || count > row.len() {
        0
    } else {
        row_subtree_size(row, count - 1) + row[count - 1].subtree_size()
    }
}

/// How many boxes there are in the first `count` rows.
pub open spec fn rows_subtree_size(slots: Seq<Vec<TableSlot>>, count: int) -> int
    decreases count,
{
    if count <= 0 || count > slots.len() {
        0
    } else {
        rows_subtree_size(slots, count - 1) + row_subtree_size(
            slots[count - 1]@,
            slots[count - 1]@.len() as int,
        )
    }
}

proof fn lemma_row_subtree_size(row: Seq<TableSlot>, count: int, whole: int)
    requires
        0 <= count <= whole <= row.len(),
    ensures
        0 <= row_subtree_size(row, count) <= row_subtree_size(row, whole),
    decreases whole,
{
    if count < whole {
        lemma_row_subtree_size(row, count, whole - 1);
    } else if count > 0 {
        lemma_row_subtree_size(row, count - 1, whole - 1);
    }
}

proof fn lemma_rows_subtree_size(slots: Seq<Vec<TableSlot>>, count: int, whole: int)
    requires
        0 <= count <= whole <= slots.len(),
    ensures
        0 <= rows_subtree_size(slots, count) <= rows_subtree_size(slots, whole),
    decreases whole,
{
    if whole > 0 {
        lemma_row_subtree_size(
            slots[whole - 1]@,
            slots[whole - 1]@.len() as int,
            slots[whole - 1]@.len() as int,
        );
    }
    if count < whole {
        lemma_rows_subtree_size(slots, count, whole - 1);
    } else if count > 0 {
        lemma_rows_subtree_size(slots, count - 1, whole - 1);
    }
}

impl Table {
    /// There is a slot at these coordinates.
    pub open spec fn has_slot(&self, coords: TableSlotCoordinates) -> bool {
        coords.y < self.slots@.len() && coords.x < self.slots@[coords.y as int]@.len()
    }

    /// The slot at these coordinates.
    pub open spec fn slot_at(&self, coords: TableSlotCoordinates) -> TableSlot {
        self.slots@[coords.y as int]@[coords.x as int]
    }

    /// Where the cell starts that most recently reaches a spanned slot.
    pub open spec fn first_cell_coords(&self, coords: TableSlotCoordinates) -> Option<
        TableSlotCoordinates,
    > {
        if !self.has_slot(coords) {
            None
        } else {
            match self.slot_at(coords) {
                TableSlot::Cell(_) => Some(coords),
                TableSlot::Spanned(offsets) => Some(
                    TableSlotCoordinates {
                        x: (coords.x - offsets@[0].x) as usize,
                        y: (coords.y - offsets@[0].y) as usize,
                    },
                ),
                TableSlot::Empty => None,
            }
        }
    }

    /// Every spanned slot leads back to a cell.
    pub open spec fn wf(&self) -> bool {
        forall|coords: TableSlotCoordinates| #[trigger]
            self.has_slot(coords) ==> (self.slot_at(coords) matches TableSlot::Spanned(offsets)
                ==> {
                &&& offsets@.len() > 0
                &&& offsets@[0].x <= coords.x
                &&& offsets@[0].y <= coords.y
                &&& self.first_cell_coords(coords) matches Some(cell) && self.has_slot(cell)
                    && self.slot_at(cell) is Cell
            })
    }

    /// A table without rows and columns.
    pub fn new(
        style: StyleId,
        grid_style: StyleId,
        base_fragment_info: BaseFragmentInfo,
        percentage_columns_allowed_for_inline_content_sizes: bool,
    ) -> (table: Self)
        ensures
            table.style == style,
            table.grid_style == grid_style,
            table.grid_base_fragment_info == base_fragment_info,
            table.captions@.len() == 0,
            table.column_groups@.len() == 0,
            table.columns@.len() == 0,
            table.row_groups@.len() == 0,
            table.rows@.len() == 0,
            table.slots@.len() == 0,
            table.size == (TableSize { width: 0, height: 0 }),
            !table.anonymous,
            table.percentage_columns_allowed_for_inline_content_sizes
                == percentage_columns_allowed_for_inline_content_sizes,
            table.wf(),
    {
        Table {
            style,
            grid_style,
            grid_base_fragment_info: base_fragment_info,
            captions: Vec::new(),
            column_groups: Vec::new(),
            columns: Vec::new(),
            row_groups: Vec::new(),
            rows: Vec::new(),
            slots: Vec::new(),
            size: TableSize { width: 0, height: 0 },
            anonymous: false,
            percentage_columns_allowed_for_inline_content_sizes,
        }
    }

    /// The slot at these coordinates, if there is one.
    pub fn get_slot(&self, coords: TableSlotCoordinates) -> (slot: Option<&TableSlot>)
        ensures
            match slot {
                Some(slot) => self.has_slot(coords) && *slot == self.slot_at(coords),
                None => !self.has_slot(coords),
            },
    {
        if coords.y < self.slots.len() && coords.x < self.slots[coords.y].len() {
            Some(&self.slots[coords.y][coords.x])
        } else {
            None
        }
    }

    /// Where the cell starts that a slot belongs to.
    pub fn resolve_first_cell_coords(&self, coords: TableSlotCoordinates) -> (resolved: Option<
        TableSlotCoordinates,
    >)
        requires
            self.wf(),
        ensures
            resolved == self.first_cell_coords(coords),
    {
        match self.get_slot(coords) {
            Some(TableSlot::Cell(_)) => Some(coords),
            Some(TableSlot::Spanned(offsets)) => {
                let offset = offsets[0];
                Some(TableSlotCoordinates { x: coords.x - offset.x, y: coords.y - offset.y })
            },
            _ => None,
        }
    }

    /// The cell that a slot belongs to.
    pub fn resolve_first_cell(&self, coords: TableSlotCoordinates) -> (cell: Option<&TableSlotCell>)
        requires
            self.wf(),
        ensures
            match self.first_cell_coords(coords) {
                Some(resolved) => cell matches Some(cell) && self.slot_at(resolved)
                    == TableSlot::Cell(*cell),
                None => cell is None,
            },
    {
        let resolved = match self.resolve_first_cell_coords(coords) {
            Some(resolved) => resolved,
            None => return None,
        };
        match self.get_slot(resolved) {
            Some(TableSlot::Cell(cell)) => Some(cell),
            _ => None,
        }
    }

    /// The table has another style, and another one derived from it for its grid.
    pub fn repair_style(&mut self, new_style: StyleId, new_grid_style: StyleId)
        ensures
            *final(self) == (Table { style: new_style, grid_style: new_grid_style, ..*old(self) }),
    {
        self.style = new_style;
        self.grid_style = new_grid_style;
    }

    /// How many boxes there are in the table's cells.
    pub fn subtree_size(&self) -> (size: usize)
        requires
            rows_subtree_size(self.slots@, self.slots@.len() as int) <= usize::MAX,
        ensures
            size == rows_subtree_size(self.slots@, self.slots@.len() as int),
    {
        let mut size: usize = 0;
        let mut row: usize = 0;
        while row < self.slots.len()
            invariant
                row <= self.slots@.len(),
                size == rows_subtree_size(self.slots@, row as int),
                rows_subtree_size(self.slots@, self.slots@.len() as int) <= usize::MAX,
            decreases self.slots.len() - row,
        {
            let ghost before = size;
            proof {
                lemma_rows_subtree_size(self.slots@, row + 1, self.slots@.len() as int);
            }
            let mut column: usize = 0;
            while column < self.slots[row].len()
                invariant
                    row < self.slots@.len(),
                    column <= self.slots@[row as int]@.len(),
                    size == before + row_subtree_size(self.slots@[row as int]@, column as int),
                    before + row_subtree_size(
                        self.slots@[row as int]@,
                        self.slots@[row as int]@.len() as int,
                    ) <= usize::MAX,
                decreases self.slots@[row as int]@.len() - column,
            {
                proof {
                    lemma_row_subtree_size(
                        self.slots@[row as int]@,
                        column + 1,
                        self.slots@[row as int]@.len() as int,
                    );
                }
                size = size + self.slots[row][column].subtree_size();
                column = column + 1;
            }
            row = row + 1;
        }
        size
    }
}

/// A part of a table that a node of the document has.
#[derive(Clone, Copy, Debug, PartialEq, Eq)]
pub enum TableLevelBox {
    Caption(TableCaption),
    Cell(TableSlotCell),
    TrackGroup(TableTrackGroup),
    Track(TableTrack),
}

impl TableLevelBox {
    /// What the part has as a box.
    pub open spec fn base(self) -> LayoutBoxBase {
        match self {
            TableLevelBox::Caption(caption) => caption.context.base,
            TableLevelBox::Cell(cell) => cell.context.base,
            TableLevelBox::TrackGroup(track_group) => track_group.base,
            TableLevelBox::Track(track) => track.base,
        }
    }

    /// Calls back with what the part has as a box.
    pub fn with_base<T, F: FnOnce(&LayoutBoxBase) -> T>(&self, callback: F) -> (result: T)
        requires
            call_requires(callback, (&self.base(),)),
        ensures
            call_ensures(callback, (&self.base(),), result),
    {
        match self {
            TableLevelBox::Caption(caption) => callback(&caption.context.base),
            TableLevelBox::Cell(cell) => callback(&cell.context.base),
            TableLevelBox::TrackGroup(track_group) => callback(&track_group.base),
            TableLevelBox::Track(track) => callback(&track.base),
        }
    }

    /// The part with something else that it has as a box.
    pub open spec fn rebased(self, base: LayoutBoxBase) -> TableLevelBox {
        match self {
            TableLevelBox::Caption(caption) => TableLevelBox::Caption(
                TableCaption {
                    context: IndependentFormattingContext { base, ..caption.context },
                },
            ),
            TableLevelBox::Cell(cell) => TableLevelBox::Cell(
                TableSlotCell {
                    context: IndependentFormattingContext { base, ..cell.context },
                    ..cell
                },
            ),
            TableLevelBox::TrackGroup(track_group) => TableLevelBox::TrackGroup(
                TableTrackGroup { base, ..track_group },
            ),
            TableLevelBox::Track(track) => TableLevelBox::Track(TableTrack { base, ..track }),
        }
    }

    /// Lends out what the part has as a box.
    pub fn with_base_mut(&mut self) -> (base: &mut LayoutBoxBase)
        ensures
            *base == old(self).base(),
            *final(self) == old(self).rebased(*final(base)),
    {
        match self {
            TableLevelBox::Caption(caption) => &mut caption.context.base,
            TableLevelBox::Cell(cell) => &mut cell.context.base,
            TableLevelBox::TrackGroup(track_group) => &mut track_group.base,
            TableLevelBox::Track(track) => &mut track.base,
        }
    }

    /// The part has another style.
    pub fn repair_style(&mut self, new_style: StyleId)
        ensures
            ({
                let base = LayoutBoxBase { style: new_style, ..old(self).base() };
                *final(self) == (match *old(self) {
                    TableLevelBox::TrackGroup(track_group) => TableLevelBox::TrackGroup(
                        TableTrackGroup {
                            base,
                            shared_background_style: new_style,
                            ..track_group
                        },
                    ),
                    TableLevelBox::Track(track) => TableLevelBox::Track(
                        TableTrack { base, shared_background_style: new_style, ..track },
                    ),
                    part => part.rebased(base),
                })
            }),
    {
        match self {
            TableLevelBox::Caption(caption) => {
                caption.context.base.style = new_style;
            },
            TableLevelBox::Cell(cell) => {
                cell.context.base.style = new_style;
            },
            TableLevelBox::TrackGroup(track_group) => {
                track_group.repair_style(new_style);
            },
            TableLevelBox::Track(track) => {
                track.repair_style(new_style);
            },
        }
    }

    /// The part is attached to the box tree by itself. Tracks and track groups are attached with
    /// their table.
    pub fn attaches_by_itself(&self) -> (attaches: bool)
        ensures
            attaches == (self is Caption || self is Cell),
    {
        match self {
            TableLevelBox::Caption(_) | TableLevelBox::Cell(_) => true,
            TableLevelBox::TrackGroup(_) | TableLevelBox::Track(_) => false,
        }
    }
}

/// What a slot resolves to, resolves to itself.
pub proof fn law_resolved_cell_is_stable(table: Table, coords: TableSlotCoordinates)
    requires
        table.wf(),
    ensures
        table.first_cell_coords(coords) matches Some(resolved) ==> {
            &&& table.has_slot(resolved)
            &&& table.slot_at(resolved) is Cell
            &&& table.first_cell_coords(resolved) == Some(resolved)
            &&& resolved.x <= coords.x
            &&& resolved.y <= coords.y
        },
{
}

/// A slot that a cell reaches leads back to it by the columns and rows between them, over the cell
/// that reached it last; a slot where a cell starts leads to itself, and one with nothing in it, or
/// none at all, nowhere.
pub proof fn law_slots_lead_back_to_their_cell(table: Table, coords: TableSlotCoordinates)
    requires
        table.wf(),
    ensures
        !table.has_slot(coords) ==> table.first_cell_coords(coords) is None,
        table.has_slot(coords) ==> match table.slots@[coords.y as int]@[coords.x as int] {
            TableSlot::Cell(_) => table.first_cell_coords(coords) == Some(coords),
            TableSlot::Empty => table.first_cell_coords(coords) is None,
            TableSlot::Spanned(offsets) => table.first_cell_coords(coords) matches Some(cell)
                && cell.x + offsets@[0].x == coords.x && cell.y + offsets@[0].y == coords.y
                && table.slots@[cell.y as int]@[cell.x as int] is Cell,
        },
        table.has_slot(coords) <==> coords.y < table.slots@.len() && coords.x < table.slots@[coords.y
            as int]@.len(),
{
    if table.has_slot(coords) {
        assert(table.slot_at(coords) == table.slots@[coords.y as int]@[coords.x as int]);
    }
}

proof fn lemma_size_holds_cells(row: Seq<TableSlot>, count: int, i: int)
    requires
        0 <= i < count <= row.len(),
    ensures
        row[i].subtree_size() <= row_subtree_size(row, count),
    decreases count,
{
    lemma_row_subtree_size(row, count - 1, count);
    lemma_row_subtree_size(row, 0, count - 1);
    if i < count - 1 {
        lemma_size_holds_cells(row, count - 1, i);
    }
}

/// The boxes of a table are those of its cells, each counted once: rows that are added add theirs,
/// and slots without a cell add nothing.
pub proof fn law_boxes_of_a_table_are_those_of_its_cells(
    above: Seq<Vec<TableSlot>>,
    row: Vec<TableSlot>,
    i: int,
)
    ensures
        rows_subtree_size(above.push(row), (above.len() + 1) as int) == rows_subtree_size(
            above,
            above.len() as int,
        ) + row_subtree_size(row@, row@.len() as int),
        0 <= i < row@.len() ==> (match row@[i] {
            TableSlot::Cell(cell) => cell.context.subtree_size <= row_subtree_size(
                row@,
                row@.len() as int,
            ) && row_subtree_size(row@, i + 1) == row_subtree_size(row@, i)
                + cell.context.subtree_size,
            _ => row_subtree_size(row@, i + 1) == row_subtree_size(row@, i),
        }),
{
    let rows = above.push(row);
    lemma_rows_prefix(rows, above, above.len() as int);
    if 0 <= i < row@.len() {
        lemma_size_holds_cells(row@, row@.len() as int, i);
    }
}

proof fn lemma_rows_prefix(rows: Seq<Vec<TableSlot>>, above: Seq<Vec<TableSlot>>, count: int)
    requires
        0 <= count <= above.len() <= rows.len(),
        forall|k: int| 0 <= k < above.len() ==> #[trigger] rows[k] == above[k],
    ensures
        rows_subtree_size(rows, count) == rows_subtree_size(above, count),
    decreases count,
{
    if count > 0 {
        lemma_rows_prefix(rows, above, count - 1);
    }
}

} // verus!
