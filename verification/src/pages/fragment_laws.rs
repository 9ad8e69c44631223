//! What holds of a row that no page can hold, told by the places of the pieces of its cells.
use crate::au::{Au, MAX_AU};
use crate::pages::flow::{BlockPaginationRequest, BuilderView};
use crate::pages::laws::lemma_origin_after_step;
use crate::pages::table_flow::{
    caught_up, fragment_step, lemma_accepted, origin_after, CellWalk, DividedRow,
};
use crate::pages::table_rules::{TableCellFragment, TableRow, TableView};
use vstd::prelude::*;

verus! {

proof fn lemma_catching_up(
    request: BlockPaginationRequest,
    header_size: Au,
    walk: CellWalk,
    start: Au,
)
    requires
        request.wf(),
        0 <= header_size.0 <= MAX_AU,
        0 <= walk.origin.0 <= MAX_AU,
        0 <= walk.shift.0 <= MAX_AU,
        start.in_range(),
    ensures
        ({
            let (reached, reached_start) = caught_up(request, header_size, walk, start);
            &&& walk.page <= reached.page
            &&& reached.origin == origin_after(
                walk.origin,
                request.page_stride,
                reached.page - walk.page,
            )
            &&& walk.origin.0 <= reached.origin.0 <= MAX_AU
            &&& 0 <= walk.shift.0 <= reached.shift.0 <= MAX_AU
            &&& start.0 <= reached_start.0 <= MAX_AU
            &&& reached.page == walk.page ==> reached.origin == walk.origin && reached.shift
                == walk.shift && reached_start == start
            &&& reached.page > walk.page ==> start.0 >= walk.origin.plus(request.page_stride).0
            &&& reached_start.0 < MAX_AU && reached.shift.0 < MAX_AU ==> reached_start.0 - start.0
                == reached.shift.0 - walk.shift.0
            &&& reached.page > walk.page && reached_start.0 < MAX_AU ==> reached_start.0
                >= reached.origin.0 + header_size.0
            &&& reached_start.0 < reached.origin.plus(request.page_stride).0 || reached.origin.0
                >= MAX_AU
        }),
    decreases MAX_AU - walk.origin.0,
{
    lemma_origin_after_step(walk.origin, request.page_stride, 0);
    if !(walk.origin.0 >= MAX_AU || start.0 < walk.origin.plus(request.page_stride).0) {
        let next = CellWalk {
            page: walk.page + 1,
            origin: walk.origin.plus(request.page_stride),
            shift: walk.shift.plus(header_size),
        };
        lemma_catching_up(request, header_size, next, start.plus(header_size));
        let reached = caught_up(request, header_size, walk, start).0;
        lemma_origin_after_step(walk.origin, request.page_stride, reached.page - walk.page - 1);
    }
}

/// A piece of a cell that the space below a header can hold stays on the page of the piece above it
/// where it fits there, moved as far. Where it does not, it stands on a later page, below the
/// repeated header. It always ends within the space of its page.
pub proof fn law_piece_stays_where_it_fits(
    request: BlockPaginationRequest,
    header_size: Au,
    translation: Au,
    walk: CellWalk,
    fragment: TableCellFragment,
)
    requires
        request.wf(),
        0 <= header_size.0,
        0 < fragment.block_size.0,
        header_size.0 + fragment.block_size.0 <= request.available_block_size.0,
        0 <= walk.origin.0,
        0 <= walk.shift.0 <= MAX_AU,
        fragment.in_range(),
        0 <= translation.0 <= MAX_AU,
        ({
            let next = fragment_step(request, header_size, translation, walk, fragment).0;
            &&& next.shift.0 < MAX_AU
            &&& walk.origin.0 + (next.page - walk.page) * request.page_stride.0 < MAX_AU
            &&& fragment.block_start.0 + translation.0 + next.shift.0 + fragment.block_size.0
                < MAX_AU
        }),
    ensures
        ({
            let next = fragment_step(request, header_size, translation, walk, fragment).0;
            let top = fragment.block_start.0 + translation.0;
            let size = fragment.block_size.0;
            let available = request.available_block_size.0;
            &&& next.origin.0 == walk.origin.0 + (next.page - walk.page) * request.page_stride.0
            &&& top + next.shift.0 + size <= next.origin.0 + available
            &&& if top + walk.shift.0 + size <= walk.origin.0 + available {
                next.page == walk.page && next.shift == walk.shift
            } else {
                &&& next.page > walk.page
                &&& next.shift.0 >= walk.shift.0
                &&& top + next.shift.0 >= next.origin.0 + header_size.0
            }
        }),
{
    let stride = request.page_stride;
    let start = fragment.block_start.plus(translation).plus(walk.shift);
    lemma_catching_up(request, header_size, walk, start);
    let (reached, reached_start) = caught_up(request, header_size, walk, start);
    let next = fragment_step(request, header_size, translation, walk, fragment).0;
    lemma_origin_after_step(walk.origin, stride, reached.page - walk.page);
    lemma_origin_after_step(walk.origin, stride, 0);
    let steps = next.page - walk.page;
    assert(steps >= 0);
    assert((steps - 1) * stride.0 == steps * stride.0 - stride.0) by (nonlinear_arith);
    assert(steps * stride.0 >= 0) by (nonlinear_arith)
        requires
            steps >= 0,
            stride.0 > 0,
    ;
    if steps > 0 {
        assert((steps - 1) * stride.0 >= 0) by (nonlinear_arith)
            requires
                steps > 0,
                stride.0 > 0,
        ;
    }
}

/// The walk through the pieces of a cell before piece `upto`.
spec fn cell_walk(
    table: TableView,
    request: BlockPaginationRequest,
    row_index: usize,
    cell_index: usize,
    translation: Au,
    start: CellWalk,
    upto: int,
) -> CellWalk
    decreases upto,
{
    if upto <= 0 {
        start
    } else {
        let walk = cell_walk(
            table,
            request,
            row_index,
            cell_index,
            translation,
            start,
            upto - 1,
        );
        let fragment = table.fragments[upto - 1];
        if fragment.row_index == row_index && fragment.cell_index == cell_index {
            fragment_step(request, table.header_block_size(), translation, walk, fragment).0
        } else {
            walk
        }
    }
}

/// Piece `i` belongs to this cell.
pub open spec fn piece_of(table: TableView, row_index: usize, cell_index: usize, i: int) -> bool {
    table.fragments[i].row_index == row_index && table.fragments[i].cell_index == cell_index
}

proof fn lemma_cell_pieces(
    table: TableView,
    request: BlockPaginationRequest,
    row_index: usize,
    cell_index: usize,
    translation: Au,
    index: int,
    start: CellWalk,
    divided: DividedRow,
)
    requires
        0 <= index <= table.fragments.len(),
        divided.translations.len() == table.fragments.len(),
        divided.pages.len() == table.fragments.len(),
    ensures
        ({
            let walk = cell_walk(
                table,
                request,
                row_index,
                cell_index,
                translation,
                start,
                index,
            );
            let after = table.with_cell_divided(
                request,
                row_index,
                cell_index,
                translation,
                index,
                walk,
                divided,
            );
            &&& after.translations.len() == table.fragments.len()
            &&& after.pages.len() == table.fragments.len()
            &&& divided.extension.0 <= after.extension.0
            &&& divided.last_page <= after.last_page
            &&& after.extension == divided.extension || exists|i: int|
                index <= i < table.fragments.len() && #[trigger] piece_of(
                    table,
                    row_index,
                    cell_index,
                    i,
                ) && after.extension == after.translations[i]
            &&& forall|i: int|
                #![trigger after.translations[i]]
                #![trigger after.pages[i]]
                0 <= i < table.fragments.len() ==> if index <= i && piece_of(
                    table,
                    row_index,
                    cell_index,
                    i,
                ) {
                    let next = cell_walk(
                        table,
                        request,
                        row_index,
                        cell_index,
                        translation,
                        start,
                        i + 1,
                    );
                    &&& after.translations[i] == next.shift
                    &&& after.pages[i] == Some(next.page as usize)
                    &&& next.shift.0 <= after.extension.0
                    &&& next.page <= after.last_page
                } else {
                    after.translations[i] == divided.translations[i] && after.pages[i]
                        == divided.pages[i]
                }
        }),
    decreases table.fragments.len() - index,
{
    if index < table.fragments.len() {
        let next = cell_walk(
            table,
            request,
            row_index,
            cell_index,
            translation,
            start,
            index + 1,
        );
        let walk = cell_walk(table, request, row_index, cell_index, translation, start, index);
        let after = table.with_cell_divided(
            request,
            row_index,
            cell_index,
            translation,
            index,
            walk,
            divided,
        );
        if piece_of(table, row_index, cell_index, index) {
            let placed = divided.with_fragment(index, next);
            lemma_cell_pieces(
                table,
                request,
                row_index,
                cell_index,
                translation,
                index + 1,
                start,
                placed,
            );
            if after.extension == placed.extension {
                assert(after.translations[index] == placed.translations[index]);
                assert(piece_of(table, row_index, cell_index, index));
            }
        } else {
            lemma_cell_pieces(
                table,
                request,
                row_index,
                cell_index,
                translation,
                index + 1,
                start,
                divided,
            );
        }
    }
}

proof fn lemma_row_pieces(
    table: TableView,
    request: BlockPaginationRequest,
    row: TableRow,
    translation: Au,
    start: CellWalk,
    cell: int,
    divided: DividedRow,
)
    requires
        0 <= cell,
        divided.translations.len() == table.fragments.len(),
        divided.pages.len() == table.fragments.len(),
    ensures
        ({
            let after = table.with_cells_divided(
                request,
                row,
                translation,
                start,
                cell,
                divided,
            );
            &&& after.translations.len() == table.fragments.len()
            &&& after.pages.len() == table.fragments.len()
            &&& divided.extension.0 <= after.extension.0
            &&& divided.last_page <= after.last_page
            &&& forall|i: int|
                #![trigger after.translations[i]]
                #![trigger after.pages[i]]
                0 <= i < table.fragments.len() ==> if table.fragments[i].row_index == row.row_index
                    && cell <= table.fragments[i].cell_index < row.cell_count {
                    let next = cell_walk(
                        table,
                        request,
                        row.row_index,
                        table.fragments[i].cell_index,
                        translation,
                        start,
                        i + 1,
                    );
                    &&& after.translations[i] == next.shift
                    &&& after.pages[i] == Some(next.page as usize)
                    &&& next.shift.0 <= after.extension.0
                    &&& next.page <= after.last_page
                } else {
                    after.translations[i] == divided.translations[i] && after.pages[i]
                        == divided.pages[i]
                }
        }),
    decreases row.cell_count - cell,
{
    if cell < row.cell_count {
        let next = table.with_cell_divided(
            request,
            row.row_index,
            cell as usize,
            translation,
            0,
            start,
            divided,
        );
        lemma_cell_pieces(
            table,
            request,
            row.row_index,
            cell as usize,
            translation,
            0,
            start,
            divided,
        );
        lemma_row_pieces(table, request, row, translation, start, cell + 1, next);
    }
}

/// The walk through a cell stays among pages.
proof fn lemma_walk(
    table: TableView,
    request: BlockPaginationRequest,
    row_index: usize,
    cell_index: usize,
    translation: Au,
    start: CellWalk,
    upto: int,
)
    requires
        request.wf(),
        table.in_range(),
        0 <= table.header_block_size().0 <= MAX_AU,
        translation.in_range(),
        0 <= start.origin.0 <= MAX_AU,
        start.shift.0 == 0,
        upto <= table.fragments.len(),
    ensures
        ({
            let walk = cell_walk(
                table,
                request,
                row_index,
                cell_index,
                translation,
                start,
                upto,
            );
            &&& start.page <= walk.page
            &&& walk.origin == origin_after(
                start.origin,
                request.page_stride,
                walk.page - start.page,
            )
            &&& 0 <= walk.origin.0 <= MAX_AU
            &&& 0 <= walk.shift.0 <= MAX_AU
        }),
    decreases upto,
{
    let stride = request.page_stride;
    lemma_origin_after_step(start.origin, stride, 0);
    if upto > 0 {
        lemma_walk(table, request, row_index, cell_index, translation, start, upto - 1);
        let walk = cell_walk(
            table,
            request,
            row_index,
            cell_index,
            translation,
            start,
            upto - 1,
        );
        let fragment = table.fragments[upto - 1];
        assert(fragment.in_range());
        let top = fragment.block_start.plus(translation).plus(walk.shift);
        lemma_catching_up(request, table.header_block_size(), walk, top);
        let (reached, reached_start) = caught_up(request, table.header_block_size(), walk, top);
        let first = walk.page - start.page;
        let more = reached.page - walk.page;
        assert((first + more) * stride.0 == first * stride.0 + more * stride.0)
            by (nonlinear_arith);
        assert((first + more + 1) * stride.0 == (first + more) * stride.0 + stride.0)
            by (nonlinear_arith);
        assert(first * stride.0 >= 0 && more * stride.0 >= 0) by (nonlinear_arith)
            requires
                first >= 0,
                more >= 0,
                stride.0 > 0,
        ;
    }
}

/// A row that is divided is divided between the pieces of its cells. The pieces of a cell follow
/// each other from the page that the row starts on: each ends within the space of its page; it stays
/// on the page of the piece above it where it fits there, and else stands on a later page, below the
/// repeated header. The row grows as far as its pieces are moved, and reaches the last page that a
/// piece stands on. Pieces of other rows do not move.
pub proof fn law_divided_row_stands_on_pages(
    table: TableView,
    builder: BuilderView,
    row: TableRow,
    translation: Au,
    translations: Seq<Au>,
    i: int,
)
    requires
        builder.wf(),
        table.in_range(),
        table.accepted(builder.request.available_block_size),
        0 <= translation.0 <= MAX_AU,
        translations.len() == table.fragments.len(),
        0 <= i < table.fragments.len(),
        table.fragments[i].row_index == row.row_index ==> {
            let divided = table.divided(builder, row, translation, translations);
            let fragment = table.fragments[i];
            &&& fragment.cell_index < row.cell_count
            &&& table.header_block_size().0 + fragment.block_size.0
                <= builder.request.available_block_size.0
            &&& divided.extension.0 < MAX_AU
            &&& divided.last_page <= usize::MAX
            &&& builder.origin.0 + (divided.last_page - builder.page)
                * builder.request.page_stride.0 < MAX_AU
            &&& fragment.block_start.0 + translation.0 + divided.extension.0 + fragment.block_size.0
                < MAX_AU
        },
    ensures
        ({
            let divided = table.divided(builder, row, translation, translations);
            let fragment = table.fragments[i];
            let stride = builder.request.page_stride.0;
            let available = builder.request.available_block_size.0;
            let top = fragment.block_start.0 + translation.0;
            let size = fragment.block_size.0;
            let follows = i > 0 && piece_of(table, fragment.row_index, fragment.cell_index, i - 1);
            let page_above = if follows {
                divided.pages[i - 1]->0 as int
            } else {
                builder.page
            };
            let moved_above = if follows {
                divided.translations[i - 1].0
            } else {
                0
            };
            let page = divided.pages[i]->0 as int;
            let moved = divided.translations[i].0;
            let origin = builder.origin.0 + (page - builder.page) * stride;
            let origin_above = builder.origin.0 + (page_above - builder.page) * stride;
            &&& fragment.row_index != row.row_index ==> divided.translations[i] == translations[i]
                && divided.pages[i] is None
            &&& fragment.row_index == row.row_index ==> {
                &&& divided.pages[i] is Some
                &&& builder.page <= page <= divided.last_page
                &&& 0 <= moved <= divided.extension.0
                &&& top + moved + size <= origin + available
                &&& if top + moved_above + size <= origin_above + available {
                    page == page_above && moved == moved_above
                } else {
                    &&& page > page_above
                    &&& moved >= moved_above
                    &&& top + moved >= origin + table.header_block_size().0
                }
            }
        }),
{
    let request = builder.request;
    let stride = request.page_stride;
    let fragment = table.fragments[i];
    let start = CellWalk { page: builder.page, origin: builder.origin, shift: Au(0) };
    let first = DividedRow {
        translations,
        pages: Seq::new(table.fragments.len(), |k: int| None),
        extension: Au(0),
        last_page: builder.page,
    };
    lemma_accepted(table, request.available_block_size);
    lemma_row_pieces(table, request, row, translation, start, 0, first);
    let divided = table.divided(builder, row, translation, translations);
    assert(divided.translations[i] == divided.translations[i]);
    if fragment.row_index == row.row_index {
        assert(fragment.in_range());
        assert(table.fragment_in_cell(i));
        assert(table.fragment_in_order(i));
        let cell = fragment.cell_index;
        let walk = cell_walk(table, request, row.row_index, cell, translation, start, i);
        let next = cell_walk(table, request, row.row_index, cell, translation, start, i + 1);
        lemma_walk(table, request, row.row_index, cell, translation, start, i);
        lemma_walk(table, request, row.row_index, cell, translation, start, i + 1);
        assert(next == fragment_step(
            request,
            table.header_block_size(),
            translation,
            walk,
            fragment,
        ).0);
        let a = walk.page - builder.page;
        let b = next.page - builder.page;
        let c = divided.last_page - builder.page;
        assert(b * stride.0 <= c * stride.0) by (nonlinear_arith)
            requires
                b <= c,
                stride.0 > 0,
        ;
        lemma_step_forward(request, table.header_block_size(), translation, walk, fragment);
        assert(a * stride.0 <= b * stride.0) by (nonlinear_arith)
            requires
                a <= b,
                stride.0 > 0,
        ;
        assert(0 <= a * stride.0) by (nonlinear_arith)
            requires
                a >= 0,
                stride.0 > 0,
        ;
        assert((next.page - walk.page) * stride.0 == b * stride.0 - a * stride.0)
            by (nonlinear_arith)
            requires
                a == walk.page - builder.page,
                b == next.page - builder.page,
        ;
        law_piece_stays_where_it_fits(
            request,
            table.header_block_size(),
            translation,
            walk,
            fragment,
        );
        if i > 0 && piece_of(table, row.row_index, cell, i - 1) {
            assert(divided.translations[i - 1] == walk.shift);
            assert(divided.pages[i - 1] == Some(walk.page as usize));
        } else {
            lemma_first_piece(table, request, row.row_index, cell, translation, start, i);
        }
    }
}

proof fn lemma_step_forward(
    request: BlockPaginationRequest,
    header_size: Au,
    translation: Au,
    walk: CellWalk,
    fragment: TableCellFragment,
)
    requires
        request.wf(),
        0 <= header_size.0 <= MAX_AU,
        translation.in_range(),
        fragment.in_range(),
        0 <= walk.origin.0 <= MAX_AU,
        0 <= walk.shift.0 <= MAX_AU,
    ensures
        walk.page <= fragment_step(request, header_size, translation, walk, fragment).0.page,
{
    lemma_catching_up(
        request,
        header_size,
        walk,
        fragment.block_start.plus(translation).plus(walk.shift),
    );
}

/// Before the first piece of a cell nothing has been walked.
proof fn lemma_first_piece(
    table: TableView,
    request: BlockPaginationRequest,
    row_index: usize,
    cell_index: usize,
    translation: Au,
    start: CellWalk,
    i: int,
)
    requires
        exists|available: Au| #[trigger] table.supported(available),
        0 <= i < table.fragments.len(),
        piece_of(table, row_index, cell_index, i),
        i > 0 ==> !piece_of(table, row_index, cell_index, i - 1),
    ensures
        cell_walk(table, request, row_index, cell_index, translation, start, i) == start,
{
    let available = choose|available: Au| #[trigger] table.supported(available);
    assert forall|k: int| 0 <= k < i implies !#[trigger] piece_of(
        table,
        row_index,
        cell_index,
        k,
    ) by {
        lemma_pieces_ordered(table, available, k, i);
    }
    lemma_nothing_walked(table, request, row_index, cell_index, translation, start, i);
}

proof fn lemma_nothing_walked(
    table: TableView,
    request: BlockPaginationRequest,
    row_index: usize,
    cell_index: usize,
    translation: Au,
    start: CellWalk,
    upto: int,
)
    requires
        forall|k: int| 0 <= k < upto ==> !#[trigger] piece_of(table, row_index, cell_index, k),
    ensures
        cell_walk(table, request, row_index, cell_index, translation, start, upto) == start,
    decreases upto,
{
    if upto > 0 {
        lemma_nothing_walked(
            table,
            request,
            row_index,
            cell_index,
            translation,
            start,
            upto - 1,
        );
        assert(!piece_of(table, row_index, cell_index, upto - 1));
    }
}

/// Pieces come in the order of rows and of cells.
proof fn lemma_pieces_ordered(table: TableView, available: Au, k: int, i: int)
    requires
        table.supported(available),
        0 <= k < i < table.fragments.len(),
    ensures
        ({
            let earlier = table.fragments[k];
            let later = table.fragments[i];
            let above = table.fragments[i - 1];
            &&& earlier.row_index < later.row_index || (earlier.row_index == later.row_index
                && earlier.cell_index <= later.cell_index)
            &&& earlier.row_index == later.row_index && earlier.cell_index == later.cell_index
                ==> above.row_index == later.row_index && above.cell_index == later.cell_index
        }),
    decreases i - k,
{
    assert(table.fragment_in_order(i));
    if k + 1 < i {
        lemma_pieces_ordered(table, available, k, i - 1);
    }
}

} // verus!
