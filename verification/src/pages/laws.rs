//! What holds of pagination as a whole.
use crate::au::{Au, MAX_AU};
use crate::pages::flow::{
    continuations_advance, lemma_page_holding_bounds, lemma_page_reaching_bounds, page_holding,
    page_reaching, BlockBoundaryPlacement, BlockPaginationRequest, BuilderView, ChildPageBreaks,
    FragmentainerContinuation, OutcomeView, PageContinuation,
};
use crate::pages::inline_flow::{lines_in_range, InlineLine};
use crate::pages::sequence::continuation_of;
use crate::pages::table_flow::{
    caught_up, fragment_step, lemma_accepted, origin_after, CellWalk, DividedRow, TableState,
};
use crate::pages::table_rules::{TableCellFragment, TableRow, TableView};
use vstd::prelude::*;

verus! {

pub proof fn lemma_origin_after_step(origin: Au, stride: Au, count: int)
    requires
        0 <= origin.0 <= MAX_AU,
        0 < stride.0 <= MAX_AU,
        0 <= count,
    ensures
        origin_after(origin.plus(stride), stride, count) == origin_after(
            origin,
            stride,
            count + 1,
        ),
        origin_after(origin, stride, 0) == origin,
{
    assert((count + 1) * stride.0 == count * stride.0 + stride.0) by (nonlinear_arith);
    assert(count * stride.0 >= 0) by (nonlinear_arith)
        requires
            count >= 0,
            stride.0 > 0,
    ;
}

/// A page search finds the first page, in steps of the page stride, that starts `offset` or less
/// before the target: the found page does, and no page before it does.
pub proof fn law_page_reaching_is_first(
    page: int,
    origin: Au,
    stride: Au,
    offset: Au,
    target: Au,
)
    requires
        0 < stride.0 <= MAX_AU,
        0 <= origin.0 <= MAX_AU,
        0 <= offset.0 <= MAX_AU,
        target.in_range(),
    ensures
        ({
            let (found, start) = page_reaching(page, origin, stride, offset, target);
            &&& page <= found
            &&& start == origin_after(origin, stride, found - page)
            &&& start.plus(offset).0 >= target.0
            &&& forall|k: int|
                0 <= k < found - page ==> (#[trigger] origin_after(origin, stride, k)).plus(
                    offset,
                ).0 < target.0
        }),
    decreases MAX_AU - origin.0,
{
    lemma_origin_after_step(origin, stride, 0);
    if !(origin.0 >= MAX_AU || origin.plus(offset).0 >= target.0) {
        let next = origin.plus(stride);
        law_page_reaching_is_first(page + 1, next, stride, offset, target);
        let (found, start) = page_reaching(page + 1, next, stride, offset, target);
        lemma_origin_after_step(origin, stride, found - page - 1);
        assert forall|k: int| 0 <= k < found - page implies (#[trigger] origin_after(
            origin,
            stride,
            k,
        )).plus(offset).0 < target.0 by {
            if k > 0 {
                lemma_origin_after_step(origin, stride, k - 1);
                assert(origin_after(next, stride, k - 1).plus(offset).0 < target.0);
            }
        }
    }
}

/// Content ends on the page that is found for it: not after the start of the next page, and after
/// the end of every page before it.
pub proof fn law_page_holding_is_first(page: int, origin: Au, stride: Au, end: Au)
    requires
        0 < stride.0 <= MAX_AU,
        0 <= origin.0 <= MAX_AU,
        end.in_range(),
    ensures
        ({
            let (found, start) = page_holding(page, origin, stride, end);
            &&& page <= found
            &&& start == origin_after(origin, stride, found - page)
            &&& start.plus(stride).0 >= end.0
            &&& forall|k: int|
                0 <= k < found - page ==> (#[trigger] origin_after(origin, stride, k)).plus(
                    stride,
                ).0 < end.0
        }),
    decreases MAX_AU - origin.0,
{
    lemma_origin_after_step(origin, stride, 0);
    if !(origin.0 >= MAX_AU || origin.plus(stride).0 >= end.0) {
        let next = origin.plus(stride);
        law_page_holding_is_first(page + 1, next, stride, end);
        let (found, start) = page_holding(page + 1, next, stride, end);
        lemma_origin_after_step(origin, stride, found - page - 1);
        assert forall|k: int| 0 <= k < found - page implies (#[trigger] origin_after(
            origin,
            stride,
            k,
        )).plus(stride).0 < end.0 by {
            if k > 0 {
                lemma_origin_after_step(origin, stride, k - 1);
                assert(origin_after(next, stride, k - 1).plus(stride).0 < end.0);
            }
        }
    }
}

/// Pagination only moves forward: placing a child never takes back a page, a continuation or a
/// warning. A child that stays leaves the current page and the continuations as they are; a child
/// that moves starts the new current page and leaves one continuation.
pub proof fn law_child_placement_moves_forward(
    before: BuilderView,
    child_index: usize,
    node: Option<u64>,
    position: Au,
    current: Au,
    fresh: Au,
    breaks: ChildPageBreaks,
)
    requires
        before.wf(),
        position.in_range(),
    ensures
        ({
            let (after, placement) = before.with_child(
                child_index,
                node,
                position,
                current,
                fresh,
                breaks,
            );
            &&& before.outcome.page_count <= after.outcome.page_count
            &&& after.page < after.outcome.page_count
            &&& before.outcome.warnings.is_prefix_of(after.outcome.warnings)
            &&& after.has_content
            &&& match placement {
                BlockBoundaryPlacement::CurrentPage => {
                    &&& after.page == before.page
                    &&& after.origin == before.origin
                    &&& after.outcome.continuations == before.outcome.continuations
                },
                BlockBoundaryPlacement::NewPage { block_origin } => {
                    &&& after.page > before.page
                    &&& after.origin == block_origin
                    &&& block_origin.0 >= position.0
                    &&& after.outcome.continuations.len() == before.outcome.continuations.len() + 1
                    &&& before.outcome.continuations.is_prefix_of(after.outcome.continuations)
                },
            }
        }),
{
    let (after, placement) = before.with_child(child_index, node, position, current, fresh, breaks);
    let stride = before.request.page_stride;
    lemma_page_reaching_bounds(before.page + 1, before.origin.plus(stride), stride, Au(0), position);
    law_page_reaching_is_first(before.page + 1, before.origin.plus(stride), stride, Au(0), position);
    lemma_page_holding_bounds(after.page, after.origin, stride, position.plus(current));
    lemma_page_holding_bounds(after.page, after.origin, stride, after.origin.plus(fresh));
}

/// Breaks that are demanded before the first content of a page open no page: a child placed on an
/// empty page stays on it.
pub proof fn law_breaks_open_no_empty_page(
    before: BuilderView,
    child_index: usize,
    node: Option<u64>,
    position: Au,
    current: Au,
    fresh: Au,
    breaks: ChildPageBreaks,
)
    requires
        !before.has_content,
    ensures
        ({
            let (after, placement) = before.with_child(
                child_index,
                node,
                position,
                current,
                fresh,
                breaks,
            );
            &&& placement is CurrentPage
            &&& after.page == before.page
            &&& after.outcome.continuations == before.outcome.continuations
        }),
{
}

/// A line is never divided: where app-unit arithmetic does not reach its limits, a placeable line
/// ends within the page that it is placed on, and never moves up.
pub proof fn law_line_fits_its_page(
    before: BuilderView,
    child_index: usize,
    index: int,
    line: InlineLine,
    translation: Au,
)
    requires
        before.wf(),
        line.placeable(before.request.available_block_size),
        line.block_start.in_range(),
        translation.in_range(),
        Au((line.block_start.0 + translation.0) as i32).in_range(),
        before.with_line(child_index, index, line, translation).0.origin.0 - (line.block_start.0
            + translation.0) <= MAX_AU,
        translation.0 + before.with_line(child_index, index, line, translation).0.origin.0 - (
        line.block_start.0 + translation.0) <= MAX_AU,
    ensures
        ({
            let (after, moved) = before.with_line(child_index, index, line, translation);
            &&& !after.line_overflows(line, moved)
            &&& translation.0 <= moved.0
            &&& before.page <= after.page
        }),
{
    let start = line.block_start.plus(translation);
    let stride = before.request.page_stride;
    law_page_reaching_is_first(before.page + 1, before.origin.plus(stride), stride, Au(0), start);
    lemma_page_reaching_bounds(before.page + 1, before.origin.plus(stride), stride, Au(0), start);
}

proof fn lemma_line_moves_down(
    before: BuilderView,
    child_index: usize,
    index: int,
    line: InlineLine,
    translation: Au,
)
    requires
        before.wf(),
        line.block_start.in_range(),
        line.block_size.in_range(),
        translation.in_range(),
    ensures
        ({
            let (after, moved) = before.with_line(child_index, index, line, translation);
            &&& after.wf()
            &&& moved.in_range()
            &&& translation.0 <= moved.0
            &&& before.page <= after.page
        }),
{
    let start = line.block_start.plus(translation);
    let stride = before.request.page_stride;
    law_page_reaching_is_first(before.page + 1, before.origin.plus(stride), stride, Au(0), start);
    lemma_page_reaching_bounds(before.page + 1, before.origin.plus(stride), stride, Au(0), start);
}

proof fn lemma_lines_move_down(
    before: BuilderView,
    child_index: usize,
    lines: Seq<InlineLine>,
    index: int,
    translation: Au,
    placed: Seq<Au>,
)
    requires
        before.wf(),
        lines_in_range(lines),
        0 <= index <= lines.len(),
        placed.len() == index,
        translation.in_range(),
        forall|i: int| 0 <= i < index ==> (#[trigger] placed[i]).0 <= translation.0,
        forall|i: int, j: int|
            0 <= i <= j < index ==> (#[trigger] placed[i]).0 <= (#[trigger] placed[j]).0,
    ensures
        ({
            let (after, moved) = before.with_lines(child_index, lines, index, translation, placed);
            &&& moved.len() == lines.len()
            &&& before.page <= after.page
            &&& forall|i: int, j: int|
                0 <= i <= j < lines.len() ==> (#[trigger] moved[i]).0 <= (#[trigger] moved[j]).0
        }),
    decreases lines.len() - index,
{
    if index < lines.len() {
        assert(lines[index].block_start.in_range());
        lemma_line_moves_down(before, child_index, index, lines[index], translation);
        let (next, moved) = before.with_line(child_index, index, lines[index], translation);
        lemma_lines_move_down(
            next,
            child_index,
            lines,
            index + 1,
            moved,
            placed.push(moved),
        );
    }
}

/// The lines of a paragraph keep their order: each is moved at least as far as the lines above it,
/// and no line goes back to an earlier page.
pub proof fn law_lines_keep_their_order(
    before: BuilderView,
    child_index: usize,
    lines: Seq<InlineLine>,
    translation: Au,
    upper: int,
    lower: int,
)
    requires
        before.wf(),
        lines_in_range(lines),
        translation.in_range(),
        0 <= upper <= lower < lines.len(),
    ensures
        ({
            let (after, moved) = before.with_lines(
                child_index,
                lines,
                0,
                translation,
                Seq::empty(),
            );
            &&& moved.len() == lines.len()
            &&& moved[upper].0 <= moved[lower].0
            &&& before.page <= after.page
        }),
{
    lemma_lines_move_down(before, child_index, lines, 0, translation, Seq::empty());
}

proof fn lemma_caught_up(
    request: BlockPaginationRequest,
    header_size: Au,
    walk: CellWalk,
    start: Au,
)
    requires
        request.wf(),
        0 <= header_size.0 <= MAX_AU,
        0 <= walk.origin.0 <= MAX_AU,
        walk.shift.in_range(),
        start.in_range(),
    ensures
        ({
            let (reached, reached_start) = caught_up(request, header_size, walk, start);
            &&& walk.origin.0 <= reached.origin.0 <= MAX_AU
            &&& walk.shift.0 <= reached.shift.0
            &&& reached.shift.in_range()
            &&& reached_start.in_range()
            &&& walk.page <= reached.page
            &&& reached_start.0 < reached.origin.plus(request.page_stride).0 || reached.origin.0
                >= MAX_AU
        }),
    decreases MAX_AU - walk.origin.0,
{
    if !(walk.origin.0 >= MAX_AU || start.0 < walk.origin.plus(request.page_stride).0) {
        lemma_caught_up(
            request,
            header_size,
            CellWalk {
                page: walk.page + 1,
                origin: walk.origin.plus(request.page_stride),
                shift: walk.shift.plus(header_size),
            },
            start.plus(header_size),
        );
    }
}

/// A cell fragment that the space below a header can hold ends within the page that it is placed
/// on.
pub proof fn law_cell_fragment_fits_its_page(
    request: BlockPaginationRequest,
    header_size: Au,
    translation: Au,
    walk: CellWalk,
    fragment: TableCellFragment,
)
    requires
        request.wf(),
        0 <= header_size.0,
        0 < fragment.block_size.0,
        header_size.0 + fragment.block_size.0 <= request.available_block_size.0,
        0 <= walk.origin.0 <= MAX_AU,
        walk.shift.in_range(),
        fragment.block_start.in_range(),
        translation.in_range(),
    ensures
        ({
            let (next, start) = fragment_step(request, header_size, translation, walk, fragment);
            start.plus(fragment.block_size).0 <= next.origin.plus(request.available_block_size).0
        }),
{
    lemma_caught_up(
        request,
        header_size,
        walk,
        fragment.block_start.plus(translation).plus(walk.shift),
    );
}

/// Where continuations lead forward, each page leaves at most one, and the page sequence gives each
/// to the page that left it.
pub proof fn law_each_continuation_stands_on_its_page(
    continuations: Seq<PageContinuation>,
    page: int,
    index: int,
)
    requires
        continuations_advance(continuations, page),
        0 <= index < continuations.len(),
    ensures
        continuation_of(continuations, 0, continuations[index].page_index) == Some(
            continuations[index].token,
        ),
        forall|other: int|
            0 <= other < continuations.len() && other != index ==> (
            #[trigger] continuations[other]).page_index != continuations[index].page_index,
{
    assert forall|other: int| 0 <= other < continuations.len() && other != index implies (
    #[trigger] continuations[other]).page_index != continuations[index].page_index by {
        if other < index {
            assert(continuations[other].token.resume_page() <= continuations[index].page_index);
        } else {
            assert(continuations[index].token.resume_page() <= continuations[other].page_index);
        }
    }
    lemma_continuation_found(continuations, page, 0, index);
}

proof fn lemma_continuation_found(
    continuations: Seq<PageContinuation>,
    page: int,
    from: int,
    index: int,
)
    requires
        continuations_advance(continuations, page),
        0 <= from <= index < continuations.len(),
    ensures
        continuation_of(continuations, from, continuations[index].page_index) == Some(
            continuations[index].token,
        ),
    decreases index - from,
{
    if from < index {
        assert(continuations[from].token.resume_page() <= continuations[index].page_index);
        lemma_continuation_found(continuations, page, from + 1, index);
    }
}

proof fn lemma_cell_divided(
    table: TableView,
    request: BlockPaginationRequest,
    row_index: usize,
    cell_index: usize,
    translation: Au,
    index: int,
    walk: CellWalk,
    divided: DividedRow,
)
    requires
        request.wf(),
        table.in_range(),
        0 <= table.header_block_size().0 <= MAX_AU,
        translation.in_range(),
        0 <= walk.origin.0 <= MAX_AU,
        walk.shift.in_range(),
        divided.extension.in_range(),
        0 <= index,
    ensures
        ({
            let after = table.with_cell_divided(
                request,
                row_index,
                cell_index,
                translation,
                index,
                walk,
                divided,
            );
            &&& divided.extension.0 <= after.extension.0
            &&& after.extension.in_range()
            &&& divided.last_page <= after.last_page
        }),
    decreases table.fragments.len() - index,
{
    if index < table.fragments.len() {
        let fragment = table.fragments[index];
        if fragment.row_index == row_index && fragment.cell_index == cell_index {
            lemma_caught_up(
                request,
                table.header_block_size(),
                walk,
                fragment.block_start.plus(translation).plus(walk.shift),
            );
            let next = fragment_step(
                request,
                table.header_block_size(),
                translation,
                walk,
                fragment,
            ).0;
            lemma_cell_divided(
                table,
                request,
                row_index,
                cell_index,
                translation,
                index + 1,
                next,
                divided.with_fragment(index, next),
            );
        } else {
            lemma_cell_divided(
                table,
                request,
                row_index,
                cell_index,
                translation,
                index + 1,
                walk,
                divided,
            );
        }
    }
}

proof fn lemma_cells_divided(
    table: TableView,
    request: BlockPaginationRequest,
    row: TableRow,
    translation: Au,
    start: CellWalk,
    cell: int,
    divided: DividedRow,
)
    requires
        request.wf(),
        table.in_range(),
        0 <= table.header_block_size().0 <= MAX_AU,
        translation.in_range(),
        0 <= start.origin.0 <= MAX_AU,
        start.shift.in_range(),
        divided.extension.in_range(),
        0 <= cell,
    ensures
        ({
            let after = table.with_cells_divided(request, row, translation, start, cell, divided);
            &&& divided.extension.0 <= after.extension.0
            &&& after.extension.in_range()
            &&& divided.last_page <= after.last_page
        }),
    decreases row.cell_count - cell,
{
    if cell < row.cell_count {
        lemma_cell_divided(
            table,
            request,
            row.row_index,
            cell as usize,
            translation,
            0,
            start,
            divided,
        );
        lemma_cells_divided(
            table,
            request,
            row,
            translation,
            start,
            cell + 1,
            table.with_cell_divided(
                request,
                row.row_index,
                cell as usize,
                translation,
                0,
                start,
                divided,
            ),
        );
    }
}

proof fn lemma_row_resumed_keeps_page(
    builder: BuilderView,
    table: TableView,
    row: TableRow,
    source: Option<Au>,
    pages: Seq<Option<usize>>,
    first: int,
    first_origin: Au,
    resume: int,
    last: int,
)
    ensures
        builder.with_row_resumed(
            table,
            row,
            source,
            pages,
            first,
            first_origin,
            resume,
            last,
        ).request == builder.request,
    decreases last - resume + 1,
{
    if resume <= last {
        let continued = builder.with_outcome(
            builder.outcome.with_continuation(
                PageContinuation {
                    page_index: (resume - 1) as usize,
                    token: FragmentainerContinuation::Table(
                        crate::pages::flow::TableContinuationToken {
                            child_index: table.child_index,
                            table_node: table.table_node,
                            row_group_index: row.row_group_index,
                            next_row_index: row.row_index,
                            resume_page_index: resume as usize,
                        },
                    ),
                },
            ),
        ).with_header_repeat(
            table,
            source,
            resume,
            origin_after(first_origin, builder.request.page_stride, resume - first),
        );
        lemma_cell_continuations_keep_page(continued, table, row, pages, resume, 0);
        lemma_row_resumed_keeps_page(
            continued.with_cell_continuations(table, row, pages, resume, 0),
            table,
            row,
            source,
            pages,
            first,
            first_origin,
            resume + 1,
            last,
        );
    }
}

proof fn lemma_cell_continuations_keep_page(
    builder: BuilderView,
    table: TableView,
    row: TableRow,
    pages: Seq<Option<usize>>,
    resume: int,
    cell: int,
)
    ensures
        builder.with_cell_continuations(table, row, pages, resume, cell).request
            == builder.request,
    decreases row.cell_count - cell,
{
    if cell < row.cell_count {
        lemma_cell_continuations_keep_page(
            builder.with_outcome(
                crate::pages::flow::OutcomeView {
                    table_cell_continuations: builder.outcome.table_cell_continuations.push(
                        crate::pages::flow::TableCellContinuationDecision {
                            page_index: (resume - 1) as usize,
                            table_node: table.table_node,
                            row_group_index: row.row_group_index,
                            row_index: row.row_index,
                            cell_index: cell as usize,
                            next_fragment_index: table.next_fragment(
                                row.row_index,
                                cell as usize,
                                pages,
                                resume,
                                0,
                            ),
                            resume_page_index: resume as usize,
                        },
                    ),
                    ..builder.outcome
                },
            ),
            table,
            row,
            pages,
            resume,
            cell + 1,
        );
    }
}

/// A row of an accepted table never moves up and never goes back to an earlier page, and what
/// follows it is moved at least as far.
pub proof fn law_table_row_moves_down(
    table: TableView,
    state: TableState,
    source: Option<Au>,
    position: int,
)
    requires
        state.builder.wf(),
        table.in_range(),
        table.accepted(state.builder.request.available_block_size),
        state.run.wf(table),
        table.body_start() <= position < table.body_end(),
    ensures
        ({
            let after = table.with_row(state, source, position);
            &&& after.builder.wf()
            &&& after.builder.request == state.builder.request
            &&& after.run.wf(table)
            &&& state.builder.page <= after.builder.page
            &&& state.run.translation.0 <= after.run.row_translations[position].0
                <= after.run.translation.0
            &&& forall|i: int|
                0 <= i < table.rows.len() && i != position
                    ==> #[trigger] after.run.row_translations[i] == state.run.row_translations[i]
        }),
{
    lemma_accepted(table, state.builder.request.available_block_size);
    let row = table.rows[position];
    assert(row.in_range());
    let start = row.block_start.plus(state.run.translation);
    let stride = state.builder.request.page_stride;
    let header_size = table.header_block_size();
    lemma_page_reaching_bounds(
        state.builder.page + 1,
        state.builder.origin.plus(stride),
        stride,
        header_size,
        start,
    );
    law_page_reaching_is_first(
        state.builder.page + 1,
        state.builder.origin.plus(stride),
        stride,
        header_size,
        start,
    );
    let (broken, translation, broken_start) = table.row_after_break(state, source, position);
    assert(state.run.translation.0 <= translation.0 && translation.in_range());
    assert(broken.wf() && broken.request == state.builder.request && broken.page
        >= state.builder.page);
    let warned = table.with_row_warnings(broken, position);
    assert(warned.wf() && warned.request == broken.request && warned.page == broken.page
        && warned.origin == broken.origin);
    let divided = table.divided(warned, row, translation, state.run.fragment_translations);
    lemma_cells_divided(
        table,
        warned.request,
        row,
        translation,
        CellWalk { page: warned.page, origin: warned.origin, shift: Au(0) },
        0,
        DividedRow {
            translations: state.run.fragment_translations,
            pages: Seq::new(table.fragments.len(), |i: int| None),
            extension: Au(0),
            last_page: warned.page,
        },
    );
    lemma_divided_lengths(
        table,
        warned.request,
        row,
        translation,
        CellWalk { page: warned.page, origin: warned.origin, shift: Au(0) },
        0,
        DividedRow {
            translations: state.run.fragment_translations,
            pages: Seq::new(table.fragments.len(), |i: int| None),
            extension: Au(0),
            last_page: warned.page,
        },
    );
    let last = table.last_fragment(row.row_index, table.fragments.len() as int)->0;
    let noted = if divided.last_page == warned.page {
        warned.with_cell_warning(
            table,
            TableCellFragment {
                row_index: row.row_index,
                cell_index: last.cell_index,
                fragment_index: (last.fragment_index + 1) as usize,
                block_start: row.block_start,
                block_size: row.block_size,
            },
        )
    } else {
        warned
    };
    lemma_row_resumed_keeps_page(
        noted,
        table,
        row,
        source,
        divided.pages,
        warned.page,
        warned.origin,
        warned.page + 1,
        divided.last_page,
    );
    let (divided_builder, same, after) = table.row_divided(
        warned,
        source,
        position,
        translation,
        state.run.fragment_translations,
    );
    assert((divided.last_page - warned.page) * stride.0 >= 0) by (nonlinear_arith)
        requires
            divided.last_page >= warned.page,
            stride.0 > 0,
    ;
    assert(divided_builder.request == warned.request);
    assert(divided_builder.wf());
    let capacity = table.body_page_capacity(state.builder.request.available_block_size);
    let divides = row.block_size.0 > capacity.0 && !(table.tall_fragment(
        row.row_index,
        capacity,
        0,
    ) is Some);
    let reached = if divides {
        divided_builder
    } else {
        warned
    };
    let final_start = if divides {
        row.block_start.plus(after)
    } else {
        broken_start
    };
    lemma_page_holding_bounds(
        reached.page,
        reached.origin,
        stride,
        final_start.plus(row.block_size),
    );
}

proof fn lemma_divided_lengths(
    table: TableView,
    request: BlockPaginationRequest,
    row: TableRow,
    translation: Au,
    start: CellWalk,
    cell: int,
    divided: DividedRow,
)
    requires
        divided.translations.len() == table.fragments.len(),
    ensures
        table.with_cells_divided(
            request,
            row,
            translation,
            start,
            cell,
            divided,
        ).translations.len() == divided.translations.len(),
    decreases row.cell_count - cell,
{
    if cell < row.cell_count {
        lemma_cell_divided_lengths(
            table,
            request,
            row.row_index,
            cell as usize,
            translation,
            0,
            start,
            divided,
        );
        lemma_divided_lengths(
            table,
            request,
            row,
            translation,
            start,
            cell + 1,
            table.with_cell_divided(
                request,
                row.row_index,
                cell as usize,
                translation,
                0,
                start,
                divided,
            ),
        );
    }
}

proof fn lemma_cell_divided_lengths(
    table: TableView,
    request: BlockPaginationRequest,
    row_index: usize,
    cell_index: usize,
    translation: Au,
    index: int,
    walk: CellWalk,
    divided: DividedRow,
)
    requires
        divided.translations.len() == table.fragments.len(),
    ensures
        table.with_cell_divided(
            request,
            row_index,
            cell_index,
            translation,
            index,
            walk,
            divided,
        ).translations.len() == divided.translations.len(),
    decreases table.fragments.len() - index,
{
    if 0 <= index < table.fragments.len() {
        let fragment = table.fragments[index];
        if fragment.row_index == row_index && fragment.cell_index == cell_index {
            let next = fragment_step(
                request,
                table.header_block_size(),
                translation,
                walk,
                fragment,
            ).0;
            lemma_cell_divided_lengths(
                table,
                request,
                row_index,
                cell_index,
                translation,
                index + 1,
                next,
                divided.with_fragment(index, next),
            );
        } else {
            lemma_cell_divided_lengths(
                table,
                request,
                row_index,
                cell_index,
                translation,
                index + 1,
                walk,
                divided,
            );
        }
    }
}

/// The rows of the body keep their order: each row is moved at least as far as the rows above it.
pub proof fn law_table_rows_keep_their_order(
    table: TableView,
    state: TableState,
    source: Option<Au>,
    position: int,
    end: int,
)
    requires
        state.builder.wf(),
        table.in_range(),
        table.accepted(state.builder.request.available_block_size),
        state.run.wf(table),
        table.body_start() <= position,
        end <= table.body_end(),
    ensures
        ({
            let after = table.with_rows(state, source, position, end);
            &&& state.builder.page <= after.builder.page
            &&& state.run.translation.0 <= after.run.translation.0
            &&& forall|i: int|
                0 <= i < table.rows.len() && !(position <= i < end)
                    ==> #[trigger] after.run.row_translations[i] == state.run.row_translations[i]
            &&& forall|i: int|
                position <= i < end ==> state.run.translation.0 <= (
                #[trigger] after.run.row_translations[i]).0 <= after.run.translation.0
            &&& forall|i: int, j: int|
                position <= i <= j < end ==> (#[trigger] after.run.row_translations[i]).0 <= (
                #[trigger] after.run.row_translations[j]).0
        }),
    decreases end - position,
{
    if position < end {
        lemma_accepted(table, state.builder.request.available_block_size);
        law_table_row_moves_down(table, state, source, position);
        let next = table.with_row(state, source, position);
        law_table_rows_keep_their_order(table, next, source, position + 1, end);
        let after = table.with_rows(state, source, position, end);
        assert(after.run.row_translations[position] == next.run.row_translations[position]);
    }
}

/// A table that is not divided leaves the pages as they are but for a warning that is recorded, and
/// where it is then placed as one child, it is placed as if nothing had been tried: at the same
/// place, with the same decisions and the same warnings behind that one.
pub proof fn law_undivided_table_is_placed_as_a_child(
    before: BuilderView,
    table: TableView,
    child_index: usize,
    node: Option<u64>,
    position: Au,
    current: Au,
    fresh: Au,
    breaks: ChildPageBreaks,
)
    requires
        before.wf(),
    ensures
        ({
            let tried = before.with_undivided_table(table);
            let noted = tried.outcome.warnings;
            let (plain, placement) = before.with_child(
                child_index,
                node,
                position,
                current,
                fresh,
                breaks,
            );
            let (after, same) = tried.with_child(
                child_index,
                node,
                position,
                current,
                fresh,
                breaks,
            );
            let old_count = before.outcome.warnings.len() as int;
            &&& tried.with_outcome(before.outcome) == before
            &&& noted.take(old_count) == before.outcome.warnings
            &&& noted.len() <= old_count + 1
            &&& same == placement
            &&& after.with_outcome(plain.outcome) == plain
            &&& plain.outcome.warnings.take(old_count) == before.outcome.warnings
            &&& after.outcome == (OutcomeView {
                warnings: noted + plain.outcome.warnings.skip(old_count),
                ..plain.outcome
            })
        }),
{
    let tried = before.with_undivided_table(table);
    let noted = tried.outcome.warnings;
    let plain = before.with_child(child_index, node, position, current, fresh, breaks).0;
    let after = tried.with_child(child_index, node, position, current, fresh, breaks).0;
    let old_count = before.outcome.warnings.len() as int;
    assert(noted.take(old_count) =~= before.outcome.warnings);
    assert(plain.outcome.warnings.take(old_count) =~= before.outcome.warnings);
    assert(after.outcome.warnings =~= noted + plain.outcome.warnings.skip(old_count));
}

/// No length is negative.
pub open spec fn none_negative(lengths: Seq<Au>) -> bool {
    forall|i: int| 0 <= i < lengths.len() ==> (#[trigger] lengths[i]).0 >= 0
}

proof fn lemma_cell_moves_down(
    table: TableView,
    request: BlockPaginationRequest,
    row_index: usize,
    cell_index: usize,
    translation: Au,
    index: int,
    walk: CellWalk,
    divided: DividedRow,
)
    requires
        request.wf(),
        table.in_range(),
        0 <= table.header_block_size().0 <= MAX_AU,
        translation.in_range(),
        0 <= walk.origin.0 <= MAX_AU,
        0 <= walk.shift.0 <= MAX_AU,
        0 <= index,
        divided.translations.len() == table.fragments.len(),
        none_negative(divided.translations),
    ensures
        none_negative(
            table.with_cell_divided(
                request,
                row_index,
                cell_index,
                translation,
                index,
                walk,
                divided,
            ).translations,
        ),
    decreases table.fragments.len() - index,
{
    if index < table.fragments.len() {
        let fragment = table.fragments[index];
        if fragment.row_index == row_index && fragment.cell_index == cell_index {
            lemma_caught_up(
                request,
                table.header_block_size(),
                walk,
                fragment.block_start.plus(translation).plus(walk.shift),
            );
            let next = fragment_step(
                request,
                table.header_block_size(),
                translation,
                walk,
                fragment,
            ).0;
            lemma_cell_moves_down(
                table,
                request,
                row_index,
                cell_index,
                translation,
                index + 1,
                next,
                divided.with_fragment(index, next),
            );
        } else {
            lemma_cell_moves_down(
                table,
                request,
                row_index,
                cell_index,
                translation,
                index + 1,
                walk,
                divided,
            );
        }
    }
}

proof fn lemma_cells_move_down(
    table: TableView,
    request: BlockPaginationRequest,
    row: TableRow,
    translation: Au,
    start: CellWalk,
    cell: int,
    divided: DividedRow,
)
    requires
        request.wf(),
        table.in_range(),
        0 <= table.header_block_size().0 <= MAX_AU,
        translation.in_range(),
        0 <= start.origin.0 <= MAX_AU,
        0 <= start.shift.0 <= MAX_AU,
        divided.translations.len() == table.fragments.len(),
        none_negative(divided.translations),
    ensures
        none_negative(
            table.with_cells_divided(
                request,
                row,
                translation,
                start,
                cell,
                divided,
            ).translations,
        ),
    decreases row.cell_count - cell,
{
    if cell < row.cell_count {
        let next = table.with_cell_divided(
            request,
            row.row_index,
            cell as usize,
            translation,
            0,
            start,
            divided,
        );
        lemma_cell_moves_down(
            table,
            request,
            row.row_index,
            cell as usize,
            translation,
            0,
            start,
            divided,
        );
        lemma_cell_divided_lengths(
            table,
            request,
            row.row_index,
            cell as usize,
            translation,
            0,
            start,
            divided,
        );
        lemma_cells_move_down(table, request, row, translation, start, cell + 1, next);
    }
}

/// A row of an accepted table grows or stays as it is, and the fragments of its cells move down in
/// it or stay where they are.
pub proof fn law_table_row_never_shrinks(
    table: TableView,
    state: TableState,
    source: Option<Au>,
    position: int,
)
    requires
        state.builder.wf(),
        table.in_range(),
        table.accepted(state.builder.request.available_block_size),
        state.run.wf(table),
        none_negative(state.run.row_extensions),
        none_negative(state.run.fragment_translations),
        table.body_start() <= position < table.body_end(),
    ensures
        ({
            let after = table.with_row(state, source, position);
            &&& none_negative(after.run.row_extensions)
            &&& none_negative(after.run.fragment_translations)
        }),
{
    lemma_accepted(table, state.builder.request.available_block_size);
    let row = table.rows[position];
    assert(row.in_range());
    let start = row.block_start.plus(state.run.translation);
    let stride = state.builder.request.page_stride;
    lemma_page_reaching_bounds(
        state.builder.page + 1,
        state.builder.origin.plus(stride),
        stride,
        table.header_block_size(),
        start,
    );
    let (broken, translation, _) = table.row_after_break(state, source, position);
    let warned = table.with_row_warnings(broken, position);
    assert(warned.wf() && warned.request == state.builder.request);
    let first = CellWalk { page: warned.page, origin: warned.origin, shift: Au(0) };
    let whole = DividedRow {
        translations: state.run.fragment_translations,
        pages: Seq::new(table.fragments.len(), |i: int| None),
        extension: Au(0),
        last_page: warned.page,
    };
    lemma_cells_divided(table, warned.request, row, translation, first, 0, whole);
    lemma_cells_move_down(table, warned.request, row, translation, first, 0, whole);
}

proof fn lemma_rows_never_shrink(
    table: TableView,
    state: TableState,
    source: Option<Au>,
    position: int,
    end: int,
)
    requires
        state.builder.wf(),
        table.in_range(),
        table.accepted(state.builder.request.available_block_size),
        state.run.wf(table),
        none_negative(state.run.row_extensions),
        none_negative(state.run.fragment_translations),
        table.body_start() <= position,
        end <= table.body_end(),
    ensures
        ({
            let after = table.with_rows(state, source, position, end);
            &&& none_negative(after.run.row_extensions)
            &&& none_negative(after.run.fragment_translations)
        }),
    decreases end - position,
{
    if position < end {
        law_table_row_moves_down(table, state, source, position);
        law_table_row_never_shrinks(table, state, source, position);
        lemma_rows_never_shrink(
            table,
            table.with_row(state, source, position),
            source,
            position + 1,
            end,
        );
    }
}

/// Where an accepted table is placed, no row shrinks and no fragment of a cell moves up in its row.
pub proof fn law_placed_table_never_shrinks(
    before: BuilderView,
    table: TableView,
    position: Au,
    fresh: Au,
    breaks: ChildPageBreaks,
)
    requires
        before.wf(),
        table.in_range(),
        table.accepted(before.request.available_block_size),
        position.in_range(),
    ensures
        ({
            let placed = before.with_table_rows(table, position, fresh, breaks);
            &&& none_negative(placed.run.row_extensions)
            &&& none_negative(placed.run.fragment_translations)
        }),
{
    lemma_accepted(table, before.request.available_block_size);
    let stride = before.request.page_stride;
    lemma_page_reaching_bounds(
        before.page + 1,
        before.origin.plus(stride),
        stride,
        Au(0),
        position,
    );
    let entered = before.at_table(table, position, fresh, breaks);
    assert(entered.builder.wf() && entered.builder.request == before.request);
    if let Some(header) = table.header() {
        lemma_page_reaching_bounds(
            entered.builder.page + 1,
            entered.builder.origin.plus(stride),
            stride,
            Au(0),
            header.block_start.plus(entered.run.translation),
        );
    }
    let headed = table.with_header(entered);
    assert(headed.builder.wf() && headed.builder.request == before.request);
    let source = match table.header() {
        Some(header) => Some(header.block_start.plus(headed.run.translation)),
        None => None,
    };
    lemma_rows_never_shrink(table, headed, source, table.body_start(), table.body_end());
}

/// The header of the table is painted again where the table is continued, for the continuations of
/// `after` that are not in `before`: one repeat for each, in the same order, on the page that
/// resumes. Nothing else is changed of either.
pub open spec fn header_repeats_follow(
    table: TableView,
    source: Option<Au>,
    before: OutcomeView,
    after: OutcomeView,
) -> bool {
    let first = before.continuations.len() as int;
    let shown = before.table_group_repeats.len() as int;
    &&& before.continuations.is_prefix_of(after.continuations)
    &&& before.table_group_repeats.is_prefix_of(after.table_group_repeats)
    &&& match (table.header(), source) {
        (Some(header), Some(source_block_start)) => match header.tag_id {
            Some(tag_id) => {
                &&& after.table_group_repeats.len() - shown == after.continuations.len() - first
                &&& forall|i: int|
                    first <= i < after.continuations.len() ==> {
                        let repeat = after.table_group_repeats[i - first + shown];
                        &&& (#[trigger] after.continuations[i]).token is Table
                        &&& repeat.page_index == after.continuations[i].token.resume_page()
                        &&& repeat.table_node == table.table_node
                        &&& repeat.header_tag_id == tag_id
                        &&& repeat.row_group_index == header.row_group_index
                        &&& repeat.source_block_start == source_block_start
                        &&& repeat.block_size == header.block_size
                    }
            },
            None => after.table_group_repeats == before.table_group_repeats,
        },
        _ => after.table_group_repeats == before.table_group_repeats,
    }
}

proof fn lemma_repeats_add_up(
    table: TableView,
    source: Option<Au>,
    before: OutcomeView,
    between: OutcomeView,
    after: OutcomeView,
)
    requires
        header_repeats_follow(table, source, before, between),
        header_repeats_follow(table, source, between, after),
    ensures
        header_repeats_follow(table, source, before, after),
{
    let first = before.continuations.len() as int;
    let shown = before.table_group_repeats.len() as int;
    let second = between.continuations.len() as int;
    assert(before.continuations =~= after.continuations.take(first));
    assert(before.table_group_repeats =~= after.table_group_repeats.take(shown));
    assert forall|i: int| first <= i < second implies after.continuations[i]
        == #[trigger] between.continuations[i] by {
        assert(between.continuations[i] == after.continuations.take(second)[i]);
    }
    assert forall|i: int| 0 <= i < between.table_group_repeats.len() implies
        #[trigger] after.table_group_repeats[i] == between.table_group_repeats[i] by {
        let count = between.table_group_repeats.len() as int;
        assert(between.table_group_repeats[i] == after.table_group_repeats.take(count)[i]);
    }
    if let (Some(header), Some(start)) = (table.header(), source) {
        if header.tag_id is Some {
            assert forall|i: int| first <= i < after.continuations.len() implies {
                let repeat = after.table_group_repeats[i - first + shown];
                &&& (#[trigger] after.continuations[i]).token is Table
                &&& repeat.page_index == after.continuations[i].token.resume_page()
                &&& repeat.table_node == table.table_node
                &&& repeat.header_tag_id == header.tag_id->0
                &&& repeat.row_group_index == header.row_group_index
                &&& repeat.source_block_start == start
                &&& repeat.block_size == header.block_size
            } by {
                if i < second {
                    assert(after.continuations[i] == between.continuations[i]);
                }
            }
        }
    }
}

/// Nothing is continued and nothing repeated.
proof fn lemma_no_repeats(
    table: TableView,
    source: Option<Au>,
    before: OutcomeView,
    after: OutcomeView,
)
    requires
        after.continuations == before.continuations,
        after.table_group_repeats == before.table_group_repeats,
    ensures
        header_repeats_follow(table, source, before, after),
{
    assert(before.continuations =~= after.continuations.take(
        before.continuations.len() as int,
    ));
    assert(before.table_group_repeats =~= after.table_group_repeats.take(
        before.table_group_repeats.len() as int,
    ));
}

/// One continuation, and the repeat for it.
proof fn lemma_one_repeat(
    table: TableView,
    source: Option<Au>,
    before: BuilderView,
    continued: BuilderView,
    continuation: PageContinuation,
    page: int,
    target: Au,
)
    requires
        continuation.token is Table,
        continuation.token.resume_page() == page as usize,
        continued.outcome == before.outcome.with_continuation(continuation),
    ensures
        header_repeats_follow(
            table,
            source,
            before.outcome,
            continued.with_header_repeat(table, source, page, target).outcome,
        ),
{
    let after = continued.with_header_repeat(table, source, page, target).outcome;
    assert(before.outcome.continuations =~= after.continuations.take(
        before.outcome.continuations.len() as int,
    ));
    assert(before.outcome.table_group_repeats =~= after.table_group_repeats.take(
        before.outcome.table_group_repeats.len() as int,
    ));
}

proof fn lemma_cell_continuations_keep_repeats(
    builder: BuilderView,
    table: TableView,
    row: TableRow,
    pages: Seq<Option<usize>>,
    resume: int,
    cell: int,
)
    ensures
        ({
            let after = builder.with_cell_continuations(table, row, pages, resume, cell).outcome;
            &&& after.continuations == builder.outcome.continuations
            &&& after.table_group_repeats == builder.outcome.table_group_repeats
        }),
    decreases row.cell_count - cell,
{
    if cell < row.cell_count {
        lemma_cell_continuations_keep_repeats(
            builder.with_outcome(
                OutcomeView {
                    table_cell_continuations: builder.outcome.table_cell_continuations.push(
                        crate::pages::flow::TableCellContinuationDecision {
                            page_index: (resume - 1) as usize,
                            table_node: table.table_node,
                            row_group_index: row.row_group_index,
                            row_index: row.row_index,
                            cell_index: cell as usize,
                            next_fragment_index: table.next_fragment(
                                row.row_index,
                                cell as usize,
                                pages,
                                resume,
                                0,
                            ),
                            resume_page_index: resume as usize,
                        },
                    ),
                    ..builder.outcome
                },
            ),
            table,
            row,
            pages,
            resume,
            cell + 1,
        );
    }
}

proof fn lemma_resumed_row_repeats(
    builder: BuilderView,
    table: TableView,
    row: TableRow,
    source: Option<Au>,
    pages: Seq<Option<usize>>,
    first: int,
    first_origin: Au,
    resume: int,
    last: int,
)
    ensures
        header_repeats_follow(
            table,
            source,
            builder.outcome,
            builder.with_row_resumed(
                table,
                row,
                source,
                pages,
                first,
                first_origin,
                resume,
                last,
            ).outcome,
        ),
    decreases last - resume + 1,
{
    if resume <= last {
        let continuation = PageContinuation {
            page_index: (resume - 1) as usize,
            token: FragmentainerContinuation::Table(
                crate::pages::flow::TableContinuationToken {
                    child_index: table.child_index,
                    table_node: table.table_node,
                    row_group_index: row.row_group_index,
                    next_row_index: row.row_index,
                    resume_page_index: resume as usize,
                },
            ),
        };
        let target = origin_after(first_origin, builder.request.page_stride, resume - first);
        let continued = builder.with_outcome(builder.outcome.with_continuation(continuation));
        let repeated = continued.with_header_repeat(table, source, resume, target);
        let next = repeated.with_cell_continuations(table, row, pages, resume, 0);
        lemma_one_repeat(table, source, builder, continued, continuation, resume, target);
        lemma_cell_continuations_keep_repeats(repeated, table, row, pages, resume, 0);
        lemma_no_repeats(table, source, repeated.outcome, next.outcome);
        lemma_repeats_add_up(
            table,
            source,
            builder.outcome,
            repeated.outcome,
            next.outcome,
        );
        lemma_resumed_row_repeats(
            next,
            table,
            row,
            source,
            pages,
            first,
            first_origin,
            resume + 1,
            last,
        );
        lemma_repeats_add_up(
            table,
            source,
            builder.outcome,
            next.outcome,
            next.with_row_resumed(
                table,
                row,
                source,
                pages,
                first,
                first_origin,
                resume + 1,
                last,
            ).outcome,
        );
    } else {
        lemma_no_repeats(table, source, builder.outcome, builder.outcome);
    }
}

proof fn lemma_break_repeats(
    builder: BuilderView,
    table: TableView,
    source: Option<Au>,
    start: Au,
    row_group_index: Option<usize>,
    next_row_index: usize,
)
    ensures
        ({
            let broken = builder.broken_in_table(
                table,
                table.header_block_size(),
                start,
                row_group_index,
                next_row_index,
            );
            header_repeats_follow(
                table,
                source,
                builder.outcome,
                broken.with_header_repeat(table, source, broken.page, broken.origin).outcome,
            )
        }),
{
    let broken = builder.broken_in_table(
        table,
        table.header_block_size(),
        start,
        row_group_index,
        next_row_index,
    );
    lemma_one_repeat(
        table,
        source,
        builder,
        broken,
        broken.outcome.continuations.last(),
        broken.page,
        broken.origin,
    );
}

proof fn lemma_row_repeats(
    table: TableView,
    state: TableState,
    source: Option<Au>,
    position: int,
)
    ensures
        header_repeats_follow(
            table,
            source,
            state.builder.outcome,
            table.with_row(state, source, position).builder.outcome,
        ),
{
    let row = table.rows[position];
    let start = row.block_start.plus(state.run.translation);
    lemma_break_repeats(
        state.builder,
        table,
        source,
        start,
        row.row_group_index,
        row.row_index,
    );
    lemma_no_repeats(table, source, state.builder.outcome, state.builder.outcome);
    let (broken, translation, _) = table.row_after_break(state, source, position);
    let warned = table.with_row_warnings(broken, position);
    let divided = table.divided(warned, row, translation, state.run.fragment_translations);
    let last = table.last_fragment(row.row_index, table.fragments.len() as int)->0;
    let noted = if divided.last_page == warned.page {
        warned.with_cell_warning(
            table,
            TableCellFragment {
                row_index: row.row_index,
                cell_index: last.cell_index,
                fragment_index: (last.fragment_index + 1) as usize,
                block_start: row.block_start,
                block_size: row.block_size,
            },
        )
    } else {
        warned
    };
    lemma_no_repeats(table, source, broken.outcome, noted.outcome);
    lemma_no_repeats(table, source, broken.outcome, warned.outcome);
    lemma_repeats_add_up(
        table,
        source,
        state.builder.outcome,
        broken.outcome,
        warned.outcome,
    );
    lemma_repeats_add_up(
        table,
        source,
        state.builder.outcome,
        broken.outcome,
        noted.outcome,
    );
    lemma_resumed_row_repeats(
        noted,
        table,
        row,
        source,
        divided.pages,
        warned.page,
        warned.origin,
        warned.page + 1,
        divided.last_page,
    );
    let resumed = table.row_divided(
        warned,
        source,
        position,
        translation,
        state.run.fragment_translations,
    ).0;
    lemma_repeats_add_up(
        table,
        source,
        state.builder.outcome,
        noted.outcome,
        resumed.outcome,
    );
    let capacity = table.body_page_capacity(state.builder.request.available_block_size);
    let reached = if row.block_size.0 > capacity.0 && !(table.tall_fragment(
        row.row_index,
        capacity,
        0,
    ) is Some) {
        resumed
    } else {
        warned
    };
    let after = table.with_row(state, source, position).builder.outcome;
    lemma_no_repeats(table, source, reached.outcome, after);
    lemma_repeats_add_up(table, source, state.builder.outcome, reached.outcome, after);
}

proof fn lemma_rows_repeat(
    table: TableView,
    state: TableState,
    source: Option<Au>,
    position: int,
    end: int,
)
    ensures
        header_repeats_follow(
            table,
            source,
            state.builder.outcome,
            table.with_rows(state, source, position, end).builder.outcome,
        ),
    decreases end - position,
{
    if position < end {
        let next = table.with_row(state, source, position);
        lemma_row_repeats(table, state, source, position);
        lemma_rows_repeat(table, next, source, position + 1, end);
        lemma_repeats_add_up(
            table,
            source,
            state.builder.outcome,
            next.builder.outcome,
            table.with_rows(next, source, position + 1, end).builder.outcome,
        );
    } else {
        lemma_no_repeats(table, source, state.builder.outcome, state.builder.outcome);
    }
}

/// Behind its header, every continuation of a table has exactly one repeat of the header, on the
/// page that resumes; up to its header it has none.
pub proof fn law_each_table_continuation_repeats_the_header(
    before: BuilderView,
    table: TableView,
    position: Au,
    fresh: Au,
    breaks: ChildPageBreaks,
)
    ensures
        ({
            let headed = table.with_header(before.at_table(table, position, fresh, breaks));
            let source = match table.header() {
                Some(header) => Some(header.block_start.plus(headed.run.translation)),
                None => None,
            };
            let placed = before.with_table_rows(table, position, fresh, breaks);
            &&& headed.builder.outcome.table_group_repeats == before.outcome.table_group_repeats
            &&& header_repeats_follow(
                table,
                source,
                headed.builder.outcome,
                placed.builder.outcome,
            )
        }),
{
    let headed = table.with_header(before.at_table(table, position, fresh, breaks));
    let source = match table.header() {
        Some(header) => Some(header.block_start.plus(headed.run.translation)),
        None => None,
    };
    let rows = table.with_rows(headed, source, table.body_start(), table.body_end());
    let footed = table.with_footer(rows, source);
    lemma_rows_repeat(table, headed, source, table.body_start(), table.body_end());
    lemma_no_repeats(table, source, rows.builder.outcome, rows.builder.outcome);
    if let Some(footer) = table.footer() {
        let start = footer.block_start.plus(rows.run.translation);
        lemma_break_repeats(
            rows.builder,
            table,
            source,
            start,
            Some(footer.row_group_index),
            footer.first_row_index,
        );
        let broken = rows.builder.broken_in_table(
            table,
            table.header_block_size(),
            start,
            Some(footer.row_group_index),
            footer.first_row_index,
        );
        let repeated = broken.with_header_repeat(table, source, broken.page, broken.origin);
        if footed.builder.outcome.continuations == repeated.outcome.continuations
            && footed.builder.outcome.table_group_repeats
            == repeated.outcome.table_group_repeats {
            lemma_no_repeats(table, source, repeated.outcome, footed.builder.outcome);
            lemma_repeats_add_up(
                table,
                source,
                rows.builder.outcome,
                repeated.outcome,
                footed.builder.outcome,
            );
        } else {
            lemma_no_repeats(table, source, rows.builder.outcome, footed.builder.outcome);
        }
    }
    lemma_repeats_add_up(
        table,
        source,
        headed.builder.outcome,
        rows.builder.outcome,
        footed.builder.outcome,
    );
}

} // verus!
