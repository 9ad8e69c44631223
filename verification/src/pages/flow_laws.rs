//! What holds of placing one child, told by lengths and page numbers.
use crate::au::{Au, MAX_AU};
use crate::pages::flow::{
    lemma_page_holding_bounds, lemma_page_reaching_bounds, page_holding, BlockBoundaryPlacement,
    BlockContinuationToken, BlockPaginationWarning, BuilderView, ChildPageBreaks,
    FragmentainerContinuation, PageContinuation,
};
use crate::pages::laws::{law_page_holding_is_first, law_page_reaching_is_first};
use crate::pages::table_flow::origin_after;
use vstd::prelude::*;

verus! {

/// The page that is opened next lies whole page strides behind the current one, starts `offset` or
/// less before the target, and is the first that does.
pub proof fn law_next_page_is_the_first_that_reaches(before: BuilderView, offset: Au, target: Au)
    requires
        before.wf(),
        0 <= offset.0 <= MAX_AU,
        target.in_range(),
    ensures
        ({
            let (page, origin) = before.next_page(offset, target);
            let stride = before.request.page_stride.0;
            &&& before.page < page
            &&& before.origin.0 <= origin.0 <= MAX_AU
            &&& origin.0 + offset.0 >= target.0
            &&& origin.0 < MAX_AU ==> {
                &&& origin.0 - before.origin.0 == (page - before.page) * stride
                &&& page > before.page + 1 ==> origin.0 - stride + offset.0 < target.0
            }
        }),
{
    let stride = before.request.page_stride;
    let first = before.origin.plus(stride);
    let (page, origin) = before.next_page(offset, target);
    law_page_reaching_is_first(before.page + 1, first, stride, offset, target);
    lemma_page_reaching_bounds(before.page + 1, first, stride, offset, target);
    let steps = page - before.page - 1;
    assert((steps + 1) * stride.0 == steps * stride.0 + stride.0) by (nonlinear_arith);
    assert(steps * stride.0 >= 0) by (nonlinear_arith)
        requires
            steps >= 0,
            stride.0 > 0,
    ;
    if steps > 0 {
        assert((steps - 1) * stride.0 == steps * stride.0 - stride.0) by (nonlinear_arith);
        assert(origin_after(first, stride, steps - 1).plus(offset).0 < target.0);
    }
}

/// Content that ends at `end` is counted: the pages reach as far as it does, and no page is counted
/// for it that it does not reach.
pub proof fn law_pages_are_counted_as_far_as_content_reaches(before: BuilderView, end: Au)
    requires
        before.wf(),
        end.in_range(),
    ensures
        ({
            let after = before.filled_through(end);
            let stride = before.request.page_stride.0;
            let old_count = before.outcome.page_count;
            let count = after.outcome.page_count;
            &&& after.has_content
            &&& after == (BuilderView {
                has_content: true,
                outcome: after.outcome,
                ..before
            })
            &&& after.outcome.continuations == before.outcome.continuations
            &&& after.outcome.table_breaks == before.outcome.table_breaks
            &&& after.outcome.table_cell_continuations == before.outcome.table_cell_continuations
            &&& after.outcome.table_group_repeats == before.outcome.table_group_repeats
            &&& after.outcome.warnings == before.outcome.warnings
            &&& count >= old_count
            &&& count > before.page
            &&& end.0 <= before.origin.0 + (count - before.page) * stride
            &&& count > old_count && count > before.page + 1 ==> end.0 > before.origin.0 + (count
                - 1 - before.page) * stride
        }),
{
    let stride = before.request.page_stride;
    let (found, start) = page_holding(before.page, before.origin, stride, end);
    law_page_holding_is_first(before.page, before.origin, stride, end);
    lemma_page_holding_bounds(before.page, before.origin, stride, end);
    let steps = found - before.page;
    let count = before.filled_through(end).outcome.page_count;
    assert((steps + 1) * stride.0 == steps * stride.0 + stride.0) by (nonlinear_arith);
    assert(steps * stride.0 >= 0) by (nonlinear_arith)
        requires
            steps >= 0,
            stride.0 > 0,
    ;
    assert((count - before.page) * stride.0 >= (steps + 1) * stride.0) by (nonlinear_arith)
        requires
            count - before.page >= steps + 1,
            stride.0 > 0,
    ;
    if steps > 0 {
        assert((steps - 1) * stride.0 == steps * stride.0 - stride.0) by (nonlinear_arith);
        assert(origin_after(before.origin, stride, steps - 1).plus(stride).0 < end.0);
    }
}

/// A child starts a new page exactly where something stands on the page and a break is demanded, or
/// the child neither fits the rest of the page nor asks, in vain, not to be divided. It starts the
/// first page behind the current one that begins at or below its place. Nothing else moves it, and a
/// child that no page can hold leaves one warning, of its own kind.
pub proof fn law_child_stays_where_it_fits(
    before: BuilderView,
    child_index: usize,
    node: Option<u64>,
    position: Au,
    current: Au,
    fresh: Au,
    breaks: ChildPageBreaks,
)
    requires
        before.wf(),
        position.in_range(),
        before.origin.0 <= position.0,
        current.in_range(),
        fresh.in_range(),
    ensures
        ({
            let (after, placement) = before.with_child(
                child_index,
                node,
                position,
                current,
                fresh,
                breaks,
            );
            let available = before.request.available_block_size;
            let stride = before.request.page_stride.0;
            let demanded = before.previous_break_after || breaks.before;
            let fits = current.0 <= 0 || position.0 + current.0 <= before.origin.0 + available.0;
            let in_vain = breaks.inside_avoid && fresh.0 > available.0;
            &&& placement is NewPage <==> before.has_content && (demanded || !(fits || in_vain))
            &&& after.has_content
            &&& after.request == before.request
            &&& after.next_child == before.next_child + 1
            &&& after.previous_break_after == breaks.after
            &&& after.outcome.table_breaks == before.outcome.table_breaks
            &&& after.outcome.table_cell_continuations == before.outcome.table_cell_continuations
            &&& after.outcome.table_group_repeats == before.outcome.table_group_repeats
            &&& after.outcome.warnings == (if fresh.0 <= available.0 {
                before.outcome.warnings
            } else if breaks.inside_avoid {
                before.outcome.warnings.push(
                    BlockPaginationWarning::OversizedBreakInsideAvoid {
                        child_index,
                        node,
                        block_size: fresh,
                        available_block_size: available,
                        retry_count: 0,
                    },
                )
            } else {
                before.outcome.warnings.push(
                    BlockPaginationWarning::OversizedUnbreakable {
                        child_index,
                        node,
                        block_size: fresh,
                        available_block_size: available,
                    },
                )
            })
            &&& match placement {
                BlockBoundaryPlacement::CurrentPage => {
                    &&& after.page == before.page
                    &&& after.origin == before.origin
                    &&& after.outcome.continuations == before.outcome.continuations
                },
                BlockBoundaryPlacement::NewPage { block_origin } => {
                    &&& after.origin == block_origin
                    &&& after.page > before.page
                    &&& position.0 <= block_origin.0
                    &&& block_origin.0 < MAX_AU ==> {
                        &&& block_origin.0 - before.origin.0 == (after.page - before.page) * stride
                        &&& after.page > before.page + 1 ==> block_origin.0 - stride < position.0
                    }
                    &&& after.outcome.continuations == before.outcome.continuations.push(
                        PageContinuation {
                            page_index: before.page as usize,
                            token: FragmentainerContinuation::Block(
                                BlockContinuationToken {
                                    next_child_index: child_index,
                                    next_node: node,
                                    forced: demanded,
                                    break_inside_avoid: breaks.inside_avoid && !demanded,
                                    retry_count: if breaks.inside_avoid && !demanded {
                                        1u8
                                    } else {
                                        0u8
                                    },
                                    resume_page_index: after.page as usize,
                                },
                            ),
                        },
                    )
                },
            }
        }),
{
    law_next_page_is_the_first_that_reaches(before, Au(0), position);
}

/// The pages that are counted when a child has been placed reach as far as the child does, and none
/// is counted for it that it does not reach.
pub proof fn law_pages_hold_the_child(
    before: BuilderView,
    child_index: usize,
    node: Option<u64>,
    position: Au,
    current: Au,
    fresh: Au,
    breaks: ChildPageBreaks,
)
    requires
        before.wf(),
        position.in_range(),
        current.in_range(),
        fresh.in_range(),
    ensures
        ({
            let (after, placement) = before.with_child(
                child_index,
                node,
                position,
                current,
                fresh,
                breaks,
            );
            let stride = before.request.page_stride.0;
            let end = match placement {
                BlockBoundaryPlacement::CurrentPage => position.0 + current.0,
                BlockBoundaryPlacement::NewPage { block_origin } => block_origin.0 + fresh.0,
            };
            let old_count = before.outcome.page_count;
            let count = after.outcome.page_count;
            &&& count >= old_count
            &&& count > after.page
            &&& -MAX_AU < end < MAX_AU ==> end <= after.origin.0 + (count - after.page) * stride
            &&& end < MAX_AU && count > old_count && count > after.page + 1 ==> end
                > after.origin.0 + (count - 1 - after.page) * stride
        }),
{
    let (after, placement) = before.with_child(child_index, node, position, current, fresh, breaks);
    law_next_page_is_the_first_that_reaches(before, Au(0), position);
    let unfilled = BuilderView {
        outcome: crate::pages::flow::OutcomeView {
            page_count: before.outcome.page_count,
            ..after.outcome
        },
        ..after
    };
    let end = match placement {
        BlockBoundaryPlacement::CurrentPage => position.plus(current),
        BlockBoundaryPlacement::NewPage { block_origin } => block_origin.plus(fresh),
    };
    law_pages_are_counted_as_far_as_content_reaches(unfilled, end);
    assert(unfilled.filled_through(end).outcome.page_count == after.outcome.page_count);
}

/// A child that is out of flow is only counted.
pub proof fn law_counting_a_child_changes_nothing_else(before: BuilderView)
    ensures
        before.counted() == (BuilderView { next_child: before.next_child + 1, ..before }),
{
}

/// Once no more is placed, the pages reach as far as anything reached and hold the current page, and
/// no page is counted beyond that; what was decided stays as it is.
pub proof fn law_finished_pages_hold_the_current_one(builder: BuilderView)
    ensures
        ({
            let done = builder.finished();
            &&& done.page_count > builder.page
            &&& done.page_count >= builder.outcome.page_count
            &&& done.page_count == builder.page + 1 || done.page_count
                == builder.outcome.page_count
            &&& done.continuations == builder.outcome.continuations
            &&& done.table_breaks == builder.outcome.table_breaks
            &&& done.table_cell_continuations == builder.outcome.table_cell_continuations
            &&& done.table_group_repeats == builder.outcome.table_group_repeats
            &&& done.warnings == builder.outcome.warnings
        }),
{
}

} // verus!
