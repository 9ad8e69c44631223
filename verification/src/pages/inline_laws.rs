//! What holds of dividing a paragraph, line by line, told by lengths.
use crate::au::{Au, MAX_AU};
use crate::pages::flow::{
    lemma_page_reaching_bounds, BlockPaginationWarning, BuilderView, ChildPageBreaks,
    FragmentainerContinuation, PageContinuation,
};
use crate::pages::flow_laws::{
    law_next_page_is_the_first_that_reaches, law_pages_are_counted_as_far_as_content_reaches,
};
use crate::pages::inline_flow::{InlineLine, lines_in_range, lines_supported};
use vstd::prelude::*;

verus! {

/// No length that the placement of lines leads to lies beyond app units.
pub open spec fn lines_unsaturated(lines: Seq<InlineLine>, translations: Seq<Au>) -> bool {
    forall|i: int|
        0 <= i < lines.len() && i < translations.len() ==> (#[trigger] translations[i]).0 < MAX_AU
            && lines[i].block_start.0 + translations[i].0 + lines[i].block_size.0 < MAX_AU
}

/// A continuation at a line of a paragraph.
pub open spec fn continues_at_line(
    continuation: PageContinuation,
    child_index: usize,
    lines: Seq<InlineLine>,
    index: int,
) -> bool {
    continuation.token matches FragmentainerContinuation::Inline(token) && {
        &&& token.child_index == child_index
        &&& token.next_line_index == index as usize
        &&& token.inline_item_index == lines[index].resume.inline_item_index
        &&& token.text_offset == lines[index].resume.text_offset
        &&& token.shaping_result_index == lines[index].resume.shaping_result_index
    }
}

/// There is a continuation at a line of a paragraph, from `from` on.
pub open spec fn has_continuation(
    continuations: Seq<PageContinuation>,
    from: int,
    child_index: usize,
    lines: Seq<InlineLine>,
    index: int,
) -> bool {
    exists|k: int|
        from <= k < continuations.len() && #[trigger] continues_at_line(
            continuations[k],
            child_index,
            lines,
            index,
        )
}

/// A continuation is at some line of a paragraph.
pub open spec fn continues_paragraph(
    continuation: PageContinuation,
    child_index: usize,
    lines: Seq<InlineLine>,
) -> bool {
    exists|i: int|
        0 <= i < lines.len() && #[trigger] continues_at_line(continuation, child_index, lines, i)
}

/// A line, moved by `moved` onto the page at `origin`, ends within the space of that page. It stands
/// below the line above it, which is moved by `moved_above` on the page at `origin_above`, where it
/// fits there; where it does not, it starts a later page.
pub open spec fn line_follows(
    line: InlineLine,
    available: int,
    origin_above: int,
    moved_above: int,
    origin: int,
    moved: int,
) -> bool {
    let top = line.block_start.0;
    let size = line.block_size.0;
    &&& top + moved + size <= origin + available
    &&& if top + moved_above + size <= origin_above + available {
        origin == origin_above && moved == moved_above
    } else {
        origin > origin_above && top + moved == origin
    }
}

/// The origin of the page that line `i` stands on, where the lines from `index` on are placed.
spec fn line_origin(
    before: BuilderView,
    child_index: usize,
    lines: Seq<InlineLine>,
    index: int,
    translation: Au,
    i: int,
) -> Au
    decreases lines.len() - index,
{
    if index > i || index >= lines.len() {
        before.origin
    } else {
        let (next, moved) = before.with_line(child_index, index, lines[index], translation);
        line_origin(next, child_index, lines, index + 1, moved, i)
    }
}

/// How far line `i` is moved, where the lines from `index` on are placed.
spec fn line_moved(
    before: BuilderView,
    child_index: usize,
    lines: Seq<InlineLine>,
    index: int,
    translation: Au,
    i: int,
) -> Au
    decreases lines.len() - index,
{
    if index > i || index >= lines.len() {
        translation
    } else {
        let (next, moved) = before.with_line(child_index, index, lines[index], translation);
        line_moved(next, child_index, lines, index + 1, moved, i)
    }
}

proof fn lemma_moved(
    before: BuilderView,
    child_index: usize,
    lines: Seq<InlineLine>,
    index: int,
    translation: Au,
    placed: Seq<Au>,
    i: int,
)
    requires
        0 <= index <= i < lines.len(),
        placed.len() == index,
    ensures
        before.with_lines(child_index, lines, index, translation, placed).1[i] == line_moved(
            before,
            child_index,
            lines,
            index,
            translation,
            i,
        ),
    decreases lines.len() - index,
{
    let (next, t) = before.with_line(child_index, index, lines[index], translation);
    lemma_with_lines_keeps(next, child_index, lines, index + 1, t, placed.push(t));
    if index < i {
        lemma_moved(next, child_index, lines, index + 1, t, placed.push(t), i);
    } else {
        let moved = before.with_lines(child_index, lines, index, translation, placed).1;
        assert(moved[index] == placed.push(t)[index]);
        assert(line_moved(next, child_index, lines, index + 1, t, i) == t);
    }
}

/// One line of those from `index` on, of which none up to it leads beyond app units.
proof fn lemma_line_follows(
    before: BuilderView,
    child_index: usize,
    lines: Seq<InlineLine>,
    index: int,
    translation: Au,
    i: int,
)
    requires
        before.wf(),
        lines_in_range(lines),
        forall|k: int|
            0 <= k < lines.len() ==> 0 < (#[trigger] lines[k]).block_size.0
                <= before.request.available_block_size.0,
        0 <= index <= i < lines.len(),
        0 <= translation.0 <= MAX_AU,
        ({
            let moved = line_moved(before, child_index, lines, index, translation, i);
            moved.0 < MAX_AU && lines[i].block_start.0 + moved.0 + lines[i].block_size.0 < MAX_AU
        }),
    ensures
        line_follows(
            lines[i],
            before.request.available_block_size.0 as int,
            line_origin(before, child_index, lines, index, translation, i - 1).0 as int,
            line_moved(before, child_index, lines, index, translation, i - 1).0 as int,
            line_origin(before, child_index, lines, index, translation, i).0 as int,
            line_moved(before, child_index, lines, index, translation, i).0 as int,
        ),
        translation.0 <= line_moved(before, child_index, lines, index, translation, i - 1).0,
        before.origin.0 <= line_origin(before, child_index, lines, index, translation, i - 1).0,
    decreases lines.len() - index,
{
    let line = lines[index];
    assert(line.block_start.in_range() && line.block_size.in_range());
    let (next, t) = before.with_line(child_index, index, line, translation);
    let top = line.block_start.plus(translation);
    law_next_page_is_the_first_that_reaches(before, Au(0), top);
    if index < i {
        lemma_line_follows(next, child_index, lines, index + 1, t, i);
    } else {
        assert(line_origin(next, child_index, lines, index + 1, t, i) == next.origin);
        assert(line_moved(next, child_index, lines, index + 1, t, i) == t);
    }
}

/// The last line stands on the page that is current then, and nothing but pages and continuations
/// is changed.
proof fn lemma_lines_end(
    before: BuilderView,
    child_index: usize,
    lines: Seq<InlineLine>,
    index: int,
    translation: Au,
    placed: Seq<Au>,
)
    requires
        0 <= index <= lines.len(),
    ensures
        ({
            let after = before.with_lines(child_index, lines, index, translation, placed).0;
            &&& after.origin == line_origin(
                before,
                child_index,
                lines,
                index,
                translation,
                lines.len() - 1,
            )
            &&& after.request == before.request
            &&& after.next_child == before.next_child
            &&& after.previous_break_after == before.previous_break_after
            &&& after.outcome.warnings == before.outcome.warnings
            &&& before.outcome.continuations.is_prefix_of(after.outcome.continuations)
            &&& index < lines.len() ==> after.has_content
            &&& before.has_content ==> after.has_content
        }),
    decreases lines.len() - index,
{
    let after = before.with_lines(child_index, lines, index, translation, placed).0;
    let old = before.outcome.continuations;
    let added = after.outcome.continuations;
    if index < lines.len() {
        let (next, t) = before.with_line(child_index, index, lines[index], translation);
        lemma_lines_end(next, child_index, lines, index + 1, t, placed.push(t));
        let mid = next.outcome.continuations;
        assert(old =~= mid.take(old.len() as int));
        assert(mid =~= added.take(mid.len() as int));
        assert(added.take(mid.len() as int).take(old.len() as int) =~= added.take(
            old.len() as int,
        ));
    } else {
        assert(old =~= added.take(old.len() as int));
    }
}

/// A line that starts a later page than the line above it has a continuation.
proof fn lemma_line_continued(
    before: BuilderView,
    child_index: usize,
    lines: Seq<InlineLine>,
    index: int,
    translation: Au,
    placed: Seq<Au>,
    i: int,
) -> (k: int)
    requires
        0 <= index <= i < lines.len(),
        line_origin(before, child_index, lines, index, translation, i) != line_origin(
            before,
            child_index,
            lines,
            index,
            translation,
            i - 1,
        ),
    ensures
        ({
            let added = before.with_lines(
                child_index,
                lines,
                index,
                translation,
                placed,
            ).0.outcome.continuations;
            &&& before.outcome.continuations.len() <= k < added.len()
            &&& continues_at_line(added[k], child_index, lines, i)
        }),
    decreases lines.len() - index,
{
    let (next, t) = before.with_line(child_index, index, lines[index], translation);
    lemma_lines_end(next, child_index, lines, index + 1, t, placed.push(t));
    if index < i {
        lemma_line_continued(next, child_index, lines, index + 1, t, placed.push(t), i)
    } else {
        let k = before.outcome.continuations.len() as int;
        let mid = next.outcome.continuations;
        let added = before.with_lines(
            child_index,
            lines,
            index,
            translation,
            placed,
        ).0.outcome.continuations;
        assert(line_origin(next, child_index, lines, index + 1, t, i) == next.origin);
        assert(mid.len() == k + 1);
        assert(mid =~= added.take(mid.len() as int));
        assert(added[k] == added.take(mid.len() as int)[k]);
        k
    }
}

/// Every continuation that is added is at a line that starts another page.
proof fn lemma_continued_at_a_line(
    before: BuilderView,
    child_index: usize,
    lines: Seq<InlineLine>,
    index: int,
    translation: Au,
    placed: Seq<Au>,
    k: int,
) -> (i: int)
    requires
        before.wf(),
        lines_in_range(lines),
        0 <= translation.0 <= MAX_AU,
        0 <= index <= lines.len(),
        before.outcome.continuations.len() <= k < before.with_lines(
            child_index,
            lines,
            index,
            translation,
            placed,
        ).0.outcome.continuations.len(),
    ensures
        ({
            let added = before.with_lines(
                child_index,
                lines,
                index,
                translation,
                placed,
            ).0.outcome.continuations;
            &&& index <= i < lines.len()
            &&& continues_at_line(added[k], child_index, lines, i)
        }),
    decreases lines.len() - index,
{
    let (next, t) = before.with_line(child_index, index, lines[index], translation);
    let added = before.with_lines(
        child_index,
        lines,
        index,
        translation,
        placed,
    ).0.outcome.continuations;
    let mid = next.outcome.continuations;
    assert(lines[index].block_start.in_range());
    law_next_page_is_the_first_that_reaches(
        before,
        Au(0),
        lines[index].block_start.plus(translation),
    );
    lemma_lines_end(next, child_index, lines, index + 1, t, placed.push(t));
    if k < mid.len() {
        assert(mid =~= added.take(mid.len() as int));
        assert(added[k] == added.take(mid.len() as int)[k]);
        index
    } else {
        lemma_continued_at_a_line(next, child_index, lines, index + 1, t, placed.push(t), k)
    }
}

proof fn lemma_with_lines_keeps(
    before: BuilderView,
    child_index: usize,
    lines: Seq<InlineLine>,
    index: int,
    translation: Au,
    placed: Seq<Au>,
)
    requires
        0 <= index <= lines.len(),
        placed.len() == index,
    ensures
        ({
            let moved = before.with_lines(child_index, lines, index, translation, placed).1;
            &&& moved.len() == lines.len()
            &&& forall|i: int| 0 <= i < index ==> #[trigger] moved[i] == placed[i]
        }),
    decreases lines.len() - index,
{
    if index < lines.len() {
        let (next, t) = before.with_line(child_index, index, lines[index], translation);
        lemma_with_lines_keeps(next, child_index, lines, index + 1, t, placed.push(t));
        let moved = before.with_lines(child_index, lines, index, translation, placed).1;
        assert forall|i: int| 0 <= i < index implies #[trigger] moved[i] == placed[i] by {
            assert(moved[i] == placed.push(t)[i]);
        }
    }
}

proof fn lemma_at_paragraph(
    before: BuilderView,
    child_index: usize,
    node: Option<u64>,
    position: Au,
    lines: Seq<InlineLine>,
    breaks: ChildPageBreaks,
)
    requires
        before.wf(),
        position.in_range(),
    ensures
        ({
            let (start, translation) = before.at_paragraph(
                child_index,
                node,
                position,
                lines,
                breaks,
            );
            &&& start.wf()
            &&& start.request == before.request
            &&& 0 <= translation.0 <= MAX_AU
            &&& before.origin.0 <= start.origin.0
            &&& start.next_child == before.next_child + 1
            &&& start.previous_break_after == breaks.after
            &&& before.outcome.continuations.is_prefix_of(start.outcome.continuations)
        }),
{
    law_next_page_is_the_first_that_reaches(before, Au(0), position);
    let start = before.at_paragraph(child_index, node, position, lines, breaks).0;
    assert(before.outcome.continuations =~= start.outcome.continuations.take(
        before.outcome.continuations.len() as int,
    ));
}

/// Every line of a paragraph stands within the space of a page, below the line above it or, where it
/// does not fit there, at the top of a later page.
pub open spec fn lines_on_pages(
    lines: Seq<InlineLine>,
    available: int,
    moved: Seq<Au>,
    origins: Seq<Au>,
) -> bool {
    &&& moved.len() == lines.len()
    &&& origins.len() == lines.len()
    &&& 0 <= moved[0].0
    &&& lines[0].block_start.0 + moved[0].0 + lines[0].block_size.0 <= origins[0].0 + available
    &&& forall|i: int|
        1 <= i < lines.len() ==> line_follows(
            #[trigger] lines[i],
            available,
            origins[i - 1].0 as int,
            moved[i - 1].0 as int,
            origins[i].0 as int,
            moved[i].0 as int,
        )
}

/// Each line that starts a page has a continuation from `from` on, and there is none from there on
/// that is not at a line.
pub open spec fn line_breaks_recorded(
    continuations: Seq<PageContinuation>,
    from: int,
    child_index: usize,
    lines: Seq<InlineLine>,
    origins: Seq<Au>,
) -> bool {
    &&& forall|i: int|
        1 <= i < lines.len() && origins[i] != origins[i - 1] ==> #[trigger] has_continuation(
            continuations,
            from,
            child_index,
            lines,
            i,
        )
    &&& forall|k: int|
        from <= k < continuations.len() ==> continues_paragraph(
            #[trigger] continuations[k],
            child_index,
            lines,
        )
}

proof fn lemma_placeable(available: Au, lines: Seq<InlineLine>)
    requires
        lines_supported(available, lines),
    ensures
        lines.len() > 0,
        forall|k: int|
            0 <= k < lines.len() ==> 0 < (#[trigger] lines[k]).block_size.0 <= available.0,
{
    assert forall|k: int| 0 <= k < lines.len() implies 0 < (#[trigger] lines[k]).block_size.0
        <= available.0 by {
        assert(lines[k].placeable(available));
    }
}

/// The origins of the pages that the lines of a paragraph stand on.
spec fn paragraph_origins(
    start: BuilderView,
    child_index: usize,
    lines: Seq<InlineLine>,
    translation: Au,
) -> Seq<Au> {
    Seq::new(lines.len(), |i: int| line_origin(start, child_index, lines, 0, translation, i))
}

proof fn lemma_lines_on_pages(
    start: BuilderView,
    child_index: usize,
    lines: Seq<InlineLine>,
    translation: Au,
)
    requires
        start.wf(),
        lines_in_range(lines),
        lines.len() > 0,
        forall|k: int|
            0 <= k < lines.len() ==> 0 < (#[trigger] lines[k]).block_size.0
                <= start.request.available_block_size.0,
        0 <= translation.0 <= MAX_AU,
        lines_unsaturated(
            lines,
            start.with_lines(child_index, lines, 0, translation, Seq::empty()).1,
        ),
    ensures
        lines_on_pages(
            lines,
            start.request.available_block_size.0 as int,
            start.with_lines(child_index, lines, 0, translation, Seq::empty()).1,
            paragraph_origins(start, child_index, lines, translation),
        ),
        start.origin.0 <= paragraph_origins(start, child_index, lines, translation)[0].0,
{
    let none = Seq::<Au>::empty();
    let moved = start.with_lines(child_index, lines, 0, translation, none).1;
    let origins = paragraph_origins(start, child_index, lines, translation);
    let available = start.request.available_block_size.0 as int;
    lemma_with_lines_keeps(start, child_index, lines, 0, translation, none);
    assert forall|i: int| 1 <= i < lines.len() implies line_follows(
        #[trigger] lines[i],
        available,
        origins[i - 1].0 as int,
        moved[i - 1].0 as int,
        origins[i].0 as int,
        moved[i].0 as int,
    ) by {
        lemma_moved(start, child_index, lines, 0, translation, none, i);
        lemma_moved(start, child_index, lines, 0, translation, none, i - 1);
        assert(moved[i].0 < MAX_AU);
        lemma_line_follows(start, child_index, lines, 0, translation, i);
    }
    lemma_moved(start, child_index, lines, 0, translation, none, 0);
    assert(moved[0].0 < MAX_AU);
    assert(lines[0].block_size.0 > 0);
    lemma_line_follows(start, child_index, lines, 0, translation, 0);
    lemma_first_line_moved(start, child_index, lines, translation);
}

proof fn lemma_line_breaks_recorded(
    start: BuilderView,
    child_index: usize,
    lines: Seq<InlineLine>,
    translation: Au,
)
    requires
        start.wf(),
        lines_in_range(lines),
        0 <= translation.0 <= MAX_AU,
    ensures
        line_breaks_recorded(
            start.with_lines(
                child_index,
                lines,
                0,
                translation,
                Seq::empty(),
            ).0.outcome.continuations,
            start.outcome.continuations.len() as int,
            child_index,
            lines,
            paragraph_origins(start, child_index, lines, translation),
        ),
{
    let none = Seq::<Au>::empty();
    let added = start.with_lines(child_index, lines, 0, translation, none).0.outcome.continuations;
    let origins = paragraph_origins(start, child_index, lines, translation);
    let from = start.outcome.continuations.len() as int;
    assert forall|i: int|
        1 <= i < lines.len() && origins[i] != origins[i - 1] implies #[trigger] has_continuation(
        added,
        from,
        child_index,
        lines,
        i,
    ) by {
        let k = lemma_line_continued(start, child_index, lines, 0, translation, none, i);
        assert(continues_at_line(added[k], child_index, lines, i));
    }
    assert forall|k: int| from <= k < added.len() implies continues_paragraph(
        #[trigger] added[k],
        child_index,
        lines,
    ) by {
        let i = lemma_continued_at_a_line(start, child_index, lines, 0, translation, none, k);
        assert(continues_at_line(added[k], child_index, lines, i));
    }
}

/// Every line of a paragraph is placed within the space of a page, the origins of which are given.
/// It stands below the line above it where it fits there, and else starts a later page, for which
/// there is a continuation at that line. There is at most one other continuation, before the
/// paragraph. The last line stands on the page that is current then.
pub proof fn law_lines_fill_page_after_page(
    before: BuilderView,
    child_index: usize,
    node: Option<u64>,
    position: Au,
    lines: Seq<InlineLine>,
    breaks: ChildPageBreaks,
) -> (origins: Seq<Au>)
    requires
        before.wf(),
        position.in_range(),
        lines_in_range(lines),
        lines_supported(before.request.available_block_size, lines),
        lines_unsaturated(
            lines,
            before.with_paragraph(child_index, node, position, lines, breaks).1,
        ),
    ensures
        lines_on_pages(
            lines,
            before.request.available_block_size.0 as int,
            before.with_paragraph(child_index, node, position, lines, breaks).1,
            origins,
        ),
        ({
            let after = before.with_paragraph(child_index, node, position, lines, breaks).0;
            let old_count = before.outcome.continuations.len() as int;
            &&& before.origin.0 <= origins[0].0
            &&& after.origin == origins.last()
            &&& after.has_content
            &&& after.request == before.request
            &&& after.next_child == before.next_child + 1
            &&& after.previous_break_after == breaks.after
            &&& before.outcome.continuations.is_prefix_of(after.outcome.continuations)
            &&& line_breaks_recorded(
                after.outcome.continuations,
                old_count,
                child_index,
                lines,
                origins,
            ) || (after.outcome.continuations[old_count].token is Block && line_breaks_recorded(
                after.outcome.continuations,
                old_count + 1,
                child_index,
                lines,
                origins,
            ))
        }),
{
    let (start, translation) = before.at_paragraph(child_index, node, position, lines, breaks);
    lemma_placeable(before.request.available_block_size, lines);
    lemma_at_paragraph(before, child_index, node, position, lines, breaks);
    lemma_lines_on_pages(start, child_index, lines, translation);
    lemma_line_breaks_recorded(start, child_index, lines, translation);
    lemma_lines_end(start, child_index, lines, 0, translation, Seq::empty());
    lemma_one_block_continuation(before, child_index, node, position, lines, breaks);
    let old = before.outcome.continuations;
    let mid = start.outcome.continuations;
    let after = before.with_paragraph(child_index, node, position, lines, breaks).0;
    let added = after.outcome.continuations;
    assert(mid =~= added.take(mid.len() as int));
    assert(old =~= mid.take(old.len() as int));
    assert(added.take(mid.len() as int).take(old.len() as int) =~= added.take(old.len() as int));
    if mid.len() > old.len() {
        assert(added[old.len() as int] == added.take(mid.len() as int)[old.len() as int]);
    }
    paragraph_origins(start, child_index, lines, translation)
}

proof fn lemma_one_block_continuation(
    before: BuilderView,
    child_index: usize,
    node: Option<u64>,
    position: Au,
    lines: Seq<InlineLine>,
    breaks: ChildPageBreaks,
)
    ensures
        ({
            let start = before.at_paragraph(child_index, node, position, lines, breaks).0;
            let old = before.outcome.continuations;
            let mid = start.outcome.continuations;
            mid.len() == old.len() || (mid.len() == old.len() + 1 && mid[old.len() as int].token
                is Block)
        }),
{
}

proof fn lemma_first_line_moved(
    start: BuilderView,
    child_index: usize,
    lines: Seq<InlineLine>,
    translation: Au,
)
    requires
        start.wf(),
        lines_in_range(lines),
        lines.len() > 0,
        0 <= translation.0 <= MAX_AU,
    ensures
        translation.0 <= line_moved(start, child_index, lines, 0, translation, 0).0,
        start.origin.0 <= line_origin(start, child_index, lines, 0, translation, 0).0,
{
    assert(lines[0].block_start.in_range() && lines[0].block_size.in_range());
    let (next, t) = start.with_line(child_index, 0, lines[0], translation);
    law_next_page_is_the_first_that_reaches(start, Au(0), lines[0].block_start.plus(translation));
    assert(line_moved(next, child_index, lines, 1, t, 0) == t);
    assert(line_origin(next, child_index, lines, 1, t, 0) == next.origin);
}

/// The lines from `index` on, all of which fit the rest of the page, stay on it.
proof fn lemma_lines_that_fit(
    before: BuilderView,
    child_index: usize,
    lines: Seq<InlineLine>,
    index: int,
    translation: Au,
    placed: Seq<Au>,
)
    requires
        before.wf(),
        lines_in_range(lines),
        0 <= index <= lines.len(),
        placed.len() == index,
        0 <= translation.0 <= MAX_AU,
        forall|i: int| 0 <= i < index ==> #[trigger] placed[i] == translation,
        forall|i: int|
            index <= i < lines.len() ==> (#[trigger] lines[i]).block_start.0 + translation.0
                + lines[i].block_size.0 <= before.origin.0
                + before.request.available_block_size.0 && lines[i].block_start.0 + translation.0
                + lines[i].block_size.0 <= MAX_AU && 0 <= lines[i].block_size.0,
    ensures
        ({
            let (after, moved) = before.with_lines(child_index, lines, index, translation, placed);
            &&& moved.len() == lines.len()
            &&& forall|i: int| 0 <= i < lines.len() ==> #[trigger] moved[i] == translation
            &&& after.page == before.page
            &&& after.origin == before.origin
            &&& after.outcome.continuations == before.outcome.continuations
            &&& after.outcome.warnings == before.outcome.warnings
        }),
    decreases lines.len() - index,
{
    if index < lines.len() {
        let line = lines[index];
        assert(line.block_start.in_range() && line.block_size.in_range());
        let (next, t) = before.with_line(child_index, index, line, translation);
        assert(t == translation && next.page == before.page);
        lemma_lines_that_fit(next, child_index, lines, index + 1, t, placed.push(t));
    }
}

/// A paragraph that asks not to be divided, and that the space of a page can hold, is not divided
/// where something stands on the page or the paragraph fits the rest of it: its lines are moved
/// equally far, within the space of one page, and no continuation at a line is recorded. It stays
/// where it is if it fits there and no break is demanded, and else moves whole to a new page.
pub proof fn law_paragraph_that_avoids_breaks_stays_whole(
    before: BuilderView,
    child_index: usize,
    node: Option<u64>,
    position: Au,
    lines: Seq<InlineLine>,
    breaks: ChildPageBreaks,
)
    requires
        before.wf(),
        0 <= before.origin.0 <= position.0 <= MAX_AU,
        lines_in_range(lines),
        lines_supported(before.request.available_block_size, lines),
        breaks.inside_avoid,
        forall|i: int|
            0 <= i < lines.len() ==> position.0 <= (#[trigger] lines[i]).block_start.0
                && lines[i].block_start.0 + lines[i].block_size.0 <= lines.last().block_start.0
                + lines.last().block_size.0,
        lines.last().block_start.0 + lines.last().block_size.0 - position.0
            <= before.request.available_block_size.0,
        before.has_content || lines.last().block_start.0 + lines.last().block_size.0
            <= before.origin.0 + before.request.available_block_size.0,
        lines_unsaturated(
            lines,
            before.with_paragraph(child_index, node, position, lines, breaks).1,
        ),
    ensures
        ({
            let (after, moved) = before.with_paragraph(child_index, node, position, lines, breaks);
            let end = lines.last().block_start.0 + lines.last().block_size.0;
            let demanded = before.has_content && (before.previous_break_after || breaks.before);
            let fits = end <= before.origin.0 + before.request.available_block_size.0;
            let old_count = before.outcome.continuations.len() as int;
            &&& moved.len() == lines.len()
            &&& forall|i: int| 0 <= i < lines.len() ==> #[trigger] moved[i] == moved[0]
            &&& end + moved[0].0 <= after.origin.0 + before.request.available_block_size.0
            &&& after.outcome.warnings == before.outcome.warnings
            &&& if !demanded && fits {
                &&& moved[0].0 == 0
                &&& after.page == before.page
                &&& after.origin == before.origin
                &&& after.outcome.continuations == before.outcome.continuations
            } else {
                &&& after.page > before.page
                &&& position.0 + moved[0].0 == after.origin.0
                &&& after.outcome.continuations.len() == old_count + 1
                &&& before.outcome.continuations == after.outcome.continuations.take(old_count)
                &&& after.outcome.continuations[old_count].page_index == before.page as usize
                &&& after.outcome.continuations[old_count].token matches
                    FragmentainerContinuation::Block(token) && {
                    &&& token.next_child_index == child_index
                    &&& token.next_node == node
                    &&& token.forced == demanded
                    &&& token.break_inside_avoid == !demanded
                    &&& token.retry_count == if demanded {
                        0u8
                    } else {
                        1u8
                    }
                    &&& token.resume_page_index == after.page as usize
                }
            }
        }),
{
    let (start, translation) = before.at_paragraph(child_index, node, position, lines, breaks);
    lemma_at_paragraph(before, child_index, node, position, lines, breaks);
    law_next_page_is_the_first_that_reaches(before, Au(0), position);
    let last = lines.last();
    assert(lines[lines.len() - 1].block_start.in_range() && last.block_size.in_range());
    let (after, moved) = before.with_paragraph(child_index, node, position, lines, breaks);
    lemma_with_lines_keeps(start, child_index, lines, 0, translation, Seq::empty());
    assert(lines[0].placeable(before.request.available_block_size));
    assert(lines[0].block_start.in_range() && lines[0].block_size.in_range());
    let (next, t) = start.with_line(child_index, 0, lines[0], translation);
    law_next_page_is_the_first_that_reaches(start, Au(0), lines[0].block_start.plus(translation));
    lemma_with_lines_keeps(next, child_index, lines, 1, t, Seq::<Au>::empty().push(t));
    assert(moved[0] == Seq::<Au>::empty().push(t)[0]);
    assert(translation.0 <= t.0 < MAX_AU);
    let last_index = lines.len() - 1;
    crate::pages::laws::law_lines_keep_their_order(
        start,
        child_index,
        lines,
        translation,
        0,
        last_index,
    );
    assert(moved[last_index].0 >= translation.0);
    assert(last.block_start.0 + moved[last_index].0 + last.block_size.0 < MAX_AU);
    assert(last.block_start.0 + translation.0 + last.block_size.0 < MAX_AU);
    assert forall|i: int| 0 <= i < lines.len() implies (#[trigger] lines[i]).block_start.0
        + translation.0 + lines[i].block_size.0 <= start.origin.0
        + start.request.available_block_size.0 && lines[i].block_start.0 + translation.0
        + lines[i].block_size.0 <= MAX_AU && 0 <= lines[i].block_size.0 by {
        assert(lines[i].placeable(before.request.available_block_size));
    }
    lemma_lines_that_fit(start, child_index, lines, 0, translation, Seq::empty());
    assert(before.outcome.continuations =~= start.outcome.continuations.take(
        before.outcome.continuations.len() as int,
    ));
}

/// A break that is demanded before a paragraph, or was behind what stands above it, is taken where
/// something stands on the page, and only there; the paragraph then starts at the top of the first
/// page that begins at or below its place. A paragraph that asks not to be divided, and that no page
/// can hold, leaves one warning; no other does.
pub proof fn law_demanded_break_is_taken_before_a_paragraph(
    before: BuilderView,
    child_index: usize,
    node: Option<u64>,
    position: Au,
    lines: Seq<InlineLine>,
    breaks: ChildPageBreaks,
)
    requires
        before.wf(),
        position.in_range(),
        lines_in_range(lines),
        lines.len() > 0,
        position.0 <= lines.last().block_start.0,
        0 <= lines.last().block_size.0,
        lines.last().block_start.0 + lines.last().block_size.0 - position.0 <= MAX_AU,
        lines.last().block_start.0 + lines.last().block_size.0 <= MAX_AU,
    ensures
        ({
            let (start, translation) = before.at_paragraph(
                child_index,
                node,
                position,
                lines,
                breaks,
            );
            let available = before.request.available_block_size;
            let size = lines.last().block_start.0 + lines.last().block_size.0 - position.0;
            let demanded = before.has_content && (before.previous_break_after || breaks.before);
            let old = before.outcome.continuations;
            &&& demanded ==> {
                &&& start.page > before.page
                &&& start.origin.0 - position.0 <= MAX_AU ==> translation.0 == start.origin.0
                    - position.0
                &&& position.0 <= start.origin.0
                &&& start.origin.0 < MAX_AU && start.page > before.page + 1 ==> start.origin.0
                    - before.request.page_stride.0 < position.0
                &&& start.outcome.continuations.len() == old.len() + 1
                &&& start.outcome.continuations.last().token matches
                    FragmentainerContinuation::Block(token) && token.forced
                    && token.next_child_index == child_index && token.resume_page_index
                    == start.page as usize
            }
            &&& !demanded && !breaks.inside_avoid ==> {
                &&& start.page == before.page
                &&& start.origin == before.origin
                &&& translation.0 == 0
                &&& start.outcome.continuations == old
            }
            &&& start.outcome.warnings == if breaks.inside_avoid && size > available.0 {
                before.outcome.warnings.push(
                    BlockPaginationWarning::OversizedBreakInsideAvoid {
                        child_index,
                        node,
                        block_size: Au(size as i32),
                        available_block_size: available,
                        retry_count: 0,
                    },
                )
            } else {
                before.outcome.warnings
            }
        }),
{
    law_next_page_is_the_first_that_reaches(before, Au(0), position);
    assert(lines[lines.len() - 1].block_start.in_range());
}

/// Lines are placed one by one only where there are two or more, each of which a page can hold and
/// stands for text. They never go up, and they stand for later text and resume at a later point than
/// all lines above them.
pub proof fn law_placed_lines_read_on(available: Au, lines: Seq<InlineLine>, i: int, j: int)
    requires
        lines_supported(available, lines),
        0 <= i < j < lines.len(),
    ensures
        lines.len() >= 2,
        0 < lines[j].block_size.0 <= available.0,
        lines[j].source_start < lines[j].source_end,
        lines[j].resume.text_offset == lines[j].source_start,
        lines[i].block_start.0 <= lines[j].block_start.0,
        lines[i].source_end <= lines[j].source_start,
        lines[i].resume.inline_item_index < lines[j].resume.inline_item_index || (
        lines[i].resume.inline_item_index == lines[j].resume.inline_item_index && (
        lines[i].resume.shaping_result_index < lines[j].resume.shaping_result_index || (
        lines[i].resume.shaping_result_index == lines[j].resume.shaping_result_index
            && lines[i].resume.text_offset < lines[j].resume.text_offset))),
    decreases j - i,
{
    assert(lines[j].placeable(available));
    assert(lines[j].continues(lines[j - 1]));
    if i + 1 < j {
        law_placed_lines_read_on(available, lines, i, j - 1);
    }
}

/// Two or more lines that a page can hold each, that stand for text and resume at its start, and that
/// read on from line to line, are placed one by one.
pub proof fn law_lines_that_read_on_are_placed(available: Au, lines: Seq<InlineLine>)
    requires
        lines.len() >= 2,
        forall|i: int|
            0 <= i < lines.len() ==> 0 < (#[trigger] lines[i]).block_size.0 <= available.0
                && lines[i].source_start < lines[i].source_end && lines[i].resume.text_offset
                == lines[i].source_start,
        forall|i: int, j: int|
            0 <= i < j < lines.len() ==> (#[trigger] lines[i]).block_start.0 <= (#[trigger]
            lines[j]).block_start.0 && lines[i].source_end <= lines[j].source_start && (
            lines[i].resume.inline_item_index < lines[j].resume.inline_item_index || (
            lines[i].resume.inline_item_index == lines[j].resume.inline_item_index
                && lines[i].resume.shaping_result_index <= lines[j].resume.shaping_result_index)),
    ensures
        lines_supported(available, lines),
{
    assert forall|i: int| 0 <= i < lines.len() implies (#[trigger] lines[i]).placeable(
        available,
    ) by {
        assert(0 < lines[i].block_size.0);
    }
    assert forall|i: int| 1 <= i < lines.len() implies (#[trigger] lines[i]).continues(
        lines[i - 1],
    ) by {
        assert(lines[i - 1].block_start.0 <= lines[i].block_start.0);
        assert(lines[i - 1].source_start < lines[i - 1].source_end);
        assert(lines[i].resume.text_offset == lines[i].source_start);
    }
}

/// The pages that are counted reach as far as a line does, where it stands in the end.
pub proof fn law_pages_reach_as_far_as_a_line(
    before: BuilderView,
    child_index: usize,
    index: int,
    line: InlineLine,
    translation: Au,
)
    requires
        before.wf(),
        line.block_start.in_range(),
        0 < line.block_size.0 <= MAX_AU,
        0 <= translation.0 <= MAX_AU,
        -MAX_AU < line.block_start.0 + translation.0,
        (before.with_line(child_index, index, line, translation).1).0 < MAX_AU,
        line.block_start.0 + (before.with_line(child_index, index, line, translation).1).0
            + line.block_size.0 < MAX_AU,
    ensures
        ({
            let (after, moved) = before.with_line(child_index, index, line, translation);
            line.block_start.0 + moved.0 + line.block_size.0 <= after.origin.0 + (
            after.outcome.page_count - after.page) * before.request.page_stride.0
        }),
{
    let (after, moved) = before.with_line(child_index, index, line, translation);
    let stride = before.request.page_stride;
    let start = line.block_start.plus(translation);
    law_next_page_is_the_first_that_reaches(before, Au(0), start);
    lemma_page_reaching_bounds(before.page + 1, before.origin.plus(stride), stride, Au(0), start);
    let end = line.block_start.plus(moved).plus(line.block_size);
    law_pages_are_counted_as_far_as_content_reaches(after, end);
}

} // verus!
