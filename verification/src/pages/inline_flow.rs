//! Placing the retained lines of a paragraph, and breaking between lines.
use crate::au::Au;
use crate::pages::flow::{
    find_page_reaching, BlockPageBuilder, BuilderView, ChildPageBreaks, FragmentainerContinuation,
    InlineContinuationToken, PageContinuation,
};
use vstd::prelude::*;

verus! {

/// Where shaping resumes at the start of a line.
#[derive(Clone, Copy, Debug, PartialEq, Eq, Structural)]
pub struct InlineResumePoint {
    pub inline_item_index: usize,
    pub text_offset: usize,
    pub shaping_result_index: usize,
}

/// A shaped line, at its place in the root before pagination.
#[derive(Clone, Copy, Debug, PartialEq, Eq, Structural)]
pub struct InlineLine {
    pub block_start: Au,
    pub block_size: Au,
    pub source_start: usize,
    pub source_end: usize,
    pub resume: InlineResumePoint,
}

/// How far each line of a paragraph is moved, and how much longer the paragraph gets.
#[derive(Debug, PartialEq, Eq)]
pub struct InlineChildPlacement {
    pub line_translations: Vec<Au>,
    pub added_block_size: Au,
}

/// The lengths of a line are app-unit lengths.
pub open spec fn lines_in_range(lines: Seq<InlineLine>) -> bool {
    forall|i: int|
        0 <= i < lines.len() ==> (#[trigger] lines[i]).block_start.in_range()
            && lines[i].block_size.in_range()
}

impl InlineResumePoint {
    /// This point comes strictly after another: by item, then shaping result, then text offset.
    pub open spec fn spec_follows(self, earlier: InlineResumePoint) -> bool {
        ||| self.inline_item_index > earlier.inline_item_index
        ||| self.inline_item_index == earlier.inline_item_index && self.shaping_result_index
            > earlier.shaping_result_index
        ||| self.inline_item_index == earlier.inline_item_index && self.shaping_result_index
            == earlier.shaping_result_index && self.text_offset > earlier.text_offset
    }

    #[verifier::when_used_as_spec(spec_follows)]
    pub fn follows(self, earlier: InlineResumePoint) -> (later: bool)
        ensures
            later == self.spec_follows(earlier),
    {
        if self.inline_item_index != earlier.inline_item_index {
            return self.inline_item_index > earlier.inline_item_index;
        }
        if self.shaping_result_index != earlier.shaping_result_index {
            return self.shaping_result_index > earlier.shaping_result_index;
        }
        self.text_offset > earlier.text_offset
    }
}

impl InlineLine {
    /// The line has a size that a page can hold, source text, and resumes at its own start.
    pub open spec fn placeable(self, available: Au) -> bool {
        &&& 0 < self.block_size.0 <= available.0
        &&& self.source_start < self.source_end
        &&& self.resume.text_offset == self.source_start
    }

    /// The line comes after another: not above it, with later source and a later resume point.
    pub open spec fn continues(self, previous: InlineLine) -> bool {
        &&& self.block_start.0 >= previous.block_start.0
        &&& self.source_start >= previous.source_end
        &&& self.resume.follows(previous.resume)
    }
}

/// Two or more lines, each placeable, each continuing the one before it.
pub open spec fn lines_supported(available: Au, lines: Seq<InlineLine>) -> bool {
    &&& lines.len() >= 2
    &&& forall|i: int| 0 <= i < lines.len() ==> (#[trigger] lines[i]).placeable(available)
    &&& forall|i: int| 1 <= i < lines.len() ==> (#[trigger] lines[i]).continues(lines[i - 1])
}

impl BuilderView {
    /// Line `index`, moved by `translation`, passes the end of the current page.
    pub open spec fn line_overflows(self, line: InlineLine, translation: Au) -> bool {
        line.block_start.plus(translation).plus(line.block_size).0 > self.page_end().0
    }

    /// One line is placed: on this page, or on the next page that starts at or after it. Gives the
    /// new state and the line's translation.
    pub open spec fn with_line(
        self,
        child_index: usize,
        index: int,
        line: InlineLine,
        translation: Au,
    ) -> (BuilderView, Au) {
        let start = line.block_start.plus(translation);
        if self.line_overflows(line, translation) {
            let (page, origin) = self.next_page(Au(0), start);
            (
                self.at_page(page, origin).with_outcome(
                    self.outcome.with_continuation(
                        PageContinuation {
                            page_index: self.page as usize,
                            token: FragmentainerContinuation::Inline(
                                InlineContinuationToken {
                                    child_index,
                                    next_line_index: index as usize,
                                    inline_item_index: line.resume.inline_item_index,
                                    text_offset: line.resume.text_offset,
                                    shaping_result_index: line.resume.shaping_result_index,
                                    resume_page_index: page as usize,
                                },
                            ),
                        },
                    ),
                ).filled_through(origin.plus(line.block_size)),
                translation.plus(origin.minus(start)),
            )
        } else {
            (self.filled_through(start.plus(line.block_size)), translation)
        }
    }

    /// The lines from `index` on are placed in order; `placed` holds the translations so far.
    pub open spec fn with_lines(
        self,
        child_index: usize,
        lines: Seq<InlineLine>,
        index: int,
        translation: Au,
        placed: Seq<Au>,
    ) -> (BuilderView, Seq<Au>)
        decreases lines.len() - index,
    {
        if index >= lines.len() {
            (self, placed)
        } else {
            let (next, moved) = self.with_line(child_index, index, lines[index], translation);
            next.with_lines(child_index, lines, index + 1, moved, placed.push(moved))
        }
    }

    /// The block size of a paragraph that is not divided.
    pub open spec fn paragraph_size(self, lines: Seq<InlineLine>, position: Au) -> Au {
        lines.last().block_start.plus(lines.last().block_size).minus(position).at_least(Au(0))
    }

    /// A paragraph before its first line is placed, with the first translation: after the forced
    /// break before it, and on a new page if it asks not to be divided and only a new page can hold
    /// it.
    pub open spec fn at_paragraph(
        self,
        child_index: usize,
        node: Option<u64>,
        position: Au,
        lines: Seq<InlineLine>,
        breaks: ChildPageBreaks,
    ) -> (BuilderView, Au) {
        let forced = self.counted().after_forced_break(child_index, node, position, breaks);
        let due = self.forced_break_due(breaks);
        let translation = if due {
            forced.origin.minus(position)
        } else {
            Au(0)
        };
        let size = self.paragraph_size(lines, position);
        if breaks.inside_avoid && size.0 > self.request.available_block_size.0 {
            (forced.with_size_warning(child_index, node, size, true), translation)
        } else if breaks.inside_avoid && !due && size.0 > self.remaining(position).0
            && self.has_content {
            let moved = forced.child_on_next_page(child_index, node, position, false, true, 1);
            (moved, moved.origin.minus(position))
        } else {
            (forced, translation)
        }
    }

    /// A paragraph is placed line by line. Gives the new state and the translation of each line.
    pub open spec fn with_paragraph(
        self,
        child_index: usize,
        node: Option<u64>,
        position: Au,
        lines: Seq<InlineLine>,
        breaks: ChildPageBreaks,
    ) -> (BuilderView, Seq<Au>) {
        let (start, translation) = self.at_paragraph(child_index, node, position, lines, breaks);
        start.with_lines(child_index, lines, 0, translation, Seq::empty())
    }
}

impl BlockPageBuilder {
    /// Whether the lines of a paragraph can be placed one by one.
    pub fn supports_inline_lines(&self, lines: &[InlineLine]) -> (supported: bool)
        ensures
            supported == lines_supported(self@.request.available_block_size, lines@),
    {
        if lines.len() < 2 {
            return false;
        }
        let available = self.request.available_block_size;
        let mut index: usize = 0;
        while index < lines.len()
            invariant
                available == self@.request.available_block_size,
                2 <= lines.len(),
                index <= lines.len(),
                forall|i: int| 0 <= i < index ==> (#[trigger] lines@[i]).placeable(available),
                forall|i: int| 1 <= i < index ==> (#[trigger] lines@[i]).continues(lines@[i - 1]),
            decreases lines.len() - index,
        {
            let line = lines[index];
            if line.block_size.0 <= 0 || line.block_size.0 > available.0 || line.source_start
                >= line.source_end || line.resume.text_offset != line.source_start {
                assert(!lines@[index as int].placeable(available));
                return false;
            }
            if index > 0 {
                let previous = lines[index - 1];
                if line.block_start.0 < previous.block_start.0 || line.source_start
                    < previous.source_end || !line.resume.follows(previous.resume) {
                    assert(!lines@[index as int].continues(lines@[index - 1]));
                    return false;
                }
            }
            index = index + 1;
        }
        true
    }

    /// Places already-shaped lines without shaping them again. There is one translation for each
    /// line, so no line is lost or placed twice.
    pub fn place_inline_child(
        &mut self,
        child_index: usize,
        node: Option<u64>,
        current_block_position: Au,
        lines: &[InlineLine],
        breaks: ChildPageBreaks,
    ) -> (placement: Option<InlineChildPlacement>)
        requires
            old(self)@.wf(),
            child_index == old(self)@.next_child,
            child_index < usize::MAX,
            current_block_position.in_range(),
            lines_in_range(lines@),
            old(self)@.page_bound() + lines@.len() + 1 < usize::MAX,
        ensures
            placement is Some <==> lines_supported(
                old(self)@.request.available_block_size,
                lines@,
            ),
            placement is None ==> final(self)@ == old(self)@,
            placement matches Some(placed) ==> {
                &&& (final(self)@, placed.line_translations@) == old(self)@.with_paragraph(
                    child_index,
                    node,
                    current_block_position,
                    lines@,
                    breaks,
                )
                &&& placed.line_translations@.len() == lines@.len()
                &&& placed.added_block_size == placed.line_translations@.last()
            },
            final(self)@.wf(),
            old(self)@.orderly() ==> final(self)@.orderly(),
            final(self)@.page_bound() <= old(self)@.page_bound() + lines@.len() + 1,
    {
        if !self.supports_inline_lines(lines) {
            return None;
        }
        self.next_child_index = self.next_child_index + 1;
        let forced_origin = self.forced_break_before(
            child_index,
            node,
            current_block_position,
            breaks,
        );
        let last_line = lines[lines.len() - 1];
        let fresh_block_size = last_line.block_start.plus(last_line.block_size).minus(
            current_block_position,
        ).at_least(Au::zero());
        let mut translation = match forced_origin {
            Some(block_origin) => block_origin.minus(current_block_position),
            None => Au::zero(),
        };
        if breaks.inside_avoid && fresh_block_size.0 > self.request.available_block_size.0 {
            self.warn_if_oversized(child_index, node, fresh_block_size, true);
        } else if breaks.inside_avoid && forced_origin.is_none() {
            let used = current_block_position.minus(self.current_page_origin).at_least(Au::zero());
            let remaining = self.request.available_block_size.minus(used).at_least(Au::zero());
            if fresh_block_size.0 > remaining.0 && self.page_has_content {
                let block_origin = self.move_child_to_next_page(
                    child_index,
                    node,
                    current_block_position,
                    false,
                    true,
                    1,
                );
                translation = block_origin.minus(current_block_position);
            }
        }
        let ghost start = self@;
        let ghost first_translation = translation;
        assert((start, first_translation) == old(self)@.at_paragraph(
            child_index,
            node,
            current_block_position,
            lines@,
            breaks,
        ));
        let mut line_translations: Vec<Au> = Vec::new();
        let mut index: usize = 0;
        while index < lines.len()
            invariant
                index <= lines.len(),
                line_translations@.len() == index,
                lines_in_range(lines@),
                translation.in_range(),
                index > 0 ==> translation == line_translations@.last(),
                self@.wf(),
                start.orderly() ==> self@.orderly(),
                start.page_bound() + lines@.len() < usize::MAX,
                self@.page_bound() <= start.page_bound() + index,
                self@.with_lines(
                    child_index,
                    lines@,
                    index as int,
                    translation,
                    line_translations@,
                ) == start.with_lines(child_index, lines@, 0, first_translation, Seq::empty()),
            decreases lines.len() - index,
        {
            let ghost before = self@;
            let line = lines[index];
            assert(lines@[index as int].block_start.in_range());
            let mut block_start = line.block_start.plus(translation);
            let page_end = self.current_page_origin.plus(self.request.available_block_size);
            if block_start.plus(line.block_size).0 > page_end.0 {
                let previous_page_index: usize = self.current_page_index;
                let (resume_page_index, resume_page_origin) = find_page_reaching(
                    self.current_page_index + 1,
                    self.current_page_origin.plus(self.request.page_stride),
                    self.request.page_stride,
                    Au::zero(),
                    block_start,
                );
                translation = translation.plus(resume_page_origin.minus(block_start));
                block_start = resume_page_origin;
                self.current_page_index = resume_page_index;
                self.current_page_origin = resume_page_origin;
                self.outcome.continuations.push(
                    PageContinuation {
                        page_index: previous_page_index,
                        token: FragmentainerContinuation::Inline(
                            InlineContinuationToken {
                                child_index,
                                next_line_index: index,
                                inline_item_index: line.resume.inline_item_index,
                                text_offset: line.resume.text_offset,
                                shaping_result_index: line.resume.shaping_result_index,
                                resume_page_index,
                            },
                        ),
                    },
                );
            }
            line_translations.push(translation);
            self.fill_through(block_start.plus(line.block_size));
            index = index + 1;
        }
        let added_block_size = line_translations[line_translations.len() - 1];
        Some(InlineChildPlacement { line_translations, added_block_size })
    }
}

} // verus!
