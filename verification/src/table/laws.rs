//! What holds of collapsed borders, border by border.
use crate::table::borders::{
    first_line, lemma_first_line, line_invisible, line_is_rule, line_looks_like, others_look_like,
    BorderStyle, CollapsedBorder, SpecificTableGridInfo, SrgbColor,
};
use vstd::prelude::*;

verus! {

/// The bits are those of the same number: equal bits of a number, or two zeros.
pub open spec fn same_number(left: u32, right: u32) -> bool {
    &&& left % 0x8000_0000 <= 0x7f80_0000
    &&& left == right || (left % 0x8000_0000 == 0 && right % 0x8000_0000 == 0)
}

/// The same color, number by number.
pub open spec fn same_color(left: SrgbColor, right: SrgbColor) -> bool {
    &&& same_number(left.red, right.red)
    &&& same_number(left.green, right.green)
    &&& same_number(left.blue, right.blue)
    &&& same_number(left.alpha, right.alpha)
    &&& left.missing_components == right.missing_components
}

/// The same width, style and color.
pub open spec fn alike(left: CollapsedBorder, right: CollapsedBorder) -> bool {
    &&& left.width.0 == right.width.0
    &&& left.style_color.style == right.style_color.style
    &&& same_color(left.style_color.color, right.style_color.color)
}

/// A solid border with a width and a color that is not transparent.
pub open spec fn solid_and_visible(border: CollapsedBorder) -> bool {
    &&& border.width.0 > 0
    &&& border.style_color.style == BorderStyle::Solid
    &&& 0 < border.style_color.color.alpha <= 0x7f80_0000
}

/// A border without width, without style, hidden or transparent.
pub open spec fn not_visible(border: CollapsedBorder) -> bool {
    ||| border.width.0 == 0
    ||| border.width.0 > 0 && {
        ||| border.style_color.style == BorderStyle::Absent
        ||| border.style_color.style == BorderStyle::Hidden
        ||| border.style_color.color.alpha == 0
        ||| 0x8000_0000 <= border.style_color.color.alpha <= 0xff80_0000
    }
}

/// The vertical or the horizontal lines.
pub open spec fn lines(info: SpecificTableGridInfo, vertical: bool) -> Seq<Vec<CollapsedBorder>> {
    if vertical {
        info.collapsed_borders.x@
    } else {
        info.collapsed_borders.y@
    }
}

/// There is a border at a place of a line.
pub open spec fn has_border(info: SpecificTableGridInfo, vertical: bool, i: int, j: int) -> bool {
    0 <= i < lines(info, vertical).len() && 0 <= j < lines(info, vertical)[i]@.len()
}

/// The border at a place of a line.
pub open spec fn border_at(
    info: SpecificTableGridInfo,
    vertical: bool,
    i: int,
    j: int,
) -> CollapsedBorder {
    lines(info, vertical)[i]@[j]
}

/// The first border of the grid is the first of this line: no line before it has a border, and
/// vertical lines come before horizontal ones.
pub open spec fn leads(info: SpecificTableGridInfo, vertical: bool, line: int) -> bool {
    &&& has_border(info, vertical, line, 0)
    &&& forall|i: int, j: int| i < line ==> !#[trigger] has_border(info, vertical, i, j)
    &&& !vertical ==> forall|i: int, j: int| !#[trigger] has_border(info, true, i, j)
}

proof fn lemma_looks(left: CollapsedBorder, right: CollapsedBorder)
    ensures
        left.looks_like(&right) == alike(left, right),
        left.is_solid_visible() == solid_and_visible(left),
        left.is_invisible() == not_visible(left),
{
}

proof fn lemma_leader(info: SpecificTableGridInfo, vertical: bool, line: int)
    requires
        leads(info, vertical, line),
    ensures
        info.first() == Some(border_at(info, vertical, line, 0)),
        vertical ==> first_line(info.collapsed_borders.x@, 0) == Some(line),
        !vertical ==> first_line(info.collapsed_borders.x@, 0) is None && first_line(
            info.collapsed_borders.y@,
            0,
        ) == Some(line),
{
    lemma_first_line(info.collapsed_borders.x@, 0);
    lemma_first_line(info.collapsed_borders.y@, 0);
    assert(has_border(info, vertical, line, 0));
    if vertical {
        lemma_first_line_is(info.collapsed_borders.x@, 0, line);
        assert forall|i: int| 0 <= i < line implies (#[trigger] info.collapsed_borders.x@[i])@.len()
            == 0 by {
            assert(!has_border(info, true, i, 0));
        }
        lemma_first_line_is(info.collapsed_borders.x@, 0, line);
    } else {
        if let Some(found) = first_line(info.collapsed_borders.x@, 0) {
            assert(has_border(info, true, found, 0));
        }
        assert forall|i: int| 0 <= i < line implies (#[trigger] info.collapsed_borders.y@[i])@.len()
            == 0 by {
            assert(!has_border(info, false, i, 0));
        }
        lemma_first_line_is(info.collapsed_borders.y@, 0, line);
    }
}

proof fn lemma_first_line_is(lines: Seq<Vec<CollapsedBorder>>, index: int, line: int)
    requires
        0 <= index <= line < lines.len(),
        lines[line]@.len() > 0,
    ensures
        (forall|i: int| 0 <= i < line ==> (#[trigger] lines[i])@.len() == 0) ==> first_line(
            lines,
            index,
        ) == Some(line),
    decreases line - index,
{
    if index < line {
        lemma_first_line_is(lines, index + 1, line);
    }
}

/// One border is given for a grid exactly where its first border is solid and visible and every
/// other border, of vertical and of horizontal lines, has the same width, style and color; it is
/// the first border then.
pub proof fn law_uniform_border_serves_for_every_border(
    info: SpecificTableGridInfo,
    vertical: bool,
    line: int,
)
    requires
        leads(info, vertical, line),
    ensures
        ({
            let first = border_at(info, vertical, line, 0);
            let serves = solid_and_visible(first) && forall|along: bool, i: int, j: int| #[trigger]
                has_border(info, along, i, j) && !(along == vertical && i == line && j == 0)
                    ==> alike(border_at(info, along, i, j), first);
            info.uniform_border() == if serves {
                Some(first)
            } else {
                None
            }
        }),
{
    lemma_leader(info, vertical, line);
    let first = border_at(info, vertical, line, 0);
    lemma_looks(first, first);
    let skipped_x = if vertical {
        Some(line)
    } else {
        None
    };
    let skipped_y = if vertical {
        None
    } else {
        Some(line)
    };
    let xs = info.collapsed_borders.x@;
    let ys = info.collapsed_borders.y@;
    let same = forall|along: bool, i: int, j: int| #[trigger]
        has_border(info, along, i, j) && !(along == vertical && i == line && j == 0) ==> alike(
            border_at(info, along, i, j),
            first,
        );
    if same {
        lemma_others(info, true, skipped_x, first);
        lemma_others(info, false, skipped_y, first);
    }
    if info.is_uniform() {
        assert forall|along: bool, i: int, j: int| #[trigger] has_border(info, along, i, j) && !(
        along == vertical && i == line && j == 0) implies alike(
            border_at(info, along, i, j),
            first,
        ) by {
            lemma_looks(border_at(info, along, i, j), first);
            assert(line_looks_like(
                lines(info, along)[i]@,
                if (if along {
                    skipped_x
                } else {
                    skipped_y
                }) == Some(i) {
                    1
                } else {
                    0
                },
                first,
            ));
            assert(lines(info, along)[i]@[j].looks_like(&first));
        }
    }
}

proof fn lemma_others(
    info: SpecificTableGridInfo,
    vertical: bool,
    skipped: Option<int>,
    first: CollapsedBorder,
)
    requires
        forall|i: int, j: int| #[trigger]
            has_border(info, vertical, i, j) && !(skipped == Some(i) && j == 0) ==> alike(
                border_at(info, vertical, i, j),
                first,
            ),
    ensures
        others_look_like(lines(info, vertical), skipped, first),
{
    let all = lines(info, vertical);
    assert forall|i: int| 0 <= i < all.len() implies line_looks_like(
        (#[trigger] all[i])@,
        if skipped == Some(i) {
            1
        } else {
            0
        },
        first,
    ) by {
        let start: int = if skipped == Some(i) {
            1
        } else {
            0
        };
        assert forall|j: int| start <= j < all[i]@.len() implies (#[trigger] all[i]@[j]).looks_like(
            &first,
        ) by {
            assert(has_border(info, vertical, i, j));
            lemma_looks(all[i]@[j], first);
        }
    }
}

/// A grid without borders has no border that serves for it, shows nothing that could be said not to
/// show, and has no rules.
pub proof fn law_grid_without_borders_has_no_profile(info: SpecificTableGridInfo)
    requires
        forall|vertical: bool, i: int, j: int| !#[trigger] has_border(info, vertical, i, j),
    ensures
        info.uniform_border() is None,
        !info.shows_nothing(),
        !info.has_only_rules(),
{
    lemma_first_line(info.collapsed_borders.x@, 0);
    lemma_first_line(info.collapsed_borders.y@, 0);
    if let Some(found) = first_line(info.collapsed_borders.x@, 0) {
        assert(has_border(info, true, found, 0));
    }
    if let Some(found) = first_line(info.collapsed_borders.y@, 0) {
        assert(has_border(info, false, found, 0));
    }
    if info.has_only_rules() {
        assert(info.collapsed_borders.x@[0]@.len() > 0);
        assert(has_border(info, true, 0, 0));
    }
}

/// Nothing of a grid shows exactly where it has a border and each of its borders, of vertical and of
/// horizontal lines, is without width, without style, hidden or transparent.
pub proof fn law_nothing_shows_where_no_border_does(
    info: SpecificTableGridInfo,
    vertical: bool,
    line: int,
)
    requires
        leads(info, vertical, line),
    ensures
        info.shows_nothing() <==> forall|along: bool, i: int, j: int| #[trigger]
            has_border(info, along, i, j) ==> not_visible(border_at(info, along, i, j)),
{
    lemma_leader(info, vertical, line);
    let hidden = forall|along: bool, i: int, j: int| #[trigger]
        has_border(info, along, i, j) ==> not_visible(border_at(info, along, i, j));
    if hidden {
        assert forall|along: bool, i: int| 0 <= i < lines(info, along).len() implies line_invisible(
            (#[trigger] lines(info, along)[i])@,
        ) by {
            lemma_line_invisible(info, along, i);
        }
        assert(info.collapsed_borders.x@ == lines(info, true));
        assert(info.collapsed_borders.y@ == lines(info, false));
    }
    if info.shows_nothing() {
        assert forall|along: bool, i: int, j: int| #[trigger]
            has_border(info, along, i, j) implies not_visible(border_at(info, along, i, j)) by {
            lemma_looks(border_at(info, along, i, j), border_at(info, along, i, j));
            assert(line_invisible(lines(info, along)[i]@)) by {
                if along {
                    assert(line_invisible(info.collapsed_borders.x@[i]@));
                } else {
                    assert(line_invisible(info.collapsed_borders.y@[i]@));
                }
            }
            assert(lines(info, along)[i]@[j].is_invisible());
        }
    }
}

proof fn lemma_line_invisible(info: SpecificTableGridInfo, vertical: bool, i: int)
    requires
        0 <= i < lines(info, vertical).len(),
    ensures
        line_invisible(lines(info, vertical)[i]@) <==> forall|j: int| #[trigger]
            has_border(info, vertical, i, j) ==> not_visible(border_at(info, vertical, i, j)),
{
    let line = lines(info, vertical)[i]@;
    if forall|j: int| #[trigger]
        has_border(info, vertical, i, j) ==> not_visible(border_at(info, vertical, i, j)) {
        assert forall|j: int| 0 <= j < line.len() implies (#[trigger] line[j]).is_invisible() by {
            assert(has_border(info, vertical, i, j));
            lemma_looks(line[j], line[j]);
        }
    }
    if line_invisible(line) {
        assert forall|j: int| #[trigger] has_border(info, vertical, i, j) implies not_visible(
            border_at(info, vertical, i, j),
        ) by {
            lemma_looks(line[j], line[j]);
            assert(line[j].is_invisible());
        }
    }
}

/// A horizontal line is an uninterrupted rule: its first border is solid and visible, and all of its
/// borders are like it.
pub open spec fn uninterrupted_rule(info: SpecificTableGridInfo, i: int) -> bool {
    &&& has_border(info, false, i, 0)
    &&& solid_and_visible(border_at(info, false, i, 0))
    &&& forall|j: int| #[trigger]
        has_border(info, false, i, j) ==> alike(
            border_at(info, false, i, j),
            border_at(info, false, i, 0),
        )
}

/// A grid has only row rules exactly where it has vertical lines, each with borders and none with a
/// width, where each horizontal line has borders and is an uninterrupted rule or shows nothing, and
/// where one is a rule.
pub proof fn law_rules_are_uninterrupted_and_alone(info: SpecificTableGridInfo)
    ensures
        info.has_only_rules() <==> {
            &&& info.collapsed_borders.x@.len() > 0
            &&& forall|along: bool, i: int|
                0 <= i < (#[trigger] lines(info, along)).len() ==> #[trigger] has_border(
                    info,
                    along,
                    i,
                    0,
                )
            &&& forall|i: int, j: int| #[trigger]
                has_border(info, true, i, j) ==> border_at(info, true, i, j).width.0 == 0
            &&& forall|i: int|
                #![trigger lines(info, false)[i]]
                0 <= i < lines(info, false).len() ==> uninterrupted_rule(info, i) || forall|j: int|
                    #[trigger] has_border(info, false, i, j) ==> not_visible(
                    border_at(info, false, i, j),
                )
            &&& exists|i: int|
                0 <= i < lines(info, false).len() && #[trigger] uninterrupted_rule(info, i)
        },
{
    let xs = info.collapsed_borders.x@;
    let ys = info.collapsed_borders.y@;
    assert(lines(info, true) == xs && lines(info, false) == ys);
    assert forall|i: int| 0 <= i < ys.len() implies line_is_rule((#[trigger] ys[i])@)
        == uninterrupted_rule(info, i) && line_invisible(ys[i]@) == (forall|j: int| #[trigger]
        has_border(info, false, i, j) ==> not_visible(border_at(info, false, i, j))) by {
        lemma_rule(info, i);
        lemma_line_invisible(info, false, i);
    }
    if info.has_only_rules() {
        assert forall|along: bool, i: int| 0 <= i < (#[trigger] lines(
            info,
            along,
        )).len() implies #[trigger] has_border(info, along, i, 0) by {
            if along {
                assert(xs[i]@.len() > 0);
            } else {
                assert(ys[i]@.len() > 0);
            }
        }
        assert forall|i: int, j: int| #[trigger] has_border(info, true, i, j) implies border_at(
            info,
            true,
            i,
            j,
        ).width.0 == 0 by {
            assert(xs[i]@.len() > 0);
            assert(xs[i]@[j].width.0 == 0);
        }
        let i = choose|i: int| 0 <= i < ys.len() && line_is_rule((#[trigger] ys[i])@);
        assert(uninterrupted_rule(info, i));
    }
    let told = {
        &&& xs.len() > 0
        &&& forall|along: bool, i: int|
            0 <= i < (#[trigger] lines(info, along)).len() ==> #[trigger] has_border(
                info,
                along,
                i,
                0,
            )
        &&& forall|i: int, j: int| #[trigger]
            has_border(info, true, i, j) ==> border_at(info, true, i, j).width.0 == 0
        &&& forall|i: int|
            #![trigger lines(info, false)[i]]
            0 <= i < lines(info, false).len() ==> uninterrupted_rule(info, i) || forall|j: int|
                #[trigger] has_border(info, false, i, j) ==> not_visible(
                border_at(info, false, i, j),
            )
        &&& exists|i: int|
            0 <= i < lines(info, false).len() && #[trigger] uninterrupted_rule(info, i)
    };
    if told {
        assert forall|i: int| 0 <= i < xs.len() implies (#[trigger] xs[i])@.len() > 0
            && crate::table::borders::line_has_no_width(xs[i]@) by {
            assert(has_border(info, true, i, 0));
            assert forall|j: int| 0 <= j < xs[i]@.len() implies (#[trigger] xs[i]@[j]).width.0
                == 0 by {
                assert(has_border(info, true, i, j));
            }
        }
        assert forall|i: int| 0 <= i < ys.len() implies (#[trigger] ys[i])@.len() > 0 && (
        line_invisible(ys[i]@) || line_is_rule(ys[i]@)) by {
            assert(has_border(info, false, i, 0));
            assert(lines(info, false)[i] == ys[i]);
        }
        let i = choose|i: int|
            0 <= i < lines(info, false).len() && #[trigger] uninterrupted_rule(info, i);
        assert(line_is_rule(ys[i]@));
    }
}

proof fn lemma_rule(info: SpecificTableGridInfo, i: int)
    requires
        0 <= i < lines(info, false).len(),
    ensures
        line_is_rule(lines(info, false)[i]@) == uninterrupted_rule(info, i),
{
    let line = lines(info, false)[i]@;
    if line.len() > 0 {
        lemma_looks(line[0], line[0]);
    }
    if line_is_rule(line) {
        assert forall|j: int| #[trigger] has_border(info, false, i, j) implies alike(
            border_at(info, false, i, j),
            border_at(info, false, i, 0),
        ) by {
            assert(line[j].looks_like(&line[0]));
            lemma_looks(line[j], line[0]);
        }
    }
    if uninterrupted_rule(info, i) {
        assert forall|j: int| 0 <= j < line.len() implies (#[trigger] line[j]).looks_like(
            &line[0],
        ) by {
            assert(has_border(info, false, i, j));
            lemma_looks(line[j], line[0]);
        }
    }
}

} // verus!
