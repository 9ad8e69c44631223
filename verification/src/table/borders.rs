//! Collapsed borders: which grids have none that show, only uninterrupted row rules, or one border
//! throughout.
//!
//! Colors are given in sRGB, by the bits of single-precision numbers.
use crate::au::Au;
use vstd::prelude::*;

verus! {

/// The number with these bits is not a number.
pub open spec fn is_nan(bits: u32) -> bool {
    (0x7f80_0000 < bits < 0x8000_0000) || bits > 0xff80_0000
}

/// Two numbers compare equal: zeros of either sign do, and what is not a number never does.
pub open spec fn spec_numbers_equal(left: u32, right: u32) -> bool {
    !is_nan(left) && (left == right || ((left == 0 || left == 0x8000_0000) && (right == 0 || right
        == 0x8000_0000)))
}

/// Two numbers compare equal: zeros of either sign do, and what is not a number never does.
#[verifier::when_used_as_spec(spec_numbers_equal)]
pub fn numbers_equal(left: u32, right: u32) -> (equal: bool)
    ensures
        equal == spec_numbers_equal(left, right),
{
    let is_number = left <= 0x7f80_0000 || (0x8000_0000 <= left && left <= 0xff80_0000);
    is_number && (left == right || ((left == 0 || left == 0x8000_0000) && (right == 0 || right
        == 0x8000_0000)))
}

/// The number is above zero.
pub open spec fn spec_is_above_zero(bits: u32) -> bool {
    0 < bits <= 0x7f80_0000
}

/// The number is above zero.
#[verifier::when_used_as_spec(spec_is_above_zero)]
pub fn is_above_zero(bits: u32) -> (above: bool)
    ensures
        above == spec_is_above_zero(bits),
{
    0 < bits && bits <= 0x7f80_0000
}

/// The number is zero or below.
pub open spec fn spec_is_at_most_zero(bits: u32) -> bool {
    bits == 0 || 0x8000_0000 <= bits <= 0xff80_0000
}

/// The number is zero or below.
#[verifier::when_used_as_spec(spec_is_at_most_zero)]
pub fn is_at_most_zero(bits: u32) -> (at_most: bool)
    ensures
        at_most == spec_is_at_most_zero(bits),
{
    bits == 0 || (0x8000_0000 <= bits && bits <= 0xff80_0000)
}

/// How a border is drawn.
#[derive(Clone, Copy, Debug, PartialEq, Eq, Structural)]
pub enum BorderStyle {
    Absent,
    Hidden,
    Solid,
    Double,
    Dotted,
    Dashed,
    Groove,
    Ridge,
    Inset,
    Outset,
}

/// A color in sRGB.
#[derive(Clone, Copy, Debug, PartialEq, Eq, Structural)]
pub struct SrgbColor {
    pub red: u32,
    pub green: u32,
    pub blue: u32,
    pub alpha: u32,
    /// Which components are missing, one bit each.
    pub missing_components: u8,
}

impl SrgbColor {
    pub open spec fn spec_equals(self, other: SrgbColor) -> bool {
        &&& numbers_equal(self.red, other.red)
        &&& numbers_equal(self.green, other.green)
        &&& numbers_equal(self.blue, other.blue)
        &&& numbers_equal(self.alpha, other.alpha)
        &&& self.missing_components == other.missing_components
    }

    /// The colors compare equal, number by number.
    #[verifier::when_used_as_spec(spec_equals)]
    pub fn equals(self, other: SrgbColor) -> (equal: bool)
        ensures
            equal == self.spec_equals(other),
    {
        numbers_equal(self.red, other.red) && numbers_equal(self.green, other.green)
            && numbers_equal(self.blue, other.blue) && numbers_equal(self.alpha, other.alpha)
            && self.missing_components == other.missing_components
    }
}

/// Style and color of a border.
#[derive(Clone, Copy, Debug, PartialEq, Eq, Structural)]
pub struct BorderStyleColor {
    pub style: BorderStyle,
    pub color: SrgbColor,
}

impl BorderStyleColor {
    pub fn new(style: BorderStyle, color: SrgbColor) -> (style_color: Self)
        ensures
            style_color == (BorderStyleColor { style, color }),
    {
        BorderStyleColor { style, color }
    }
}

/// A border once conflicts between neighbours are resolved.
#[derive(Clone, Copy, Debug, PartialEq, Eq, Structural)]
pub struct CollapsedBorder {
    pub style_color: BorderStyleColor,
    pub width: Au,
}

impl CollapsedBorder {
    pub open spec fn spec_is_invisible(&self) -> bool {
        &&& self.width.0 >= 0
        &&& {
            ||| self.width.0 == 0
            ||| self.style_color.style is Absent
            ||| self.style_color.style is Hidden
            ||| is_at_most_zero(self.style_color.color.alpha)
        }
    }

    /// Nothing of the border shows. A negative width is no such border.
    #[verifier::when_used_as_spec(spec_is_invisible)]
    pub fn is_invisible(&self) -> (invisible: bool)
        ensures
            invisible == self.spec_is_invisible(),
    {
        self.width.0 >= 0 && (self.width.0 == 0 || self.style_color.style == BorderStyle::Absent
            || self.style_color.style == BorderStyle::Hidden || is_at_most_zero(
            self.style_color.color.alpha,
        ))
    }

    /// The border is solid and shows.
    pub open spec fn spec_is_solid_visible(&self) -> bool {
        &&& self.width.0 > 0
        &&& self.style_color.style is Solid
        &&& is_above_zero(self.style_color.color.alpha)
    }

    /// The border is solid and shows.
    #[verifier::when_used_as_spec(spec_is_solid_visible)]
    pub fn is_solid_visible(&self) -> (visible: bool)
        ensures
            visible == self.spec_is_solid_visible(),
    {
        self.width.0 > 0 && self.style_color.style == BorderStyle::Solid && is_above_zero(
            self.style_color.color.alpha,
        )
    }

    /// The borders look the same.
    pub open spec fn spec_looks_like(&self, other: &CollapsedBorder) -> bool {
        &&& self.width == other.width
        &&& self.style_color.style == other.style_color.style
        &&& self.style_color.color.equals(other.style_color.color)
    }

    /// The borders look the same.
    #[verifier::when_used_as_spec(spec_looks_like)]
    pub fn looks_like(&self, other: &CollapsedBorder) -> (same: bool)
        ensures
            same == self.spec_looks_like(other),
    {
        self.width.0 == other.width.0 && self.style_color.style == other.style_color.style
            && self.style_color.color.equals(other.style_color.color)
    }
}

/// What there is in each of the two directions.
#[derive(Clone, Debug, PartialEq, Eq)]
pub struct PhysicalVec<T> {
    pub x: T,
    pub y: T,
}

/// The resolved borders of a grid, line by line, and the sizes of its tracks. Vertical lines are
/// those of `x`, horizontal ones those of `y`.
#[derive(Clone, Debug, PartialEq, Eq)]
pub struct SpecificTableGridInfo {
    pub collapsed_borders: PhysicalVec<Vec<Vec<CollapsedBorder>>>,
    pub track_sizes: PhysicalVec<Vec<Au>>,
}

/// Every border of a line is invisible.
pub open spec fn line_invisible(line: Seq<CollapsedBorder>) -> bool {
    forall|i: int| 0 <= i < line.len() ==> (#[trigger] line[i]).is_invisible()
}

/// Every border of a line, from `start` on, looks like this one.
pub open spec fn line_looks_like(
    line: Seq<CollapsedBorder>,
    start: int,
    border: CollapsedBorder,
) -> bool {
    forall|i: int| start <= i < line.len() ==> (#[trigger] line[i]).looks_like(&border)
}

/// Every border of these lines looks like this one, but for the first of the line `skipped`.
pub open spec fn others_look_like(
    lines: Seq<Vec<CollapsedBorder>>,
    skipped: Option<int>,
    border: CollapsedBorder,
) -> bool {
    forall|i: int|
        0 <= i < lines.len() ==> line_looks_like(
            (#[trigger] lines[i])@,
            if skipped == Some(i) {
                1
            } else {
                0
            },
            border,
        )
}

/// Every border of a line has no width.
pub open spec fn line_has_no_width(line: Seq<CollapsedBorder>) -> bool {
    forall|i: int| 0 <= i < line.len() ==> (#[trigger] line[i]).width.0 == 0
}

/// A line is a rule: all of it is solid, shows, and looks the same.
pub open spec fn line_is_rule(line: Seq<CollapsedBorder>) -> bool {
    line.len() > 0 && line[0].is_solid_visible() && line_looks_like(line, 0, line[0])
}

/// The first line, from `index` on, that has a border.
pub open spec fn first_line(lines: Seq<Vec<CollapsedBorder>>, index: int) -> Option<int>
    decreases lines.len() - index,
{
    if index < 0 || index >= lines.len() {
        None
    } else if lines[index]@.len() > 0 {
        Some(index)
    } else {
        first_line(lines, index + 1)
    }
}

pub proof fn lemma_first_line(lines: Seq<Vec<CollapsedBorder>>, index: int)
    requires
        0 <= index <= lines.len(),
    ensures
        first_line(lines, index) matches Some(line) ==> index <= line < lines.len()
            && lines[line]@.len() > 0,
        first_line(lines, index) is None ==> forall|i: int|
            index <= i < lines.len() ==> (#[trigger] lines[i])@.len() == 0,
    decreases lines.len() - index,
{
    if index < lines.len() && lines[index]@.len() == 0 {
        lemma_first_line(lines, index + 1);
    }
}

fn is_line_invisible(line: &Vec<CollapsedBorder>) -> (invisible: bool)
    ensures
        invisible == line_invisible(line@),
{
    let mut index: usize = 0;
    while index < line.len()
        invariant
            index <= line@.len(),
            forall|i: int| 0 <= i < index ==> (#[trigger] line@[i]).is_invisible(),
        decreases line.len() - index,
    {
        if !line[index].is_invisible() {
            return false;
        }
        index = index + 1;
    }
    true
}

fn does_line_look_like(
    line: &Vec<CollapsedBorder>,
    start: usize,
    border: &CollapsedBorder,
) -> (same: bool)
    requires
        start <= line@.len(),
    ensures
        same == line_looks_like(line@, start as int, *border),
{
    let mut index: usize = start;
    while index < line.len()
        invariant
            start <= index <= line@.len(),
            forall|i: int| start <= i < index ==> (#[trigger] line@[i]).looks_like(border),
        decreases line.len() - index,
    {
        if !line[index].looks_like(border) {
            return false;
        }
        index = index + 1;
    }
    true
}

fn has_line_no_width(line: &Vec<CollapsedBorder>) -> (none: bool)
    ensures
        none == line_has_no_width(line@),
{
    let mut index: usize = 0;
    while index < line.len()
        invariant
            index <= line@.len(),
            forall|i: int| 0 <= i < index ==> (#[trigger] line@[i]).width.0 == 0,
        decreases line.len() - index,
    {
        if line[index].width.0 != 0 {
            return false;
        }
        index = index + 1;
    }
    true
}

fn are_lines_invisible(lines: &Vec<Vec<CollapsedBorder>>) -> (invisible: bool)
    ensures
        invisible == forall|i: int|
            0 <= i < lines@.len() ==> line_invisible((#[trigger] lines@[i])@),
{
    let mut index: usize = 0;
    while index < lines.len()
        invariant
            index <= lines@.len(),
            forall|i: int| 0 <= i < index ==> line_invisible((#[trigger] lines@[i])@),
        decreases lines.len() - index,
    {
        if !is_line_invisible(&lines[index]) {
            return false;
        }
        index = index + 1;
    }
    true
}

fn do_others_look_like(
    lines: &Vec<Vec<CollapsedBorder>>,
    skipped: Option<usize>,
    border: &CollapsedBorder,
) -> (same: bool)
    requires
        skipped matches Some(line) ==> line < lines@.len() && lines@[line as int]@.len() > 0,
    ensures
        same == others_look_like(lines@, skipped_line(skipped), *border),
{
    let mut index: usize = 0;
    while index < lines.len()
        invariant
            index <= lines@.len(),
            skipped matches Some(line) ==> line < lines@.len() && lines@[line as int]@.len() > 0,
            forall|i: int|
                0 <= i < index ==> line_looks_like(
                    (#[trigger] lines@[i])@,
                    if skipped_line(skipped) == Some(i) {
                        1
                    } else {
                        0
                    },
                    *border,
                ),
        decreases lines.len() - index,
    {
        let start: usize = match skipped {
            Some(line) => if line == index {
                1
            } else {
                0
            },
            None => 0,
        };
        if !does_line_look_like(&lines[index], start, border) {
            return false;
        }
        index = index + 1;
    }
    true
}

pub open spec fn skipped_line(skipped: Option<usize>) -> Option<int> {
    match skipped {
        Some(line) => Some(line as int),
        None => None,
    }
}

fn find_first_line(lines: &Vec<Vec<CollapsedBorder>>) -> (found: Option<usize>)
    ensures
        skipped_line(found) == first_line(lines@, 0),
{
    let mut index: usize = 0;
    while index < lines.len()
        invariant
            index <= lines@.len(),
            first_line(lines@, index as int) == first_line(lines@, 0),
        decreases lines.len() - index,
    {
        if lines[index].len() > 0 {
            return Some(index);
        }
        index = index + 1;
    }
    None
}

impl SpecificTableGridInfo {
    /// The first border of the grid: of the vertical lines, else of the horizontal ones.
    pub open spec fn first(&self) -> Option<CollapsedBorder> {
        match (
            first_line(self.collapsed_borders.x@, 0),
            first_line(self.collapsed_borders.y@, 0),
        ) {
            (Some(line), _) => Some(self.collapsed_borders.x@[line]@[0]),
            (None, Some(line)) => Some(self.collapsed_borders.y@[line]@[0]),
            (None, None) => None,
        }
    }

    /// Some line has a border, and every border is invisible.
    pub open spec fn shows_nothing(&self) -> bool {
        &&& self.first() is Some
        &&& forall|i: int|
            0 <= i < self.collapsed_borders.x@.len() ==> line_invisible(
                (#[trigger] self.collapsed_borders.x@[i])@,
            )
        &&& forall|i: int|
            0 <= i < self.collapsed_borders.y@.len() ==> line_invisible(
                (#[trigger] self.collapsed_borders.y@[i])@,
            )
    }

    /// No border of the grid shows. A grid without borders is not meant.
    pub fn has_no_visible_borders(&self) -> (none: bool)
        ensures
            none == self.shows_nothing(),
    {
        let has_border = match find_first_line(&self.collapsed_borders.x) {
            Some(_) => true,
            None => find_first_line(&self.collapsed_borders.y).is_some(),
        };
        has_border && are_lines_invisible(&self.collapsed_borders.x) && are_lines_invisible(
            &self.collapsed_borders.y,
        )
    }

    /// Vertical lines have borders, all without width; each horizontal line is a rule or has only
    /// borders that do not show; and some line is a rule.
    pub open spec fn has_only_rules(&self) -> bool {
        let vertical = self.collapsed_borders.x@;
        let horizontal = self.collapsed_borders.y@;
        &&& vertical.len() > 0
        &&& forall|i: int|
            0 <= i < vertical.len() ==> (#[trigger] vertical[i])@.len() > 0 && line_has_no_width(
                vertical[i]@,
            )
        &&& forall|i: int|
            0 <= i < horizontal.len() ==> (#[trigger] horizontal[i])@.len() > 0 && (line_invisible(
                horizontal[i]@,
            ) || line_is_rule(horizontal[i]@))
        &&& exists|i: int| 0 <= i < horizontal.len() && line_is_rule((#[trigger] horizontal[i])@)
    }

    /// The borders of the grid are uninterrupted row rules, and nothing else. Even a vertical border
    /// that does not show must have no width, since a width shifts where a rule starts.
    pub fn has_solid_horizontal_borders(&self) -> (solid: bool)
        ensures
            solid == self.has_only_rules(),
    {
        if self.collapsed_borders.x.len() == 0 {
            return false;
        }
        let mut index: usize = 0;
        while index < self.collapsed_borders.x.len()
            invariant
                index <= self.collapsed_borders.x@.len(),
                forall|i: int|
                    0 <= i < index ==> (#[trigger] self.collapsed_borders.x@[i])@.len() > 0
                        && line_has_no_width(self.collapsed_borders.x@[i]@),
            decreases self.collapsed_borders.x.len() - index,
        {
            if self.collapsed_borders.x[index].len() == 0 || !has_line_no_width(
                &self.collapsed_borders.x[index],
            ) {
                return false;
            }
            index = index + 1;
        }
        let ghost horizontal = self.collapsed_borders.y@;
        let mut has_visible_line = false;
        let mut row: usize = 0;
        while row < self.collapsed_borders.y.len()
            invariant
                horizontal == self.collapsed_borders.y@,
                row <= horizontal.len(),
                forall|i: int|
                    0 <= i < row ==> (#[trigger] horizontal[i])@.len() > 0 && (line_invisible(
                        horizontal[i]@,
                    ) || line_is_rule(horizontal[i]@)),
                has_visible_line == exists|i: int|
                    0 <= i < row && line_is_rule((#[trigger] horizontal[i])@),
            decreases self.collapsed_borders.y.len() - row,
        {
            let line = &self.collapsed_borders.y[row];
            if line.len() == 0 {
                return false;
            }
            let first = &line[0];
            if first.is_invisible() {
                if !is_line_invisible(line) {
                    assert(!line_is_rule(horizontal[row as int]@));
                    return false;
                }
            } else {
                if !first.is_solid_visible() || !does_line_look_like(line, 0, first) {
                    assert(!line_invisible(horizontal[row as int]@));
                    return false;
                }
                has_visible_line = true;
                assert(line_is_rule(horizontal[row as int]@));
            }
            row = row + 1;
        }
        has_visible_line
    }

    /// The first border serves for the whole grid: it is solid, shows, and every other looks like
    /// it.
    pub open spec fn is_uniform(&self) -> bool {
        let vertical = first_line(self.collapsed_borders.x@, 0);
        let horizontal = if vertical is Some {
            None
        } else {
            first_line(self.collapsed_borders.y@, 0)
        };
        self.first() matches Some(first) && {
            &&& first.is_solid_visible()
            &&& others_look_like(self.collapsed_borders.x@, vertical, first)
            &&& others_look_like(self.collapsed_borders.y@, horizontal, first)
        }
    }

    /// The one border of the grid, if one serves for all of it.
    pub open spec fn uniform_border(&self) -> Option<CollapsedBorder> {
        if self.is_uniform() {
            self.first()
        } else {
            None
        }
    }

    /// The one border of the grid, if one serves for all of it.
    pub fn uniform_solid_visible_border(&self) -> (border: Option<&CollapsedBorder>)
        ensures
            match border {
                Some(border) => self.is_uniform() && self.first() == Some(*border),
                None => !self.is_uniform(),
            },
            match border {
                Some(border) => self.uniform_border() == Some(*border),
                None => self.uniform_border() is None,
            },
    {
        proof {
            lemma_first_line(self.collapsed_borders.x@, 0);
            lemma_first_line(self.collapsed_borders.y@, 0);
        }
        let vertical = find_first_line(&self.collapsed_borders.x);
        let horizontal = match vertical {
            Some(_) => None,
            None => find_first_line(&self.collapsed_borders.y),
        };
        let first = match (vertical, horizontal) {
            (Some(line), _) => &self.collapsed_borders.x[line][0],
            (None, Some(line)) => &self.collapsed_borders.y[line][0],
            (None, None) => return None,
        };
        if first.is_solid_visible() && do_others_look_like(
            &self.collapsed_borders.x,
            vertical,
            first,
        ) && do_others_look_like(&self.collapsed_borders.y, horizontal, first) {
            Some(first)
        } else {
            None
        }
    }
}

/// A grid of which nothing shows has neither rules nor one border throughout.
pub proof fn law_profiles_exclude_each_other(info: SpecificTableGridInfo)
    requires
        info.shows_nothing(),
    ensures
        !info.has_only_rules(),
        !info.is_uniform(),
{
    let vertical = info.collapsed_borders.x@;
    let horizontal = info.collapsed_borders.y@;
    lemma_first_line(vertical, 0);
    lemma_first_line(horizontal, 0);
    if exists|i: int| 0 <= i < horizontal.len() && line_is_rule((#[trigger] horizontal[i])@) {
        let i = choose|i: int|
            0 <= i < horizontal.len() && line_is_rule((#[trigger] horizontal[i])@);
        assert(line_invisible(horizontal[i]@));
        assert(horizontal[i]@[0].is_invisible());
    }
    if let Some(line) = first_line(vertical, 0) {
        assert(line_invisible(vertical[line]@));
    }
    if let Some(line) = first_line(horizontal, 0) {
        assert(line_invisible(horizontal[line]@));
    }
}

} // verus!
