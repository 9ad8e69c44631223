//! The view box of an SVG image.
use vstd::prelude::*;
use vstd::string::StrSliceExecFns;

verus! {

/// What `style::attr::parse_integer` makes of a text, and what it leaves of the text.
pub uninterp spec fn integer_prefix(text: Seq<char>) -> (Result<i32, ()>, Seq<char>);

/// What `style::attr::parse_unsigned_integer` makes of a text, and what it leaves of the text.
pub uninterp spec fn unsigned_integer_prefix(text: Seq<char>) -> (Result<u32, ()>, Seq<char>);

/// Parses an integer at the start of a text, by `style::attr::parse_integer`, and gives what that
/// leaves of the text. Both depend on the text alone.
#[verifier::external_body]
fn parse_integer(text: &str) -> (parsed: (Result<i32, ()>, String))
    ensures
        (parsed.0, parsed.1@) == integer_prefix(text@),
{
    let mut chars = text.chars();
    let value = style::attr::parse_integer(&mut chars);
    (value, chars.as_str().to_string())
}

/// Parses a non-negative integer at the start of a text, by `style::attr::parse_unsigned_integer`,
/// and gives what that leaves of the text. Both depend on the text alone.
#[verifier::external_body]
fn parse_unsigned_integer(text: &str) -> (parsed: (Result<u32, ()>, String))
    ensures
        (parsed.0, parsed.1@) == unsigned_integer_prefix(text@),
{
    let mut chars = text.chars();
    let value = style::attr::parse_unsigned_integer(&mut chars);
    (value, chars.as_str().to_string())
}

/// A character that HTML takes for white space.
pub open spec fn html_space(c: char) -> bool {
    c == ' ' || c == '\t' || c == '\n' || c == '\u{c}' || c == '\r'
}

/// Whether HTML takes a character for white space, by `style::str::char_is_whitespace`: it is a
/// space, tab, line feed, form feed or carriage return.
#[verifier::external_body]
fn char_is_whitespace(c: char) -> (space: bool)
    ensures
        space == html_space(c),
{
    style::str::char_is_whitespace(c)
}

/// Only white space.
pub open spec fn only_space(text: Seq<char>) -> bool {
    forall|i: int| 0 <= i < text.len() ==> html_space(#[trigger] text[i])
}

fn is_only_space(text: &str) -> (space: bool)
    ensures
        space == only_space(text@),
{
    let count: usize = text.unicode_len();
    let mut index: usize = 0;
    while index < count
        invariant
            count == text@.len(),
            index <= count,
            forall|i: int| 0 <= i < index ==> html_space(#[trigger] text@[i]),
        decreases count - index,
    {
        if !char_is_whitespace(text.get_char(index)) {
            return false;
        }
        index = index + 1;
    }
    true
}

/// The sides of a view box, from what its four numbers were parsed as and what was left behind
/// them: both sides must be there and positive, and nothing but white space may follow.
pub open spec fn spec_sides(
    min_x: Result<i32, ()>,
    min_y: Result<i32, ()>,
    width: Result<u32, ()>,
    height: Result<u32, ()>,
    rest: Seq<char>,
) -> Option<(u32, u32)> {
    match (min_x, min_y, width, height) {
        (Ok(_), Ok(_), Ok(width), Ok(height)) => if width != 0 && height != 0 && only_space(rest) {
            Some((width, height))
        } else {
            None
        },
        _ => None,
    }
}

/// The sides of a view box, from what its four numbers were parsed as and what was left behind
/// them.
pub fn sides(
    min_x: Result<i32, ()>,
    min_y: Result<i32, ()>,
    width: Result<u32, ()>,
    height: Result<u32, ()>,
    rest: &str,
) -> (sides: Option<(u32, u32)>)
    ensures
        sides == spec_sides(min_x, min_y, width, height, rest@),
{
    match (min_x, min_y, width, height) {
        (Ok(_), Ok(_), Ok(width), Ok(height)) => {
            if width != 0 && height != 0 && is_only_space(rest) {
                Some((width, height))
            } else {
                None
            }
        },
        _ => None,
    }
}

/// The sides of the view box that a text gives: its numbers are parsed one behind the other.
pub open spec fn view_box_sides(text: Seq<char>) -> Option<(u32, u32)> {
    let (min_x, behind_x) = integer_prefix(text);
    let (min_y, behind_y) = integer_prefix(behind_x);
    let (width, behind_width) = unsigned_integer_prefix(behind_y);
    let (height, rest) = unsigned_integer_prefix(behind_width);
    spec_sides(min_x, min_y, width, height, rest)
}

/// What an SVG image is drawn from.
#[derive(Debug)]
pub struct SVGElementData {
    pub view_box: Option<String>,
}

impl SVGElementData {
    /// The sides whose ratio is that of the image, by its view box.
    pub fn ratio_from_view_box(&self) -> (ratio: Option<(u32, u32)>)
        ensures
            ratio == (match self.view_box {
                Some(text) => view_box_sides(text@),
                None => None,
            }),
    {
        let text = match &self.view_box {
            Some(text) => text,
            None => return None,
        };
        let (min_x, behind_x) = parse_integer(text.as_str());
        let (min_y, behind_y) = parse_integer(behind_x.as_str());
        let (width, behind_width) = parse_unsigned_integer(behind_y.as_str());
        let (height, rest) = parse_unsigned_integer(behind_width.as_str());
        sides(min_x, min_y, width, height, rest.as_str())
    }
}

/// A view box has sides exactly where all four of its numbers could be read, neither side is zero,
/// and nothing but white space follows; they are its third and its fourth number.
pub proof fn law_view_box_needs_four_numbers_and_an_area(
    min_x: Result<i32, ()>,
    min_y: Result<i32, ()>,
    width: Result<u32, ()>,
    height: Result<u32, ()>,
    rest: Seq<char>,
)
    ensures
        ({
            let sides = spec_sides(min_x, min_y, width, height, rest);
            let read = min_x is Ok && min_y is Ok && width is Ok && height is Ok;
            let blank = forall|i: int| 0 <= i < rest.len() ==> html_space(#[trigger] rest[i]);
            &&& sides is Some <==> read && width->Ok_0 > 0 && height->Ok_0 > 0 && blank
            &&& sides is Some ==> sides->0 == (width->Ok_0, height->Ok_0)
        }),
{
}

} // verus!
