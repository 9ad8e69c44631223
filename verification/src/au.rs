//! App units, the fixed-point length of layout: sixty units make one CSS pixel.
//!
//! Lengths are carried as plain integers. The arithmetic is that of the `app_units` crate, whose
//! results are pinned to the closed range between [`MIN_AU`] and [`MAX_AU`].
use vstd::prelude::*;

verus! {

/// App units in one CSS pixel.
pub const AU_PER_PX: i32 = 60;

/// The smallest length that arithmetic produces.
pub const MIN_AU: i32 = -0x3fff_ffff;

/// The largest length that arithmetic produces.
pub const MAX_AU: i32 = 0x3fff_ffff;

/// `value` pinned to the app-unit range.
pub open spec fn clamp_units(value: int) -> int {
    if value < MIN_AU {
        MIN_AU as int
    } else if value > MAX_AU {
        MAX_AU as int
    } else {
        value
    }
}

/// A length in app units.
#[derive(Clone, Copy, Debug, PartialEq, Eq, PartialOrd, Ord, Hash, Structural)]
pub struct Au(pub i32);

/// Sum of two lengths, as `app_units::Au` adds them: the sum pinned to the app-unit range. Stated
/// where the sum fits the machine integer the crate adds in.
#[verifier::external_body]
fn add_units(left: i32, right: i32) -> (sum: i32)
    requires
        i32::MIN <= left + right <= i32::MAX,
    ensures
        sum == clamp_units(left + right),
{
    (app_units::Au(left) + app_units::Au(right)).0
}

/// Difference of two lengths, as `app_units::Au` subtracts them: pinned to the app-unit range.
#[verifier::external_body]
fn subtract_units(left: i32, right: i32) -> (difference: i32)
    requires
        i32::MIN <= left - right <= i32::MAX,
    ensures
        difference == clamp_units(left - right),
{
    (app_units::Au(left) - app_units::Au(right)).0
}

/// A length times an integer, as `app_units::Au` multiplies: the exact product pinned to the
/// app-unit range, also where the product leaves the machine integer.
#[verifier::external_body]
fn multiply_units(length: i32, factor: i32) -> (product: i32)
    ensures
        product == clamp_units(length * factor),
{
    (app_units::Au(length) * factor).0
}

/// `app_units::Au::ceil_to_px`: the least whole number of pixels that covers the length.
#[verifier::external_body]
fn ceil_units_to_px(length: i32) -> (pixels: i32)
    ensures
        pixels == (length + AU_PER_PX - 1) / (AU_PER_PX as int),
{
    app_units::Au(length).ceil_to_px()
}

impl Au {
    /// The length lies in the app-unit range.
    pub open spec fn in_range(self) -> bool {
        MIN_AU <= self.0 <= MAX_AU
    }

    /// The zero length.
    pub fn zero() -> (length: Au)
        ensures
            length == Au(0),
    {
        Au(0)
    }

    /// A whole number of CSS pixels.
    pub fn from_px(px: i32) -> (length: Au)
        ensures
            length.0 == clamp_units(px * AU_PER_PX),
    {
        Au(multiply_units(px, AU_PER_PX))
    }

    pub open spec fn spec_plus(self, other: Au) -> Au {
        Au(clamp_units(self.0 + other.0) as i32)
    }

    /// The sum, pinned to the app-unit range.
    #[verifier::when_used_as_spec(spec_plus)]
    pub fn plus(self, other: Au) -> (sum: Au)
        requires
            i32::MIN <= self.0 + other.0 <= i32::MAX,
        ensures
            sum == self.spec_plus(other),
            sum.in_range(),
    {
        Au(add_units(self.0, other.0))
    }

    pub open spec fn spec_minus(self, other: Au) -> Au {
        Au(clamp_units(self.0 - other.0) as i32)
    }

    /// The difference, pinned to the app-unit range.
    #[verifier::when_used_as_spec(spec_minus)]
    pub fn minus(self, other: Au) -> (difference: Au)
        requires
            i32::MIN <= self.0 - other.0 <= i32::MAX,
        ensures
            difference == self.spec_minus(other),
            difference.in_range(),
    {
        Au(subtract_units(self.0, other.0))
    }

    pub open spec fn spec_times(self, factor: i32) -> Au {
        Au(clamp_units(self.0 * factor) as i32)
    }

    /// The product with an integer, pinned to the app-unit range.
    #[verifier::when_used_as_spec(spec_times)]
    pub fn times(self, factor: i32) -> (product: Au)
        ensures
            product == self.spec_times(factor),
            product.in_range(),
    {
        Au(multiply_units(self.0, factor))
    }

    pub open spec fn spec_at_least(self, floor: Au) -> Au {
        if self.0 < floor.0 {
            floor
        } else {
            self
        }
    }

    /// The greater of two lengths.
    #[verifier::when_used_as_spec(spec_at_least)]
    pub fn at_least(self, floor: Au) -> (length: Au)
        ensures
            length == self.spec_at_least(floor),
    {
        if self.0 < floor.0 {
            floor
        } else {
            self
        }
    }

    /// The least whole number of pixels that covers the length.
    pub fn ceil_to_px(self) -> (pixels: i32)
        ensures
            pixels == (self.0 + AU_PER_PX - 1) / (AU_PER_PX as int),
    {
        ceil_units_to_px(self.0)
    }
}

/// Sums and differences undo each other and are exact as long as they stay among the lengths that
/// there are; beyond them the nearest length stands in.
pub proof fn law_lengths_are_exact_within_their_range(left: Au, right: Au)
    requires
        left.in_range(),
        right.in_range(),
    ensures
        left.spec_plus(right) == right.spec_plus(left),
        MIN_AU <= left.0 + right.0 <= MAX_AU ==> {
            &&& left.spec_plus(right).0 == left.0 + right.0
            &&& left.spec_plus(right).spec_minus(right) == left
        },
        left.0 + right.0 > MAX_AU ==> left.spec_plus(right).0 == MAX_AU,
        left.0 + right.0 < MIN_AU ==> left.spec_plus(right).0 == MIN_AU,
        MIN_AU <= left.0 - right.0 <= MAX_AU ==> {
            &&& left.spec_minus(right).0 == left.0 - right.0
            &&& left.spec_minus(right).spec_plus(right) == left
        },
        left.0 - right.0 > MAX_AU ==> left.spec_minus(right).0 == MAX_AU,
        left.0 - right.0 < MIN_AU ==> left.spec_minus(right).0 == MIN_AU,
        left.spec_at_least(right).0 >= left.0,
        left.spec_at_least(right).0 >= right.0,
        left.spec_at_least(right) == left || left.spec_at_least(right) == right,
        left.spec_times(0).0 == 0,
        left.spec_times(1) == left,
{
}

} // verus!
