//! Exact arithmetic on the binary fractions that double-precision numbers stand for.
//!
//! A double-precision number is taken by its bits. Every finite one is a whole multiple of the
//! smallest positive one, so its exact value is an integer count of those units.
use std::cmp::Ordering;
use vstd::arithmetic::div_mod::{
    lemma_div_multiples_vanish_quotient, lemma_fundamental_div_mod,
    lemma_fundamental_div_mod_converse, lemma_truncate_middle,
};
use vstd::arithmetic::power2::{
    lemma2_to64, lemma2_to64_rest, lemma_pow2_adds, lemma_pow2_pos, lemma_pow2_strictly_increases,
    lemma_pow2_unfold, pow2,
};
use vstd::prelude::*;

verus! {

/// The bit patterns from here on carry a minus sign.
pub const SIGN_BIT: u64 = 0x8000_0000_0000_0000;

/// One step of the exponent field.
pub const EXPONENT_STEP: u64 = 0x10_0000_0000_0000;

/// The exponent field of infinities and of what is not a number.
pub const SPECIAL_EXPONENT: u64 = 0x7ff;

/// Nanoseconds in a second.
pub const NANOS_PER_SECOND: u128 = 1_000_000_000;

/// The bits without the sign.
pub open spec fn magnitude_bits(bits: u64) -> u64 {
    if bits >= SIGN_BIT {
        (bits - SIGN_BIT) as u64
    } else {
        bits
    }
}

pub open spec fn spec_is_negative(bits: u64) -> bool {
    bits >= SIGN_BIT
}

/// The number carries a minus sign.
#[verifier::when_used_as_spec(spec_is_negative)]
pub fn is_negative(bits: u64) -> (negative: bool)
    ensures
        negative == spec_is_negative(bits),
{
    bits >= SIGN_BIT
}

pub open spec fn spec_is_finite(bits: u64) -> bool {
    magnitude_bits(bits) / EXPONENT_STEP < SPECIAL_EXPONENT
}

/// The number is neither infinite nor not a number.
#[verifier::when_used_as_spec(spec_is_finite)]
pub fn is_finite(bits: u64) -> (finite: bool)
    ensures
        finite == spec_is_finite(bits),
{
    magnitude(bits) / EXPONENT_STEP < SPECIAL_EXPONENT
}

fn magnitude(bits: u64) -> (magnitude: u64)
    ensures
        magnitude == magnitude_bits(bits),
        magnitude < SIGN_BIT,
{
    if bits >= SIGN_BIT {
        bits - SIGN_BIT
    } else {
        bits
    }
}

/// How many units of 2^-1074 the absolute value of a finite number is.
pub open spec fn magnitude_units(bits: u64) -> nat {
    let exponent = (magnitude_bits(bits) / EXPONENT_STEP) as nat;
    let fraction = (magnitude_bits(bits) % EXPONENT_STEP) as nat;
    if exponent == 0 {
        fraction
    } else {
        (EXPONENT_STEP as nat + fraction) * pow2((exponent - 1) as nat)
    }
}

/// How many units of 2^-1074 a finite number is.
pub open spec fn value_units(bits: u64) -> int {
    if is_negative(bits) {
        -(magnitude_units(bits) as int)
    } else {
        magnitude_units(bits) as int
    }
}

/// How many units make one.
pub open spec fn unit_scale() -> nat {
    pow2(1074)
}

/// The least integer that is not below `dividend / divisor`.
pub open spec fn ceil_div(dividend: int, divisor: int) -> int {
    (dividend + divisor - 1) / divisor
}

/// Exact numbers are counted in units of two to the power of this, negated.
pub const DEPTH: i64 = 0x8000_0000;

/// The number `coefficient` times a power of two.
#[derive(Clone, Copy, Debug)]
pub struct ExactDyadic {
    pub coefficient: u128,
    pub binary_exponent: i32,
}

/// How many of the smallest units make one.
pub open spec fn whole_units() -> nat {
    pow2(DEPTH as nat)
}

impl ExactDyadic {
    /// How many of the smallest units the number is. Every such number is a whole multiple of
    /// them, so that two numbers are equal if and only if their units are.
    pub open spec fn units(self) -> nat {
        self.coefficient as nat * pow2((self.binary_exponent + DEPTH) as nat)
    }

    /// The number rounded down.
    pub open spec fn floor(self) -> nat {
        self.units() / whole_units()
    }

    /// The exponent can be negated, where it matters.
    pub open spec fn divisible(self) -> bool {
        self.coefficient == 0 || self.binary_exponent > i32::MIN
    }

    /// The number can be written with a smaller exponent in as many bits.
    pub open spec fn aligns(self, exponent: int) -> bool {
        &&& self.binary_exponent - exponent < 128
        &&& self.coefficient * pow2((self.binary_exponent - exponent) as nat) <= u128::MAX
    }
}

/// The smaller exponent of two numbers.
pub open spec fn common_exponent(left: ExactDyadic, right: ExactDyadic) -> int {
    if left.binary_exponent < right.binary_exponent {
        left.binary_exponent as int
    } else {
        right.binary_exponent as int
    }
}

proof fn lemma_pow2_big()
    ensures
        pow2(52) == EXPONENT_STEP,
        pow2(83) == 0x80000_00000000_00000000,
        pow2(128) == u128::MAX + 1,
{
    lemma2_to64();
    lemma2_to64_rest();
    lemma_pow2_adds(64, 64);
    lemma_pow2_adds(64, 19);
    assert(0x10000000000000000nat * 0x10000000000000000nat == u128::MAX + 1) by (nonlinear_arith);
    assert(0x10000000000000000nat * 0x80000nat == 0x80000_00000000_00000000nat)
        by (nonlinear_arith);
}

/// A greater magnitude pattern is a greater absolute value.
proof fn lemma_magnitude_order(left: u64, right: u64)
    requires
        magnitude_bits(left) < magnitude_bits(right),
    ensures
        magnitude_units(left) < magnitude_units(right),
{
    lemma_pow2_big();
    let a = magnitude_bits(left);
    let b = magnitude_bits(right);
    let ea = a / EXPONENT_STEP;
    let eb = b / EXPONENT_STEP;
    let fa = a % EXPONENT_STEP;
    let fb = b % EXPONENT_STEP;
    assert(a == ea * EXPONENT_STEP + fa && b == eb * EXPONENT_STEP + fb) by {
        lemma_fundamental_div_mod(a as int, EXPONENT_STEP as int);
        lemma_fundamental_div_mod(b as int, EXPONENT_STEP as int);
    }
    assert(ea <= eb);
    if ea == eb {
        if ea > 0 {
            let p = pow2((ea - 1) as nat);
            lemma_pow2_pos((ea - 1) as nat);
            assert((EXPONENT_STEP + fa) * p < (EXPONENT_STEP + fb) * p) by (nonlinear_arith)
                requires
                    fa < fb,
                    p > 0,
            ;
        }
    } else {
        let q = pow2((eb - 1) as nat);
        lemma_pow2_pos((eb - 1) as nat);
        if ea == 0 {
            assert((EXPONENT_STEP + fb) * q >= EXPONENT_STEP) by (nonlinear_arith)
                requires
                    q >= 1,
                    fb >= 0,
            ;
        } else {
            let p = pow2((ea - 1) as nat);
            lemma_pow2_pos((ea - 1) as nat);
            lemma_pow2_adds((ea - 1) as nat, 1);
            lemma2_to64();
            assert(2 * p <= q) by {
                if ea < eb - 1 {
                    lemma_pow2_strictly_increases(ea as nat, (eb - 1) as nat);
                }
            }
            assert((EXPONENT_STEP + fa) * p < (EXPONENT_STEP + fb) * q) by (nonlinear_arith)
                requires
                    fa < EXPONENT_STEP,
                    fb >= 0,
                    2 * p <= q,
                    p > 0,
            ;
        }
    }
}

/// The pattern of all zeros is zero.
pub proof fn lemma_zero()
    ensures
        is_finite(0),
        value_units(0) == 0,
{
}

/// Whether one finite number is at most another; the two zeros are equal.
pub fn at_most(left: u64, right: u64) -> (holds: bool)
    requires
        is_finite(left),
        is_finite(right),
    ensures
        holds == (value_units(left) <= value_units(right)),
{
    let left_magnitude = magnitude(left);
    let right_magnitude = magnitude(right);
    proof {
        if left_magnitude < right_magnitude {
            lemma_magnitude_order(left, right);
        }
        if right_magnitude < left_magnitude {
            lemma_magnitude_order(right, left);
        }
        if left_magnitude > 0 {
            lemma_magnitude_order(0, left);
        }
        if right_magnitude > 0 {
            lemma_magnitude_order(0, right);
        }
    }
    if is_negative(left) {
        if is_negative(right) {
            right_magnitude <= left_magnitude
        } else {
            true
        }
    } else if is_negative(right) {
        left_magnitude == 0 && right_magnitude == 0
    } else {
        left_magnitude <= right_magnitude
    }
}

fn power_of_two(shift: u32) -> (power: u128)
    requires
        shift < 128,
    ensures
        power == pow2(shift as nat),
        power > 0,
{
    let mut power: u128 = 1;
    let mut count: u32 = 0;
    proof {
        lemma2_to64();
        lemma_pow2_big();
    }
    while count < shift
        invariant
            count <= shift < 128,
            power == pow2(count as nat),
            power > 0,
            pow2(128) == u128::MAX + 1,
        decreases shift - count,
    {
        proof {
            lemma_pow2_unfold((count + 1) as nat);
            if count + 1 < 128 {
                lemma_pow2_strictly_increases((count + 1) as nat, 128);
            }
        }
        power = power * 2;
        count = count + 1;
    }
    power
}

/// The product of `value` with a power of two, where it fits.
fn shifted(value: u128, shift: u32) -> (product: Option<u128>)
    ensures
        product == (if value * pow2(shift as nat) <= u128::MAX {
            Some((value * pow2(shift as nat)) as u128)
        } else {
            None
        }),
{
    proof {
        lemma_pow2_big();
        lemma_pow2_pos(shift as nat);
    }
    if value == 0 {
        return Some(0);
    }
    if shift >= 128 {
        proof {
            if shift > 128 {
                lemma_pow2_strictly_increases(128, shift as nat);
            }
            assert(value * pow2(shift as nat) >= pow2(shift as nat)) by (nonlinear_arith)
                requires
                    value >= 1,
                    pow2(shift as nat) >= 1,
            ;
        }
        return None;
    }
    value.checked_mul(power_of_two(shift))
}

proof fn lemma_units_shift(coefficient: nat, exponent: int, shift: nat)
    requires
        -DEPTH <= exponent,
    ensures
        coefficient * pow2((exponent + shift + DEPTH) as nat) == (coefficient * pow2(shift)) * pow2(
            (exponent + DEPTH) as nat,
        ),
{
    lemma_pow2_adds(shift, (exponent + DEPTH) as nat);
    let p = pow2(shift);
    let q = pow2((exponent + DEPTH) as nat);
    assert(coefficient * (p * q) == (coefficient * p) * q) by (nonlinear_arith);
}

/// How much greater one exponent is than another.
fn exponent_gap(greater: i32, smaller: i32) -> (gap: u32)
    requires
        greater >= smaller,
    ensures
        gap == greater - smaller,
{
    (greater as i64 - smaller as i64) as u32
}

/// Whether one number exceeds another.
fn exceeds(left: ExactDyadic, right: ExactDyadic) -> (greater: bool)
    ensures
        greater == (left.units() > right.units()),
{
    if left.binary_exponent >= right.binary_exponent {
        let shift: u32 = exponent_gap(left.binary_exponent, right.binary_exponent);
        let ghost q = pow2((right.binary_exponent + DEPTH) as nat);
        proof {
            lemma_pow2_pos((right.binary_exponent + DEPTH) as nat);
            lemma_units_shift(
                left.coefficient as nat,
                right.binary_exponent as int,
                shift as nat,
            );
            let a = left.coefficient * pow2(shift as nat);
            let b = right.coefficient as int;
            assert((a * q > b * q) == (a > b)) by (nonlinear_arith)
                requires
                    q > 0,
            ;
        }
        match shifted(left.coefficient, shift) {
            Some(aligned) => aligned > right.coefficient,
            None => true,
        }
    } else {
        let shift: u32 = exponent_gap(right.binary_exponent, left.binary_exponent);
        let ghost q = pow2((left.binary_exponent + DEPTH) as nat);
        proof {
            lemma_pow2_pos((left.binary_exponent + DEPTH) as nat);
            lemma_units_shift(
                right.coefficient as nat,
                left.binary_exponent as int,
                shift as nat,
            );
            let a = left.coefficient as int;
            let b = right.coefficient * pow2(shift as nat);
            assert((a * q > b * q) == (a > b)) by (nonlinear_arith)
                requires
                    q > 0,
            ;
        }
        match shifted(right.coefficient, shift) {
            Some(aligned) => left.coefficient > aligned,
            None => false,
        }
    }
}

/// Which of two numbers is greater.
pub open spec fn dyadic_order(left: ExactDyadic, right: ExactDyadic) -> Ordering {
    if left.units() < right.units() {
        Ordering::Less
    } else if left.units() > right.units() {
        Ordering::Greater
    } else {
        Ordering::Equal
    }
}

/// Compares two numbers, whatever their exponents.
pub fn compare_positive_dyadics(left: ExactDyadic, right: ExactDyadic) -> (order: Ordering)
    ensures
        order == dyadic_order(left, right),
{
    if exceeds(left, right) {
        Ordering::Greater
    } else if exceeds(right, left) {
        Ordering::Less
    } else {
        Ordering::Equal
    }
}

/// The units are exact: a number is its units divided by those of one.
pub proof fn law_units_are_exact(value: ExactDyadic)
    ensures
        value.binary_exponent >= 0 ==> value.units() == (value.coefficient * pow2(
            value.binary_exponent as nat,
        )) * whole_units(),
        value.binary_exponent < 0 ==> value.units() * pow2((-value.binary_exponent) as nat)
            == value.coefficient * whole_units(),
{
    if value.binary_exponent >= 0 {
        lemma_units_shift(value.coefficient as nat, 0, value.binary_exponent as nat);
    } else {
        let low = (value.binary_exponent + DEPTH) as nat;
        let high = (-value.binary_exponent) as nat;
        lemma_pow2_adds(low, high);
        assert((value.coefficient * pow2(low)) * pow2(high) == value.coefficient * (pow2(low)
            * pow2(high))) by (nonlinear_arith);
    }
}

/// Rounding up gives the one integer that is at least the number and less than one more than it.
pub proof fn law_rounding_up_is_least(number: int, scale: int)
    requires
        scale > 0,
    ensures
        (ceil_div(number, scale) - 1) * scale < number <= ceil_div(number, scale) * scale,
{
    let whole = ceil_div(number, scale);
    lemma_fundamental_div_mod(number + scale - 1, scale);
    assert((whole - 1) * scale == whole * scale - scale) by (nonlinear_arith);
    assert(scale * whole == whole * scale) by (nonlinear_arith);
}

/// On an exponent that is no greater than those of both numbers, their order is that of their
/// coefficients.
pub proof fn law_order_of_coefficients(left: ExactDyadic, right: ExactDyadic, exponent: i32)
    requires
        exponent <= left.binary_exponent,
        exponent <= right.binary_exponent,
    ensures
        left.units() < right.units() <==> left.coefficient * pow2(
            (left.binary_exponent - exponent) as nat,
        ) < right.coefficient * pow2((right.binary_exponent - exponent) as nat),
        left.units() == right.units() <==> left.coefficient * pow2(
            (left.binary_exponent - exponent) as nat,
        ) == right.coefficient * pow2((right.binary_exponent - exponent) as nat),
{
    let left_shift = (left.binary_exponent - exponent) as nat;
    let right_shift = (right.binary_exponent - exponent) as nat;
    let left_coefficient = left.coefficient * pow2(left_shift);
    let right_coefficient = right.coefficient * pow2(right_shift);
    let scale = pow2((exponent + DEPTH) as nat);
    lemma_units_shift(left.coefficient as nat, exponent as int, left_shift);
    lemma_units_shift(right.coefficient as nat, exponent as int, right_shift);
    lemma_pow2_pos((exponent + DEPTH) as nat);
    assert((left_coefficient * scale < right_coefficient * scale) == (left_coefficient
        < right_coefficient)) by (nonlinear_arith)
        requires
            scale > 0,
    ;
    assert((left_coefficient * scale == right_coefficient * scale) == (left_coefficient
        == right_coefficient)) by (nonlinear_arith)
        requires
            scale > 0,
    ;
}

proof fn lemma_halved_coefficient(left: ExactDyadic, right: ExactDyadic)
    requires
        left.coefficient == 2 * right.coefficient,
        left.binary_exponent + 1 == right.binary_exponent,
    ensures
        left.units() == right.units(),
{
    lemma_pow2_unfold((right.binary_exponent + DEPTH) as nat);
    let scale = pow2((left.binary_exponent + DEPTH) as nat);
    assert((2 * right.coefficient) * scale == right.coefficient * (2 * scale)) by (nonlinear_arith);
}

/// A number equals itself with half the coefficient and the next exponent.
pub proof fn law_halved_coefficient(left: ExactDyadic, right: ExactDyadic)
    requires
        left.coefficient == 2 * right.coefficient,
        left.binary_exponent + 1 == right.binary_exponent,
    ensures
        dyadic_order(left, right) == Ordering::Equal,
{
    lemma_halved_coefficient(left, right);
}

/// All zeros are equal, and below every other number.
pub proof fn law_zeros_are_equal(left: ExactDyadic, right: ExactDyadic)
    requires
        left.coefficient == 0,
    ensures
        dyadic_order(left, right) == if right.coefficient == 0 {
            Ordering::Equal
        } else {
            Ordering::Less
        },
{
    lemma_no_units(left);
    lemma_no_units(right);
}

/// Swapping two numbers reverses their order.
pub proof fn law_order_reverses(left: ExactDyadic, right: ExactDyadic)
    ensures
        dyadic_order(left, right) == Ordering::Less <==> dyadic_order(right, left)
            == Ordering::Greater,
        dyadic_order(left, right) == Ordering::Equal <==> dyadic_order(right, left)
            == Ordering::Equal,
        dyadic_order(left, left) == Ordering::Equal,
{
}

/// Only zero has no units.
proof fn lemma_no_units(value: ExactDyadic)
    ensures
        value.units() == 0 <==> value.coefficient == 0,
{
    let scale = pow2((value.binary_exponent + DEPTH) as nat);
    lemma_pow2_pos((value.binary_exponent + DEPTH) as nat);
    assert((value.coefficient * scale == 0) == (value.coefficient == 0)) by (nonlinear_arith)
        requires
            scale > 0,
    ;
}

/// The integer part, where it fits, and the fraction, which is below one.
pub fn integer_and_fraction(value: ExactDyadic) -> (parts: (Option<u128>, ExactDyadic))
    requires
        value.divisible(),
    ensures
        parts.0 == (if value.floor() <= u128::MAX {
            Some(value.floor() as u128)
        } else {
            None
        }),
        parts.1.units() == value.units() % whole_units(),
        parts.1.coefficient == 0 <==> value.units() % whole_units() == 0,
        parts.1.coefficient <= value.coefficient,
        parts.1.divisible(),
{
    proof {
        lemma_pow2_pos(DEPTH as nat);
        lemma_pow2_pos((value.binary_exponent + DEPTH) as nat);
    }
    if value.coefficient == 0 {
        proof {
            assert(0 * pow2((value.binary_exponent + DEPTH) as nat) == 0);
            assert(0 * pow2(DEPTH as nat) == 0);
            lemma_fundamental_div_mod_converse(0, whole_units() as int, 0, 0);
        }
        return (Some(0), ExactDyadic { coefficient: 0, binary_exponent: 0 });
    }
    if value.binary_exponent >= 0 {
        let shift: u32 = value.binary_exponent as u32;
        proof {
            lemma_units_shift(value.coefficient as nat, 0, shift as nat);
            let whole = value.coefficient * pow2(shift as nat);
            assert(value.units() == whole * whole_units());
            lemma_fundamental_div_mod_converse(
                value.units() as int,
                whole_units() as int,
                whole as int,
                0,
            );
        }
        assert(0 * pow2(DEPTH as nat) == 0);
        return (
            shifted(value.coefficient, shift),
            ExactDyadic { coefficient: 0, binary_exponent: 0 },
        );
    }
    let shift: u32 = (-value.binary_exponent) as u32;
    let ghost p = pow2(shift as nat);
    let ghost m = pow2((DEPTH - shift) as nat);
    proof {
        lemma_pow2_adds(shift as nat, (DEPTH - shift) as nat);
        lemma_pow2_pos(shift as nat);
        lemma_pow2_pos((DEPTH - shift) as nat);
        assert(value.units() == value.coefficient * m);
        assert(whole_units() == m * p) by (nonlinear_arith)
            requires
                whole_units() == p * m,
        ;
        assert(value.coefficient * m == m * value.coefficient) by (nonlinear_arith);
        lemma_div_multiples_vanish_quotient(m as int, value.coefficient as int, p as int);
        lemma_truncate_middle(value.coefficient as int, m as int, p as int);
        assert(m * (value.coefficient as int % p as int) == (value.coefficient as int % p as int)
            * m) by (nonlinear_arith);
    }
    if shift >= 128 {
        proof {
            lemma_pow2_big();
            if shift > 128 {
                lemma_pow2_strictly_increases(128, shift as nat);
            }
            lemma_fundamental_div_mod_converse(
                value.coefficient as int,
                p as int,
                0,
                value.coefficient as int,
            );
        }
        proof {
            lemma_no_units(value);
        }
        return (Some(0), value);
    }
    let power: u128 = power_of_two(shift);
    proof {
        lemma_no_units(
            ExactDyadic {
                coefficient: value.coefficient % power,
                binary_exponent: value.binary_exponent,
            },
        );
        assert(value.coefficient as int / p as int <= value.coefficient) by (nonlinear_arith)
            requires
                p >= 1,
        ;
        assert(value.coefficient as int % p as int <= value.coefficient) by (nonlinear_arith)
            requires
                p >= 1,
        ;
    }
    (
        Some(value.coefficient / power),
        ExactDyadic {
            coefficient: value.coefficient % power,
            binary_exponent: value.binary_exponent,
        },
    )
}

proof fn lemma_ceil(whole: int, rest: int, divisor: int)
    requires
        divisor > 0,
        0 <= rest <= 2 * divisor,
    ensures
        ceil_div(whole * divisor + rest, divisor) == whole + (if rest == 0 {
            0int
        } else if rest <= divisor {
            1
        } else {
            2
        }),
{
    let extra: int = if rest == 0 {
        0
    } else if rest <= divisor {
        1
    } else {
        2
    };
    let total = whole * divisor + rest + divisor - 1;
    let left = rest + divisor - 1 - extra * divisor;
    assert(total == (whole + extra) * divisor + left) by (nonlinear_arith)
        requires
            total == whole * divisor + rest + divisor - 1,
            left == rest + divisor - 1 - extra * divisor,
    ;
    assert(0 <= left < divisor) by (nonlinear_arith)
        requires
            divisor > 0,
            0 <= rest <= 2 * divisor,
            extra == (if rest == 0 {
                0int
            } else if rest <= divisor {
                1int
            } else {
                2int
            }),
            left == rest + divisor - 1 - extra * divisor,
    ;
    lemma_fundamental_div_mod_converse(total, divisor, whole + extra, left);
}

/// Whether two fractions below one add up to more than one.
fn fractions_exceed_one(left: ExactDyadic, right: ExactDyadic) -> (exceeding: bool)
    requires
        left.units() < whole_units(),
        right.units() < whole_units(),
        left.coefficient < 0x80000_00000000_00000000,
        right.coefficient < 0x80000_00000000_00000000,
    ensures
        exceeding == (left.units() + right.units() > whole_units()),
{
    if left.coefficient == 0 || right.coefficient == 0 {
        proof {
            assert(0 * pow2((left.binary_exponent + DEPTH) as nat) == 0);
            assert(0 * pow2((right.binary_exponent + DEPTH) as nat) == 0);
        }
        return false;
    }
    if left.binary_exponent <= -128 && right.binary_exponent <= -128 {
        proof {
            lemma_small(left);
            lemma_small(right);
        }
        return false;
    }
    if left.binary_exponent > -128 {
        let complement = complement_to_one(left);
        exceeds(right, complement)
    } else {
        let complement = complement_to_one(right);
        exceeds(left, complement)
    }
}

/// A small coefficient over a large denominator is at most one half.
proof fn lemma_small(value: ExactDyadic)
    requires
        value.binary_exponent <= -128,
        value.coefficient < 0x80000_00000000_00000000,
    ensures
        2 * value.units() <= whole_units(),
{
    lemma_pow2_big();
    let e = (value.binary_exponent + DEPTH) as nat;
    lemma_pow2_pos(e);
    if e < DEPTH - 128 {
        lemma_pow2_strictly_increases(e, (DEPTH - 128) as nat);
    }
    lemma_pow2_adds(83, (DEPTH - 128) as nat);
    lemma_pow2_strictly_increases((DEPTH - 45) as nat, (DEPTH - 1) as nat);
    lemma_pow2_unfold(DEPTH as nat);
    let p = pow2(e);
    let q = pow2((DEPTH - 128) as nat);
    assert(value.coefficient * p <= pow2(83) * q) by (nonlinear_arith)
        requires
            value.coefficient < pow2(83),
            p <= q,
            p >= 0,
    ;
}

fn complement_to_one(value: ExactDyadic) -> (complement: ExactDyadic)
    requires
        value.units() < whole_units(),
        value.binary_exponent > -128,
        value.coefficient > 0,
    ensures
        complement.units() == whole_units() - value.units(),
{
    proof {
        if value.binary_exponent >= 0 {
            lemma_units_shift(value.coefficient as nat, 0, value.binary_exponent as nat);
            lemma_pow2_pos(value.binary_exponent as nat);
            lemma_pow2_pos(DEPTH as nat);
            assert((value.coefficient * pow2(value.binary_exponent as nat)) * pow2(DEPTH as nat)
                >= pow2(DEPTH as nat)) by (nonlinear_arith)
                requires
                    value.coefficient >= 1,
                    pow2(value.binary_exponent as nat) >= 1,
                    pow2(DEPTH as nat) >= 1,
            ;
        }
    }
    let shift: u32 = (-value.binary_exponent) as u32;
    let power: u128 = power_of_two(shift);
    let ghost m = pow2((DEPTH - shift) as nat);
    proof {
        lemma_pow2_adds(shift as nat, (DEPTH - shift) as nat);
        lemma_pow2_pos((DEPTH - shift) as nat);
        assert(value.coefficient < power) by (nonlinear_arith)
            requires
                value.coefficient * m < power * m,
        ;
        assert((power - value.coefficient) * m == power * m - value.coefficient * m)
            by (nonlinear_arith);
    }
    ExactDyadic { coefficient: power - value.coefficient, binary_exponent: value.binary_exponent }
}

/// The sum of two numbers, rounded up, where it fits.
pub fn ceil_sum(left: ExactDyadic, right: ExactDyadic) -> (total: Option<u128>)
    requires
        left.divisible(),
        right.divisible(),
        left.coefficient < 0x80000_00000000_00000000,
        right.coefficient < 0x80000_00000000_00000000,
    ensures
        ({
            let exact = ceil_div((left.units() + right.units()) as int, whole_units() as int);
            total == if exact <= u128::MAX {
                Some(exact as u128)
            } else {
                None
            }
        }),
{
    let (left_integer, left_fraction) = integer_and_fraction(left);
    let (right_integer, right_fraction) = integer_and_fraction(right);
    let ghost one = whole_units() as int;
    let ghost rest = (left_fraction.units() + right_fraction.units()) as int;
    let ghost whole = (left.floor() + right.floor()) as int;
    proof {
        lemma_pow2_pos(DEPTH as nat);
        lemma_fundamental_div_mod(left.units() as int, one);
        lemma_fundamental_div_mod(right.units() as int, one);
        lemma_pow2_pos((left_fraction.binary_exponent + DEPTH) as nat);
        lemma_pow2_pos((right_fraction.binary_exponent + DEPTH) as nat);
        assert(left.units() + right.units() == whole * one + rest) by (nonlinear_arith)
            requires
                left.units() == one * left.floor() + left_fraction.units(),
                right.units() == one * right.floor() + right_fraction.units(),
                whole == left.floor() + right.floor(),
                rest == left_fraction.units() + right_fraction.units(),
        ;
        lemma_ceil(whole, rest, one);
        assert((left_fraction.units() == 0) == (left_fraction.coefficient == 0))
            by (nonlinear_arith)
            requires
                left_fraction.units() == left_fraction.coefficient * pow2(
                    (left_fraction.binary_exponent + DEPTH) as nat,
                ),
                pow2((left_fraction.binary_exponent + DEPTH) as nat) > 0,
        ;
        assert((right_fraction.units() == 0) == (right_fraction.coefficient == 0))
            by (nonlinear_arith)
            requires
                right_fraction.units() == right_fraction.coefficient * pow2(
                    (right_fraction.binary_exponent + DEPTH) as nat,
                ),
                pow2((right_fraction.binary_exponent + DEPTH) as nat) > 0,
        ;
    }
    match (left_integer, right_integer) {
        (Some(left_integer), Some(right_integer)) => {
            match left_integer.checked_add(right_integer) {
                Some(integer_sum) => {
                    let rounding: u128 = if left_fraction.coefficient == 0
                        && right_fraction.coefficient == 0 {
                        0
                    } else if left_fraction.coefficient == 0 || right_fraction.coefficient == 0 {
                        1
                    } else if fractions_exceed_one(left_fraction, right_fraction) {
                        2
                    } else {
                        1
                    };
                    integer_sum.checked_add(rounding)
                },
                None => None,
            }
        },
        _ => None,
    }
}

/// The coefficient that a number has with a smaller exponent, where it fits.
fn aligned(value: ExactDyadic, exponent: i32) -> (coefficient: Option<u128>)
    requires
        exponent <= value.binary_exponent,
    ensures
        coefficient == (if value.aligns(exponent as int) {
            Some(
                (value.coefficient * pow2((value.binary_exponent - exponent) as nat)) as u128,
            )
        } else {
            None
        }),
{
    let shift: u32 = exponent_gap(value.binary_exponent, exponent);
    if shift >= 128 {
        return None;
    }
    shifted(value.coefficient, shift)
}

/// The difference of two numbers with their common exponent, in units.
proof fn lemma_aligned_difference(larger: ExactDyadic, smaller: ExactDyadic)
    requires
        larger.units() >= smaller.units(),
        common_exponent(larger, smaller) >= 0,
    ensures
        ({
            let common = common_exponent(larger, smaller);
            let large = larger.coefficient * pow2((larger.binary_exponent - common) as nat);
            let small = smaller.coefficient * pow2((smaller.binary_exponent - common) as nat);
            &&& large >= small
            &&& ceil_div(larger.units() - smaller.units(), whole_units() as int) == (large - small)
                * pow2(common as nat)
            &&& larger.units() == (large * pow2(common as nat)) * whole_units()
        }),
{
    let common = common_exponent(larger, smaller);
    let step = pow2(common as nat);
    let large = larger.coefficient * pow2((larger.binary_exponent - common) as nat);
    let small = smaller.coefficient * pow2((smaller.binary_exponent - common) as nat);
    let one = whole_units() as int;
    lemma_pow2_pos(DEPTH as nat);
    lemma_units_shift(
        larger.coefficient as nat,
        common,
        (larger.binary_exponent - common) as nat,
    );
    lemma_units_shift(
        smaller.coefficient as nat,
        common,
        (smaller.binary_exponent - common) as nat,
    );
    lemma_pow2_adds(common as nat, DEPTH as nat);
    lemma_pow2_pos(common as nat);
    lemma_pow2_pos((common + DEPTH) as nat);
    let scale = pow2((common + DEPTH) as nat) as int;
    assert(larger.units() == large * scale && smaller.units() == small * scale);
    assert(scale == step * one);
    assert(larger.units() - smaller.units() == ((large - small) * step) * one + 0)
        by (nonlinear_arith)
        requires
            larger.units() == large * scale,
            smaller.units() == small * scale,
            scale == step * one,
    ;
    assert(larger.units() == (large * step) * one) by (nonlinear_arith)
        requires
            larger.units() == large * scale,
            scale == step * one,
    ;
    lemma_ceil((large - small) * step, 0, one);
    assert(large >= small) by (nonlinear_arith)
        requires
            large * scale >= small * scale,
            scale > 0,
    ;
}

/// `larger - smaller` on their common exponent, where that is not negative and every step fits.
fn shifted_difference(larger: ExactDyadic, smaller: ExactDyadic) -> (difference: Option<u128>)
    requires
        larger.units() >= smaller.units(),
    ensures
        ({
            let common = common_exponent(larger, smaller);
            let exact = ceil_div(larger.units() - smaller.units(), whole_units() as int);
            difference == if common >= 0 && larger.aligns(common) && smaller.aligns(common)
                && exact <= u128::MAX {
                Some(exact as u128)
            } else {
                None
            }
        }),
{
    let common: i32 = if larger.binary_exponent < smaller.binary_exponent {
        larger.binary_exponent
    } else {
        smaller.binary_exponent
    };
    if common < 0 {
        return None;
    }
    proof {
        lemma_aligned_difference(larger, smaller);
    }
    match (aligned(larger, common), aligned(smaller, common)) {
        (Some(aligned_larger), Some(aligned_smaller)) => {
            shifted(aligned_larger - aligned_smaller, common as u32)
        },
        _ => None,
    }
}

/// A number of 2^128 or more with a small coefficient has a positive exponent.
proof fn lemma_large_exponent(value: ExactDyadic)
    requires
        value.floor() > u128::MAX,
        value.coefficient < 0x80000_00000000_00000000,
    ensures
        value.binary_exponent > 0,
{
    lemma_pow2_pos(DEPTH as nat);
    if value.binary_exponent <= 0 {
        let e = (value.binary_exponent + DEPTH) as nat;
        lemma_pow2_pos(e);
        if e < DEPTH {
            lemma_pow2_strictly_increases(e, DEPTH as nat);
        }
        let p = pow2(e);
        let one = whole_units();
        assert(value.units() < 0x80000_00000000_00000000 * one) by (nonlinear_arith)
            requires
                value.units() == value.coefficient * p,
                value.coefficient < 0x80000_00000000_00000000,
                0 < p <= one,
        ;
        lemma_fundamental_div_mod(value.units() as int, one as int);
        assert(value.floor() < 0x80000_00000000_00000000) by (nonlinear_arith)
            requires
                value.units() < 0x80000_00000000_00000000 * one,
                value.units() >= one * value.floor(),
                one > 0,
        ;
    }
}

/// With small coefficients, numbers that are 2^128 apart at most align on their common exponent if
/// and only if the smaller has a positive one.
proof fn lemma_far_numbers(larger: ExactDyadic, smaller: ExactDyadic)
    requires
        larger.units() >= smaller.units(),
        larger.floor() > u128::MAX,
        larger.coefficient < 0x80000_00000000_00000000,
        smaller.coefficient < 0x80000_00000000_00000000,
        smaller.coefficient > 0 || smaller.binary_exponent <= 0,
        ceil_div(larger.units() - smaller.units(), whole_units() as int) <= u128::MAX,
    ensures
        ({
            let common = common_exponent(larger, smaller);
            common >= 0 && larger.aligns(common) && smaller.aligns(common)
        }) <==> smaller.binary_exponent > 0,
{
    let common = common_exponent(larger, smaller);
    lemma_large_exponent(larger);
    lemma_pow2_big();
    lemma2_to64();
    lemma_pow2_pos(DEPTH as nat);
    if common >= 0 {
        lemma_aligned_difference(larger, smaller);
        let large = larger.coefficient * pow2((larger.binary_exponent - common) as nat);
        let small = smaller.coefficient * pow2((smaller.binary_exponent - common) as nat);
        let step = pow2(common as nat);
        if common == 0 {
            assert(large * 1 == large);
            lemma_fundamental_div_mod_converse(
                larger.units() as int,
                whole_units() as int,
                large,
                0,
            );
        } else if common == larger.binary_exponent {
            assert(larger.coefficient * 1 == larger.coefficient);
            let gap = (smaller.binary_exponent - common) as nat;
            lemma_pow2_pos(gap);
            assert(small >= pow2(gap)) by (nonlinear_arith)
                requires
                    small == smaller.coefficient * pow2(gap),
                    smaller.coefficient >= 1,
                    pow2(gap) >= 1,
            ;
            if gap > 128 {
                lemma_pow2_strictly_increases(128, gap);
            }
        } else {
            assert(smaller.coefficient * 1 == smaller.coefficient);
            let gap = (larger.binary_exponent - common) as nat;
            lemma_pow2_unfold(common as nat);
            lemma_pow2_pos((common - 1) as nat);
            lemma_pow2_pos(gap);
            if !larger.aligns(common) {
                if gap > 128 {
                    lemma_pow2_strictly_increases(128, gap);
                }
                assert(larger.coefficient > 0) by {
                    if larger.coefficient == 0 {
                        lemma_no_units(larger);
                        lemma_fundamental_div_mod_converse(0, whole_units() as int, 0, 0);
                    }
                }
                assert(large >= pow2(gap)) by (nonlinear_arith)
                    requires
                        large == larger.coefficient * pow2(gap),
                        larger.coefficient >= 1,
                        pow2(gap) >= 1,
                ;
                assert(large > u128::MAX);
                assert((large - small) * step > u128::MAX) by (nonlinear_arith)
                    requires
                        large > u128::MAX,
                        small < 0x80000_00000000_00000000,
                        step >= 2,
                ;
            }
        }
    }
}

/// The difference of two numbers, rounded up, where it fits: the exact difference is rounded once.
/// A larger number of 2^128 or more must be written, as the smaller one, with their common exponent
/// in as many bits.
pub fn ceil_difference(larger: ExactDyadic, smaller: ExactDyadic) -> (difference: Option<u128>)
    requires
        larger.divisible(),
        smaller.divisible(),
        larger.units() >= smaller.units(),
    ensures
        ({
            let common = common_exponent(larger, smaller);
            let exact = ceil_div(larger.units() - smaller.units(), whole_units() as int);
            difference == if exact <= u128::MAX && (larger.floor() <= u128::MAX || (common >= 0
                && larger.aligns(common) && smaller.aligns(common))) {
                Some(exact as u128)
            } else {
                None
            }
        }),
        larger.units() == smaller.units() && larger.floor() <= u128::MAX ==> difference == Some(
            0u128,
        ),
{
    proof {
        lemma_pow2_pos(DEPTH as nat);
        lemma_ceil(0, 0, whole_units() as int);
    }
    let (larger_integer, larger_fraction) = integer_and_fraction(larger);
    let (smaller_integer, smaller_fraction) = integer_and_fraction(smaller);
    let ghost one = whole_units() as int;
    proof {
        lemma_pow2_pos(DEPTH as nat);
        lemma_fundamental_div_mod(larger.units() as int, one);
        lemma_fundamental_div_mod(smaller.units() as int, one);
        vstd::arithmetic::div_mod::lemma_div_is_ordered(
            smaller.units() as int,
            larger.units() as int,
            one,
        );
        let whole = larger.floor() - smaller.floor();
        let rest = larger_fraction.units() - smaller_fraction.units();
        assert(larger.units() - smaller.units() == whole * one + rest) by (nonlinear_arith)
            requires
                larger.units() == one * larger.floor() + larger_fraction.units(),
                smaller.units() == one * smaller.floor() + smaller_fraction.units(),
                whole == larger.floor() - smaller.floor(),
                rest == larger_fraction.units() - smaller_fraction.units(),
        ;
        if rest >= 0 {
            lemma_ceil(whole, rest, one);
        } else {
            assert(whole * one + rest == (whole - 1) * one + (one + rest)) by (nonlinear_arith);
            lemma_ceil(whole - 1, one + rest, one);
        }
    }
    match (larger_integer, smaller_integer) {
        (Some(larger_integer), Some(smaller_integer)) => {
            let rounding: u128 = if exceeds(larger_fraction, smaller_fraction) {
                1
            } else {
                0
            };
            (larger_integer - smaller_integer).checked_add(rounding)
        },
        _ => shifted_difference(larger, smaller),
    }
}

/// The absolute value of a number of seconds, in nanoseconds.
pub fn scaled_abs_nanoseconds(bits: u64) -> (scaled: ExactDyadic)
    requires
        is_finite(bits),
    ensures
        -1074 <= scaled.binary_exponent <= 971,
        scaled.units() == magnitude_units(bits) * NANOS_PER_SECOND * pow2((DEPTH - 1074) as nat),
        scaled.coefficient < 0x80000_00000000_00000000,
        scaled.coefficient > 0 || scaled.binary_exponent <= 0,
        scaled.binary_exponent > 0 <==> magnitude_bits(bits) / EXPONENT_STEP > 1075,
{
    let magnitude: u64 = magnitude(bits);
    let exponent: u64 = magnitude / EXPONENT_STEP;
    let fraction: u64 = magnitude % EXPONENT_STEP;
    let (significand, binary_exponent): (u64, i32) = if exponent == 0 {
        (fraction, -1074)
    } else {
        (EXPONENT_STEP + fraction, exponent as i32 - 1075)
    };
    let coefficient: u128 = significand as u128 * NANOS_PER_SECOND;
    let scaled = ExactDyadic { coefficient, binary_exponent };
    proof {
        lemma2_to64();
        let p = pow2((binary_exponent + 1074) as nat);
        let q = pow2((DEPTH - 1074) as nat);
        lemma_pow2_adds((binary_exponent + 1074) as nat, (DEPTH - 1074) as nat);
        assert((significand * NANOS_PER_SECOND) * (p * q) == (significand * p) * NANOS_PER_SECOND
            * q) by (nonlinear_arith);
        assert(coefficient == significand * NANOS_PER_SECOND);
        if exponent == 0 {
            assert((binary_exponent + 1074) as nat == 0);
            assert(significand * 1 == significand);
        }
    }
    scaled
}

/// How many nanoseconds, rounded up, `terminal` seconds come after `timeline` seconds: none where
/// they do not.
///
/// The difference of the two numbers is exact before it is rounded. There is no answer where a
/// number is not finite, where the answer passes 128 bits, or where two numbers of one sign are so
/// far apart that the one of greater magnitude passes 128 bits of nanoseconds while the other is
/// below 2^53 seconds.
pub open spec fn nanoseconds_until(timeline: u64, terminal: u64) -> Option<u128> {
    if !is_finite(timeline) || !is_finite(terminal) {
        None
    } else if value_units(terminal) <= value_units(timeline) {
        Some(0)
    } else {
        let exact = ceil_div(
            (value_units(terminal) - value_units(timeline)) * NANOS_PER_SECOND,
            unit_scale() as int,
        );
        let (greater, lesser) = if is_negative(timeline) {
            (timeline, terminal)
        } else {
            (terminal, timeline)
        };
        if exact > u128::MAX {
            None
        } else if is_negative(timeline) == is_negative(terminal) && (magnitude_units(greater)
            * NANOS_PER_SECOND) / (unit_scale() as int) > u128::MAX && magnitude_bits(lesser) / EXPONENT_STEP
            <= 1075 {
            None
        } else {
            Some(exact as u128)
        }
    }
}

/// A deadline is never early and less than one nanosecond late: the answer covers the exact
/// difference, and one nanosecond less would not.
pub proof fn law_deadline_is_exact(timeline: u64, terminal: u64)
    requires
        nanoseconds_until(timeline, terminal) is Some,
        value_units(timeline) < value_units(terminal),
    ensures
        ({
            let nanos = nanoseconds_until(timeline, terminal)->0 as int;
            let exact = (value_units(terminal) - value_units(timeline)) * NANOS_PER_SECOND;
            &&& 0 < nanos
            &&& exact <= nanos * unit_scale()
            &&& (nanos - 1) * unit_scale() < exact
        }),
{
    let exact = (value_units(terminal) - value_units(timeline)) * NANOS_PER_SECOND;
    let scale = unit_scale() as int;
    let nanos = ceil_div(exact, scale);
    lemma_pow2_pos(1074);
    lemma_fundamental_div_mod(exact + scale - 1, scale);
    assert(exact > 0) by (nonlinear_arith)
        requires
            exact == (value_units(terminal) - value_units(timeline)) * NANOS_PER_SECOND,
            value_units(terminal) > value_units(timeline),
            NANOS_PER_SECOND > 0,
    ;
    assert(exact <= nanos * scale && (nanos - 1) * scale < exact && nanos > 0)
        by (nonlinear_arith)
        requires
            exact + scale - 1 == scale * nanos + (exact + scale - 1) % scale,
            0 <= (exact + scale - 1) % scale < scale,
            scale > 0,
            exact > 0,
    ;
}

/// Units of double-precision numbers as the smallest units.
spec fn rescaled(units: int) -> int {
    units * pow2((DEPTH - 1074) as nat)
}

/// A rounded number does not depend on the units that it was counted in.
proof fn lemma_rescaled(units: int)
    requires
        units >= 0,
    ensures
        ceil_div(rescaled(units), whole_units() as int) == ceil_div(units, unit_scale() as int),
        rescaled(units) / (whole_units() as int) == units / (unit_scale() as int),
{
    let scale = unit_scale() as int;
    let factor = pow2((DEPTH - 1074) as nat) as int;
    lemma_pow2_adds(1074, (DEPTH - 1074) as nat);
    lemma_pow2_pos(1074);
    lemma_pow2_pos((DEPTH - 1074) as nat);
    assert(whole_units() == factor * scale) by (nonlinear_arith)
        requires
            whole_units() == scale * factor,
    ;
    assert(rescaled(units) == factor * units) by (nonlinear_arith)
        requires
            rescaled(units) == units * factor,
    ;
    lemma_div_multiples_vanish_quotient(factor, units, scale);
    lemma_fundamental_div_mod(units, scale);
    let whole = units / scale;
    let rest = units % scale;
    assert(rescaled(units) == whole * (factor * scale) + factor * rest) by (nonlinear_arith)
        requires
            rescaled(units) == factor * units,
            units == scale * whole + rest,
    ;
    assert(units == whole * scale + rest) by (nonlinear_arith)
        requires
            units == scale * whole + rest,
    ;
    assert(0 <= factor * rest <= 2 * (factor * scale)) by (nonlinear_arith)
        requires
            0 <= rest < scale,
            factor > 0,
    ;
    assert((factor * rest == 0) == (rest == 0)) by (nonlinear_arith)
        requires
            factor > 0,
    ;
    assert(factor * rest <= factor * scale) by (nonlinear_arith)
        requires
            0 <= rest < scale,
            factor > 0,
    ;
    assert(factor * scale > 0) by (nonlinear_arith)
        requires
            factor > 0,
            scale > 0,
    ;
    lemma_ceil(whole, factor * rest, factor * scale);
    lemma_ceil(whole, rest, scale);
}

proof fn lemma_scaled_order(left: int, right: int)
    ensures
        left >= right ==> rescaled(left) >= rescaled(right),
        rescaled(left) - rescaled(right) == rescaled(left - right),
        rescaled(left) + rescaled(right) == rescaled(left + right),
{
    let factor = pow2((DEPTH - 1074) as nat) as int;
    lemma_pow2_pos((DEPTH - 1074) as nat);
    assert(left * factor - right * factor == (left - right) * factor) by (nonlinear_arith);
    assert(left * factor + right * factor == (left + right) * factor) by (nonlinear_arith);
    assert(left >= right ==> left * factor >= right * factor) by (nonlinear_arith)
        requires
            factor > 0,
    ;
}

/// What the difference of two scaled numbers comes to.
proof fn lemma_nearby_or_far(
    larger: ExactDyadic,
    smaller: ExactDyadic,
    larger_units: int,
    smaller_units: int,
)
    requires
        larger_units >= smaller_units >= 0,
        larger.units() == rescaled(larger_units),
        smaller.units() == rescaled(smaller_units),
        larger.coefficient < 0x80000_00000000_00000000,
        smaller.coefficient < 0x80000_00000000_00000000,
        smaller.coefficient > 0 || smaller.binary_exponent <= 0,
    ensures
        larger.units() >= smaller.units(),
        ceil_div(larger.units() - smaller.units(), whole_units() as int) == ceil_div(
            larger_units - smaller_units,
            unit_scale() as int,
        ),
        larger.floor() == larger_units / (unit_scale() as int),
        larger.floor() > u128::MAX && ceil_div(
            larger_units - smaller_units,
            unit_scale() as int,
        ) <= u128::MAX ==> ((common_exponent(larger, smaller) >= 0 && larger.aligns(
            common_exponent(larger, smaller),
        ) && smaller.aligns(common_exponent(larger, smaller))) <==> smaller.binary_exponent > 0),
{
    lemma_scaled_order(larger_units, smaller_units);
    lemma_rescaled(larger_units - smaller_units);
    lemma_rescaled(larger_units);
    if larger.floor() > u128::MAX && ceil_div(
        larger_units - smaller_units,
        unit_scale() as int,
    ) <= u128::MAX {
        lemma_far_numbers(larger, smaller);
    }
}

/// Computes [`nanoseconds_until`].
pub fn exact_difference_ceiling_nanos(timeline: u64, terminal: u64) -> (nanos: Option<u128>)
    ensures
        nanos == nanoseconds_until(timeline, terminal),
{
    if !is_finite(timeline) || !is_finite(terminal) {
        return None;
    }
    if at_most(terminal, timeline) {
        return Some(0);
    }
    let timeline_nanos = scaled_abs_nanoseconds(timeline);
    let terminal_nanos = scaled_abs_nanoseconds(terminal);
    proof {
        let a = magnitude_units(terminal) as int;
        let b = magnitude_units(timeline) as int;
        let n = NANOS_PER_SECOND as int;
        assert((a - b) * n == a * n - b * n) by (nonlinear_arith);
        assert((b - a) * n == b * n - a * n) by (nonlinear_arith);
        assert((a + b) * n == a * n + b * n) by (nonlinear_arith);
        assert((a >= b) ==> (a * n >= b * n)) by (nonlinear_arith)
            requires
                n > 0,
        ;
        assert((b >= a) ==> (b * n >= a * n)) by (nonlinear_arith)
            requires
                n > 0,
        ;
        lemma_scaled_order(a * n, b * n);
        lemma_scaled_order(b * n, a * n);
        if is_negative(timeline) != is_negative(terminal) {
            lemma_rescaled(a * n + b * n);
        } else if is_negative(timeline) {
            lemma_nearby_or_far(timeline_nanos, terminal_nanos, b * n, a * n);
        } else {
            lemma_nearby_or_far(terminal_nanos, timeline_nanos, a * n, b * n);
        }
    }
    if is_negative(timeline) {
        if is_negative(terminal) {
            ceil_difference(timeline_nanos, terminal_nanos)
        } else {
            ceil_sum(terminal_nanos, timeline_nanos)
        }
    } else {
        ceil_difference(terminal_nanos, timeline_nanos)
    }
}

} // verus!
