//! Points accrual: how many points one swap earns.
//!
//! A swap is described by its direction (`zero_for_one`: token0 is sold), a
//! signed `amount_specified` whose sign encodes whether the caller fixed the
//! exact input (negative) or the exact output (positive), and the realized
//! signed delta of token0. The two directions key off different sign
//! conventions on purpose: that asymmetry is observed engine behaviour and is
//! kept as it stands.

use vstd::prelude::*;

use crate::Error;

verus! {

/// Magnitude of a signed quantity.
pub open spec fn abs_val(x: int) -> int {
    if x >= 0 { x } else { -x }
}

/// Points earned from one swap, as a mathematical function of its signed
/// trade parameters.
///
/// Selling token0 (`zero_for_one`): a negative `amount_specified` is an exact
/// input on the sold token and is counted directly; otherwise the realized
/// token0 delta is counted. Selling token1: a positive `amount_specified` is
/// counted directly; otherwise the realized token0 delta is counted.
pub open spec fn spec_points_earned(
    zero_for_one: bool,
    amount_specified: int,
    delta_amount_0: int,
) -> int {
    if zero_for_one {
        if amount_specified < 0 {
            abs_val(amount_specified)
        } else {
            abs_val(delta_amount_0)
        }
    } else {
        if amount_specified > 0 {
            abs_val(amount_specified)
        } else {
            abs_val(delta_amount_0)
        }
    }
}

/// Total absolute value: defined on every `i128`, including the minimum.
pub fn unsigned_abs_i128(x: i128) -> (r: u128)
    ensures
        r as int == abs_val(x as int),
{
    if x >= 0 {
        x as u128
    } else {
        ((-(x + 1)) as u128) + 1
    }
}

/// Accrues earned points onto a balance. Succeeds with the exact sum if and
/// only if it stays representable; otherwise reports `Overflow`.
pub fn accrue_points(points: u128, earned: u128) -> (r: Result<u128, Error>)
    ensures
        r is Ok <==> points + earned <= u128::MAX,
        r matches Ok(p) ==> p == points + earned,
        r is Err ==> r == Err::<u128, Error>(Error::Overflow),
{
    if earned > u128::MAX - points {
        Err(Error::Overflow)
    } else {
        Ok(points + earned)
    }
}

/// Points earned from one swap. Pure: no failure path, since the magnitude of
/// any signed amount is representable.
pub fn points_earned(
    zero_for_one: bool,
    amount_specified: i128,
    delta_amount_0: i128,
) -> (r: u128)
    ensures
        r as int == spec_points_earned(
            zero_for_one,
            amount_specified as int,
            delta_amount_0 as int,
        ),
{
    if zero_for_one {
        if amount_specified < 0 {
            unsigned_abs_i128(amount_specified)
        } else {
            unsigned_abs_i128(delta_amount_0)
        }
    } else {
        if amount_specified > 0 {
            unsigned_abs_i128(amount_specified)
        } else {
            unsigned_abs_i128(delta_amount_0)
        }
    }
}

} // verus!
