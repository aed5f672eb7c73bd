//! Fixed-point amounts (prices and quantities) with eighteen decimals.

use sp_arithmetic::traits::{CheckedDiv, CheckedMul};
use sp_arithmetic::FixedU128;
use vstd::prelude::*;

verus! {

/// The number of inner units in one whole unit.
pub const ACCURACY: u128 = 1_000_000_000_000_000_000;

/// A non-negative fixed-point number: `inner / ACCURACY`.
#[derive(Clone, Copy, PartialEq, Eq, Debug, Structural)]
pub struct Amount {
    pub inner: u128,
}

/// `a * b`, in fixed point, rounded down.
pub open spec fn fixed_mul(a: u128, b: u128) -> int {
    (a as int * b as int) / (ACCURACY as int)
}

/// `a / b`, in fixed point, rounded down.
pub open spec fn fixed_div(a: u128, b: u128) -> int {
    (a as int * ACCURACY as int) / (b as int)
}

/// Relies on `FixedU128::checked_mul`: the product rounded down, or `None`
/// when it does not fit.
#[verifier::external_body]
fn fixed_checked_mul(a: u128, b: u128) -> (r: Option<u128>)
    ensures
        fixed_mul(a, b) <= u128::MAX ==> r == Some(fixed_mul(a, b) as u128),
        fixed_mul(a, b) > u128::MAX ==> r.is_none(),
{
    FixedU128::from_inner(a).checked_mul(&FixedU128::from_inner(b)).map(|v| v.into_inner())
}

/// Relies on `FixedU128::checked_div`: the quotient rounded down, or `None`
/// for a zero divisor or a quotient that does not fit.
#[verifier::external_body]
fn fixed_checked_div(a: u128, b: u128) -> (r: Option<u128>)
    ensures
        b == 0 ==> r.is_none(),
        b != 0 && fixed_div(a, b) <= u128::MAX ==> r == Some(fixed_div(a, b) as u128),
        b != 0 && fixed_div(a, b) > u128::MAX ==> r.is_none(),
{
    FixedU128::from_inner(a).checked_div(&FixedU128::from_inner(b)).map(|v| v.into_inner())
}

/// Relies on `FixedU128::from(u128)`: the integer scaled to fixed point,
/// saturating at the largest value.
#[verifier::external_body]
fn fixed_from_integer(n: u128) -> (r: u128)
    ensures
        n as int * ACCURACY as int <= u128::MAX ==> r == n * ACCURACY,
        n as int * ACCURACY as int > u128::MAX ==> r == u128::MAX,
{
    FixedU128::from(n).into_inner()
}

impl Amount {
    pub fn from_inner(inner: u128) -> (r: Amount)
        ensures
            r.inner == inner,
    {
        Amount { inner }
    }

    pub fn into_inner(self) -> (r: u128)
        ensures
            r == self.inner,
    {
        self.inner
    }

    pub fn zero() -> (r: Amount)
        ensures
            r.inner == 0,
    {
        Amount { inner: 0 }
    }

    /// The whole number `n`, saturating at the largest amount.
    pub fn from_integer(n: u128) -> (r: Amount)
        ensures
            n as int * ACCURACY as int <= u128::MAX ==> r.inner == n * ACCURACY,
            n as int * ACCURACY as int > u128::MAX ==> r.inner == u128::MAX,
    {
        Amount { inner: fixed_from_integer(n) }
    }

    pub fn checked_add(&self, other: &Amount) -> (r: Option<Amount>)
        ensures
            self.inner + other.inner <= u128::MAX ==> r == Some(
                Amount { inner: (self.inner + other.inner) as u128 },
            ),
            self.inner + other.inner > u128::MAX ==> r.is_none(),
    {
        match self.inner.checked_add(other.inner) {
            Some(v) => Some(Amount { inner: v }),
            None => None,
        }
    }

    pub fn saturating_add(&self, other: &Amount) -> (r: Amount)
        ensures
            r.inner == min_u128(self.inner + other.inner),
    {
        Amount { inner: self.inner.saturating_add(other.inner) }
    }

    pub fn checked_sub(&self, other: &Amount) -> (r: Option<Amount>)
        ensures
            other.inner <= self.inner ==> r == Some(
                Amount { inner: (self.inner - other.inner) as u128 },
            ),
            other.inner > self.inner ==> r.is_none(),
    {
        if other.inner <= self.inner {
            Some(Amount { inner: self.inner - other.inner })
        } else {
            None
        }
    }

    /// The fixed-point product, rounded down; `None` when it does not fit.
    pub fn checked_mul(&self, other: &Amount) -> (r: Option<Amount>)
        ensures
            fixed_mul(self.inner, other.inner) <= u128::MAX ==> r == Some(
                Amount { inner: fixed_mul(self.inner, other.inner) as u128 },
            ),
            fixed_mul(self.inner, other.inner) > u128::MAX ==> r.is_none(),
    {
        match fixed_checked_mul(self.inner, other.inner) {
            Some(v) => Some(Amount { inner: v }),
            None => None,
        }
    }

    /// The fixed-point quotient, rounded down; `None` for a zero divisor or
    /// a quotient that does not fit.
    pub fn checked_div(&self, other: &Amount) -> (r: Option<Amount>)
        ensures
            other.inner == 0 ==> r.is_none(),
            other.inner != 0 && fixed_div(self.inner, other.inner) <= u128::MAX ==> r == Some(
                Amount { inner: fixed_div(self.inner, other.inner) as u128 },
            ),
            other.inner != 0 && fixed_div(self.inner, other.inner) > u128::MAX ==> r.is_none(),
    {
        match fixed_checked_div(self.inner, other.inner) {
            Some(v) => Some(Amount { inner: v }),
            None => None,
        }
    }

}

/// A sum clipped to the range of `u128`.
pub open spec fn min_u128(x: int) -> u128 {
    if x > u128::MAX {
        u128::MAX
    } else {
        x as u128
    }
}

} // verus!
