use vstd::prelude::*;

verus! {

/// Scale of the fixed-point rate: a rate `r` is stored as the integer
/// `r * SCALE`, exactly as `sp_arithmetic::FixedU128` stores it.
pub const SCALE: u128 = 1_000_000_000_000_000_000;

/// Exact value of multiplying an integer amount by the rate whose stored
/// representation is `inner`: `⌊inner * amount / SCALE⌋`.
pub open spec fn mul_rate(inner: int, amount: int) -> int {
    (inner * amount) / (SCALE as int)
}

/// Stored representation of the reciprocal of the rate stored as `inner`:
/// `⌊SCALE * SCALE / inner⌋`.
pub open spec fn reciprocal_inner(inner: int) -> int {
    ((SCALE * SCALE) as int) / inner
}

/// Stored representation of the rational `n / d`: `⌊n * SCALE / d⌋`.
pub open spec fn rational_inner(n: int, d: int) -> int {
    (n * (SCALE as int)) / d
}

/// Relies on `FixedU128::checked_mul_int` of sp-arithmetic: it multiplies with
/// a 256-bit intermediate and rounds down, so it returns `⌊inner*amount/SCALE⌋`
/// whenever that quotient fits in `u128`, and `None` otherwise.
#[verifier::external_body]
fn fixed_mul_int(inner: u128, amount: u128) -> (r: Option<u128>)
    ensures
        mul_rate(inner as int, amount as int) <= u128::MAX as int ==> r == Some(
            mul_rate(inner as int, amount as int) as u128,
        ),
        mul_rate(inner as int, amount as int) > u128::MAX as int ==> r is None,
{
    sp_arithmetic::FixedPointNumber::checked_mul_int(
        sp_arithmetic::FixedU128::from_inner(inner),
        amount,
    )
}

/// Relies on `FixedU128::reciprocal` of sp-arithmetic: `1/x` computed as
/// `⌊SCALE*SCALE/inner⌋` (rounded down; always below `u128::MAX`), `None`
/// exactly when the rate is zero.
#[verifier::external_body]
fn fixed_reciprocal(inner: u128) -> (r: Option<u128>)
    ensures
        inner == 0 ==> r is None,
        inner > 0 ==> r == Some(reciprocal_inner(inner as int) as u128),
{
    match sp_arithmetic::FixedPointNumber::reciprocal(sp_arithmetic::FixedU128::from_inner(inner)) {
        Some(x) => Some(x.into_inner()),
        None => None,
    }
}

/// Relies on `FixedU128::checked_from_rational` of sp-arithmetic: it returns
/// the rate `⌊n*SCALE/d⌋` (256-bit intermediate, rounded down) when `d` is not
/// zero and the result fits in `u128`, and `None` otherwise.
#[verifier::external_body]
fn fixed_from_rational(n: u128, d: u128) -> (r: Option<u128>)
    ensures
        d == 0 ==> r is None,
        d > 0 && rational_inner(n as int, d as int) <= u128::MAX as int ==> r == Some(
            rational_inner(n as int, d as int) as u128,
        ),
        d > 0 && rational_inner(n as int, d as int) > u128::MAX as int ==> r is None,
{
    match <sp_arithmetic::FixedU128 as sp_arithmetic::FixedPointNumber>::checked_from_rational(n, d) {
        Some(x) => Some(x.into_inner()),
        None => None,
    }
}

/// The conversion factor between staked and liquid units, a non-negative
/// fixed-point number with `SCALE` precision.
#[derive(Clone, Copy, Debug, PartialEq, Eq, Structural)]
pub struct MintRate {
    pub inner: u128,
}

impl MintRate {
    /// Builds a rate directly from its stored representation.
    pub fn from_inner(inner: u128) -> (r: MintRate)
        ensures
            r.inner == inner,
    {
        MintRate { inner }
    }

    /// Stored representation of this rate.
    pub fn into_inner(self) -> (r: u128)
        ensures
            r == self.inner,
    {
        self.inner
    }

    /// Whether this rate is exactly zero.
    pub fn is_zero(self) -> (r: bool)
        ensures
            r == (self.inner == 0),
    {
        self.inner == 0
    }

    /// Multiplies an integer amount by this rate, rounding down; fails only
    /// when the exact result does not fit the balance width.
    pub fn checked_mul_int(self, amount: u128) -> (r: Option<u128>)
        ensures
            mul_rate(self.inner as int, amount as int) <= u128::MAX as int ==> r == Some(
                mul_rate(self.inner as int, amount as int) as u128,
            ),
            mul_rate(self.inner as int, amount as int) > u128::MAX as int ==> r is None,
    {
        fixed_mul_int(self.inner, amount)
    }

    /// The reciprocal rate, rounded down; `None` exactly for the zero rate.
    pub fn reciprocal(self) -> (r: Option<MintRate>)
        ensures
            self.inner == 0 ==> r is None,
            self.inner > 0 ==> r == Some(
                MintRate { inner: reciprocal_inner(self.inner as int) as u128 },
            ),
    {
        match fixed_reciprocal(self.inner) {
            Some(inner) => Some(MintRate { inner }),
            None => None,
        }
    }

    /// The rate `n / d`, rounded down; `None` when `d` is zero or the result
    /// does not fit.
    pub fn checked_from_rational(n: u128, d: u128) -> (r: Option<MintRate>)
        ensures
            d == 0 ==> r is None,
            d > 0 && rational_inner(n as int, d as int) <= u128::MAX as int ==> r == Some(
                MintRate { inner: rational_inner(n as int, d as int) as u128 },
            ),
            d > 0 && rational_inner(n as int, d as int) > u128::MAX as int ==> r is None,
    {
        match fixed_from_rational(n, d) {
            Some(inner) => Some(MintRate { inner }),
            None => None,
        }
    }

    /// The rate `n / d` rounded down, saturating at the largest representable
    /// rate; the divisor must not be zero.
    pub fn saturating_from_rational(n: u128, d: u128) -> (r: MintRate)
        requires
            d > 0,
        ensures
            rational_inner(n as int, d as int) <= u128::MAX as int ==> r == (MintRate {
                inner: rational_inner(n as int, d as int) as u128,
            }),
            rational_inner(n as int, d as int) > u128::MAX as int ==> r == (MintRate {
                inner: u128::MAX,
            }),
    {
        match Self::checked_from_rational(n, d) {
            Some(r) => r,
            None => MintRate { inner: u128::MAX },
        }
    }
}

} // verus!
