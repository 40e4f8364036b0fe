//! Exact decimal numbers: a whole number of units, each a power of ten below
//! one. They stand where a measured value is computed with, so that nothing
//! is lost between the text on the wire and the number.
use vstd::prelude::*;

verus! {

/// Ten to the power `k`.
pub open spec fn pow10(k: nat) -> nat
    decreases k,
{
    if k == 0 {
        1
    } else {
        10 * pow10((k - 1) as nat)
    }
}

/// The whole number nearest to `n / d`, for a positive `d`; where `n / d`
/// lies halfway between two whole numbers, the one farther from zero.
pub open spec fn round_half_away(n: int, d: int) -> int {
    if n >= 0 {
        (2 * n + d) / (2 * d)
    } else {
        -((2 * (-n) + d) / (2 * d))
    }
}

/// The number `units / 10^scale`.
#[derive(Clone, Copy, Debug, PartialEq, Eq)]
pub struct Decimal {
    /// The number, counted in units of `10^-scale`.
    pub units: i64,
    /// How many decimal places the units have.
    pub scale: u8,
}

/// Rounding to two decimal places, halves away from zero.
pub trait RoundToTwoDecimals: Sized {
    /// What rounding gives.
    spec fn rounded_to_two_decimals(self) -> Self;

    /// Rounds to two decimal places.
    fn round_to_two_decimals(self) -> (rounded: Self)
        ensures
            rounded == self.rounded_to_two_decimals(),
    ;
}

impl RoundToTwoDecimals for Decimal {
    /// A number with at most two decimal places is left as it is, with its
    /// scale. Any other becomes a whole number of hundredths: the nearest
    /// one, and of two equally near ones the one farther from zero.
    open spec fn rounded_to_two_decimals(self) -> Decimal {
        if self.scale <= 2 {
            self
        } else {
            Decimal {
                units: round_half_away(
                    self.units as int,
                    pow10((self.scale - 2) as nat) as int,
                ) as i64,
                scale: 2,
            }
        }
    }

    fn round_to_two_decimals(self) -> (rounded: Decimal) {
        if self.scale <= 2 {
            return self;
        }
        let places: u8 = self.scale - 2;
        let negative = self.units < 0;
        let magnitude: u128 = if negative {
            (-(self.units as i128)) as u128
        } else {
            self.units as u128
        };
        if places >= 20 {
            proof {
                lemma_pow10_grows(20, places as nat);
                lemma_pow10_values();
                let d = pow10(places as nat) as int;
                assert((2 * magnitude + d) / (2 * d) == 0) by (nonlinear_arith)
                    requires
                        0 <= 2 * magnitude < d,
                ;
            }
            return Decimal { units: 0, scale: 2 };
        }
        let divisor: u128 = ten_to_the(places);
        proof {
            lemma_pow10_grows(1, places as nat);
            lemma_pow10_grows(places as nat, 19);
            lemma_pow10_values();
        }
        let quotient: u128 = (2 * magnitude + divisor) / (2 * divisor);
        proof {
            let n = magnitude as int;
            let d = divisor as int;
            assert((2 * n + d) / (2 * d) <= n / 10 + 1) by (nonlinear_arith)
                requires
                    n >= 0,
                    d >= 10,
            ;
        }
        if negative {
            Decimal { units: -(quotient as i64), scale: 2 }
        } else {
            Decimal { units: quotient as i64, scale: 2 }
        }
    }
}

/// Ten to the power `places`.
pub(crate) fn ten_to_the(places: u8) -> (power: u128)
    requires
        places <= 38,
    ensures
        power == pow10(places as nat),
{
    let mut power: u128 = 1;
    let mut done: u8 = 0;
    while done < places
        invariant
            done <= places <= 38,
            power == pow10(done as nat),
        decreases places - done,
    {
        proof {
            lemma_pow10_grows(done as nat, 37);
            lemma_pow10_values();
        }
        power = power * 10;
        done += 1;
    }
    power
}

/// Powers of ten grow with the exponent.
pub proof fn lemma_pow10_grows(low: nat, high: nat)
    requires
        low <= high,
    ensures
        1 <= pow10(low) <= pow10(high),
    decreases high,
{
    if low < high {
        lemma_pow10_grows(low, (high - 1) as nat);
    } else if low > 0 {
        lemma_pow10_grows((low - 1) as nat, (high - 1) as nat);
    }
}

/// The powers of ten at which the machine's integers end.
pub(crate) proof fn lemma_pow10_values()
    ensures
        pow10(1) == 10,
        pow10(19) == 10_000_000_000_000_000_000,
        pow10(20) == 100_000_000_000_000_000_000,
        pow10(37) == 10_000_000_000_000_000_000_000_000_000_000_000_000,
{
    reveal_with_fuel(pow10, 38);
}

/// Rounding moves a number by half a hundredth at most, and lands on a
/// number with at most two decimal places, which rounding leaves alone.
pub proof fn lemma_rounding_is_near(number: Decimal)
    ensures
        ({
            let rounded = number.rounded_to_two_decimals();
            &&& rounded.scale <= 2
            &&& rounded.rounded_to_two_decimals() == rounded
            &&& number.scale <= 2 ==> rounded == number
            &&& number.scale > 2 ==> {
                let unit = pow10((number.scale - 2) as nat) as int;
                let exact = round_half_away(number.units as int, unit);
                &&& rounded.units == exact
                &&& -unit <= 2 * (exact * unit - number.units) <= unit
            }
        }),
{
    if number.scale > 2 {
        let places = (number.scale - 2) as nat;
        let d = pow10(places) as int;
        lemma_pow10_grows(1, places);
        lemma_pow10_values();
        let n = number.units as int;
        let exact = round_half_away(n, d);
        if n >= 0 {
            assert(-d <= 2 * (((2 * n + d) / (2 * d)) * d - n) <= d && 0 <= (2 * n + d) / (2 * d)
                <= n) by (nonlinear_arith)
                requires
                    n >= 0,
                    d >= 10,
            ;
        } else {
            let m = -n;
            assert(-d <= 2 * (((2 * m + d) / (2 * d)) * d - m) <= d && 0 <= (2 * m + d) / (2 * d)
                <= m) by (nonlinear_arith)
                requires
                    m >= 0,
                    d >= 10,
            ;
            assert((-((2 * m + d) / (2 * d))) * d == -(((2 * m + d) / (2 * d)) * d))
                by (nonlinear_arith);
        }
    }
}

} // verus!
