//! The scalar coefficient of a term: a fixed-point number counted in
//! units of 10^-15, stored as an `i128`. Arithmetic is exact within the
//! representable range and saturates at its bounds; the two tolerance
//! thresholds of the engine (drop at 10^-15, prune at 10^-12) are exact
//! integer comparisons on the unit count.

use vstd::prelude::*;
use vstd::string::*;

use crate::text::push_char;

verus! {

/// Units per 1.0: one unit is 10^-15.
pub const COEFF_SCALE: i128 = 1000000000000000;

/// Merge/drop threshold in units: terms at or below one unit (10^-15) in
/// magnitude are discarded by simplification.
pub const MERGE_EPS_UNITS: i128 = 1;

/// Pruning threshold in units: a contraction branch whose coefficient is
/// at or below 1000 units (10^-12) in magnitude is not explored.
pub const PRUNE_EPS_UNITS: i128 = 1000;

/// Largest unit magnitude accepted by multiplication; keeps the 128-bit
/// intermediate product exact.
pub const COEFF_MUL_LIMIT: i128 = 10000000000000000000;

/// Clip an integer to the `i128` range.
pub open spec fn coeff_sat(x: int) -> int {
    if x > i128::MAX as int {
        i128::MAX as int
    } else if x < i128::MIN as int {
        i128::MIN as int
    } else {
        x
    }
}

/// Saturating sum of two unit counts.
pub open spec fn coeff_plus(a: int, b: int) -> int {
    coeff_sat(a + b)
}

/// Saturating negation of a unit count.
pub open spec fn coeff_neg(a: int) -> int {
    coeff_sat(-a)
}

/// Magnitude of a unit count.
pub open spec fn coeff_abs(a: int) -> int {
    if a >= 0 {
        a
    } else {
        -a
    }
}

/// Fixed-point product of two unit counts: the exact integer product
/// scaled back down, truncated toward zero.
pub open spec fn coeff_times(a: int, b: int) -> int {
    if a * b >= 0 {
        (a * b) / (COEFF_SCALE as int)
    } else {
        -((-(a * b)) / (COEFF_SCALE as int))
    }
}

/// A term coefficient in 10^-15 units.
#[derive(Debug, Clone, Copy, PartialEq, Eq, Structural)]
pub struct Coeff {
    pub units: i128,
}

impl Coeff {
    /// The coefficient 0.
    pub fn zero() -> (r: Self)
        ensures
            r.units == 0,
    {
        Coeff { units: 0 }
    }

    /// The coefficient 1.
    pub fn one() -> (r: Self)
        ensures
            r.units == COEFF_SCALE,
    {
        Coeff { units: COEFF_SCALE }
    }

    /// The coefficient with the integer value `n`.
    pub fn from_int(n: i64) -> (r: Self)
        ensures
            r.units == n * COEFF_SCALE,
    {
        Coeff { units: (n as i128) * COEFF_SCALE }
    }

    /// The coefficient holding exactly `units` units of 10^-15.
    pub fn from_units(units: i128) -> (r: Self)
        ensures
            r.units == units,
    {
        Coeff { units }
    }

    /// Whether the coefficient is exactly zero.
    pub fn is_zero(&self) -> (r: bool)
        ensures
            r == (self.units == 0),
    {
        self.units == 0
    }

    /// Whether the magnitude exceeds `eps` units.
    pub fn abs_gt(&self, eps: i128) -> (r: bool)
        requires
            eps >= 0,
        ensures
            r == (coeff_abs(self.units as int) > eps),
    {
        self.units > eps || self.units < -eps
    }

    /// Whether the magnitude is below `eps` units.
    pub fn abs_lt(&self, eps: i128) -> (r: bool)
        requires
            eps >= 0,
        ensures
            r == (coeff_abs(self.units as int) < eps),
    {
        self.units < eps && self.units > -eps
    }

    /// The saturating sum of two coefficients.
    pub fn plus(self, other: Self) -> (r: Self)
        ensures
            r.units as int == coeff_plus(self.units as int, other.units as int),
    {
        if self.units >= 0 && other.units > i128::MAX - self.units {
            Coeff { units: i128::MAX }
        } else if self.units < 0 && other.units < i128::MIN - self.units {
            Coeff { units: i128::MIN }
        } else {
            Coeff { units: self.units + other.units }
        }
    }

    /// The saturating negation of the coefficient.
    pub fn neg(self) -> (r: Self)
        ensures
            r.units as int == coeff_neg(self.units as int),
    {
        if self.units == i128::MIN {
            Coeff { units: i128::MAX }
        } else {
            Coeff { units: -self.units }
        }
    }

    /// The fixed-point product of two coefficients, truncated toward
    /// zero; both factors must be within the exact-product range.
    pub fn times(self, other: Self) -> (r: Self)
        requires
            coeff_abs(self.units as int) <= COEFF_MUL_LIMIT,
            coeff_abs(other.units as int) <= COEFF_MUL_LIMIT,
        ensures
            r.units as int == coeff_times(self.units as int, other.units as int),
    {
        let negative = (self.units < 0) != (other.units < 0);
        let ma: u128 = if self.units >= 0 {
            self.units as u128
        } else {
            (-self.units) as u128
        };
        let mb: u128 = if other.units >= 0 {
            other.units as u128
        } else {
            (-other.units) as u128
        };
        proof {
            assert(ma <= COEFF_MUL_LIMIT as u128 && mb <= COEFF_MUL_LIMIT as u128);
            assert(ma * mb <= (COEFF_MUL_LIMIT as u128) * (COEFF_MUL_LIMIT as u128))
                by (nonlinear_arith)
                requires
                    ma <= COEFF_MUL_LIMIT as u128,
                    mb <= COEFF_MUL_LIMIT as u128,
            ;
        }
        let p: u128 = ma * mb;
        let q: u128 = p / (COEFF_SCALE as u128);
        proof {
            let a = self.units as int;
            let b = other.units as int;
            assert(ma * mb == coeff_abs(a) * coeff_abs(b)) by (nonlinear_arith)
                requires
                    ma == coeff_abs(a),
                    mb == coeff_abs(b),
            ;
            assert(coeff_abs(a) * coeff_abs(b) == coeff_abs(a * b)) by (nonlinear_arith);
            assert(q == coeff_abs(a * b) / (COEFF_SCALE as int));
            assert(q <= p) by (nonlinear_arith)
                requires
                    q == p / (COEFF_SCALE as u128),
            ;
            if negative {
                assert(a * b <= 0) by (nonlinear_arith)
                    requires
                        (a < 0) != (b < 0),
                ;
            } else {
                assert(a * b >= 0) by (nonlinear_arith)
                    requires
                        (a < 0) == (b < 0),
                ;
            }
        }
        if negative {
            Coeff { units: -(q as i128) }
        } else {
            Coeff { units: q as i128 }
        }
    }
}

/// The character for one decimal digit.
pub open spec fn digit_char(d: int) -> char {
    if d == 0 {
        '0'
    } else if d == 1 {
        '1'
    } else if d == 2 {
        '2'
    } else if d == 3 {
        '3'
    } else if d == 4 {
        '4'
    } else if d == 5 {
        '5'
    } else if d == 6 {
        '6'
    } else if d == 7 {
        '7'
    } else if d == 8 {
        '8'
    } else {
        '9'
    }
}

/// The decimal digits of `n`, most significant first.
pub open spec fn dec_seq(n: nat) -> Seq<char>
    decreases n,
{
    if n < 10 {
        seq![digit_char(n as int)]
    } else {
        dec_seq(n / 10).push(digit_char((n % 10) as int))
    }
}

/// The last `w` decimal digits of `n`, zero-padded to width `w`.
pub open spec fn dec_pad(n: nat, w: nat) -> Seq<char>
    decreases w,
{
    if w == 0 {
        Seq::empty()
    } else {
        dec_pad(n / 10, (w - 1) as nat).push(digit_char((n % 10) as int))
    }
}

/// The fractional digits of `f` at width `w`, with trailing zeros
/// removed.
pub open spec fn frac_str(f: nat, w: nat) -> Seq<char>
    decreases w,
{
    if w == 0 {
        Seq::empty()
    } else if f % 10 == 0 {
        frac_str(f / 10, (w - 1) as nat)
    } else {
        dec_pad(f, w)
    }
}

/// Magnitude of an integer, as a natural number.
pub open spec fn iabs(x: int) -> nat {
    if x >= 0 {
        x as nat
    } else {
        (-x) as nat
    }
}

/// The decimal rendering of a unit count: optional minus sign, integer
/// part, and a fractional part exactly when it is nonzero.
pub open spec fn coeff_str(u: int) -> Seq<char> {
    let sign: Seq<char> = if u < 0 {
        seq!['-']
    } else {
        Seq::empty()
    };
    let mag = iabs(u);
    let ip = mag / (COEFF_SCALE as nat);
    let fp = mag % (COEFF_SCALE as nat);
    sign + dec_seq(ip) + if fp == 0 {
        Seq::empty()
    } else {
        seq!['.'] + frac_str(fp, 15)
    }
}

/// The character of a digit below ten.
fn digit_of(n: u128) -> (c: char)
    requires
        n < 10,
    ensures
        c == digit_char(n as int),
{
    if n == 0 {
        '0'
    } else if n == 1 {
        '1'
    } else if n == 2 {
        '2'
    } else if n == 3 {
        '3'
    } else if n == 4 {
        '4'
    } else if n == 5 {
        '5'
    } else if n == 6 {
        '6'
    } else if n == 7 {
        '7'
    } else if n == 8 {
        '8'
    } else {
        '9'
    }
}

/// Append the decimal digits of `n`.
fn push_decimal(out: &mut String, n: u128)
    ensures
        final(out)@ == old(out)@ + dec_seq(n as nat),
    decreases n,
{
    if n < 10 {
        push_char(out, digit_of(n));
    } else {
        proof {
            assert(n / 10 < n) by (nonlinear_arith)
                requires
                    n >= 10,
            ;
        }
        push_decimal(out, n / 10);
        push_char(out, digit_of(n % 10));
        proof {
            assert(old(out)@ + dec_seq((n / 10) as nat) + seq![digit_char((n % 10) as int)]
                =~= old(out)@ + dec_seq(n as nat));
        }
    }
}

/// Append the last `w` decimal digits of `n`, zero-padded.
fn push_pad(out: &mut String, n: u128, w: usize)
    ensures
        final(out)@ == old(out)@ + dec_pad(n as nat, w as nat),
    decreases w,
{
    if w > 0 {
        push_pad(out, n / 10, w - 1);
        push_char(out, digit_of(n % 10));
        proof {
            assert(old(out)@ + dec_pad((n / 10) as nat, (w - 1) as nat) + seq![digit_char(
                (n % 10) as int,
            )] =~= old(out)@ + dec_pad(n as nat, w as nat));
        }
    } else {
        proof {
            assert(old(out)@ + dec_pad(n as nat, 0) =~= old(out)@);
        }
    }
}

/// Append the trimmed fractional digits of `f` at width `w`.
fn push_frac(out: &mut String, f: u128, w: usize)
    ensures
        final(out)@ == old(out)@ + frac_str(f as nat, w as nat),
    decreases w,
{
    if w == 0 {
        proof {
            assert(old(out)@ + frac_str(f as nat, 0) =~= old(out)@);
        }
    } else if f % 10 == 0 {
        push_frac(out, f / 10, w - 1);
    } else {
        push_pad(out, f, w);
    }
}

impl Coeff {
    /// The decimal rendering of the coefficient, trailing fractional
    /// zeros removed.
    pub fn to_decimal(&self) -> (r: String)
        ensures
            r@ == coeff_str(self.units as int),
    {
        let mut s = String::new();
        let mag: u128 = if self.units >= 0 {
            self.units as u128
        } else {
            ((-(self.units + 1)) as u128) + 1
        };
        proof {
            assert(mag == iabs(self.units as int));
        }
        if self.units < 0 {
            push_char(&mut s, '-');
        }
        let scale_u: u128 = COEFF_SCALE as u128;
        push_decimal(&mut s, mag / scale_u);
        let fp: u128 = mag % scale_u;
        if fp != 0 {
            push_char(&mut s, '.');
            push_frac(&mut s, fp, 15);
        }
        proof {
            assert(s@ =~= coeff_str(self.units as int));
        }
        s
    }
}

} // verus!
