//! How much of a plan is used, as a fraction of it.
//!
//! A fraction is a single-precision number, held by its bit pattern: one sign
//! bit, eight bits of exponent, twenty-three of significand. Everything here
//! is integer arithmetic on those bits, and gives what the arithmetic of such
//! numbers gives.

use vstd::arithmetic::div_mod::lemma_div_is_ordered;
use vstd::arithmetic::power2::{lemma2_to64, pow2};
use vstd::bits::lemma_u64_shl_is_mul;
use vstd::prelude::*;

verus! {

/// The bits of `1.0`.
pub const ONE_BITS: u32 = 0x3f80_0000;

/// The bits of `0.015`, the least part of a meter that is painted.
pub const FLOOR_BITS: u32 = 0x3c75_c28f;

/// The bits of the least infinity; above it, leaving out the sign, stands what
/// is not a number.
pub const INFINITY_BITS: u32 = 0x7f80_0000;

/// The sign bit.
pub const SIGN_BIT: u32 = 0x8000_0000;

/// A single-precision number, by its bits.
#[derive(Clone, Copy, Debug, PartialEq, Eq, Structural)]
pub struct Fraction {
    pub bits: u32,
}

/// `n` over `d`, rounded to the nearest integer, to the even one of two.
pub open spec fn nearest_even(n: int, d: int) -> int {
    let q = n / d;
    let r = n % d;
    if 2 * r < d || (2 * r == d && q % 2 == 0) {
        q
    } else {
        q + 1
    }
}

/// `n` over `d`, rounded to the nearest integer, to the greater one of two.
pub open spec fn nearest_up(n: int, d: int) -> int {
    (2 * n + d) / (2 * d)
}

impl Fraction {
    /// Not a number.
    pub open spec fn is_nan(self) -> bool {
        self.bits % SIGN_BIT > INFINITY_BITS
    }

    /// The place of a number among all of them. Both zeros stand at 0.
    pub open spec fn rank(self) -> int {
        if self.bits < SIGN_BIT {
            self.bits as int
        } else {
            SIGN_BIT - self.bits
        }
    }

    /// The comparison of numbers; what is not a number is above nothing, and
    /// nothing is above it.
    pub open spec fn above(self, other: Fraction) -> bool {
        !self.is_nan() && !other.is_nan() && self.rank() > other.rank()
    }

    /// The nearest number between `0.0` and `1.0`.
    pub open spec fn clamped(self) -> Fraction {
        if self.is_nan() {
            self
        } else if self.rank() < 0 {
            Fraction { bits: 0 }
        } else if self.rank() > ONE_BITS {
            Fraction { bits: ONE_BITS }
        } else {
            self
        }
    }

    /// The exponent as it is stored: a number below 1 with the exponent `e` and
    /// the significand `m` is `m` over two to the power of `150 - e`.
    pub open spec fn exponent(self) -> int {
        self.bits as int / 0x80_0000
    }

    /// The significand of a number whose exponent is not 0.
    pub open spec fn significand(self) -> int {
        0x80_0000 + self.bits as int % 0x80_0000
    }

    /// A hundred times the significand, rounded as a product of two numbers is:
    /// to the twenty-four bits that a significand has.
    pub open spec fn hundredfold(self) -> int {
        let product = 100 * self.significand();
        let unit: int = if product < 0x4000_0000 {
            64
        } else {
            128
        };
        nearest_even(product, unit) * unit
    }

    /// The number of percent, between 0 and 100: the clamped number times 100,
    /// rounded. What is below a 256th is less than half a percent.
    pub open spec fn percent(self) -> int {
        if self.is_nan() || self.rank() <= 0 || self.exponent() < 119 {
            0
        } else if self.rank() >= ONE_BITS {
            100
        } else {
            nearest_up(self.hundredfold(), pow2((150 - self.exponent()) as nat) as int)
        }
    }

    /// Whether this is not a number.
    fn nan(self) -> (r: bool)
        ensures
            r == self.is_nan(),
    {
        self.bits % SIGN_BIT > INFINITY_BITS
    }

    /// The place of this number among all of them.
    fn place(self) -> (r: i64)
        ensures
            r == self.rank(),
    {
        if self.bits < SIGN_BIT {
            self.bits as i64
        } else {
            SIGN_BIT as i64 - self.bits as i64
        }
    }

    /// Whether this number is greater than `other`.
    pub fn exceeds(self, other: Fraction) -> (r: bool)
        ensures
            r == self.above(other),
    {
        !self.nan() && !other.nan() && self.place() > other.place()
    }

    /// This number, or the nearer one of `0.0` and `1.0`.
    pub fn clamp(self) -> (r: Fraction)
        ensures
            r == self.clamped(),
    {
        if self.nan() {
            self
        } else if self.place() < 0 {
            Fraction { bits: 0 }
        } else if self.place() > ONE_BITS as i64 {
            Fraction { bits: ONE_BITS }
        } else {
            self
        }
    }

    /// The number of percent that this is.
    pub fn to_percent(self) -> (r: u32)
        ensures
            r == self.percent(),
            r <= 100,
    {
        proof {
            lemma_percent_is_at_most_hundred(self);
        }
        if self.nan() || self.place() <= 0 {
            return 0;
        }
        let exponent: u32 = self.bits / 0x80_0000;
        if exponent < 119 {
            return 0;
        }
        if self.bits >= ONE_BITS {
            return 100;
        }
        let product: u64 = 100 * (0x80_0000 + (self.bits % 0x80_0000) as u64);
        let unit: u64 = if product < 0x4000_0000 {
            64
        } else {
            128
        };
        let q: u64 = product / unit;
        let r: u64 = product % unit;
        let rounded: u64 = if 2 * r < unit || (2 * r == unit && q % 2 == 0) {
            q * unit
        } else {
            (q + 1) * unit
        };
        proof {
            lemma2_to64();
            lemma_u64_shl_is_mul(1, (150 - exponent) as u64);
        }
        let scale: u64 = 1u64 << ((150 - exponent) as u64);
        ((2 * rounded + scale) / (2 * scale)) as u32
    }
}

/// The powers of two that a fraction from a 256th to 1 is a multiple of one
/// over.
proof fn lemma_scale(f: Fraction)
    requires
        f.bits < ONE_BITS,
        f.exponent() >= 119,
    ensures
        ({
            let e = f.exponent();
            let scale = pow2((150 - e) as nat);
            ||| e == 126 && scale == 0x100_0000
            ||| e == 125 && scale == 0x200_0000
            ||| e == 124 && scale == 0x400_0000
            ||| e == 123 && scale == 0x800_0000
            ||| e == 122 && scale == 0x1000_0000
            ||| e == 121 && scale == 0x2000_0000
            ||| e == 120 && scale == 0x4000_0000
            ||| e == 119 && scale == 0x8000_0000
        }),
{
    lemma2_to64();
}

/// Rounding a hundredfold significand keeps it within its binade.
proof fn lemma_hundredfold_bounds(f: Fraction)
    ensures
        100 * 0x80_0000 <= f.hundredfold() <= 100 * 0x100_0000,
{
}

/// `n` over `d` rounds to no less than `low` and no more than `high`, where it
/// is less than a half beyond them.
proof fn lemma_nearest_up_between(n: int, d: int, low: int, high: int)
    requires
        d > 0,
        (2 * low - 1) * d <= 2 * n < (2 * high + 1) * d,
    ensures
        low <= nearest_up(n, d) <= high,
{
    assert(low <= (2 * n + d) / (2 * d) <= high) by (nonlinear_arith)
        requires
            d > 0,
            (2 * low - 1) * d <= 2 * n < (2 * high + 1) * d,
    ;
}

/// The floor of a meter reads as two percent.
pub proof fn lemma_floor_is_two_percent()
    ensures
        (Fraction { bits: FLOOR_BITS }).percent() == 2,
{
    let floor = Fraction { bits: FLOOR_BITS };
    lemma2_to64();
    assert(floor.exponent() == 120);
    assert(floor.hundredfold() == 0x6000_0000);
    lemma_nearest_up_between(0x6000_0000, 0x4000_0000, 2, 2);
}

/// The most percent that a fraction with the exponent `e` shows, which is the
/// least that one with the next exponent does.
spec fn most_percent(e: int) -> int {
    if e == 126 {
        100
    } else if e == 125 {
        50
    } else if e == 124 {
        25
    } else if e == 123 {
        13
    } else if e == 122 {
        6
    } else if e == 121 {
        3
    } else if e == 120 {
        2
    } else if e == 119 {
        1
    } else {
        0
    }
}

proof fn lemma_percent_bounds(f: Fraction)
    requires
        f.bits < ONE_BITS,
        f.exponent() >= 119,
    ensures
        most_percent(f.exponent() - 1) <= f.percent() <= most_percent(f.exponent()),
{
    lemma_scale(f);
    lemma_hundredfold_bounds(f);
    lemma_nearest_up_between(
        f.hundredfold(),
        pow2((150 - f.exponent()) as nat) as int,
        most_percent(f.exponent() - 1),
        most_percent(f.exponent()),
    );
}

/// No fraction is more than a hundred percent.
pub proof fn lemma_percent_is_at_most_hundred(f: Fraction)
    ensures
        0 <= f.percent() <= 100,
{
    if !f.is_nan() && f.rank() > 0 && f.exponent() >= 119 && f.rank() < ONE_BITS {
        lemma_percent_bounds(f);
    }
}

/// Of two fractions with one exponent, the greater one is not rounded to less.
proof fn lemma_hundredfold_is_monotone(f: Fraction, g: Fraction)
    requires
        f.significand() <= g.significand(),
    ensures
        f.hundredfold() <= g.hundredfold(),
{
}

/// The greater of two fractions never shows fewer percent.
pub proof fn lemma_percent_is_monotone(f: Fraction, g: Fraction)
    requires
        !f.is_nan(),
        !g.is_nan(),
        f.rank() <= g.rank(),
    ensures
        f.percent() <= g.percent(),
{
    lemma_percent_is_at_most_hundred(f);
    lemma_percent_is_at_most_hundred(g);
    if f.rank() > 0 && f.exponent() >= 119 && g.rank() < ONE_BITS {
        lemma_percent_bounds(f);
        lemma_percent_bounds(g);
        if f.exponent() == g.exponent() {
            let scale = pow2((150 - f.exponent()) as nat) as int;
            lemma_scale(f);
            lemma_hundredfold_is_monotone(f, g);
            lemma_div_is_ordered(
                2 * f.hundredfold() + scale,
                2 * g.hundredfold() + scale,
                2 * scale,
            );
        }
    }
}

/// What is not a number is above nothing, and nothing is above it. The order of
/// numbers is that of their bits among those without the sign, and the reverse
/// among those with it. Between the two the one without it is the greater, but
/// for the two zeros, of which neither is.
pub proof fn lemma_order_goes_by_the_bits(a: Fraction, b: Fraction)
    ensures
        a.is_nan() <==> 0x7f80_0000 < a.bits < 0x8000_0000 || 0xff80_0000 < a.bits,
        a.is_nan() || b.is_nan() ==> !a.above(b),
        !a.is_nan() && !b.is_nan() ==> {
            &&& a.bits < 0x8000_0000 && b.bits < 0x8000_0000 ==> (a.above(b) <==> a.bits > b.bits)
            &&& a.bits >= 0x8000_0000 && b.bits >= 0x8000_0000 ==> (a.above(b) <==> a.bits < b.bits)
            &&& a.bits < 0x8000_0000 && b.bits >= 0x8000_0000 ==> (a.above(b) <==> !(a.bits == 0
                && b.bits == 0x8000_0000))
            &&& a.bits >= 0x8000_0000 && b.bits < 0x8000_0000 ==> !a.above(b)
        },
{
}

/// Clamping keeps every number from `0.0` to `1.0`, takes a greater one to
/// `1.0` and a lesser one to `0.0`, and keeps what is not a number.
pub proof fn lemma_clamping_keeps_what_fits(f: Fraction)
    ensures
        f.bits <= 0x3f80_0000 || f.bits == 0x8000_0000 ==> f.clamped() == f,
        0x7f80_0000 < f.bits < 0x8000_0000 || 0xff80_0000 < f.bits ==> f.clamped() == f,
        0x3f80_0000 < f.bits <= 0x7f80_0000 ==> f.clamped().bits == 0x3f80_0000,
        0x8000_0000 < f.bits <= 0xff80_0000 ==> f.clamped().bits == 0,
{
}

/// `n` over `d` is rounded by a half at most.
proof fn lemma_nearest_up_is_near(n: int, d: int)
    requires
        d > 0,
    ensures
        -d <= 2 * n - 2 * (d * nearest_up(n, d)) <= d,
{
    let p = nearest_up(n, d);
    assert(2 * d * p <= 2 * n + d < 2 * d * p + 2 * d) by (nonlinear_arith)
        requires
            d > 0,
            p == (2 * n + d) / (2 * d),
    ;
    assert(2 * d * p == 2 * (d * p)) by (nonlinear_arith);
}

/// The number of percent is the whole number next to a hundred times the
/// fraction. A fraction with the exponent `e` and the significand `m` is `m`
/// over two to the power of `150 - e`; its percentage is off by half a percent
/// at most, and by the half of the last bit that the product is rounded to.
pub proof fn lemma_percent_is_next_to_the_hundredfold(f: Fraction)
    ensures
        f.bits < 0x3b80_0000 || f.bits > 0x7f80_0000 ==> f.percent() == 0,
        0x3f80_0000 <= f.bits <= 0x7f80_0000 ==> f.percent() == 100,
        0x3b80_0000 <= f.bits < 0x3f80_0000 ==> ({
            let m = 0x80_0000 + f.bits as int % 0x80_0000;
            let one = pow2((150 - f.bits as int / 0x80_0000) as nat) as int;
            -(one + 128) <= 2 * (100 * m) - 2 * (one * f.percent()) <= one + 128
        }),
{
    if 0x3b80_0000 <= f.bits < 0x3f80_0000 {
        lemma_scale(f);
        let one = pow2((150 - f.exponent()) as nat) as int;
        lemma_nearest_up_is_near(f.hundredfold(), one);
        let product = 100 * f.significand();
        assert(-128 <= 2 * product - 2 * f.hundredfold() <= 128);
    }
}

} // verus!
