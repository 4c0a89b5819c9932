//! Decimal fixed-point numbers.
//!
//! A number counts millionths. Sums and differences are exact, products and quotients round down,
//! and what does not fit is held to the ends of the range, which stand for "beyond every number".
use crate::order::Ordered;
use crate::scalar::Scalar;
use vstd::arithmetic::div_mod::lemma_div_denominator;
use vstd::arithmetic::power2::{lemma_pow2_pos, lemma_pow2_unfold, pow2};
use vstd::prelude::*;

verus! {

/// Millionths in a whole.
pub const WHOLE: i64 = 1_000_000;

/// A decimal number with six places.
#[derive(Debug, Clone, Copy, PartialEq, Eq, Structural)]
pub struct Fixed {
    /// How many millionths the number counts.
    pub millionths: i64,
}

/// A count held to the range of `i64`.
pub open spec fn held(n: int) -> i64 {
    if n < i64::MIN {
        i64::MIN
    } else if n > i64::MAX {
        i64::MAX
    } else {
        n as i64
    }
}

fn hold(n: i128) -> (r: i64)
    ensures
        r == held(n as int),
{
    if n < i64::MIN as i128 {
        i64::MIN
    } else if n > i64::MAX as i128 {
        i64::MAX
    } else {
        n as i64
    }
}

/// Divides, rounding down.
fn divide(a: i128, b: u64) -> (r: i128)
    requires
        b > 0,
        -0x4000_0000_0000_0000_0000_0000_0000_0000 <= a <= 0x4000_0000_0000_0000_0000_0000_0000_0000,
    ensures
        r == (a as int) / (b as int),
{
    if a >= 0 {
        let q: u128 = a as u128 / b as u128;
        proof {
            assert(q <= a) by (nonlinear_arith)
                requires
                    q == (a as int) / (b as int),
                    a >= 0,
                    b > 0,
            ;
        }
        q as i128
    } else {
        let n: u128 = (-a) as u128;
        let q: u128 = (n + (b as u128 - 1)) / b as u128;
        proof {
            let (ai, bi, ni, qi) = (a as int, b as int, n as int, q as int);
            assert(qi <= ni && ai / bi == -qi) by (nonlinear_arith)
                requires
                    ni == -ai,
                    ni > 0,
                    bi > 0,
                    qi == (ni + (bi - 1)) / bi,
            ;
        }
        -(q as i128)
    }
}

/// The whole part of a square root.
pub open spec fn floor_root(n: int) -> int {
    choose|r: int| is_floor_root(n, r)
}

/// Whether `r` is the whole part of the square root of `n`.
pub open spec fn is_floor_root(n: int, r: int) -> bool {
    r >= 0 && r * r <= n < (r + 1) * (r + 1)
}

proof fn lemma_floor_root(n: int, r: int)
    requires
        is_floor_root(n, r),
    ensures
        floor_root(n) == r,
{
    let s = floor_root(n);
    assert(is_floor_root(n, s));
    assert(s == r) by (nonlinear_arith)
        requires
            r >= 0,
            s >= 0,
            r * r <= n < (r + 1) * (r + 1),
            s * s <= n < (s + 1) * (s + 1),
    ;
}

fn root_of(n: u128) -> (r: u64)
    requires
        n < 0x1_0000_0000_0000_0000_0000_0000,
    ensures
        r == floor_root(n as int),
        r < 0x1_0000_0000_0000,
{
    let mut low: u64 = 0;
    let mut high: u64 = 0x1_0000_0000_0000;
    while low + 1 < high
        invariant
            low < high <= 0x1_0000_0000_0000,
            low * low <= n < high * high,
        decreases high - low,
    {
        let middle: u64 = low + (high - low) / 2;
        proof {
            assert(middle * middle <= 0x1_0000_0000_0000 * 0x1_0000_0000_0000) by (nonlinear_arith)
                requires
                    middle <= 0x1_0000_0000_0000,
            ;
        }
        if middle as u128 * middle as u128 <= n {
            low = middle;
        } else {
            high = middle;
        }
    }
    proof {
        lemma_floor_root(n as int, low as int);
    }
    low
}

/// Millionths in the natural logarithm of two.
pub const LN_TWO: i64 = 693_147;

/// The natural logarithm of `n` millionths, in millionths: exact to six places at the powers of two,
/// and on a straight line between two of them. Below one it is the line through one and two.
pub open spec fn log_line(n: int) -> int
    decreases n,
{
    if n < 2 * WHOLE {
        (n - WHOLE) * LN_TWO / (WHOLE as int)
    } else {
        LN_TWO + log_line(n / 2)
    }
}

fn log_of(n: i128) -> (r: i128)
    requires
        -0x1_0000_0000_0000_0000 <= n <= 0x1_0000_0000_0000_0000,
    ensures
        r == log_line(n as int),
{
    let mut n: i128 = n;
    let ghost given = n;
    let mut sum: i128 = 0;
    while n >= 2_000_000
        invariant
            -0x1_0000_0000_0000_0000 <= n <= 0x1_0000_0000_0000_0000,
            given >= n,
            0 <= sum <= (given - n) * 693_147,
            given <= 0x1_0000_0000_0000_0000,
            sum + log_line(n as int) == log_line(given as int),
        decreases n,
    {
        sum = sum + 693_147;
        n = divide(n, 2);
    }
    sum + divide((n - 1_000_000) * 693_147, 1_000_000)
}

/// The magnitude of a double-precision float in millionths, rounded down, from its exponent field
/// and its fraction field.
pub open spec fn float_magnitude(exponent: int, fraction: int) -> int {
    let scale: int = if exponent == 0 {
        1
    } else {
        exponent
    };
    let significand: int = if exponent == 0 {
        fraction
    } else {
        fraction + 0x10_0000_0000_0000
    };
    if scale >= 1075 {
        significand * WHOLE * pow2((scale - 1075) as nat)
    } else {
        significand * WHOLE / (pow2((1075 - scale) as nat) as int)
    }
}

/// The count of millionths that a double-precision float stands for. What is no number stands beyond
/// every number.
pub open spec fn float_millionths(bits: u64) -> i64 {
    let negative = bits >= 0x8000_0000_0000_0000;
    let exponent = (bits as int / 0x10_0000_0000_0000) % 0x800;
    let fraction = bits as int % 0x10_0000_0000_0000;
    if exponent == 0x7ff {
        if negative && fraction == 0 {
            i64::MIN
        } else {
            i64::MAX
        }
    } else if negative {
        held(-float_magnitude(exponent, fraction))
    } else {
        held(float_magnitude(exponent, fraction))
    }
}

fn halve(n: u128, times: u64) -> (r: u128)
    ensures
        r == (n as int) / (pow2(times as nat) as int),
        r <= n,
{
    let mut out: u128 = n;
    let mut i: u64 = 0;
    proof {
        lemma_pow2_unfold_zero();
        assert((n as int) / 1 == n);
    }
    while i < times
        invariant
            i <= times,
            out == (n as int) / (pow2(i as nat) as int),
            out <= n,
        decreases times - i,
    {
        proof {
            lemma_pow2_pos(i as nat);
            lemma_pow2_unfold((i + 1) as nat);
            lemma_div_denominator(n as int, pow2(i as nat) as int, 2);
            assert(pow2((i + 1) as nat) as int == pow2(i as nat) as int * 2);
        }
        out = out / 2;
        i += 1;
    }
    out
}

proof fn lemma_pow2_unfold_zero()
    ensures
        pow2(0) == 1,
{
    vstd::arithmetic::power2::lemma2_to64();
}

fn magnitude(exponent: u64, fraction: u64) -> (r: u128)
    requires
        exponent < 0x7ff,
        fraction < 0x10_0000_0000_0000,
    ensures
        r <= i64::MAX ==> r == float_magnitude(exponent as int, fraction as int),
        r > i64::MAX <==> float_magnitude(exponent as int, fraction as int) > i64::MAX,
        r <= 0x4000_0000_0000_0000_0000,
{
    let scale: u64 = if exponent == 0 {
        1
    } else {
        exponent
    };
    let significand: u64 = if exponent == 0 {
        fraction
    } else {
        fraction + 0x10_0000_0000_0000
    };
    let n: u128 = significand as u128 * 1_000_000;
    if scale >= 1075 {
        proof {
            let p = pow2((scale - 1075) as nat) as int;
            lemma_pow2_pos((scale - 1075) as nat);
            assert(n * p >= n) by (nonlinear_arith)
                requires
                    p >= 1,
                    n >= 0,
            ;
            assert(significand * WHOLE * p == n * p);
        }
        n
    } else {
        halve(n, 1075 - scale)
    }
}

fn decode(bits: u64) -> (r: i64)
    ensures
        r == float_millionths(bits),
{
    let negative = bits >= 0x8000_0000_0000_0000;
    let exponent: u64 = (bits / 0x10_0000_0000_0000) % 0x800;
    let fraction: u64 = bits % 0x10_0000_0000_0000;
    if exponent == 0x7ff {
        return if negative && fraction == 0 {
            i64::MIN
        } else {
            i64::MAX
        };
    }
    let n: u128 = magnitude(exponent, fraction);
    if negative {
        hold(-(n as i128))
    } else {
        hold(n as i128)
    }
}

impl Ordered for Fixed {
    open spec fn place(self) -> int {
        self.millionths as int
    }

    fn not_after(self, other: Self) -> (r: bool) {
        self.millionths <= other.millionths
    }
}

/// A number of so many millionths, held to the range.
pub open spec fn fixed(n: int) -> Fixed {
    Fixed { millionths: held(n) }
}

impl Scalar for Fixed {
    open spec fn ratio(num: int, den: int) -> Self {
        fixed(num * WHOLE / den)
    }

    open spec fn decoded(bits: u64) -> Self {
        Fixed { millionths: float_millionths(bits) }
    }

    open spec fn unbounded() -> Self {
        Fixed { millionths: i64::MAX }
    }

    open spec fn plus(self, rhs: Self) -> Self {
        fixed(self.millionths + rhs.millionths)
    }

    open spec fn minus(self, rhs: Self) -> Self {
        fixed(self.millionths - rhs.millionths)
    }

    open spec fn times(self, rhs: Self) -> Self {
        fixed(self.millionths * rhs.millionths / (WHOLE as int))
    }

    open spec fn over(self, rhs: Self) -> Self {
        if rhs.millionths > 0 {
            fixed(self.millionths * WHOLE / (rhs.millionths as int))
        } else if rhs.millionths < 0 {
            fixed(-(self.millionths * WHOLE) / -(rhs.millionths as int))
        } else if self.millionths < 0 {
            Fixed { millionths: i64::MIN }
        } else {
            Fixed { millionths: i64::MAX }
        }
    }

    open spec fn larger(self, rhs: Self) -> Self {
        if self.millionths < rhs.millionths {
            rhs
        } else {
            self
        }
    }

    open spec fn smaller(self, rhs: Self) -> Self {
        if rhs.millionths < self.millionths {
            rhs
        } else {
            self
        }
    }

    open spec fn below(self, rhs: Self) -> bool {
        self.millionths < rhs.millionths
    }

    open spec fn at_most(self, rhs: Self) -> bool {
        self.millionths <= rhs.millionths
    }

    open spec fn finite(self) -> bool {
        i64::MIN < self.millionths < i64::MAX
    }

    open spec fn rounded(self) -> i64 {
        if self.millionths >= 0 {
            ((self.millionths + WHOLE / 2) / (WHOLE as int)) as i64
        } else {
            (-((-self.millionths + WHOLE / 2) / (WHOLE as int))) as i64
        }
    }

    open spec fn log_one_plus(self) -> Self {
        fixed(log_line(self.millionths + WHOLE))
    }

    open spec fn root(self) -> Self {
        if self.millionths <= 0 {
            Fixed { millionths: 0 }
        } else {
            fixed(floor_root(self.millionths * WHOLE))
        }
    }

    fn of_ratio(num: i64, den: u64) -> (r: Self) {
        Fixed { millionths: hold(divide(num as i128 * 1_000_000, den)) }
    }

    fn of_float_bits(bits: u64) -> (r: Self) {
        Fixed { millionths: decode(bits) }
    }

    fn infinity() -> (r: Self) {
        Fixed { millionths: i64::MAX }
    }

    fn add(self, rhs: Self) -> (r: Self) {
        Fixed { millionths: hold(self.millionths as i128 + rhs.millionths as i128) }
    }

    fn sub(self, rhs: Self) -> (r: Self) {
        Fixed { millionths: hold(self.millionths as i128 - rhs.millionths as i128) }
    }

    fn mul(self, rhs: Self) -> (r: Self) {
        proof {
            let (a, b) = (self.millionths as int, rhs.millionths as int);
            assert(-0x4000_0000_0000_0000_0000_0000_0000_0000 <= a * b
                <= 0x4000_0000_0000_0000_0000_0000_0000_0000) by (nonlinear_arith)
                requires
                    -0x8000_0000_0000_0000 <= a <= 0x8000_0000_0000_0000,
                    -0x8000_0000_0000_0000 <= b <= 0x8000_0000_0000_0000,
            ;
        }
        Fixed {
            millionths: hold(
                divide(self.millionths as i128 * rhs.millionths as i128, 1_000_000),
            ),
        }
    }

    fn div(self, rhs: Self) -> (r: Self) {
        if rhs.millionths > 0 {
            Fixed {
                millionths: hold(
                    divide(self.millionths as i128 * 1_000_000, rhs.millionths as u64),
                ),
            }
        } else if rhs.millionths < 0 {
            Fixed {
                millionths: hold(
                    divide(
                        -(self.millionths as i128 * 1_000_000),
                        (-(rhs.millionths as i128)) as u64,
                    ),
                ),
            }
        } else if self.millionths < 0 {
            Fixed { millionths: i64::MIN }
        } else {
            Fixed { millionths: i64::MAX }
        }
    }

    fn max_of(self, rhs: Self) -> (r: Self) {
        if self.millionths < rhs.millionths {
            rhs
        } else {
            self
        }
    }

    fn min_of(self, rhs: Self) -> (r: Self) {
        if rhs.millionths < self.millionths {
            rhs
        } else {
            self
        }
    }

    fn lt(self, rhs: Self) -> (r: bool) {
        self.millionths < rhs.millionths
    }

    fn le(self, rhs: Self) -> (r: bool) {
        self.millionths <= rhs.millionths
    }

    fn is_finite(self) -> (r: bool) {
        i64::MIN < self.millionths && self.millionths < i64::MAX
    }

    fn round(self) -> (r: i64) {
        if self.millionths >= 0 {
            divide(self.millionths as i128 + 500_000, 1_000_000) as i64
        } else {
            (-divide(-(self.millionths as i128) + 500_000, 1_000_000)) as i64
        }
    }

    fn ln_1p(self) -> (r: Self) {
        Fixed { millionths: hold(log_of(self.millionths as i128 + 1_000_000)) }
    }

    fn sqrt(self) -> (r: Self) {
        if self.millionths <= 0 {
            Fixed { millionths: 0 }
        } else {
            Fixed { millionths: root_of(self.millionths as u128 * 1_000_000) as i64 }
        }
    }
}

/// Dividing by a positive number keeps the order of numbers that are not negative.
pub proof fn lemma_over_keeps_order(less: Fixed, more: Fixed, by: Fixed)
    requires
        0 <= less.millionths <= more.millionths,
        by.millionths > 0,
    ensures
        0 <= less.over(by).millionths <= more.over(by).millionths,
{
    let (a, b, d) = (less.millionths as int, more.millionths as int, by.millionths as int);
    assert(0 <= a * 1_000_000 / d <= b * 1_000_000 / d) by (nonlinear_arith)
        requires
            0 <= a <= b,
            d > 0,
    ;
}

/// Multiplying by a number that is not negative keeps the order of numbers that are not negative.
pub proof fn lemma_times_keeps_order(by: Fixed, less: Fixed, more: Fixed)
    requires
        0 <= less.millionths <= more.millionths,
        by.millionths >= 0,
    ensures
        0 <= by.times(less).millionths <= by.times(more).millionths,
{
    let (a, b, w) = (less.millionths as int, more.millionths as int, by.millionths as int);
    assert(0 <= w * a <= w * b) by (nonlinear_arith)
        requires
            0 <= a <= b,
            w >= 0,
    ;
}

} // verus!
