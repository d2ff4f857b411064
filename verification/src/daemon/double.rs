//! Double-precision arithmetic on non-negative values, carried out on integers.
//!
//! A layer plan ranks its cuts by a distance in double precision. The ranking
//! has to come out the same on every machine, so each operation here is the
//! exact result rounded to the nearest double, ties to even.

use vstd::arithmetic::div_mod::lemma_fundamental_div_mod;
use vstd::arithmetic::power2::{lemma_pow2_adds, lemma_pow2_pos, lemma_pow2_strictly_increases, lemma_pow2_unfold, lemma2_to64, pow2};
use vstd::prelude::*;

verus! {

/// The least mantissa of a double: two to the fifty-second.
pub const LOW: u64 = 0x10_0000_0000_0000;

/// One more than the greatest mantissa of a double: two to the fifty-third.
pub const TOP: u64 = 0x20_0000_0000_0000;

/// A double that is not negative: `mantissa * 2^exponent`.
#[derive(Clone, Copy, Debug, PartialEq, Eq, Structural)]
pub struct Double {
    pub mantissa: u64,
    pub exponent: i32,
}

/// A mantissa and an exponent, as numbers.
pub struct Value {
    pub mantissa: nat,
    pub exponent: int,
}

/// The integer nearest to `n / d`, the even one of two that are equally near.
pub open spec fn half_even(n: nat, d: nat) -> nat {
    let q = n / d;
    let r = n % d;
    if 2 * r < d || (2 * r == d && q % 2 == 0) {
        q
    } else {
        q + 1
    }
}

/// How far `n / d` is from having a double's mantissa.
pub open spec fn misfit(n: nat, d: nat) -> nat {
    if n >= TOP * d {
        (n - d) as nat
    } else if n < LOW * d {
        (TOP * d - n) as nat
    } else {
        0
    }
}

/// The double nearest to `n / d * 2^e`: scaled until the quotient has
/// fifty-three bits, then rounded to an integer.
pub open spec fn nearest(n: nat, d: nat, e: int) -> Value
    decreases misfit(n, d),
{
    if n == 0 || d == 0 {
        Value { mantissa: 0, exponent: 0 }
    } else if n >= TOP * d {
        nearest(n, 2 * d, e + 1)
    } else if n < LOW * d {
        nearest(2 * n, d, e - 1)
    } else {
        let m = half_even(n, d);
        if m == TOP {
            Value { mantissa: LOW as nat, exponent: e + 1 }
        } else {
            Value { mantissa: m, exponent: e }
        }
    }
}

impl Double {
    /// Zero, or a mantissa of fifty-three bits and an exponent far from the
    /// ends of a double's range.
    pub open spec fn valid(self) -> bool {
        ||| self.mantissa == 0 && self.exponent == 0
        ||| LOW <= self.mantissa < TOP && -1000 <= self.exponent <= 900
    }

    pub open spec fn view(self) -> Value {
        Value { mantissa: self.mantissa as nat, exponent: self.exponent as int }
    }
}

impl Value {
    /// The product of two doubles.
    pub open spec fn times(self, other: Value) -> Value {
        nearest(self.mantissa * other.mantissa, 1, self.exponent + other.exponent)
    }

    /// The quotient of two doubles.
    pub open spec fn over(self, other: Value) -> Value {
        nearest(self.mantissa, other.mantissa, self.exponent - other.exponent)
    }

    /// The mantissa that the value would have with a lower exponent.
    pub open spec fn at(self, exponent: int) -> nat {
        self.mantissa * pow2((self.exponent - exponent) as nat)
    }

    /// The lower of two exponents.
    pub open spec fn floor(self, other: Value) -> int {
        if self.exponent <= other.exponent {
            self.exponent
        } else {
            other.exponent
        }
    }

    /// The distance between two doubles.
    pub open spec fn distance(self, other: Value) -> Value {
        let e = self.floor(other);
        let a = self.at(e);
        let b = other.at(e);
        nearest(
            (if a >= b {
                a - b
            } else {
                b - a
            }) as nat,
            1,
            e,
        )
    }

    /// Whether one double is less than another.
    pub open spec fn less(self, other: Value) -> bool {
        let e = self.floor(other);
        self.at(e) < other.at(e)
    }
}

/// The double nearest to an integer.
pub open spec fn double_of(n: nat) -> Value {
    nearest(n, 1, 0)
}

/// Rounds `n / d * 2^e`.
fn round(n: u128, d: u128, e: i32) -> (out: Double)
    requires
        0 < d <= 0x1_0000_0000_0000_0000,
        n < 0x8000_0000_0000_0000_0000_0000_0000_0000,
        -800 <= e <= 700,
    ensures
        out@ == nearest(n as nat, d as nat, e as int),
        out.valid(),
        out.mantissa > 0 <==> n > 0,
        e - 130 <= out.exponent <= e + 130 || n == 0,
{
    if n == 0 {
        return Double { mantissa: 0, exponent: 0 };
    }
    let mut num: u128 = n;
    let mut den: u128 = d;
    let mut exp: i32 = e;
    let mut steps: i32 = 0;
    assert(pow2(0) == 1) by {
        lemma2_to64();
    }
    while num >= (TOP as u128) * den
        invariant
            0 < d <= den,
            num == n,
            n < 0x8000_0000_0000_0000_0000_0000_0000_0000,
            TOP * den < 0x1_0000_0000_0000_0000_0000_0000_0000_0000,
            0 <= steps <= 128,
            den >= pow2(steps as nat),
            steps > 0 ==> num >= LOW * den,
            exp == e + steps,
            -800 <= e <= 700,
            nearest(n as nat, d as nat, e as int) == nearest(num as nat, den as nat, exp as int),
        decreases misfit(num as nat, den as nat),
    {
        proof {
            lemma_pow2_adds(1, steps as nat);
            lemma2_to64();
            if steps == 128 {
                lemma_pow2_adds(64, 64);
                assert(pow2(64) * pow2(64) == 0x1_0000_0000_0000_0000_0000_0000_0000_0000);
            }
        }
        den = 2 * den;
        exp = exp + 1;
        steps = steps + 1;
    }
    let mut ups: i32 = 0;
    while num < (LOW as u128) * den
        invariant
            num > 0,
            den > 0,
            TOP * den < 0x1_0000_0000_0000_0000_0000_0000_0000_0000,
            num < TOP * den,
            0 <= steps <= 128,
            0 <= ups <= 128,
            ups > 0 ==> steps == 0,
            steps > 0 ==> num >= LOW * den,
            num >= pow2(ups as nat),
            exp == e + steps - ups,
            -800 <= e <= 700,
            nearest(n as nat, d as nat, e as int) == nearest(num as nat, den as nat, exp as int),
        decreases misfit(num as nat, den as nat),
    {
        proof {
            lemma_pow2_adds(1, ups as nat);
            lemma2_to64();
            if ups == 128 {
                lemma_pow2_adds(64, 64);
                assert(pow2(64) * pow2(64) == 0x1_0000_0000_0000_0000_0000_0000_0000_0000);
            }
        }
        num = 2 * num;
        exp = exp - 1;
        ups = ups + 1;
    }
    let q: u128 = num / den;
    let r: u128 = num % den;
    assert(LOW <= q < TOP) by (nonlinear_arith)
        requires
            LOW * den <= num < TOP * den,
            q == num / den,
            den > 0,
    ;
    assert(r < den) by (nonlinear_arith)
        requires
            r == num % den,
            den > 0,
    ;
    let m: u128 = if 2 * r < den || (2 * r == den && q % 2 == 0) {
        q
    } else {
        q + 1
    };
    if m == TOP as u128 {
        Double { mantissa: LOW, exponent: exp + 1 }
    } else {
        Double { mantissa: m as u64, exponent: exp }
    }
}

/// A quotient that still has too many bits over a power of two is scaled down
/// by each doubling in turn.
proof fn lemma_scaled_down(n: nat, from: nat, to: nat, e: int)
    requires
        from <= to,
        to > 0 ==> n >= TOP * pow2((to - 1) as nat),
        n > 0,
    ensures
        nearest(n, pow2(from), e) == nearest(n, pow2(to), e + to - from),
    decreases to - from,
{
    if from < to {
        lemma_pow2_adds(1, from);
        lemma2_to64();
        lemma_pow2_pos(from);
        if from < to - 1 {
            lemma_pow2_strictly_increases(from, (to - 1) as nat);
        }
        lemma_scaled_down(n, from + 1, to, e + 1);
    }
}

/// Taking less than half a unit in the last place from a double leaves it.
proof fn lemma_absorbed(m: nat, b: nat, k: nat, e: int)
    requires
        LOW <= m < TOP,
        b < TOP,
        b > 0 ==> k >= 64,
    ensures
        nearest((m * pow2(k) - b) as nat, 1, e) == (Value { mantissa: m, exponent: e + k }),
{
    lemma2_to64();
    lemma_pow2_pos(k);
    let p = pow2(k) as int;
    let n = m * p - b;
    if b == 0 {
        assert(m * p >= LOW * p && m * p < TOP * p) by (nonlinear_arith)
            requires
                LOW <= m < TOP,
                p > 0,
        ;
        if k > 0 {
            lemma_pow2_adds(1, (k - 1) as nat);
        }
        lemma_scaled_down(n as nat, 0, k, e);
        assert(n / p == m && n % p == 0) by (nonlinear_arith)
            requires
                n == m * p,
                p > 0,
        ;
    } else {
        lemma_pow2_adds(1, (k - 1) as nat);
        lemma_pow2_adds(1, (k - 2) as nat);
        lemma_pow2_adds(64, (k - 64) as nat);
        lemma_pow2_pos((k - 64) as nat);
        assert(p >= pow2(64)) by (nonlinear_arith)
            requires
                p == pow2(64) * pow2((k - 64) as nat),
                pow2((k - 64) as nat) >= 1,
        ;
        let h = pow2((k - 1) as nat) as int;
        assert(p == 2 * h);
        if m > LOW {
            assert(m * p >= LOW * p + p && m * p < TOP * p) by (nonlinear_arith)
                requires
                    LOW + 1 <= m < TOP,
                    p > 0,
            ;
            lemma_scaled_down(n as nat, 0, k, e);
            assert(n / p == m - 1 && n % p == p - b) by (nonlinear_arith)
                requires
                    n == m * p - b,
                    0 < b < p,
            ;
        } else {
            assert(n == TOP * h - b) by (nonlinear_arith)
                requires
                    n == m * p - b,
                    p == 2 * h,
                    2 * m == TOP,
            ;
            let q = pow2((k - 2) as nat) as int;
            assert(h == 2 * q);
            lemma_scaled_down(n as nat, 0, (k - 1) as nat, e);
            assert(n / h == TOP - 1 && n % h == h - b) by (nonlinear_arith)
                requires
                    n == TOP * h - b,
                    0 < b < h,
            ;
        }
    }
}

/// Two to the power of `k`.
fn power(k: u32) -> (out: u128)
    requires
        k <= 70,
    ensures
        out == pow2(k as nat),
{
    let mut out: u128 = 1;
    assert(pow2(0) == 1) by {
        lemma2_to64();
    }
    for i in 0..k
        invariant
            k <= 70,
            out == pow2(i as nat),
            out <= 0x40_0000_0000_0000_0000,
    {
        proof {
            lemma_pow2_adds(1, i as nat);
            lemma2_to64();
            lemma_pow2_adds(64, 6);
            if i + 1 < 70 {
                lemma_pow2_strictly_increases((i + 1) as nat, 70);
            }
        }
        out = 2 * out;
    }
    out
}

impl Double {
    /// The double nearest to an integer.
    pub fn of(n: u128) -> (out: Double)
        requires
            n < 0x8000_0000_0000_0000_0000_0000_0000_0000,
        ensures
            out@ == double_of(n as nat),
            out.valid(),
            out.mantissa > 0 <==> n > 0,
            -130 <= out.exponent <= 130,
    {
        round(n, 1, 0)
    }

    /// The product, rounded.
    pub fn times(self, other: Double) -> (out: Double)
        requires
            self.valid(),
            other.valid(),
            -130 <= self.exponent <= 130,
            -130 <= other.exponent <= 130,
        ensures
            out@ == self@.times(other@),
            out.valid(),
            -390 <= out.exponent <= 390,
    {
        assert(self.mantissa * other.mantissa < 0x400_0000_0000_0000_0000_0000_0000) by (
            nonlinear_arith)
            requires
                self.mantissa < TOP,
                other.mantissa < TOP,
        ;
        round((self.mantissa as u128) * (other.mantissa as u128), 1, self.exponent + other.exponent)
    }

    /// The quotient, rounded.
    pub fn over(self, other: Double) -> (out: Double)
        requires
            self.valid(),
            other.valid(),
            other.mantissa > 0,
            -390 <= self.exponent <= 390,
            -130 <= other.exponent <= 130,
        ensures
            out@ == self@.over(other@),
            out.valid(),
            -650 <= out.exponent <= 650,
    {
        round(self.mantissa as u128, other.mantissa as u128, self.exponent - other.exponent)
    }

    /// The distance between two doubles, rounded.
    pub fn distance(self, other: Double) -> (out: Double)
        requires
            self.valid(),
            other.valid(),
            -650 <= self.exponent <= 650,
            -650 <= other.exponent <= 650,
        ensures
            out@ == self@.distance(other@),
            out.valid(),
    {
        let (high, low) = if self.exponent <= other.exponent {
            (other, self)
        } else {
            (self, other)
        };
        let k: i32 = high.exponent - low.exponent;
        proof {
            lemma2_to64();
            lemma_own_exponent(low@);
            assert(high@.at(low.exponent as int) == high.mantissa * pow2(k as nat));
        }
        if low.mantissa == 0 && high.mantissa > 0 {
            proof {
                lemma_absorbed(high.mantissa as nat, 0, k as nat, low.exponent as int);
                lemma_pow2_pos(k as nat);
                assert(high.mantissa * pow2(k as nat) >= 0) by (nonlinear_arith);
            }
            return high;
        }
        if high.mantissa == 0 {
            assert(high.mantissa * pow2(k as nat) == 0) by (nonlinear_arith)
                requires
                    high.mantissa == 0,
            ;
            return round(low.mantissa as u128, 1, low.exponent);
        }
        if k > 70 {
            proof {
                lemma_absorbed(
                    high.mantissa as nat,
                    low.mantissa as nat,
                    k as nat,
                    low.exponent as int,
                );
                lemma_pow2_strictly_increases(70, k as nat);
                lemma_pow2_adds(64, 6);
                assert(high.mantissa * pow2(k as nat) >= pow2(k as nat)) by (nonlinear_arith)
                    requires
                        high.mantissa >= 1,
                ;
            }
            return high;
        }
        let p: u128 = power(k as u32);
        proof {
            lemma_pow2_adds(64, 6);
            lemma_pow2_pos(k as nat);
            if k < 70 {
                lemma_pow2_strictly_increases(k as nat, 70);
            }
            assert(high.mantissa * p <= 0x800_0000_0000_0000_0000_0000_0000_0000) by (
                nonlinear_arith)
                requires
                    high.mantissa < TOP,
                    p <= 0x40_0000_0000_0000_0000,
            ;
        }
        let scaled: u128 = (high.mantissa as u128) * p;
        let low_mantissa: u128 = low.mantissa as u128;
        let gap: u128 = if scaled >= low_mantissa {
            scaled - low_mantissa
        } else {
            low_mantissa - scaled
        };
        round(gap, 1, low.exponent)
    }

    /// Whether this double is less than another.
    pub fn less(self, other: Double) -> (out: bool)
        requires
            self.valid(),
            other.valid(),
        ensures
            out == self@.less(other@),
    {
        proof {
            lemma_own_exponent(self@);
            lemma_own_exponent(other@);
            if self.exponent < other.exponent {
                lemma_higher_exponent(
                    self.mantissa as nat,
                    other.mantissa as nat,
                    (other.exponent - self.exponent) as nat,
                );
            } else if other.exponent < self.exponent {
                lemma_higher_exponent(
                    other.mantissa as nat,
                    self.mantissa as nat,
                    (self.exponent - other.exponent) as nat,
                );
            }
        }
        if self.mantissa == 0 || other.mantissa == 0 {
            self.mantissa == 0 && other.mantissa > 0
        } else if self.exponent != other.exponent {
            self.exponent < other.exponent
        } else {
            self.mantissa < other.mantissa
        }
    }
}

/// At its own exponent a value has its own mantissa.
proof fn lemma_own_exponent(v: Value)
    ensures
        v.at(v.exponent) == v.mantissa,
{
    lemma2_to64();
    assert(v.mantissa * pow2(0) == v.mantissa) by (nonlinear_arith)
        requires
            pow2(0) == 1,
    ;
}

/// Of two doubles the one with the higher exponent is the greater.
proof fn lemma_higher_exponent(a: nat, b: nat, k: nat)
    requires
        k > 0,
        a == 0 || LOW <= a < TOP,
        b == 0 || LOW <= b < TOP,
    ensures
        b > 0 ==> a < b * pow2(k),
        b == 0 ==> b * pow2(k) == 0,
{
    lemma2_to64();
    if k > 1 {
        lemma_pow2_strictly_increases(1, k);
    }
    let p = pow2(k);
    assert(b * p >= LOW * 2 || b == 0) by (nonlinear_arith)
        requires
            p >= 2,
            b == 0 || LOW <= b,
    ;
    assert(b == 0 ==> b * p == 0) by (nonlinear_arith);
}

impl Value {
    /// Zero, or a mantissa of fifty-three bits.
    pub open spec fn canonical(self) -> bool {
        ||| self.mantissa == 0 && self.exponent == 0
        ||| LOW <= self.mantissa < TOP
    }

    /// A number by which canonical values are ordered.
    pub open spec fn rank(self, floor: int) -> int {
        if self.mantissa == 0 {
            floor * TOP
        } else {
            self.exponent * TOP + self.mantissa
        }
    }
}

/// Rounding gives a canonical value.
pub proof fn lemma_nearest_canonical(n: nat, d: nat, e: int)
    ensures
        nearest(n, d, e).canonical(),
    decreases misfit(n, d),
{
    if n == 0 || d == 0 {
    } else if n >= TOP * d {
        lemma_nearest_canonical(n, 2 * d, e + 1);
    } else if n < LOW * d {
        lemma_nearest_canonical(2 * n, d, e - 1);
    } else {
        assert(LOW <= n / d < TOP) by (nonlinear_arith)
            requires
                LOW * d <= n < TOP * d,
                d > 0,
        ;
    }
}

/// Among canonical values `less` is the order of their ranks.
pub proof fn lemma_less_is_rank(a: Value, b: Value, floor: int)
    requires
        a.canonical(),
        b.canonical(),
        floor < a.exponent,
        floor < b.exponent,
    ensures
        a.less(b) == (a.rank(floor) < b.rank(floor)),
{
    lemma_own_exponent(a);
    lemma_own_exponent(b);
    if a.exponent < b.exponent {
        lemma_higher_exponent(a.mantissa, b.mantissa, (b.exponent - a.exponent) as nat);
    } else if b.exponent < a.exponent {
        lemma_higher_exponent(b.mantissa, a.mantissa, (a.exponent - b.exponent) as nat);
    }
}

/// A distance is canonical.
pub proof fn lemma_distance_canonical(a: Value, b: Value)
    ensures
        a.distance(b).canonical(),
{
    let e = a.floor(b);
    let x = a.at(e);
    let y = b.at(e);
    lemma_nearest_canonical(
        (if x >= y {
            x - y
        } else {
            y - x
        }) as nat,
        1,
        e,
    );
}

/// Whether a value is `n / d * 2^e` rounded to the nearest double: fifty-three bits
/// of mantissa, off by no more than half of the last one, or by a quarter where the
/// mantissa is the least and the exact value is below it, and, where off by just a
/// half, even. Zero is zero.
pub open spec fn rounds(n: nat, d: nat, e: int, value: Value) -> bool {
    let m = value.mantissa;
    let shift = value.exponent - e;
    let exact = if shift >= 0 {
        n
    } else {
        n * pow2((-shift) as nat)
    };
    let unit = if shift >= 0 {
        d * pow2(shift as nat)
    } else {
        d
    };
    if n == 0 {
        m == 0
    } else {
        &&& 0x10_0000_0000_0000 <= m < 0x20_0000_0000_0000
        &&& 2 * exact <= 2 * m * unit + unit
        &&& 2 * exact >= 2 * m * unit - unit
        &&& 2 * exact == 2 * m * unit + unit || 2 * exact == 2 * m * unit - unit ==> m % 2 == 0
        &&& m == 0x10_0000_0000_0000 ==> 4 * exact >= 4 * m * unit - unit
    }
}

proof fn lemma_half_even(n: nat, d: nat)
    requires
        d > 0,
    ensures
        ({
            let m = half_even(n, d);
            &&& 2 * n <= 2 * m * d + d
            &&& 2 * n >= 2 * m * d - d
            &&& 2 * n == 2 * m * d + d || 2 * n == 2 * m * d - d ==> m % 2 == 0
        }),
{
    let (q, r) = (n / d, n % d);
    lemma_fundamental_div_mod(n as int, d as int);
    assert(n == q * d + r) by (nonlinear_arith)
        requires
            n == d * q + r,
    ;
    assert((q + 1) * d == q * d + d) by (nonlinear_arith);
    assert(2 * q * d == 2 * (q * d)) by (nonlinear_arith);
    assert(2 * (q + 1) * d == 2 * ((q + 1) * d)) by (nonlinear_arith);
    assert(0 <= r < d);
}

/// Rounding gives the nearest double: no quotient, however great or small, is off
/// by more than half of the last bit of fifty-three, and one that lies between two
/// doubles goes to the even one.
pub proof fn law_rounding_is_to_the_nearest(n: nat, d: nat, e: int)
    requires
        d > 0,
    ensures
        rounds(n, d, e, nearest(n, d, e)),
    decreases misfit(n, d),
{
    lemma2_to64();
    if n == 0 {
    } else if n >= TOP * d {
        law_rounding_is_to_the_nearest(n, 2 * d, e + 1);
        lemma_rounds_wider(n, d, e, nearest(n, 2 * d, e + 1));
    } else if n < LOW * d {
        law_rounding_is_to_the_nearest(2 * n, d, e - 1);
        lemma_rounds_finer(n, d, e, nearest(2 * n, d, e - 1));
    } else {
        lemma_half_even(n, d);
        let m = half_even(n, d);
        assert(LOW <= n / d < TOP) by (nonlinear_arith)
            requires
                LOW * d <= n < TOP * d,
                d > 0,
        ;
        let v = nearest(n, d, e);
        if m == TOP {
            assert(pow2(1) == 2);
            assert(v.exponent - e == 1);
            assert(d * pow2(1) == 2 * d) by (nonlinear_arith)
                requires
                    pow2(1) == 2,
            ;
            assert(2 * LOW * (2 * d) == 2 * (TOP * d)) by (nonlinear_arith)
                requires
                    2 * LOW == TOP,
            ;
            assert(4 * LOW * (2 * d) == 4 * (TOP * d)) by (nonlinear_arith)
                requires
                    2 * LOW == TOP,
            ;
            assert(2 * TOP * d == 2 * (TOP * d)) by (nonlinear_arith);
        } else {
            assert(pow2(0) == 1);
            assert(d * pow2(0) == d) by (nonlinear_arith)
                requires
                    pow2(0) == 1,
            ;
            if m == LOW {
                assert(4 * m * d == 4 * (LOW * d)) by (nonlinear_arith)
                    requires
                        m == LOW,
                ;
            }
        }
    }
}

proof fn lemma_rounds_wider(n: nat, d: nat, e: int, v: Value)
    requires
        d > 0,
        n > 0,
        rounds(n, 2 * d, e + 1, v),
    ensures
        rounds(n, d, e, v),
{
    lemma2_to64();
    let m = v.mantissa as int;
    let s = v.exponent - e;
    if s >= 1 {
        let p = pow2((s - 1) as nat);
        lemma_pow2_unfold(s as nat);
        assert((2 * d) * p == d * (2 * p)) by (nonlinear_arith);
    } else {
        let p = pow2((1 - s) as nat);
        let half = pow2((-s) as nat);
        lemma_pow2_unfold((1 - s) as nat);
        assert(n * p == 2 * (n * half)) by (nonlinear_arith)
            requires
                p == 2 * half,
        ;
        assert(2 * m * (2 * d) == 2 * (2 * m * d)) by (nonlinear_arith);
        assert(4 * m * (2 * d) == 2 * (4 * m * d)) by (nonlinear_arith);
        if s == 0 {
            assert(n * half == n) by (nonlinear_arith)
                requires
                    half == 1,
            ;
            assert(d * pow2(0) == d) by (nonlinear_arith)
                requires
                    pow2(0) == 1,
            ;
        }
    }
}

proof fn lemma_rounds_finer(n: nat, d: nat, e: int, v: Value)
    requires
        d > 0,
        n > 0,
        rounds(2 * n, d, e - 1, v),
    ensures
        rounds(n, d, e, v),
{
    lemma2_to64();
    let m = v.mantissa as int;
    let s = v.exponent - e;
    if s >= 0 {
        let p = pow2((s + 1) as nat);
        let half = pow2(s as nat);
        lemma_pow2_unfold((s + 1) as nat);
        assert(d * p == 2 * (d * half)) by (nonlinear_arith)
            requires
                p == 2 * half,
        ;
        let u = d * half;
        assert(2 * m * (2 * u) == 2 * (2 * m * u)) by (nonlinear_arith);
        assert(4 * m * (2 * u) == 2 * (4 * m * u)) by (nonlinear_arith);
    } else {
        let p = pow2((-s) as nat);
        lemma_pow2_unfold((-s) as nat);
        let half = pow2((-s - 1) as nat);
        assert((2 * n) * half == n * p) by (nonlinear_arith)
            requires
                p == 2 * half,
        ;
        if s == -1 {
            assert(d * pow2(0) == d) by (nonlinear_arith)
                requires
                    pow2(0) == 1,
            ;
            assert((2 * n) * half == 2 * n) by (nonlinear_arith)
                requires
                    half == 1,
            ;
        }
    }
}

/// Every operation on doubles gives the exact result, rounded to the nearest: of an
/// integer, of a product, of a quotient, and of the distance between two.
pub proof fn law_operations_round_the_exact_result(n: nat, a: Value, b: Value)
    ensures
        rounds(n, 1, 0, double_of(n)),
        rounds(a.mantissa * b.mantissa, 1, a.exponent + b.exponent, a.times(b)),
        b.mantissa > 0 ==> rounds(
            a.mantissa,
            b.mantissa,
            a.exponent - b.exponent,
            a.over(b),
        ),
        a.exponent >= b.exponent ==> ({
            let scaled = a.mantissa * pow2((a.exponent - b.exponent) as nat);
            let apart = if scaled >= b.mantissa {
                scaled - b.mantissa
            } else {
                b.mantissa - scaled
            };
            &&& rounds(apart as nat, 1, b.exponent, a.distance(b))
            &&& rounds(apart as nat, 1, b.exponent, b.distance(a))
            &&& a.less(b) <==> scaled < b.mantissa
            &&& b.less(a) <==> b.mantissa < scaled
        }),
{
    lemma2_to64();
    law_rounding_is_to_the_nearest(n, 1, 0);
    law_rounding_is_to_the_nearest(a.mantissa * b.mantissa, 1, a.exponent + b.exponent);
    if b.mantissa > 0 {
        law_rounding_is_to_the_nearest(a.mantissa, b.mantissa, a.exponent - b.exponent);
    }
    if a.exponent >= b.exponent {
        let scaled = a.mantissa * pow2((a.exponent - b.exponent) as nat);
        assert(b.mantissa * pow2(0) == b.mantissa) by (nonlinear_arith)
            requires
                pow2(0) == 1,
        ;
        if a.exponent == b.exponent {
            assert(a.mantissa * pow2(0) == a.mantissa) by (nonlinear_arith)
                requires
                    pow2(0) == 1,
            ;
        }
        let apart = (if scaled >= b.mantissa {
            scaled - b.mantissa
        } else {
            b.mantissa - scaled
        }) as nat;
        law_rounding_is_to_the_nearest(apart, 1, b.exponent);
    }
}

}
