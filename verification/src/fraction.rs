//! Fractions, a number type that does not round.
use crate::scalar::Scalar;
use vstd::arithmetic::div_mod::lemma_fundamental_div_mod;
use vstd::prelude::*;

verus! {

/// A fraction of two machine integers.
///
/// A result that is no such fraction in its lowest terms (an overflow, a quotient by
/// zero, a square root that is not rational) is [`Fraction::not_a_number`], and so is
/// every result with an operand that is no number: one whose denominator is not
/// positive.
#[derive(Clone, Copy, Debug, PartialEq, Eq, Structural)]
pub struct Fraction {
    pub num: i64,
    pub den: i64,
}

/// The greatest common divisor.
pub open spec fn gcd(a: nat, b: nat) -> nat
    decreases b,
{
    if b == 0 {
        a
    } else {
        gcd(b, a % b)
    }
}

/// Whether `d` divides `a`.
pub open spec fn divides(d: nat, a: nat) -> bool {
    exists|k: nat| a == #[trigger] (k * d)
}

/// The absolute value.
pub open spec fn magnitude(n: int) -> nat {
    if n < 0 {
        (-n) as nat
    } else {
        n as nat
    }
}

/// The product of a number with itself.
pub open spec fn square(r: int) -> int {
    r * r
}

/// The integer whose square is `n`, where there is one.
pub open spec fn whole_root(n: int) -> Option<int> {
    if exists|r: int| r >= 0 && #[trigger] square(r) == n {
        Some(choose|r: int| r >= 0 && #[trigger] square(r) == n)
    } else {
        None
    }
}

impl Fraction {
    /// The value that stands for no number.
    pub open spec fn not_a_number() -> Fraction {
        Fraction { num: 0, den: 0 }
    }

    /// Whether the value is a number.
    pub open spec fn is_number(self) -> bool {
        self.den > 0
    }

    /// The real number that the fraction is.
    pub open spec fn value(self) -> Option<real> {
        if self.is_number() {
            Some((self.num as real) / (self.den as real))
        } else {
            None
        }
    }

    /// The fraction `n / d` in its lowest terms, for a positive `d`.
    pub open spec fn lowest(n: int, d: int) -> Fraction {
        let g = gcd(magnitude(n), d as nat) as int;
        let p = if n < 0 {
            -(magnitude(n) / g as nat)
        } else {
            (magnitude(n) / g as nat) as int
        };
        let q = d / g;
        if i64::MIN <= p <= i64::MAX && q <= i64::MAX {
            Fraction { num: p as i64, den: q as i64 }
        } else {
            Fraction::not_a_number()
        }
    }

    /// The fraction `num / den` in its lowest terms.
    pub fn new(num: i64, den: i64) -> (r: Fraction)
        ensures
            r == (if den == 0 {
                Fraction::not_a_number()
            } else if den < 0 {
                Fraction::lowest(-num, -den)
            } else {
                Fraction::lowest(num as int, den as int)
            }),
    {
        if den == 0 {
            Fraction { num: 0, den: 0 }
        } else if den < 0 {
            reduce(-(num as i128), -(den as i128))
        } else {
            reduce(num as i128, den as i128)
        }
    }
}

/// Computes the greatest common divisor.
fn gcd_of(a: u128, b: u128) -> (g: u128)
    ensures
        g == gcd(a as nat, b as nat),
{
    let mut x: u128 = a;
    let mut y: u128 = b;
    while y != 0
        invariant
            gcd(x as nat, y as nat) == gcd(a as nat, b as nat),
        decreases y,
    {
        let rest: u128 = x % y;
        x = y;
        y = rest;
    }
    x
}

/// Computes the fraction `n / d` in its lowest terms.
fn reduce(n: i128, d: i128) -> (r: Fraction)
    requires
        n > i128::MIN,
        d > 0,
    ensures
        r == Fraction::lowest(n as int, d as int),
{
    let size: u128 = if n < 0 {
        (-n) as u128
    } else {
        n as u128
    };
    let g: u128 = gcd_of(size, d as u128);
    proof {
        lemma_gcd_positive(size as nat, d as nat);
        lemma_gcd_divides(size as nat, d as nat);
    }
    let p: u128 = size / g;
    let q: u128 = (d as u128) / g;
    assert(p <= size) by (nonlinear_arith)
        requires
            p == size / g,
            g > 0,
    ;
    assert((d as int) / (g as int) == q);
    let bound: u128 = if n < 0 {
        0x8000_0000_0000_0000
    } else {
        0x7fff_ffff_ffff_ffff
    };
    if p > bound || q > 0x7fff_ffff_ffff_ffff {
        return Fraction { num: 0, den: 0 };
    }
    let num: i64 = if n < 0 {
        (-(p as i128)) as i64
    } else {
        p as i64
    };
    Fraction { num, den: q as i64 }
}

/// Computes the integer whose square is `n`, where there is one.
fn exact_root(n: i64) -> (r: Option<i64>)
    ensures
        match r {
            Some(root) => whole_root(n as int) == Some(root as int),
            None => whole_root(n as int) is None,
        },
{
    if n < 0 {
        proof {
            assert forall|r: int| r >= 0 implies #[trigger] square(r) != n by {
                assert(r * r >= 0) by (nonlinear_arith);
            }
        }
        return None;
    }
    let mut low: i128 = 0;
    let mut high: i128 = 3037000500;
    while high - low > 1
        invariant
            0 <= n,
            0 <= low < high <= 3037000500,
            low * low <= n < high * high,
        decreases high - low,
    {
        let middle: i128 = low + (high - low) / 2;
        assert(middle * middle <= 3037000500 * 3037000500) by (nonlinear_arith)
            requires
                0 <= middle <= 3037000500,
        ;
        if middle * middle <= n as i128 {
            low = middle;
        } else {
            high = middle;
        }
    }
    proof {
        lemma_whole_root(low as int, n as int);
    }
    assert(low * low <= 3037000500 * 3037000500) by (nonlinear_arith)
        requires
            0 <= low <= 3037000500,
    ;
    if low * low == n as i128 {
        Some(low as i64)
    } else {
        None
    }
}

/// Between the squares of two neighbours there is no other square.
proof fn lemma_whole_root(low: int, n: int)
    requires
        0 <= low,
        low * low <= n < (low + 1) * (low + 1),
    ensures
        low * low == n ==> whole_root(n) == Some(low),
        low * low != n ==> whole_root(n) is None,
{
    assert forall|r: int| r >= 0 && #[trigger] square(r) == n implies r == low by {
        assert(r == low) by (nonlinear_arith)
            requires
                r >= 0,
                low >= 0,
                r * r == n,
                low * low <= n < (low + 1) * (low + 1),
        ;
    }
    if low * low == n {
        assert(square(low) == n);
    }
}

/// A greatest common divisor is positive.
pub(crate) proof fn lemma_gcd_positive(a: nat, b: nat)
    requires
        a > 0 || b > 0,
    ensures
        gcd(a, b) > 0,
    decreases b,
{
    if b != 0 {
        lemma_gcd_positive(b, a % b);
    }
}

/// A greatest common divisor divides both numbers.
pub(crate) proof fn lemma_gcd_divides(a: nat, b: nat)
    ensures
        divides(gcd(a, b), a),
        divides(gcd(a, b), b),
    decreases b,
{
    let g = gcd(a, b);
    if b == 0 {
        assert(a == 1nat * g);
        assert(b == 0nat * g);
    } else {
        lemma_gcd_divides(b, a % b);
        let k = choose|k: nat| b == #[trigger] (k * g);
        let m = choose|m: nat| a % b == #[trigger] (m * g);
        lemma_fundamental_div_mod(a as int, b as int);
        let q = a / b;
        assert(a == b * q + m * g);
        assert((k * g) * q + m * g == (q * k + m) * g) by (nonlinear_arith);
        assert(a == ((q * k + m) as nat) * g);
    }
}

/// No common divisor is greater.
pub(crate) proof fn lemma_gcd_greatest(c: nat, a: nat, b: nat)
    requires
        divides(c, a),
        divides(c, b),
        a > 0 || b > 0,
    ensures
        c <= gcd(a, b),
    decreases b,
{
    let k = choose|k: nat| a == #[trigger] (k * c);
    if b == 0 {
        assert(c <= a) by (nonlinear_arith)
            requires
                a == k * c,
                a > 0,
        ;
    } else {
        let m = choose|m: nat| b == #[trigger] (m * c);
        lemma_fundamental_div_mod(a as int, b as int);
        let q = a / b;
        let r = a % b;
        assert(r == (k - q * m) * c) by (nonlinear_arith)
            requires
                a == k * c,
                b == m * c,
                a == b * q + r,
        ;
        assert(c > 0) by (nonlinear_arith)
            requires
                b == m * c,
                b > 0,
        ;
        assert(k - q * m >= 0) by (nonlinear_arith)
            requires
                r == (k - q * m) * c,
                r >= 0,
                c > 0,
        ;
        assert(r == ((k - q * m) as nat) * c);
        lemma_gcd_greatest(c, b, r);
    }
}

/// A product of two machine integers, one of them positive.
proof fn lemma_product_bounds(a: i64, b: i64)
    ensures
        -0x4000_0000_0000_0000_0000_0000_0000_0000 <= a * b
            <= 0x4000_0000_0000_0000_0000_0000_0000_0000,
        b > 0 ==> -0x4000_0000_0000_0000_0000_0000_0000_0000 < a * b
            < 0x4000_0000_0000_0000_0000_0000_0000_0000,
        a > 0 && b > 0 ==> a * b > 0,
{
    assert(-0x4000_0000_0000_0000_0000_0000_0000_0000 <= a * b
        <= 0x4000_0000_0000_0000_0000_0000_0000_0000) by (nonlinear_arith)
        requires
            -0x8000_0000_0000_0000 <= a <= 0x7fff_ffff_ffff_ffff,
            -0x8000_0000_0000_0000 <= b <= 0x7fff_ffff_ffff_ffff,
    ;
    if b > 0 {
        assert(-0x4000_0000_0000_0000_0000_0000_0000_0000 < a * b
            < 0x4000_0000_0000_0000_0000_0000_0000_0000) by (nonlinear_arith)
            requires
                -0x8000_0000_0000_0000 <= a <= 0x7fff_ffff_ffff_ffff,
                0 < b <= 0x7fff_ffff_ffff_ffff,
        ;
    }
    if a > 0 && b > 0 {
        assert(a * b > 0) by (nonlinear_arith)
            requires
                a > 0,
                b > 0,
        ;
    }
}

impl Scalar for Fraction {
    open spec fn count(n: nat) -> Fraction {
        if n <= i64::MAX {
            Fraction { num: n as i64, den: 1 }
        } else {
            Fraction::not_a_number()
        }
    }

    open spec fn seed() -> Fraction {
        Fraction { num: 0, den: 1 }
    }

    /// Fractions lie next to each other without a gap.
    open spec fn spacing() -> Fraction {
        Fraction { num: 0, den: 1 }
    }

    open spec fn undefined() -> Fraction {
        Fraction::not_a_number()
    }

    open spec fn plus(self, other: Fraction) -> Fraction {
        if self.is_number() && other.is_number() {
            Fraction::lowest(self.num * other.den + other.num * self.den, self.den * other.den)
        } else {
            Fraction::not_a_number()
        }
    }

    open spec fn alg_plus(self, other: Fraction) -> Fraction {
        self.plus(other)
    }

    open spec fn minus(self, other: Fraction) -> Fraction {
        if self.is_number() && other.is_number() {
            Fraction::lowest(self.num * other.den - other.num * self.den, self.den * other.den)
        } else {
            Fraction::not_a_number()
        }
    }

    open spec fn times(self, other: Fraction) -> Fraction {
        if self.is_number() && other.is_number() {
            Fraction::lowest(self.num * other.num, self.den * other.den)
        } else {
            Fraction::not_a_number()
        }
    }

    open spec fn over(self, other: Fraction) -> Fraction {
        if self.is_number() && other.is_number() && other.num != 0 {
            if other.num < 0 {
                Fraction::lowest(-(self.num * other.den), -(self.den * other.num))
            } else {
                Fraction::lowest(self.num * other.den, self.den * other.num)
            }
        } else {
            Fraction::not_a_number()
        }
    }

    open spec fn squared(self) -> Fraction {
        self.times(self)
    }

    open spec fn root(self) -> Fraction {
        if self.is_number() {
            match (whole_root(self.num as int), whole_root(self.den as int)) {
                (Some(num), Some(den)) => Fraction { num: num as i64, den: den as i64 },
                _ => Fraction::not_a_number(),
            }
        } else {
            Fraction::not_a_number()
        }
    }

    open spec fn root_cubed(self) -> Fraction {
        self.root().times(self)
    }

    open spec fn same(self, other: Fraction) -> bool {
        &&& self.is_number()
        &&& other.is_number()
        &&& self.num * other.den == other.num * self.den
    }

    open spec fn less(self, other: Fraction) -> bool {
        &&& self.is_number()
        &&& other.is_number()
        &&& self.num * other.den < other.num * self.den
    }

    open spec fn at_most(self, other: Fraction) -> bool {
        &&& self.is_number()
        &&& other.is_number()
        &&& self.num * other.den <= other.num * self.den
    }

    fn from_count(n: usize) -> (r: Fraction) {
        if n as u128 <= 0x7fff_ffff_ffff_ffff {
            Fraction { num: n as i64, den: 1 }
        } else {
            Fraction { num: 0, den: 0 }
        }
    }

    fn sum_seed() -> (r: Fraction) {
        Fraction { num: 0, den: 1 }
    }

    fn epsilon() -> (r: Fraction) {
        Fraction { num: 0, den: 1 }
    }

    fn nan() -> (r: Fraction) {
        Fraction { num: 0, den: 0 }
    }

    fn add(self, other: Fraction) -> (r: Fraction) {
        if self.den > 0 && other.den > 0 {
            proof {
                lemma_product_bounds(self.num, other.den);
                lemma_product_bounds(other.num, self.den);
                lemma_product_bounds(self.den, other.den);
            }
            reduce(
                self.num as i128 * other.den as i128 + other.num as i128 * self.den as i128,
                self.den as i128 * other.den as i128,
            )
        } else {
            Fraction { num: 0, den: 0 }
        }
    }

    fn alg_add(self, other: Fraction) -> (r: Fraction) {
        self.add(other)
    }

    fn sub(self, other: Fraction) -> (r: Fraction) {
        if self.den > 0 && other.den > 0 {
            proof {
                lemma_product_bounds(self.num, other.den);
                lemma_product_bounds(other.num, self.den);
                lemma_product_bounds(self.den, other.den);
            }
            reduce(
                self.num as i128 * other.den as i128 - other.num as i128 * self.den as i128,
                self.den as i128 * other.den as i128,
            )
        } else {
            Fraction { num: 0, den: 0 }
        }
    }

    fn mul(self, other: Fraction) -> (r: Fraction) {
        if self.den > 0 && other.den > 0 {
            proof {
                lemma_product_bounds(self.num, other.num);
                lemma_product_bounds(self.den, other.den);
            }
            reduce(
                self.num as i128 * other.num as i128,
                self.den as i128 * other.den as i128,
            )
        } else {
            Fraction { num: 0, den: 0 }
        }
    }

    fn div(self, other: Fraction) -> (r: Fraction) {
        if self.den > 0 && other.den > 0 && other.num != 0 {
            proof {
                lemma_product_bounds(self.num, other.den);
                lemma_product_bounds(self.den, other.num);
            }
            let num: i128 = self.num as i128 * other.den as i128;
            let den: i128 = self.den as i128 * other.num as i128;
            if other.num < 0 {
                assert(self.den * other.num < 0) by (nonlinear_arith)
                    requires
                        self.den > 0,
                        other.num < 0,
                ;
                reduce(-num, -den)
            } else {
                reduce(num, den)
            }
        } else {
            Fraction { num: 0, den: 0 }
        }
    }

    fn square(self) -> (r: Fraction) {
        self.mul(self)
    }

    fn sqrt(self) -> (r: Fraction) {
        if self.den > 0 {
            match (exact_root(self.num), exact_root(self.den)) {
                (Some(num), Some(den)) => Fraction { num, den },
                _ => Fraction { num: 0, den: 0 },
            }
        } else {
            Fraction { num: 0, den: 0 }
        }
    }

    fn pow_three_halves(self) -> (r: Fraction) {
        self.sqrt().mul(self)
    }

    fn eq(self, other: Fraction) -> (r: bool) {
        proof {
            lemma_product_bounds(self.num, other.den);
            lemma_product_bounds(other.num, self.den);
        }
        self.den > 0 && other.den > 0 && self.num as i128 * other.den as i128 == other.num as i128
            * self.den as i128
    }

    fn lt(self, other: Fraction) -> (r: bool) {
        proof {
            lemma_product_bounds(self.num, other.den);
            lemma_product_bounds(other.num, self.den);
        }
        self.den > 0 && other.den > 0 && (self.num as i128 * other.den as i128) < other.num as i128
            * self.den as i128
    }

    fn le(self, other: Fraction) -> (r: bool) {
        proof {
            lemma_product_bounds(self.num, other.den);
            lemma_product_bounds(other.num, self.den);
        }
        self.den > 0 && other.den > 0 && self.num as i128 * other.den as i128 <= other.num as i128
            * self.den as i128
    }
}

} // verus!
