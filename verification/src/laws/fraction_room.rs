//! Fractions give a number for every result that they have room for.
use crate::fraction::{magnitude, square, whole_root, Fraction};
use crate::laws::finalize::squares_exactly;
use crate::laws::fraction::{fraction_reading, law_fractions_exact, lemma_lowest_factors};
use crate::laws::room::{has_room, Size};
use crate::scalar::Scalar;
use vstd::arithmetic::power2::{
    lemma2_to64_rest, lemma_pow2_adds, lemma_pow2_pos, lemma_pow2_strictly_increases,
    lemma_pow2_unfold, pow2,
};
use vstd::prelude::*;

verus! {

/// Whether numerator and denominator of a fraction are no larger than the power of two
/// with exponent `s`.
pub open spec fn bits() -> Size<Fraction> {
    |f: Fraction, s: nat| f.is_number() && magnitude(f.num as int) <= pow2(s) && f.den <= pow2(s)
}

/// Powers of two grow with the exponent.
proof fn lemma_pow2_grows(s: nat, t: nat)
    requires
        s <= t,
    ensures
        1 <= pow2(s) <= pow2(t),
{
    lemma_pow2_pos(s);
    if s < t {
        lemma_pow2_strictly_increases(s, t);
    }
}

/// A count is no larger than the power of two with that exponent.
proof fn lemma_count_bits(n: nat)
    ensures
        n < pow2(n),
    decreases n,
{
    lemma_pow2_pos(n);
    if n > 0 {
        lemma_count_bits((n - 1) as nat);
        lemma_pow2_unfold(n);
    }
}

/// Lowest terms are no larger than the terms they come from.
proof fn lemma_lowest_bits(n: int, d: int, s: nat)
    requires
        d > 0,
        magnitude(n) <= pow2(s),
        d <= pow2(s),
        s <= 62,
    ensures
        bits()(Fraction::lowest(n, d), s),
{
    let (g, p, q) = lemma_lowest_factors(n, d);
    assert(magnitude(p) <= magnitude(n) && q <= d) by (nonlinear_arith)
        requires
            n == p * g,
            d == q * g,
            g > 0,
            q > 0,
            p < 0 ==> magnitude(p) == -p,
            p >= 0 ==> magnitude(p) == p,
            n < 0 ==> magnitude(n) == -n,
            n >= 0 ==> magnitude(n) == n,
    ;
    lemma_pow2_grows(s, 62);
    lemma2_to64_rest();
}

/// The size of a product.
proof fn lemma_product_bits(a: int, s: nat, b: int, t: nat)
    requires
        magnitude(a) <= pow2(s),
        magnitude(b) <= pow2(t),
    ensures
        magnitude(a * b) <= pow2(s + t),
        2 * pow2(s + t) == pow2(s + t + 1),
{
    lemma_pow2_adds(s, t);
    lemma_pow2_unfold(s + t + 1);
    let (x, y) = (pow2(s) as int, pow2(t) as int);
    assert(-(x * y) <= a * b <= x * y) by (nonlinear_arith)
        requires
            -x <= a <= x,
            -y <= b <= y,
    ;
}

/// An operation on fractions gives a number wherever its result has no more than 62 bits.
pub proof fn law_fractions_have_room()
    ensures
        has_room(fraction_reading(), bits(), 62),
        squares_exactly(fraction_reading()),
{
    reveal(has_room);
    let v = fraction_reading();
    let fits = bits();
    law_fractions_exact();
    lemma_pow2_grows(0, 0);
    assert forall|n: nat| n <= 62 implies fits(#[trigger] Fraction::count(n), n) by {
        lemma_count_bits(n);
        lemma_pow2_grows(0, n);
    }
    assert forall|a: Fraction, s: nat, t: nat|
        #![trigger fits(a, s), fits(a, t)]
        fits(a, s) && s <= t implies fits(a, t) by {
        lemma_pow2_grows(s, t);
    }
    assert forall|a: Fraction, s: nat, b: Fraction, t: nat|
        #![trigger fits(a, s), fits(b, t), a.plus(b)]
        fits(a, s) && fits(b, t) && s + t + 1 <= 62 implies fits(a.plus(b), s + t + 1) by {
        lemma_sum_bits(a, s, b, t);
    }
    assert forall|a: Fraction, s: nat, b: Fraction, t: nat|
        #![trigger fits(a, s), fits(b, t), a.alg_plus(b)]
        fits(a, s) && fits(b, t) && s + t + 1 <= 62 implies fits(a.alg_plus(b), s + t + 1) by {
        lemma_sum_bits(a, s, b, t);
    }
    assert forall|a: Fraction, s: nat, b: Fraction, t: nat|
        #![trigger fits(a, s), fits(b, t), a.minus(b)]
        fits(a, s) && fits(b, t) && s + t + 1 <= 62 implies fits(a.minus(b), s + t + 1) by {
        lemma_sum_bits(a, s, b, t);
    }
    assert forall|a: Fraction, s: nat, b: Fraction, t: nat|
        #![trigger fits(a, s), fits(b, t), a.times(b)]
        fits(a, s) && fits(b, t) && s + t + 1 <= 62 implies fits(a.times(b), s + t + 1) by {
        lemma_product_bits(a.num as int, s, b.num as int, t);
        lemma_product_bits(a.den as int, s, b.den as int, t);
        lemma_positive(a.den as int, b.den as int);
        lemma_lowest_bits(a.num * b.num, a.den * b.den, s + t + 1);
    }
    assert forall|a: Fraction, s: nat, b: Fraction, t: nat|
        #![trigger fits(a, s), fits(b, t), a.over(b)]
        fits(a, s) && fits(b, t) && s + t + 1 <= 62 && v(b) != Some(0real) implies fits(
        a.over(b),
        s + t + 1,
    ) by {
        if b.num == 0 {
            assert(0real / (b.den as real) == 0real) by (nonlinear_arith)
                requires
                    b.den as real != 0real,
            ;
        }
        lemma_product_bits(a.num as int, s, b.den as int, t);
        lemma_product_bits(a.den as int, s, b.num as int, t);
        let (n, d) = (a.num * b.den, a.den * b.num);
        if b.num < 0 {
            lemma_positive(a.den as int, -b.num);
            assert(a.den * (-b.num) == -d) by (nonlinear_arith)
                requires
                    d == a.den * b.num,
            ;
            lemma_lowest_bits(-n, -d, s + t + 1);
        } else {
            lemma_positive(a.den as int, b.num as int);
            lemma_lowest_bits(n, d, s + t + 1);
        }
    }
    assert forall|a: Fraction| v(#[trigger] a.squared()) is Some implies v(a) is Some && v(
        a.squared(),
    )->0 == v(a)->0 * v(a)->0 by {
        assert(a.squared() == a.times(a));
    }
}

/// A product of positive numbers is positive.
proof fn lemma_positive(a: int, b: int)
    requires
        a > 0,
        b > 0,
    ensures
        a * b > 0,
{
    assert(a * b > 0) by (nonlinear_arith)
        requires
            a > 0,
            b > 0,
    ;
}

/// The sizes of a sum and of a difference.
proof fn lemma_sum_bits(a: Fraction, s: nat, b: Fraction, t: nat)
    requires
        bits()(a, s),
        bits()(b, t),
        s + t + 1 <= 62,
    ensures
        bits()(a.plus(b), s + t + 1),
        bits()(a.minus(b), s + t + 1),
{
    lemma_product_bits(a.num as int, s, b.den as int, t);
    lemma_product_bits(b.num as int, t, a.den as int, s);
    lemma_product_bits(a.den as int, s, b.den as int, t);
    lemma_positive(a.den as int, b.den as int);
    lemma_lowest_bits(a.num * b.den + b.num * a.den, a.den * b.den, s + t + 1);
    lemma_lowest_bits(a.num * b.den - b.num * a.den, a.den * b.den, s + t + 1);
}

/// The fraction of two squares has the fraction of their roots for its root, and a count
/// that a machine integer can hold is a number.
pub proof fn law_fractions_of_squares(p: i64, q: i64, f: Fraction, n: nat)
    requires
        p >= 0,
        q > 0,
        f.num == square(p as int),
        f.den == square(q as int),
        n <= i64::MAX,
    ensures
        f.root() == (Fraction { num: p, den: q }),
        Fraction::count(n).is_number(),
{
    lemma_root_of_square(p as int);
    lemma_root_of_square(q as int);
    lemma_positive(q as int, q as int);
}

/// The root of a square.
proof fn lemma_root_of_square(r: int)
    requires
        r >= 0,
    ensures
        whole_root(square(r)) == Some(r),
{
    let n = square(r);
    assert forall|k: int| k >= 0 && #[trigger] square(k) == n implies k == r by {
        assert(k == r) by (nonlinear_arith)
            requires
                k >= 0,
                r >= 0,
                k * k == r * r,
        ;
    }
    assert(r >= 0 && square(r) == n);
}

} // verus!
