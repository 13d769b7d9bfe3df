//! Fractions do not round.
use crate::exact::{is_exact, Reading};
use crate::fraction::{
    divides, gcd, lemma_gcd_divides, lemma_gcd_greatest, lemma_gcd_positive, magnitude, square,
    whole_root, Fraction,
};
use crate::ideal::{lemma_cancel, lemma_distribute, lemma_div, lemma_powers, power};
use crate::laws::constant::{cancels, is_zero, Among};
use crate::laws::cov::times_commutes;
use crate::laws::var::{is_taken_over, zero_is_neutral};
use crate::scalar::Scalar;
use crate::var::VarState;
use vstd::prelude::*;

verus! {

/// The fractions, read as the real numbers that they are.
pub open spec fn fraction_reading() -> Reading<Fraction> {
    |f: Fraction| f.value()
}

/// A product of integers is the product of the real numbers that they are.
proof fn lemma_cast(a: int, b: int)
    ensures
        (a * b) as real == (a as real) * (b as real),
{
    assert((a * b) as real == (a as real) * (b as real)) by (nonlinear_arith);
}

/// The factors that are taken out of a fraction.
pub(crate) proof fn lemma_lowest_factors(n: int, d: int) -> (r: (int, int, int))
    requires
        d > 0,
    ensures
        r.0 > 0,
        r.2 > 0,
        n == r.1 * r.0,
        d == r.2 * r.0,
        r.0 == gcd(magnitude(n), d as nat),
        Fraction::lowest(n, d) == (if i64::MIN <= r.1 <= i64::MAX && r.2 <= i64::MAX {
            Fraction { num: r.1 as i64, den: r.2 as i64 }
        } else {
            Fraction::not_a_number()
        }),
{
    let size = magnitude(n);
    let g = gcd(size, d as nat);
    lemma_gcd_positive(size, d as nat);
    lemma_gcd_divides(size, d as nat);
    let k = choose|k: nat| size == #[trigger] (k * g);
    let m = choose|m: nat| d as nat == #[trigger] (m * g);
    assert(size / g == k) by (nonlinear_arith)
        requires
            size == k * g,
            g > 0,
    ;
    assert(d / (g as int) == m) by (nonlinear_arith)
        requires
            d == m * g,
            g > 0,
    ;
    assert(m > 0) by (nonlinear_arith)
        requires
            d == m * g,
            d > 0,
    ;
    let p = if n < 0 {
        -(k as int)
    } else {
        k as int
    };
    assert(n == p * g) by (nonlinear_arith)
        requires
            n < 0 ==> p == -(k as int) && -n == k * g,
            n >= 0 ==> p == k && n == k * g,
    ;
    (g as int, p, m as int)
}

/// A number that gives `n` when multiplied by `d` is `n / d`.
proof fn lemma_quotient(v: real, n: real, d: real)
    requires
        v * d == n,
        d != 0real,
    ensures
        v == n / d,
{
    lemma_div(n, d);
    lemma_cancel(v, n / d, d);
}

/// The value of a fraction in its lowest terms.
proof fn lemma_lowest_value(n: int, d: int)
    requires
        d > 0,
    ensures
        Fraction::lowest(n, d).value() is Some ==> Fraction::lowest(n, d).value()->0 == (n as real)
            / (d as real),
{
    let (g, p, q) = lemma_lowest_factors(n, d);
    if Fraction::lowest(n, d).is_number() {
        let (gr, pr, qr) = (g as real, p as real, q as real);
        let v = pr / qr;
        lemma_div(pr, qr);
        lemma_cast(p, g);
        lemma_cast(q, g);
        assert(v * (qr * gr) == (v * qr) * gr) by (nonlinear_arith);
        lemma_quotient(v, n as real, d as real);
    }
}

/// The values of two fractions over their common denominator.
proof fn lemma_common(a: Fraction, b: Fraction)
    requires
        a.is_number(),
        b.is_number(),
    ensures
        ({
            let (x, y) = (a.value()->0, b.value()->0);
            let d = a.den * b.den;
            &&& d > 0
            &&& x * (d as real) == (a.num * b.den) as real
            &&& y * (d as real) == (b.num * a.den) as real
        }),
{
    let (x, y) = (a.value()->0, b.value()->0);
    let (an, ad, bn, bd) = (a.num as real, a.den as real, b.num as real, b.den as real);
    lemma_div(an, ad);
    lemma_div(bn, bd);
    lemma_cast(a.den as int, b.den as int);
    lemma_cast(a.num as int, b.den as int);
    lemma_cast(b.num as int, a.den as int);
    assert(x * (ad * bd) == (x * ad) * bd) by (nonlinear_arith);
    assert(y * (ad * bd) == (y * bd) * ad) by (nonlinear_arith);
    assert(a.den * b.den > 0) by (nonlinear_arith)
        requires
            a.den > 0,
            b.den > 0,
    ;
}

/// Sums, differences and products of fractions.
proof fn lemma_arithmetic(a: Fraction, b: Fraction)
    requires
        a.is_number(),
        b.is_number(),
    ensures
        a.plus(b).is_number() ==> a.plus(b).value()->0 == a.value()->0 + b.value()->0,
        a.minus(b).is_number() ==> a.minus(b).value()->0 == a.value()->0 - b.value()->0,
        a.times(b).is_number() ==> a.times(b).value()->0 == a.value()->0 * b.value()->0,
{
    let (x, y) = (a.value()->0, b.value()->0);
    let d = a.den * b.den;
    let dr = d as real;
    lemma_common(a, b);
    lemma_distribute(dr, x, y);
    assert((x - y) * dr == x * dr - y * dr) by (nonlinear_arith);
    lemma_quotient(x + y, (a.num * b.den + b.num * a.den) as real, dr);
    lemma_quotient(x - y, (a.num * b.den - b.num * a.den) as real, dr);
    let (an, ad, bn, bd) = (a.num as real, a.den as real, b.num as real, b.den as real);
    lemma_div(an, ad);
    lemma_div(bn, bd);
    lemma_cast(a.num as int, b.num as int);
    lemma_cast(a.den as int, b.den as int);
    assert((x * y) * (ad * bd) == (x * ad) * (y * bd)) by (nonlinear_arith);
    lemma_quotient(x * y, (a.num * b.num) as real, dr);
    lemma_lowest_value(a.num * b.den + b.num * a.den, d);
    lemma_lowest_value(a.num * b.den - b.num * a.den, d);
    lemma_lowest_value(a.num * b.num, d);
}

/// Quotients of fractions.
proof fn lemma_division(a: Fraction, b: Fraction)
    requires
        a.is_number(),
        b.is_number(),
        b.num != 0,
    ensures
        b.value()->0 != 0real,
        a.over(b).is_number() ==> a.over(b).value()->0 == a.value()->0 / b.value()->0,
{
    let (x, y) = (a.value()->0, b.value()->0);
    let (an, ad, bn, bd) = (a.num as real, a.den as real, b.num as real, b.den as real);
    lemma_div(an, ad);
    lemma_div(bn, bd);
    assert(y != 0real) by (nonlinear_arith)
        requires
            y * bd == bn,
            bn != 0real,
    ;
    let z = x / y;
    lemma_div(x, y);
    assert(z * (ad * (y * bd)) == (z * y) * ad * bd) by (nonlinear_arith);
    lemma_cast(a.num as int, b.den as int);
    lemma_cast(a.den as int, b.num as int);
    let (n, d) = (a.num * b.den, a.den * b.num);
    assert(z * (d as real) == n as real);
    assert(b.num < 0 ==> d < 0) by (nonlinear_arith)
        requires
            a.den > 0,
            d == a.den * b.num,
    ;
    assert(b.num > 0 ==> d > 0) by (nonlinear_arith)
        requires
            a.den > 0,
            d == a.den * b.num,
    ;
    if b.num < 0 {
        let dr = d as real;
        assert(z * (-dr) == -(z * dr)) by (nonlinear_arith);
        lemma_quotient(z, (-n) as real, (-d) as real);
        lemma_lowest_value(-n, -d);
    } else {
        lemma_quotient(z, n as real, d as real);
        lemma_lowest_value(n, d);
    }
}

/// Comparisons of fractions.
proof fn lemma_comparison(a: Fraction, b: Fraction)
    requires
        a.is_number(),
        b.is_number(),
    ensures
        a.same(b) <==> a.value()->0 == b.value()->0,
        a.less(b) <==> a.value()->0 < b.value()->0,
        a.at_most(b) <==> a.value()->0 <= b.value()->0,
{
    lemma_common(a, b);
    let (x, y) = (a.value()->0, b.value()->0);
    let d = (a.den * b.den) as real;
    assert(x < y <==> x * d < y * d) by (nonlinear_arith)
        requires
            d > 0real,
    ;
    assert(x == y <==> x * d == y * d) by (nonlinear_arith)
        requires
            d > 0real,
    ;
}

/// Square roots of fractions.
proof fn lemma_root(a: Fraction)
    requires
        a.root().is_number(),
    ensures
        a.is_number(),
        a.root().value()->0 >= 0real,
        a.root().value()->0 * a.root().value()->0 == a.value()->0,
{
    let (p, q) = (whole_root(a.num as int)->0, whole_root(a.den as int)->0);
    assert(square(p) == a.num && p >= 0);
    assert(square(q) == a.den && q >= 0);
    assert(q > 0 && q <= a.den) by (nonlinear_arith)
        requires
            q * q == a.den,
            q >= 0,
            a.den > 0,
    ;
    assert(p <= a.num) by (nonlinear_arith)
        requires
            p * p == a.num,
            p >= 0,
    ;
    let (pr, qr) = (p as real, q as real);
    let r = pr / qr;
    lemma_div(pr, qr);
    assert(r >= 0real) by (nonlinear_arith)
        requires
            r * qr == pr,
            pr >= 0real,
            qr > 0real,
    ;
    lemma_cast(p, p);
    lemma_cast(q, q);
    assert((r * r) * (qr * qr) == (r * qr) * (r * qr)) by (nonlinear_arith);
    lemma_quotient(r * r, a.num as real, a.den as real);
}

/// Where an operation on fractions gives a number, it is the right one.
pub proof fn law_fractions_exact()
    ensures
        is_exact(fraction_reading()),
{
    let v = fraction_reading();
    assert forall|n: nat| v(#[trigger] Fraction::count(n)) is Some implies v(Fraction::count(n))
        == Some(n as real) by {
        lemma_quotient_one(n as real);
    }
    lemma_quotient_one(0real);
    assert forall|a: Fraction, b: Fraction| v(#[trigger] a.plus(b)) is Some implies v(a) is Some
        && v(b) is Some && v(a.plus(b))->0 == v(a)->0 + v(b)->0 by {
        lemma_arithmetic(a, b);
    }
    assert forall|a: Fraction, b: Fraction| v(#[trigger] a.alg_plus(b)) is Some implies v(a) is Some
        && v(b) is Some && v(a.alg_plus(b))->0 == v(a)->0 + v(b)->0 by {
        lemma_arithmetic(a, b);
    }
    assert forall|a: Fraction, b: Fraction| v(#[trigger] a.minus(b)) is Some implies v(a) is Some
        && v(b) is Some && v(a.minus(b))->0 == v(a)->0 - v(b)->0 by {
        lemma_arithmetic(a, b);
    }
    assert forall|a: Fraction, b: Fraction| v(#[trigger] a.times(b)) is Some implies v(a) is Some
        && v(b) is Some && v(a.times(b))->0 == v(a)->0 * v(b)->0 by {
        lemma_arithmetic(a, b);
    }
    assert forall|a: Fraction, b: Fraction| v(#[trigger] a.over(b)) is Some implies v(a) is Some
        && v(b) is Some && v(b)->0 != 0real && v(a.over(b))->0 == v(a)->0 / v(b)->0 by {
        lemma_division(a, b);
    }
    assert forall|a: Fraction| v(#[trigger] a.root()) is Some implies v(a) is Some && v(
        a.root(),
    )->0 >= 0real && v(a.root())->0 * v(a.root())->0 == v(a)->0 by {
        lemma_root(a);
    }
    assert forall|a: Fraction| v(#[trigger] a.root_cubed()) is Some implies v(a) is Some && v(
        a.root_cubed(),
    )->0 >= 0real && v(a.root_cubed())->0 * v(a.root_cubed())->0 == power(v(a)->0, 3) by {
        lemma_root(a);
        lemma_arithmetic(a.root(), a);
        let (r, x) = (a.root().value()->0, a.value()->0);
        lemma_powers(x);
        assert((r * x) * (r * x) == (r * r) * (x * x)) by (nonlinear_arith);
        assert(x >= 0real) by (nonlinear_arith)
            requires
                r * r == x,
        ;
        assert(r * x >= 0real) by (nonlinear_arith)
            requires
                r >= 0real,
                x >= 0real,
        ;
    }
    assert forall|a: Fraction, b: Fraction| #[trigger]
        a.same(b) <==> v(a) is Some && v(b) is Some && v(a)->0 == v(b)->0 by {
        if a.is_number() && b.is_number() {
            lemma_comparison(a, b);
        }
    }
    assert forall|a: Fraction, b: Fraction| #[trigger]
        a.less(b) <==> v(a) is Some && v(b) is Some && v(a)->0 < v(b)->0 by {
        if a.is_number() && b.is_number() {
            lemma_comparison(a, b);
        }
    }
    assert forall|a: Fraction, b: Fraction| #[trigger]
        a.at_most(b) <==> v(a) is Some && v(b) is Some && v(a)->0 <= v(b)->0 by {
        if a.is_number() && b.is_number() {
            lemma_comparison(a, b);
        }
    }
}

/// A quotient by one.
proof fn lemma_quotient_one(n: real)
    ensures
        n / 1real == n,
{
    assert(n * 1real == n) by (nonlinear_arith);
    lemma_quotient(n, n, 1real);
}

/// The fractions that are positive whole numbers.
pub open spec fn whole_fractions() -> Among<Fraction> {
    |f: Fraction| f.num > 0 && f.den == 1
}

/// The fractions that are numbers.
pub open spec fn number_fractions() -> Among<Fraction> {
    |f: Fraction| f.is_number()
}

/// A fraction that was expanded can be brought to its lowest terms again.
proof fn lemma_lowest_scaled(p: i64, q: i64, k: int)
    requires
        q > 0,
        k > 0,
    ensures
        q * k > 0,
        Fraction::lowest(p * k, q * k).is_number(),
        Fraction::lowest(p * k, q * k).value()->0 == (p as real) / (q as real),
        Fraction::lowest(p * k, q * k).den <= q,
        q == 1 ==> Fraction::lowest(p * k, q * k) == (Fraction { num: p, den: 1 }),
        p == 0 ==> Fraction::lowest(p * k, q * k).num == 0,
{
    let (n, d) = (p * k, q * k);
    assert(d > 0) by (nonlinear_arith)
        requires
            q > 0,
            k > 0,
            d == q * k,
    ;
    let size = magnitude(n);
    let (g, m, t) = lemma_lowest_factors(n, d);
    assert(size == magnitude(p as int) * (k as nat)) by (nonlinear_arith)
        requires
            n == p * k,
            k > 0,
            p < 0 ==> magnitude(p as int) == -p,
            p >= 0 ==> magnitude(p as int) == p,
            n < 0 ==> size == -n,
            n >= 0 ==> size == n,
    ;
    assert(divides(k as nat, size));
    assert(d as nat == (q as nat) * (k as nat));
    assert(divides(k as nat, d as nat));
    lemma_gcd_greatest(k as nat, size, d as nat);
    assert(k <= g);
    assert(t <= q) by (nonlinear_arith)
        requires
            t * g == q * k,
            0 < k <= g,
            t > 0,
            q > 0,
    ;
    assert(p >= 0 ==> 0 <= m <= p) by (nonlinear_arith)
        requires
            m * g == p * k,
            0 < k <= g,
    ;
    assert(p < 0 ==> p <= m <= 0) by (nonlinear_arith)
        requires
            m * g == p * k,
            0 < k <= g,
    ;
    if q == 1 {
        assert(m == p) by (nonlinear_arith)
            requires
                t == 1,
                t * g == 1 * k,
                m * g == p * k,
                k > 0,
        ;
    }
    lemma_lowest_value(n, d);
    let (pr, qr, kr) = (p as real, q as real, k as real);
    let v = pr / qr;
    lemma_div(pr, qr);
    lemma_cast(p as int, k);
    lemma_cast(q as int, k);
    assert(v * (qr * kr) == (v * qr) * kr) by (nonlinear_arith);
    lemma_quotient(v, n as real, d as real);
}

/// A product with one.
proof fn lemma_times_one(n: int)
    ensures
        n * 1 == n,
        1 * n == n,
{
}

/// Zero over anything is zero.
proof fn lemma_lowest_zero(d: int)
    requires
        d > 0,
    ensures
        Fraction::lowest(0, d) == (Fraction { num: 0, den: 1 }),
{
    lemma_lowest_scaled(0, 1, d);
    assert(0 * d == 0);
    lemma_times_one(d);
}

/// Adding zero to a fraction, or taking it away, leaves its value.
proof fn lemma_plus_zero(a: Fraction, z: Fraction)
    requires
        a.is_number(),
        z.is_number(),
        z.num == 0,
    ensures
        a.plus(z).is_number(),
        a.plus(z).value() == a.value(),
        z.plus(a).is_number(),
        z.plus(a).value() == a.value(),
        a.minus(z).is_number(),
        a.minus(z).value() == a.value(),
        a.den == 1 ==> z.plus(a) == a,
{
    lemma_lowest_scaled(a.num, a.den, z.den as int);
    assert(z.num * a.den == 0) by (nonlinear_arith)
        requires
            z.num == 0,
    ;
    assert(z.den * a.den == a.den * z.den) by (nonlinear_arith);
}

/// Products with zero.
proof fn lemma_times_zero(a: Fraction, z: Fraction)
    requires
        a.is_number(),
        z.is_number(),
        z.num == 0,
    ensures
        is_zero(a.times(z)),
        is_zero(z.times(a)),
{
    lemma_common(a, z);
    assert(a.num * z.num == 0) by (nonlinear_arith)
        requires
            z.num == 0,
    ;
    assert(z.num * a.num == 0) by (nonlinear_arith)
        requires
            z.num == 0,
    ;
    assert(z.den * a.den == a.den * z.den) by (nonlinear_arith);
    lemma_lowest_zero(a.den * z.den);
}

/// Fractions keep what columns of one and the same number need to have no spread.
pub proof fn law_fractions_cancel(c: Fraction)
    requires
        c.is_number(),
    ensures
        cancels(c, whole_fractions(), number_fractions()),
{
    let positive = whole_fractions();
    let finite = number_fractions();
    let zero = Fraction::count(0);
    assert forall|z: Fraction| #[trigger] is_zero(z) implies finite(z) && !zero.less(z) && z.num
        == 0 by {
        lemma_times_one(z.num as int);
        assert(0 * z.den == 0) by (nonlinear_arith);
    }
    assert forall|z: Fraction, d: Fraction| is_zero(z) implies !zero.less(
        #[trigger] z.times(d),
    ) by {
        if d.is_number() {
            lemma_times_zero(d, z);
            assert(is_zero(z.times(d)));
        }
    }
    assert forall|d: Fraction, z: Fraction| is_zero(z) implies !zero.less(
        #[trigger] d.times(z),
    ) by {
        if d.is_number() {
            lemma_times_zero(d, z);
            assert(is_zero(d.times(z)));
        }
    }
    assert forall|a: Fraction, b: Fraction| is_zero(a) && is_zero(b) implies is_zero(
        #[trigger] a.plus(b),
    ) by {
        assert(a.num == 0 && b.num == 0);
        lemma_plus_zero(a, b);
        lemma_comparison(a.plus(b), zero);
        lemma_comparison(a, zero);
    }
    assert forall|a: Fraction, b: Fraction| is_zero(a) && is_zero(b) implies is_zero(
        #[trigger] a.alg_plus(b),
    ) by {
        assert(is_zero(a.plus(b)));
    }
    assert forall|z: Fraction, d: Fraction| is_zero(z) && finite(d) implies is_zero(
        #[trigger] z.times(d),
    ) by {
        assert(z.num == 0);
        lemma_times_zero(d, z);
    }
    assert forall|d: Fraction, z: Fraction| is_zero(z) && finite(d) implies is_zero(
        #[trigger] d.times(z),
    ) by {
        assert(z.num == 0);
        lemma_times_zero(d, z);
    }
    assert forall|z: Fraction, w: Fraction| is_zero(z) && positive(w) implies is_zero(
        #[trigger] z.over(w),
    ) by {
        assert(z.num == 0);
        assert(z.num * w.den == 0);
        assert(z.den * w.num > 0) by (nonlinear_arith)
            requires
                z.den > 0,
                w.num > 0,
        ;
        lemma_lowest_zero(z.den * w.num);
    }
    assert forall|a: Fraction, b: Fraction| a.same(c) && b.same(c) implies is_zero(
        #[trigger] a.minus(b),
    ) by {
        lemma_comparison(a, c);
        lemma_comparison(b, c);
        lemma_comparison(a, b);
        lemma_common(a, b);
        lemma_lowest_zero(a.den * b.den);
    }
    assert forall|a: Fraction, z: Fraction| a.same(c) && is_zero(z) implies (#[trigger] a.plus(
        z,
    )).same(c) by {
        assert(z.num == 0);
        lemma_plus_zero(a, z);
        lemma_comparison(a, c);
        lemma_comparison(a.plus(z), c);
    }
    assert forall|a: Fraction| a.same(c) implies finite(#[trigger] a.minus(zero)) by {
        lemma_plus_zero(a, zero);
    }
    assert forall|u: Fraction, w: Fraction|
        positive(u) && positive(w) && positive(u.plus(w)) implies finite(
        #[trigger] w.over(u.plus(w)),
    ) by {
        lemma_whole_quotient(w, u.plus(w));
    }
    assert forall|w: Fraction, ddof: u8|
        positive(w) && !w.at_most(Fraction::count(ddof as nat)) implies positive(
        #[trigger] w.minus(Fraction::count(ddof as nat)),
    ) by {
        let n = (w.num - ddof) as i64;
        assert(w.num > ddof);
        lemma_lowest_scaled(n, 1, 1);
        lemma_times_one(n as int);
    }
    assert forall|w: Fraction, a: Fraction| positive(w) && a.same(c) implies (
    #[trigger] zero.plus(a.minus(zero).times(w.over(zero.plus(w))))).same(c) by {
        lemma_plus_zero(w, zero);
        assert(zero.plus(w) == w);
        lemma_whole_quotient(w, w);
        let one = w.over(w);
        lemma_lowest_scaled(1, 1, w.num as int);
        assert(one == Fraction { num: 1, den: 1 });
        lemma_plus_zero(a, zero);
        let b = a.minus(zero);
        lemma_lowest_scaled(b.num, b.den, 1);
        lemma_times_one(b.num as int);
        lemma_times_one(b.den as int);
        let d = b.times(one);
        lemma_plus_zero(d, zero);
        lemma_comparison(a, c);
        lemma_comparison(zero.plus(d), c);
    }
}

/// Quotients of positive whole numbers.
proof fn lemma_whole_quotient(a: Fraction, b: Fraction)
    requires
        a.num > 0,
        a.den == 1,
        b.num > 0,
        b.den == 1,
    ensures
        a.over(b).is_number(),
        a.over(b) == Fraction::lowest(a.num as int, b.num as int),
{
    lemma_lowest_scaled(a.num, b.num, 1);
    lemma_times_one(a.num as int);
    lemma_times_one(b.num as int);
}

/// A product of fractions does not depend on which of them comes first.
pub proof fn law_fractions_commute()
    ensures
        times_commutes::<Fraction>(),
{
    assert forall|a: Fraction, b: Fraction| #[trigger] a.times(b) == b.times(a) by {
        assert(a.num * b.num == b.num * a.num) by (nonlinear_arith);
        assert(a.den * b.den == b.den * a.den) by (nonlinear_arith);
    }
}

/// Adding zero to a fraction leaves one that is equal to it.
proof fn lemma_zero_is_neutral(d: Fraction)
    requires
        d.is_number(),
    ensures
        zero_is_neutral(d),
{
    lemma_comparison(d, d);
    assert forall|a: Fraction, z: Fraction| a.same(d) && is_zero(z) implies (#[trigger] a.plus(
        z,
    )).same(d) by {
        lemma_is_zero(z);
        lemma_plus_zero(a, z);
        lemma_comparison(a, d);
        lemma_comparison(a.plus(z), d);
    }
    assert forall|z: Fraction, a: Fraction| is_zero(z) && a.same(d) implies (#[trigger] z.plus(
        a,
    )).same(d) by {
        lemma_is_zero(z);
        lemma_plus_zero(a, z);
        lemma_comparison(a, d);
        lemma_comparison(z.plus(a), d);
    }
}

/// A fraction is zero if and only if its numerator is.
proof fn lemma_is_zero(z: Fraction)
    ensures
        is_zero(z) <==> z.is_number() && z.num == 0,
{
    lemma_times_one(z.num as int);
    assert(0 * z.den == 0) by (nonlinear_arith);
}

/// The quotient of a fraction by one that is equal to it.
proof fn lemma_equal_quotient(a: Fraction, b: Fraction)
    requires
        a.same(b),
        a.num != 0,
    ensures
        a.over(b) == (Fraction { num: 1, den: 1 }),
{
    let (n, d) = (a.num * b.den, a.den * b.num);
    assert(n == d) by (nonlinear_arith)
        requires
            n == a.num * b.den,
            d == a.den * b.num,
            a.num * b.den == b.num * a.den,
    ;
    assert(n != 0) by (nonlinear_arith)
        requires
            n == a.num * b.den,
            a.num != 0,
            b.den > 0,
    ;
    assert(b.num != 0 && (b.num < 0 <==> d < 0)) by (nonlinear_arith)
        requires
            d == a.den * b.num,
            d != 0,
            a.den > 0,
    ;
    let size = if d < 0 {
        -d
    } else {
        d
    };
    lemma_lowest_scaled(1, 1, size);
    lemma_times_one(size);
}

/// The state of no fractions takes over every state of fractions with a weight other than
/// zero.
pub proof fn law_fractions_taken_over(a: VarState<Fraction>)
    requires
        a.weight.is_number(),
        a.weight.num != 0,
        a.mean.is_number(),
        a.dp.is_number(),
    ensures
        is_taken_over(a),
{
    let zero = Fraction::count(0);
    lemma_is_zero(zero);
    lemma_is_zero(a.weight);
    lemma_zero_is_neutral(a.weight);
    lemma_zero_is_neutral(a.dp);
    assert forall|w: Fraction| #[trigger] w.same(a.weight) implies !is_zero(w) by {
        lemma_is_zero(w);
        assert(w.num != 0) by (nonlinear_arith)
            requires
                w.num * a.weight.den == a.weight.num * w.den,
                a.weight.num != 0,
                w.den > 0,
        ;
    }
    assert forall|m: Fraction| m.same(a.mean) implies is_zero(#[trigger] a.mean.minus(m)) by {
        lemma_common(a.mean, m);
        lemma_lowest_zero(a.mean.den * m.den);
        lemma_is_zero(a.mean.minus(m));
    }
    assert forall|z: Fraction| is_zero(z) implies is_zero(#[trigger] a.weight.times(z)) by {
        lemma_is_zero(z);
        lemma_times_zero(a.weight, z);
    }
    let delta = a.mean.minus(zero);
    lemma_plus_zero(a.mean, zero);
    assert forall|z: Fraction| is_zero(z) implies is_zero(#[trigger] z.times(delta)) by {
        lemma_is_zero(z);
        lemma_times_zero(delta, z);
    }
    let weight = zero.plus(a.weight);
    assert(a.weight.same(a.weight));
    assert(weight.same(a.weight));
    lemma_equal_quotient(a.weight, weight);
    let one = a.weight.over(weight);
    lemma_lowest_scaled(delta.num, delta.den, 1);
    lemma_times_one(delta.num as int);
    lemma_times_one(delta.den as int);
    let d = delta.times(one);
    lemma_plus_zero(d, zero);
    lemma_comparison(zero.plus(d), a.mean);
}

} // verus!
