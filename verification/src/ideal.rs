//! Moments of real numbers.
use vstd::prelude::*;

verus! {

/// The sum of `xs`.
pub open spec fn total(xs: Seq<real>) -> real
    decreases xs.len(),
{
    if xs.len() == 0 {
        0real
    } else {
        total(xs.drop_last()) + xs.last()
    }
}

/// The arithmetic mean of `xs`, zero where there are none.
pub open spec fn mean(xs: Seq<real>) -> real {
    if xs.len() == 0 {
        0real
    } else {
        total(xs) / (xs.len() as real)
    }
}

/// The power of `r` with exponent `k`.
pub open spec fn power(r: real, k: nat) -> real
    decreases k,
{
    if k == 0 {
        1real
    } else {
        r * power(r, (k - 1) as nat)
    }
}

/// The sum of the `k`th powers of the deviations of `xs` from `c`.
pub open spec fn moment_about(xs: Seq<real>, c: real, k: nat) -> real
    decreases xs.len(),
{
    if xs.len() == 0 {
        0real
    } else {
        moment_about(xs.drop_last(), c, k) + power(xs.last() - c, k)
    }
}

/// The sum of the `k`th powers of the deviations of `xs` from their mean.
pub open spec fn central_moment(xs: Seq<real>, k: nat) -> real {
    moment_about(xs, mean(xs), k)
}

/// The sum of the products of the deviations of `xs` from `a` and of `ys` from `b`.
pub open spec fn comoment_about(xs: Seq<real>, a: real, ys: Seq<real>, b: real) -> real
    decreases xs.len(),
{
    if xs.len() == 0 {
        0real
    } else {
        comoment_about(xs.drop_last(), a, ys.drop_last(), b) + (xs.last() - a) * (ys.last() - b)
    }
}

/// The sum of the products of the deviations of `xs` and of `ys` from their means.
pub open spec fn comoment(xs: Seq<real>, ys: Seq<real>) -> real {
    comoment_about(xs, mean(xs), ys, mean(ys))
}

/// Division undoes multiplication.
pub proof fn lemma_div(a: real, b: real)
    requires
        b != 0real,
    ensures
        (a / b) * b == a,
{
    assert((a / b) * b == a) by (nonlinear_arith)
        requires
            b != 0real,
    ;
}

/// A factor can stand on either side of a fraction.
pub proof fn lemma_fraction(a: real, b: real, c: real)
    requires
        c != 0real,
    ensures
        a * (b / c) == b * (a / c),
        a * (b / c) == (a * b) / c,
{
    lemma_div(a, c);
    lemma_div(b, c);
    lemma_div(a * b, c);
    let (p, q) = (a / c, b / c);
    assert((a * q) * c == a * (q * c)) by (nonlinear_arith);
    assert((b * p) * c == b * (p * c)) by (nonlinear_arith);
    assert(a * b == b * a) by (nonlinear_arith);
    lemma_cancel(a * q, b * p, c);
    lemma_cancel(a * q, (a * b) / c, c);
}

/// A factor other than zero can be taken off both sides.
pub proof fn lemma_cancel(a: real, b: real, c: real)
    requires
        a * c == b * c,
        c != 0real,
    ensures
        a == b,
{
    assert(a == b) by (nonlinear_arith)
        requires
            a * c == b * c,
            c != 0real,
    ;
}

/// Multiplication distributes over addition.
pub proof fn lemma_distribute(a: real, b: real, c: real)
    ensures
        a * (b + c) == a * b + a * c,
        (b + c) * a == b * a + c * a,
{
    assert(a * (b + c) == a * b + a * c) by (nonlinear_arith);
    assert((b + c) * a == b * a + c * a) by (nonlinear_arith);
}

/// What the powers with small exponents are.
pub proof fn lemma_powers(r: real)
    ensures
        power(r, 1) == r,
        power(r, 2) == r * r,
        power(r, 3) == r * (r * r),
        power(r, 4) == r * (r * (r * r)),
{
    reveal_with_fuel(power, 5);
    assert(r * 1real == r) by (nonlinear_arith);
}

/// The mean times the number of numbers is their sum.
pub proof fn lemma_mean(xs: Seq<real>)
    ensures
        mean(xs) * (xs.len() as real) == total(xs),
{
    if xs.len() == 0 {
        assert(0real * 0real == 0real) by (nonlinear_arith);
        assert(xs.len() as real == 0real);
    } else {
        assert(xs.len() as real != 0real);
        lemma_div(total(xs), xs.len() as real);
    }
}

/// The sum of the deviations from any number.
pub proof fn lemma_first_moment(xs: Seq<real>, c: real)
    ensures
        moment_about(xs, c, 1) == total(xs) - c * (xs.len() as real),
    decreases xs.len(),
{
    if xs.len() == 0 {
        assert(c * 0real == 0real) by (nonlinear_arith);
        assert(xs.len() as real == 0real);
    } else {
        let init = xs.drop_last();
        lemma_first_moment(init, c);
        lemma_powers(xs.last() - c);
        assert(xs.len() as real == init.len() as real + 1real);
        lemma_distribute(c, init.len() as real, 1real);
        assert(c * 1real == c) by (nonlinear_arith);
    }
}

/// A cube of a difference.
proof fn lemma_cube(u: real, t: real)
    ensures
        (u - t) * ((u - t) * (u - t)) == u * (u * u) - 3real * (t * (u * u)) + 3real * ((t * t) * u)
            - t * (t * t),
{
    let (u2, tu, t2) = (u * u, t * u, t * t);
    assert((u - t) * (u - t) == u * u - 2real * (t * u) + t * t) by (nonlinear_arith);
    assert((u - t) * (u2 - 2real * tu + t2) == u * u2 - 2real * (u * tu) + u * t2 - t * u2 + 2real
        * (t * tu) - t * t2) by (nonlinear_arith);
    assert(u * (t * u) == t * (u * u)) by (nonlinear_arith);
    assert(u * (t * t) == (t * t) * u) by (nonlinear_arith);
    assert(t * (t * u) == (t * t) * u) by (nonlinear_arith);
}

/// A fourth power of a difference.
proof fn lemma_fourth(u: real, t: real)
    ensures
        (u - t) * ((u - t) * ((u - t) * (u - t))) == u * (u * (u * u)) - 4real * (t * (u * (u * u)))
            + 6real * ((t * t) * (u * u)) - 4real * ((t * (t * t)) * u) + t * (t * (t * t)),
{
    lemma_cube(u, t);
    let (u3, tu2, t2u, t3) = (u * (u * u), t * (u * u), (t * t) * u, t * (t * t));
    assert((u - t) * (u3 - 3real * tu2 + 3real * t2u - t3) == u * u3 - 3real * (u * tu2) + 3real * (
    u * t2u) - u * t3 - t * u3 + 3real * (t * tu2) - 3real * (t * t2u) + t * t3)
        by (nonlinear_arith);
    assert(u * (t * (u * u)) == t * (u * (u * u))) by (nonlinear_arith);
    assert(u * ((t * t) * u) == (t * t) * (u * u)) by (nonlinear_arith);
    assert(t * (t * (u * u)) == (t * t) * (u * u)) by (nonlinear_arith);
    assert(t * ((t * t) * u) == (t * (t * t)) * u) by (nonlinear_arith);
    assert(u * (t * (t * t)) == (t * (t * t)) * u) by (nonlinear_arith);
}

/// The products of deviations from other centers.
pub proof fn lemma_comoment_shift(
    xs: Seq<real>,
    a: real,
    s: real,
    ys: Seq<real>,
    b: real,
    t: real,
)
    requires
        xs.len() == ys.len(),
    ensures
        comoment_about(xs, a + s, ys, b + t) == comoment_about(xs, a, ys, b) - t * moment_about(
            xs,
            a,
            1,
        ) - s * moment_about(ys, b, 1) + (xs.len() as real) * (s * t),
    decreases xs.len(),
{
    if xs.len() == 0 {
        assert(t * 0real == 0real) by (nonlinear_arith);
        assert(s * 0real == 0real) by (nonlinear_arith);
        assert(0real * (s * t) == 0real) by (nonlinear_arith);
        assert(xs.len() as real == 0real);
    } else {
        let (x0, y0) = (xs.drop_last(), ys.drop_last());
        let (u, w) = (xs.last() - a, ys.last() - b);
        lemma_comoment_shift(x0, a, s, y0, b, t);
        lemma_powers(u);
        lemma_powers(w);
        lemma_distribute(t, moment_about(x0, a, 1), u);
        lemma_distribute(s, moment_about(y0, b, 1), w);
        assert(xs.len() as real == x0.len() as real + 1real);
        lemma_distribute(s * t, x0.len() as real, 1real);
        assert(1real * (s * t) == s * t) by (nonlinear_arith);
        assert((u - s) * (w - t) == u * w - t * u - s * w + s * t) by (nonlinear_arith);
        assert(xs.last() - (a + s) == u - s);
        assert(ys.last() - (b + t) == w - t);
    }
}

/// The powers of deviations from another center.
pub proof fn lemma_moment_shift(xs: Seq<real>, c: real, t: real)
    ensures
        moment_about(xs, c + t, 2) == moment_about(xs, c, 2) - 2real * (t * moment_about(xs, c, 1))
            + (xs.len() as real) * (t * t),
        moment_about(xs, c + t, 3) == moment_about(xs, c, 3) - 3real * (t * moment_about(xs, c, 2))
            + 3real * ((t * t) * moment_about(xs, c, 1)) - (xs.len() as real) * (t * (t * t)),
        moment_about(xs, c + t, 4) == moment_about(xs, c, 4) - 4real * (t * moment_about(xs, c, 3))
            + 6real * ((t * t) * moment_about(xs, c, 2)) - 4real * ((t * (t * t)) * moment_about(
            xs,
            c,
            1,
        )) + (xs.len() as real) * (t * (t * (t * t))),
    decreases xs.len(),
{
    let (t2, t3, t4) = (t * t, t * (t * t), t * (t * (t * t)));
    if xs.len() == 0 {
        assert(xs.len() as real == 0real);
        assert(t * 0real == 0real) by (nonlinear_arith);
        assert(t2 * 0real == 0real) by (nonlinear_arith);
        assert(t3 * 0real == 0real) by (nonlinear_arith);
        assert(0real * t2 == 0real) by (nonlinear_arith);
        assert(0real * t3 == 0real) by (nonlinear_arith);
        assert(0real * t4 == 0real) by (nonlinear_arith);
    } else {
        let init = xs.drop_last();
        let u = xs.last() - c;
        lemma_moment_shift(init, c, t);
        lemma_powers(u);
        lemma_powers(u - t);
        assert(xs.last() - (c + t) == u - t);
        assert(xs.len() as real == init.len() as real + 1real);
        let (m1, m2, m3) = (
            moment_about(init, c, 1),
            moment_about(init, c, 2),
            moment_about(init, c, 3),
        );
        lemma_distribute(t, m1, u);
        lemma_distribute(t, m2, u * u);
        lemma_distribute(t, m3, u * (u * u));
        lemma_distribute(t2, m1, u);
        lemma_distribute(t2, m2, u * u);
        lemma_distribute(t3, m1, u);
        lemma_distribute(t2, init.len() as real, 1real);
        lemma_distribute(t3, init.len() as real, 1real);
        lemma_distribute(t4, init.len() as real, 1real);
        assert(1real * t2 == t2) by (nonlinear_arith);
        assert(1real * t3 == t3) by (nonlinear_arith);
        assert(1real * t4 == t4) by (nonlinear_arith);
        assert((u - t) * (u - t) == u * u - 2real * (t * u) + t * t) by (nonlinear_arith);
        lemma_cube(u, t);
        lemma_fourth(u, t);
    }
}

/// Sums over two sequences, one after the other.
pub proof fn lemma_append(xs: Seq<real>, more: Seq<real>, c: real, k: nat)
    ensures
        total(xs + more) == total(xs) + total(more),
        moment_about(xs + more, c, k) == moment_about(xs, c, k) + moment_about(more, c, k),
    decreases more.len(),
{
    if more.len() == 0 {
        assert(xs + more =~= xs);
    } else {
        lemma_append(xs, more.drop_last(), c, k);
        assert((xs + more).drop_last() =~= xs + more.drop_last());
    }
}

/// Sums of products over two sequences of pairs, one after the other.
pub proof fn lemma_append_pairs(
    xs: Seq<real>,
    more_xs: Seq<real>,
    a: real,
    ys: Seq<real>,
    more_ys: Seq<real>,
    b: real,
)
    requires
        xs.len() == ys.len(),
        more_xs.len() == more_ys.len(),
    ensures
        comoment_about(xs + more_xs, a, ys + more_ys, b) == comoment_about(xs, a, ys, b)
            + comoment_about(more_xs, a, more_ys, b),
    decreases more_xs.len(),
{
    if more_xs.len() == 0 {
        assert(xs + more_xs =~= xs);
        assert(ys + more_ys =~= ys);
    } else {
        lemma_append_pairs(xs, more_xs.drop_last(), a, ys, more_ys.drop_last(), b);
        assert((xs + more_xs).drop_last() =~= xs + more_xs.drop_last());
        assert((ys + more_ys).drop_last() =~= ys + more_ys.drop_last());
    }
}

/// The products of deviations of one sequence with itself are their squares.
pub proof fn lemma_comoment_self(xs: Seq<real>, a: real)
    ensures
        comoment_about(xs, a, xs, a) == moment_about(xs, a, 2),
    decreases xs.len(),
{
    if xs.len() > 0 {
        lemma_comoment_self(xs.drop_last(), a);
        lemma_powers(xs.last() - a);
    }
}

/// The moments of a single number.
pub proof fn lemma_single(x: real)
    ensures
        mean(seq![x]) == x,
        central_moment(seq![x], 2) == 0real,
        central_moment(seq![x], 3) == 0real,
        central_moment(seq![x], 4) == 0real,
{
    let xs = seq![x];
    lemma_mean(xs);
    assert(xs.drop_last() =~= Seq::empty());
    assert(total(xs) == x) by {
        assert(total(xs.drop_last()) == 0real);
    }
    assert(mean(xs) * 1real == mean(xs)) by (nonlinear_arith);
    assert(xs.len() as real == 1real);
    assert(forall|k: nat| #[trigger] moment_about(xs.drop_last(), x, k) == 0real);
    lemma_powers(0real);
    lemma_zero(0real);
    assert(moment_about(xs, x, 2) == moment_about(xs.drop_last(), x, 2) + power(x - x, 2));
    assert(moment_about(xs, x, 3) == moment_about(xs.drop_last(), x, 3) + power(x - x, 3));
    assert(moment_about(xs, x, 4) == moment_about(xs.drop_last(), x, 4) + power(x - x, 4));
}

/// The products of deviations of a single pair.
pub proof fn lemma_single_pair(x: real, y: real)
    ensures
        comoment(seq![x], seq![y]) == 0real,
{
    let (xs, ys) = (seq![x], seq![y]);
    lemma_single(x);
    lemma_single(y);
    lemma_zero(0real);
    assert(comoment_about(xs.drop_last(), x, ys.drop_last(), y) == 0real);
}

/// Squares add up to no less than zero.
pub proof fn lemma_squares(xs: Seq<real>, c: real)
    ensures
        moment_about(xs, c, 2) >= 0real,
    decreases xs.len(),
{
    if xs.len() > 0 {
        lemma_squares(xs.drop_last(), c);
        let u = xs.last() - c;
        lemma_powers(u);
        assert(u * u >= 0real) by (nonlinear_arith);
    }
}

/// The inequality of Cauchy and Schwarz.
pub proof fn lemma_cauchy(xs: Seq<real>, a: real, ys: Seq<real>, b: real)
    requires
        xs.len() == ys.len(),
    ensures
        comoment_about(xs, a, ys, b) * comoment_about(xs, a, ys, b) <= moment_about(xs, a, 2)
            * moment_about(ys, b, 2),
{
    let (p, c, q) = (moment_about(xs, a, 2), comoment_about(xs, a, ys, b), moment_about(ys, b, 2));
    lemma_squares(xs, a);
    lemma_squares(ys, b);
    lemma_weighted_squares(xs, a, ys, b, q, c);
    // q * (q * p - c * c) is a sum of squares.
    let k = q * p - c * c;
    assert((q * q) * p - 2real * ((q * c) * c) + (c * c) * q == q * k) by {
        assert((q * q) * p == q * (q * p)) by (nonlinear_arith);
        assert((q * c) * c == q * (c * c)) by (nonlinear_arith);
        assert((c * c) * q == q * (c * c)) by (nonlinear_arith);
        assert(q * (q * p - c * c) == q * (q * p) - q * (c * c)) by (nonlinear_arith);
    }
    assert(q * p == p * q) by (nonlinear_arith);
    if q > 0real {
        assert(k >= 0real) by (nonlinear_arith)
            requires
                q * k >= 0real,
                q > 0real,
        ;
    } else {
        lemma_zero(p);
        let cc = c * c;
        assert((1real * 1real) * p == p) by (nonlinear_arith);
        assert(cc >= 0real) by (nonlinear_arith)
            requires
                cc == c * c,
        ;
        if cc > 0real {
            // Any multiple of the product would then be bounded.
            let big = p / cc + 1real;
            lemma_weighted_squares(xs, a, ys, b, 1real, big * c);
            assert((1real * (big * c)) * c == big * cc) by (nonlinear_arith)
                requires
                    cc == c * c,
            ;
            lemma_zero((big * c) * (big * c));
            lemma_div(p, cc);
            assert(big * cc == p + cc) by (nonlinear_arith)
                requires
                    (p / cc) * cc == p,
                    big == p / cc + 1real,
            ;
        }
    }
}

/// Swaps the inner factors of a product of two products.
proof fn lemma_cross(f: real, u: real, g: real, w: real)
    ensures
        (f * u) * (g * w) == (f * g) * (u * w),
{
    let (k, m) = (g * w, u * w);
    assert((f * u) * k == f * (u * k)) by (nonlinear_arith);
    lemma_swap(u, g, w);
    assert(f * (g * m) == (f * g) * m) by (nonlinear_arith);
}

/// The squares of the differences of two multiples of deviations add up to no less
/// than zero.
proof fn lemma_weighted_squares(
    xs: Seq<real>,
    a: real,
    ys: Seq<real>,
    b: real,
    f: real,
    g: real,
)
    requires
        xs.len() == ys.len(),
    ensures
        (f * f) * moment_about(xs, a, 2) - 2real * ((f * g) * comoment_about(xs, a, ys, b)) + (g
            * g) * moment_about(ys, b, 2) >= 0real,
    decreases xs.len(),
{
    if xs.len() == 0 {
        lemma_zero(f * f);
        lemma_zero(f * g);
        lemma_zero(g * g);
    } else {
        let (x0, y0) = (xs.drop_last(), ys.drop_last());
        lemma_weighted_squares(x0, a, y0, b, f, g);
        let (u, w) = (xs.last() - a, ys.last() - b);
        lemma_powers(u);
        lemma_powers(w);
        lemma_distribute(f * f, moment_about(x0, a, 2), u * u);
        lemma_distribute(f * g, comoment_about(x0, a, y0, b), u * w);
        lemma_distribute(g * g, moment_about(y0, b, 2), w * w);
        let (fu, gw) = (f * u, g * w);
        let h = fu - gw;
        assert(h * h >= 0real) by (nonlinear_arith);
        assert((fu - gw) * (fu - gw) == fu * fu - 2real * (fu * gw) + gw * gw) by (nonlinear_arith);
        lemma_cross(f, u, f, u);
        lemma_cross(f, u, g, w);
        lemma_cross(g, w, g, w);
    }
}

/// Whether each of `ys` is `slope` times the number of `xs` at the same place, plus
/// `offset`.
pub open spec fn is_affine(xs: Seq<real>, ys: Seq<real>, slope: real, offset: real) -> bool {
    &&& xs.len() == ys.len()
    &&& forall|i: int| 0 <= i < xs.len() ==> #[trigger] ys[i] == slope * xs[i] + offset
}

/// The sum of affine images.
proof fn lemma_affine_total(xs: Seq<real>, ys: Seq<real>, slope: real, offset: real)
    requires
        is_affine(xs, ys, slope, offset),
    ensures
        total(ys) == slope * total(xs) + offset * (xs.len() as real),
    decreases xs.len(),
{
    if xs.len() == 0 {
        lemma_zero(slope);
        lemma_zero(offset);
        assert(xs.len() as real == 0real);
    } else {
        let (init_xs, init_ys) = (xs.drop_last(), ys.drop_last());
        assert forall|i: int| 0 <= i < init_xs.len() implies #[trigger] init_ys[i] == slope
            * init_xs[i] + offset by {
            assert(init_ys[i] == ys[i]);
        }
        lemma_affine_total(init_xs, init_ys, slope, offset);
        assert(ys[xs.len() - 1] == slope * xs.last() + offset);
        assert(xs.len() as real == init_xs.len() as real + 1real);
        lemma_distribute(slope, total(init_xs), xs.last());
        lemma_distribute(offset, init_xs.len() as real, 1real);
        lemma_one(offset);
    }
}

/// The products of the deviations of affine images about the image of a number.
proof fn lemma_affine_about(xs: Seq<real>, ys: Seq<real>, slope: real, offset: real, c: real)
    requires
        is_affine(xs, ys, slope, offset),
    ensures
        comoment_about(xs, c, ys, slope * c + offset) == slope * moment_about(xs, c, 2),
        moment_about(ys, slope * c + offset, 2) == slope * (slope * moment_about(xs, c, 2)),
    decreases xs.len(),
{
    if xs.len() == 0 {
        lemma_zero(slope);
    } else {
        let (init_xs, init_ys) = (xs.drop_last(), ys.drop_last());
        assert forall|i: int| 0 <= i < init_xs.len() implies #[trigger] init_ys[i] == slope
            * init_xs[i] + offset by {
            assert(init_ys[i] == ys[i]);
        }
        lemma_affine_about(init_xs, init_ys, slope, offset, c);
        assert(ys[xs.len() - 1] == slope * xs.last() + offset);
        let u = xs.last() - c;
        let w = ys.last() - (slope * c + offset);
        assert(slope * (xs.last() - c) == slope * xs.last() - slope * c) by (nonlinear_arith);
        assert(w == slope * u);
        lemma_powers(u);
        lemma_powers(w);
        assert(u * (slope * u) == slope * (u * u)) by (nonlinear_arith);
        assert((slope * u) * (slope * u) == slope * (slope * (u * u))) by (nonlinear_arith);
        let m = moment_about(init_xs, c, 2);
        lemma_distribute(slope, m, u * u);
        lemma_distribute(slope, slope * m, slope * (u * u));
    }
}

/// The moments of affine images.
pub proof fn lemma_affine(xs: Seq<real>, ys: Seq<real>, slope: real, offset: real)
    requires
        is_affine(xs, ys, slope, offset),
    ensures
        comoment(xs, ys) == slope * central_moment(xs, 2),
        central_moment(ys, 2) == slope * (slope * central_moment(xs, 2)),
{
    if xs.len() == 0 {
        lemma_zero(slope);
    } else {
        let n = xs.len() as real;
        lemma_affine_total(xs, ys, slope, offset);
        lemma_mean(xs);
        lemma_mean(ys);
        let m = mean(xs);
        lemma_distribute(n, slope * m, offset);
        assert((slope * m) * n == slope * (m * n)) by (nonlinear_arith);
        assert(n != 0real);
        lemma_cancel(mean(ys), slope * m + offset, n);
        lemma_affine_about(xs, ys, slope, offset, m);
    }
}

/// The sum of the deviations from the mean is zero.
pub proof fn lemma_central(xs: Seq<real>)
    ensures
        moment_about(xs, mean(xs), 1) == 0real,
{
    lemma_first_moment(xs, mean(xs));
    lemma_mean(xs);
}

/// The mean of two sequences, one after the other, lies between their means, as far
/// from each as the other one weighs.
pub proof fn lemma_merge_mean(xs: Seq<real>, ys: Seq<real>)
    requires
        xs.len() + ys.len() > 0,
    ensures
        ({
            let (n1, n2) = (xs.len() as real, ys.len() as real);
            let step = (mean(ys) - mean(xs)) / (n1 + n2);
            &&& mean(xs + ys) == mean(xs) + n2 * step
            &&& mean(xs + ys) == mean(ys) - n1 * step
            &&& mean(ys) - mean(xs) == n1 * step + n2 * step
        }),
{
    let (n1, n2) = (xs.len() as real, ys.len() as real);
    let n = n1 + n2;
    let d = mean(ys) - mean(xs);
    let step = d / n;
    assert((xs + ys).len() as real == n);
    assert(n != 0real);
    lemma_div(d, n);
    lemma_distribute(step, n1, n2);
    assert(step * n1 == n1 * step) by (nonlinear_arith);
    assert(step * n2 == n2 * step) by (nonlinear_arith);
    lemma_mean(xs);
    lemma_mean(ys);
    lemma_mean(xs + ys);
    lemma_append(xs, ys, 0real, 1);
    let m = mean(xs) + n2 * step;
    lemma_distribute(m, n1, n2);
    lemma_distribute(n1, mean(xs), n2 * step);
    assert(m * n1 == n1 * m) by (nonlinear_arith);
    assert(n1 * mean(xs) == mean(xs) * n1) by (nonlinear_arith);
    assert(m == mean(ys) - n1 * step);
    assert(m * n2 == mean(ys) * n2 - (n1 * step) * n2) by (nonlinear_arith)
        requires
            m == mean(ys) - n1 * step,
    ;
    assert(n1 * (n2 * step) == (n1 * step) * n2) by (nonlinear_arith);
    lemma_cancel(mean(xs + ys), m, n);
}

/// The products of deviations of two sequences of pairs, one after the other.
pub proof fn lemma_merge_comoment(xs: Seq<real>, more_xs: Seq<real>, ys: Seq<real>, more_ys: Seq<real>)
    requires
        xs.len() == ys.len(),
        more_xs.len() == more_ys.len(),
        xs.len() + more_xs.len() > 0,
    ensures
        comoment(xs + more_xs, ys + more_ys) == comoment(xs, ys) + (comoment(more_xs, more_ys) + ((
        more_xs.len() as real) * (mean(more_xs) - mean(xs + more_xs))) * (mean(more_ys) - mean(
            ys,
        ))),
{
    let (n1, n2) = (xs.len() as real, more_xs.len() as real);
    let ex = (mean(more_xs) - mean(xs)) / (n1 + n2);
    let ey = (mean(more_ys) - mean(ys)) / (n1 + n2);
    let (p, q) = (n1 * ex, n2 * ex);
    let (r, s) = (n1 * ey, n2 * ey);
    lemma_merge_mean(xs, more_xs);
    lemma_merge_mean(ys, more_ys);
    let (mx, my) = (mean(xs + more_xs), mean(ys + more_ys));
    lemma_append_pairs(xs, more_xs, mx, ys, more_ys, my);
    lemma_comoment_shift(xs, mean(xs), q, ys, mean(ys), s);
    lemma_comoment_shift(more_xs, mean(more_xs), -p, more_ys, mean(more_ys), -r);
    lemma_central(xs);
    lemma_central(more_xs);
    lemma_central(ys);
    lemma_central(more_ys);
    lemma_zero(s);
    lemma_zero(q);
    lemma_zero(-r);
    lemma_zero(-p);
    assert(mean(more_xs) + (-p) == mx);
    assert(mean(more_ys) + (-r) == my);
    assert((-p) * (-r) == p * r) by (nonlinear_arith);
    let w = n2 * p;
    assert(n1 * (q * s) == w * s) by (nonlinear_arith)
        requires
            w == n2 * p,
            p == n1 * ex,
            q == n2 * ex,
    ;
    assert(n2 * (p * r) == w * r) by (nonlinear_arith)
        requires
            w == n2 * p,
    ;
    lemma_distribute(w, r, s);
}

/// The sum of the squared deviations from a point that lies `t` below the mean, for the
/// weight and the sum `m2` of the squared deviations from the mean.
pub open spec fn second_about(weight: real, m2: real, t: real) -> real {
    m2 + weight * (t * t)
}

/// The sum of the third powers of the deviations from a point that lies `t` below the
/// mean.
pub open spec fn third_about(weight: real, m2: real, m3: real, t: real) -> real {
    m3 + 3real * (t * m2) + weight * (t * (t * t))
}

/// The sum of the fourth powers of the deviations from a point that lies `t` below the
/// mean.
pub open spec fn fourth_about(weight: real, m2: real, m3: real, m4: real, t: real) -> real {
    m4 + 4real * (t * m3) + 6real * ((t * t) * m2) + weight * (t * (t * (t * t)))
}

/// The mean of two weighted means, and how far it is from each.
pub proof fn lemma_common_mean(n1: real, a: real, n2: real, b: real)
    requires
        n1 + n2 != 0real,
    ensures
        ({
            let step = (b - a) / (n1 + n2);
            let m = a + n2 * step;
            &&& m * (n1 + n2) == n1 * a + n2 * b
            &&& m - a == n2 * step
            &&& b - m == n1 * step
            &&& b - a == n1 * step + n2 * step
            &&& n1 * (n2 * step) == n2 * (n1 * step)
        }),
{
    let n = n1 + n2;
    let step = (b - a) / n;
    let m = a + n2 * step;
    lemma_div(b - a, n);
    lemma_distribute(step, n1, n2);
    assert(step * n1 == n1 * step) by (nonlinear_arith);
    assert(step * n2 == n2 * step) by (nonlinear_arith);
    assert(n1 * (n2 * step) == n2 * (n1 * step)) by (nonlinear_arith);
    let (p, q) = (n1 * step, n2 * step);
    lemma_distribute(m, n1, n2);
    assert(m * n1 == n1 * a + n1 * q) by (nonlinear_arith)
        requires
            m == a + q,
    ;
    assert(m * n2 == n2 * b - n2 * p) by (nonlinear_arith)
        requires
            m == b - p,
    ;
}

/// The products of deviations about a common mean.
pub proof fn lemma_products_about(
    n1: real,
    ax: real,
    ay: real,
    n2: real,
    bx: real,
    by: real,
)
    requires
        n1 + n2 != 0real,
    ensures
        ({
            let mx = ax + n2 * ((bx - ax) / (n1 + n2));
            let my = ay + n2 * ((by - ay) / (n1 + n2));
            (n2 * (bx - mx)) * (by - ay) == n1 * ((ax - mx) * (ay - my)) + n2 * ((bx - mx) * (by
                - my))
        }),
{
    let (ex, ey) = ((bx - ax) / (n1 + n2), (by - ay) / (n1 + n2));
    lemma_common_mean(n1, ax, n2, bx);
    lemma_common_mean(n1, ay, n2, by);
    let (p, q) = (n1 * ex, n2 * ex);
    let (r, s) = (n1 * ey, n2 * ey);
    let w = n2 * p;
    assert((-q) * (-s) == q * s) by (nonlinear_arith);
    lemma_regroup(n1, q, s, w);
    lemma_regroup(n2, p, r, w);
    lemma_distribute(w, r, s);
}

/// The powers of deviations about a common mean, from the two steps that lead to it.
proof fn lemma_powers_about(
    n1: real,
    n2: real,
    step: real,
    a2: real,
    b2: real,
    a3: real,
    b3: real,
)
    ensures
        ({
            let (p, q) = (n1 * step, n2 * step);
            let spread = (n2 * p) * (p + q);
            let tilt = spread * (n1 - n2) + 3real * (n1 * b2 - n2 * a2);
            let bulge = step * (spread * (n1 * (n1 - n2) + n2 * n2) + 6real * (n1 * (n1 * b2) + n2
                * (n2 * a2))) + 4real * (n1 * b3 - n2 * a3);
            &&& spread == n1 * (q * q) + n2 * (p * p)
            &&& step * tilt == 3real * (p * b2) - 3real * (q * a2) + n2 * (p * (p * p)) - n1 * (q
                * (q * q))
            &&& step * bulge == 4real * (p * b3) - 4real * (q * a3) + 6real * ((p * p) * b2)
                + 6real * ((q * q) * a2) + n2 * (p * (p * (p * p))) + n1 * (q * (q * (q * q)))
        }),
{
    let (p, q) = (n1 * step, n2 * step);
    let w = n2 * p;
    let spread = w * (p + q);
    assert(n1 * q == w) by (nonlinear_arith)
        requires
            w == n2 * p,
            p == n1 * step,
            q == n2 * step,
    ;
    lemma_regroup(n1, q, q, w);
    lemma_regroup(n2, p, p, w);
    lemma_regroup(n1, q, q * q, w);
    lemma_regroup(n2, p, p * p, w);
    lemma_regroup(n1, q, q * (q * q), w);
    lemma_regroup(n2, p, p * (p * p), w);
    lemma_distribute(w, p, q);
    // The third powers.
    let low = n1 * b2 - n2 * a2;
    lemma_distribute(step, spread * (n1 - n2), 3real * low);
    assert(step * (n1 - n2) == p - q) by (nonlinear_arith)
        requires
            p == n1 * step,
            q == n2 * step,
    ;
    lemma_swap(step, spread, n1 - n2);
    lemma_difference_of_squares(w, p, q);
    lemma_spread_out(step, 3real, n1, b2, n2, a2);
    assert(step * (3real * low) == 3real * (p * b2) - 3real * (q * a2));
    // The fourth powers.
    let high = n1 * (n1 * b2) + n2 * (n2 * a2);
    let core = n1 * (n1 - n2) + n2 * n2;
    let side = n1 * b3 - n2 * a3;
    let inner = spread * core + 6real * high;
    lemma_distribute(step, step * inner, 4real * side);
    lemma_spread_out(step, 4real, n1, b3, n2, a3);
    assert(step * (4real * side) == 4real * (p * b3) - 4real * (q * a3));
    lemma_distribute(step, spread * core, 6real * high);
    lemma_distribute(step, step * (spread * core), step * (6real * high));
    lemma_square_out(step, n1, b2);
    lemma_square_out(step, n2, a2);
    assert(step * (step * (6real * high)) == 6real * ((p * p) * b2) + 6real * ((q * q) * a2)) by {
        lemma_distribute(step, n1 * (n1 * b2), n2 * (n2 * a2));
        lemma_distribute(step, step * (n1 * (n1 * b2)), step * (n2 * (n2 * a2)));
        assert(step * (6real * high) == 6real * (step * high)) by (nonlinear_arith);
        assert(step * (6real * (step * high)) == 6real * (step * (step * high)))
            by (nonlinear_arith);
    }
    assert(step * (step * (spread * core)) == w * (p * (p * p)) + w * (q * (q * q))) by {
        lemma_square_core(step, n1, n2);
        lemma_swap(step, spread, core);
        lemma_swap(step, spread, step * core);
        assert(step * (step * core) == p * p - p * q + q * q);
        lemma_sum_of_cubes(w, p, q);
    }
}

/// The updates of the moments add up the moments of both parts about the common mean.
pub proof fn lemma_moments_about(
    n1: real,
    a: real,
    a2: real,
    a3: real,
    a4: real,
    n2: real,
    b: real,
    b2: real,
    b3: real,
    b4: real,
)
    requires
        n1 + n2 != 0real,
    ensures
        ({
            let delta = b - a;
            let step = delta / (n1 + n2);
            let m = a + n2 * step;
            let spread = (n2 * (b - m)) * delta;
            let tilt = spread * (n1 - n2) + 3real * (n1 * b2 - n2 * a2);
            let bulge = step * (spread * (n1 * (n1 - n2) + n2 * n2) + 6real * (n1 * (n1 * b2) + n2
                * (n2 * a2))) + 4real * (n1 * b3 - n2 * a3);
            &&& a2 + b2 + spread == second_about(n1, a2, a - m) + second_about(n2, b2, b - m)
            &&& a3 + b3 + step * tilt == third_about(n1, a2, a3, a - m) + third_about(
                n2,
                b2,
                b3,
                b - m,
            )
            &&& a4 + b4 + step * bulge == fourth_about(n1, a2, a3, a4, a - m) + fourth_about(
                n2,
                b2,
                b3,
                b4,
                b - m,
            )
        }),
{
    let step = (b - a) / (n1 + n2);
    let (p, q) = (n1 * step, n2 * step);
    lemma_common_mean(n1, a, n2, b);
    lemma_powers_about(n1, n2, step, a2, b2, a3, b3);
    assert((-q) * (-q) == q * q) by (nonlinear_arith);
    assert((-q) * (q * q) == -(q * (q * q))) by (nonlinear_arith);
    assert((-q) * (-(q * (q * q))) == q * (q * (q * q))) by (nonlinear_arith);
    assert(n1 * (-(q * (q * q))) == -(n1 * (q * (q * q)))) by (nonlinear_arith);
    assert((-q) * a2 == -(q * a2)) by (nonlinear_arith);
    assert((-q) * a3 == -(q * a3)) by (nonlinear_arith);
}

/// The powers of the deviations of two sequences, one after the other.
pub proof fn lemma_merge_moments(xs: Seq<real>, ys: Seq<real>)
    requires
        xs.len() + ys.len() > 0,
    ensures
        ({
            let (n1, n2) = (xs.len() as real, ys.len() as real);
            let (a2, b2) = (central_moment(xs, 2), central_moment(ys, 2));
            let (a3, b3) = (central_moment(xs, 3), central_moment(ys, 3));
            let delta = mean(ys) - mean(xs);
            let step = delta / (n1 + n2);
            let spread = (n2 * (mean(ys) - mean(xs + ys))) * delta;
            let tilt = spread * (n1 - n2) + 3real * (n1 * b2 - n2 * a2);
            let bulge = step * (spread * (n1 * (n1 - n2) + n2 * n2) + 6real * (n1 * (n1 * b2) + n2
                * (n2 * a2))) + 4real * (n1 * b3 - n2 * a3);
            &&& central_moment(xs + ys, 2) == a2 + b2 + spread
            &&& central_moment(xs + ys, 3) == a3 + b3 + step * tilt
            &&& central_moment(xs + ys, 4) == central_moment(xs, 4) + central_moment(ys, 4) + step
                * bulge
        }),
{
    let (n1, n2) = (xs.len() as real, ys.len() as real);
    let (a2, b2) = (central_moment(xs, 2), central_moment(ys, 2));
    let (a3, b3) = (central_moment(xs, 3), central_moment(ys, 3));
    let delta = mean(ys) - mean(xs);
    let step = delta / (n1 + n2);
    let (p, q) = (n1 * step, n2 * step);
    let m = mean(xs + ys);
    lemma_merge_mean(xs, ys);
    lemma_central(xs);
    lemma_central(ys);
    lemma_append(xs, ys, m, 2);
    lemma_append(xs, ys, m, 3);
    lemma_append(xs, ys, m, 4);
    lemma_moment_shift(xs, mean(xs), q);
    lemma_moment_shift(ys, mean(ys), -p);
    assert(mean(xs) + q == m);
    assert(mean(ys) + (-p) == m);
    assert(delta == p + q);
    assert(mean(ys) - m == p);
    lemma_powers_about(n1, n2, step, a2, b2, a3, b3);
    lemma_zero(q);
    lemma_zero(q * q);
    lemma_zero(q * (q * q));
    lemma_zero(-p);
    lemma_zero((-p) * (-p));
    lemma_zero((-p) * ((-p) * (-p)));
    assert((-p) * (-p) == p * p) by (nonlinear_arith);
    assert((-p) * (p * p) == -(p * (p * p))) by (nonlinear_arith);
    assert((-p) * (-(p * (p * p))) == p * (p * (p * p))) by (nonlinear_arith);
    assert((-p) * b2 == -(p * b2)) by (nonlinear_arith);
    assert((-p) * b3 == -(p * b3)) by (nonlinear_arith);
    assert(n2 * (-(p * (p * p))) == -(n2 * (p * (p * p)))) by (nonlinear_arith);
}

/// Regroups a product of three.
proof fn lemma_regroup(n: real, t: real, rest: real, w: real)
    requires
        n * t == w,
    ensures
        n * (t * rest) == w * rest,
{
    assert(n * (t * rest) == w * rest) by (nonlinear_arith)
        requires
            n * t == w,
    ;
}

/// Swaps the first two factors of a product of three.
proof fn lemma_swap(a: real, b: real, c: real)
    ensures
        a * (b * c) == b * (a * c),
{
    assert(a * (b * c) == b * (a * c)) by (nonlinear_arith);
}

/// The difference of two squares.
proof fn lemma_difference_of_squares(w: real, p: real, q: real)
    ensures
        (w * (p + q)) * (p - q) == w * (p * p) - w * (q * q),
{
    assert((p + q) * (p - q) == p * p - q * q) by (nonlinear_arith);
    assert((w * (p + q)) * (p - q) == w * ((p + q) * (p - q))) by (nonlinear_arith);
    assert(w * (p * p - q * q) == w * (p * p) - w * (q * q)) by (nonlinear_arith);
}

/// The sum of two cubes.
proof fn lemma_sum_of_cubes(w: real, p: real, q: real)
    ensures
        (w * (p + q)) * (p * p - p * q + q * q) == w * (p * (p * p)) + w * (q * (q * q)),
{
    let (pp, pq, qq) = (p * p, p * q, q * q);
    assert((p + q) * (pp - pq + qq) == p * pp - p * pq + p * qq + q * pp - q * pq + q * qq)
        by (nonlinear_arith);
    assert(p * (p * q) == q * (p * p)) by (nonlinear_arith);
    assert(p * (q * q) == q * (p * q)) by (nonlinear_arith);
    let k = pp - pq + qq;
    assert((w * (p + q)) * k == w * ((p + q) * k)) by (nonlinear_arith);
    lemma_distribute(w, p * pp, q * qq);
}

/// Multiplies out a difference of two products.
proof fn lemma_spread_out(step: real, k: real, n1: real, b: real, n2: real, a: real)
    ensures
        step * (k * (n1 * b - n2 * a)) == k * ((n1 * step) * b) - k * ((n2 * step) * a),
{
    let (x, y) = (n1 * b, n2 * a);
    lemma_swap(step, k, x - y);
    assert(step * (x - y) == step * x - step * y) by (nonlinear_arith);
    assert(step * (n1 * b) == (n1 * step) * b) by (nonlinear_arith);
    assert(step * (n2 * a) == (n2 * step) * a) by (nonlinear_arith);
    let (u, v) = ((n1 * step) * b, (n2 * step) * a);
    assert(k * (u - v) == k * u - k * v) by (nonlinear_arith);
}

/// Takes a factor into a square.
proof fn lemma_square_out(step: real, n: real, b: real)
    ensures
        step * (step * (n * (n * b))) == ((n * step) * (n * step)) * b,
{
    assert(step * (step * (n * (n * b))) == ((n * step) * (n * step)) * b) by (nonlinear_arith);
}

/// Takes a factor into the middle term of a sum of two cubes.
proof fn lemma_square_core(step: real, n1: real, n2: real)
    ensures
        ({
            let (p, q) = (n1 * step, n2 * step);
            step * (step * (n1 * (n1 - n2) + n2 * n2)) == p * p - p * q + q * q
        }),
{
    let (p, q) = (n1 * step, n2 * step);
    lemma_distribute(step, n1 * (n1 - n2), n2 * n2);
    lemma_distribute(step, step * (n1 * (n1 - n2)), step * (n2 * n2));
    assert(step * (step * (n2 * n2)) == (n2 * step) * (n2 * step)) by (nonlinear_arith);
    assert(step * (step * (n1 * (n1 - n2))) == (n1 * step) * (step * (n1 - n2)))
        by (nonlinear_arith);
    assert(step * (n1 - n2) == p - q) by (nonlinear_arith)
        requires
            p == n1 * step,
            q == n2 * step,
    ;
    assert(p * (p - q) == p * p - p * q) by (nonlinear_arith);
}

/// A product with one is the other factor.
pub proof fn lemma_one(a: real)
    ensures
        a * 1real == a,
        1real * a == a,
{
    assert(a * 1real == a) by (nonlinear_arith);
    assert(1real * a == a) by (nonlinear_arith);
}

/// A product with zero is zero.
pub proof fn lemma_zero(a: real)
    ensures
        a * 0real == 0real,
        0real * a == 0real,
{
    assert(a * 0real == 0real) by (nonlinear_arith);
    assert(0real * a == 0real) by (nonlinear_arith);
}

/// The products of deviations do not depend on which sequence comes first.
pub proof fn lemma_comoment_swap(xs: Seq<real>, a: real, ys: Seq<real>, b: real)
    requires
        xs.len() == ys.len(),
    ensures
        comoment_about(ys, b, xs, a) == comoment_about(xs, a, ys, b),
    decreases xs.len(),
{
    if xs.len() > 0 {
        lemma_comoment_swap(xs.drop_last(), a, ys.drop_last(), b);
        let (p, q) = (xs.last() - a, ys.last() - b);
        assert(p * q == q * p) by (nonlinear_arith);
    }
}

/// Whether each of `ys` is the opposite of the number of `xs` at the same place.
pub open spec fn is_mirrored(xs: Seq<real>, ys: Seq<real>) -> bool {
    &&& xs.len() == ys.len()
    &&& forall|i: int| 0 <= i < xs.len() ==> #[trigger] ys[i] == -xs[i]
}

/// The powers of the opposite of a number.
proof fn lemma_opposite_powers(r: real)
    ensures
        power(-r, 2) == power(r, 2),
        power(-r, 3) == -power(r, 3),
        power(-r, 4) == power(r, 4),
{
    lemma_powers(r);
    lemma_powers(-r);
    let s = r * r;
    assert((-r) * (-r) == r * r) by (nonlinear_arith);
    assert((-r) * s == -(r * s)) by (nonlinear_arith);
    let t = r * s;
    assert((-r) * (-t) == r * t) by (nonlinear_arith);
}

/// The sum and the moments of opposites about the opposite of a number.
proof fn lemma_mirror_about(xs: Seq<real>, ys: Seq<real>, c: real)
    requires
        is_mirrored(xs, ys),
    ensures
        total(ys) == -total(xs),
        moment_about(ys, -c, 2) == moment_about(xs, c, 2),
        moment_about(ys, -c, 3) == -moment_about(xs, c, 3),
        moment_about(ys, -c, 4) == moment_about(xs, c, 4),
    decreases xs.len(),
{
    if xs.len() > 0 {
        let (init_xs, init_ys) = (xs.drop_last(), ys.drop_last());
        assert forall|i: int| 0 <= i < init_xs.len() implies #[trigger] init_ys[i]
            == -init_xs[i] by {
            assert(init_ys[i] == ys[i]);
        }
        lemma_mirror_about(init_xs, init_ys, c);
        assert(ys[xs.len() - 1] == -xs[xs.len() - 1]);
        lemma_opposite_powers(xs.last() - c);
        assert(ys.last() - (-c) == -(xs.last() - c));
    }
}

/// The moments of opposites: those of odd powers change their sign.
pub proof fn lemma_mirror(xs: Seq<real>, ys: Seq<real>)
    requires
        is_mirrored(xs, ys),
    ensures
        mean(ys) == -mean(xs),
        central_moment(ys, 2) == central_moment(xs, 2),
        central_moment(ys, 3) == -central_moment(xs, 3),
        central_moment(ys, 4) == central_moment(xs, 4),
{
    let (m, n) = (mean(xs), xs.len() as real);
    lemma_mirror_about(xs, ys, m);
    if xs.len() > 0 {
        lemma_mean(xs);
        lemma_mean(ys);
        assert((-m) * n == -(m * n)) by (nonlinear_arith);
        assert(n != 0real);
        lemma_cancel(mean(ys), -m, n);
    }
}

/// Numbers that are not negative and have the same square are equal.
pub proof fn lemma_same_square(a: real, b: real)
    requires
        a >= 0real,
        b >= 0real,
        a * a == b * b,
    ensures
        a == b,
{
    assert(a == b) by (nonlinear_arith)
        requires
            a >= 0real,
            b >= 0real,
            a * a == b * b,
    ;
}

} // verus!
