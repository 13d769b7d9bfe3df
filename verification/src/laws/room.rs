//! Number types with room: where numbers are small enough, every operation on them gives
//! a number.
use crate::exact::Reading;
use crate::scalar::Scalar;
use crate::sum::{
    alg_fold, anchored, deviation_cubes, deviation_fourths, deviation_products, deviations,
};
use vstd::prelude::*;

verus! {

/// A measure of numbers: whether a number is no larger than a size.
pub type Size<F> = spec_fn(F, nat) -> bool;

/// Whether the operations of `F` give numbers as long as there is room for them: the size
/// of a result is no more than the sizes of the operands and one together, and there is
/// room for sizes up to `limit`. A quotient by zero is no number however much room there
/// is, and nothing is said of roots. It holds of fractions of integers of any width, with
/// the number of bits for the size.
#[verifier::opaque]
pub open spec fn has_room<F: Scalar>(v: Reading<F>, fits: Size<F>, limit: nat) -> bool {
    &&& fits(F::seed(), 0)
    &&& forall|n: nat| n <= limit ==> fits(#[trigger] F::count(n), n)
    &&& forall|a: F, s: nat| #[trigger] fits(a, s) ==> v(a) is Some
    &&& forall|a: F, s: nat, t: nat|
        #![trigger fits(a, s), fits(a, t)]
        fits(a, s) && s <= t ==> fits(a, t)
    &&& forall|a: F, s: nat, b: F, t: nat|
        #![trigger fits(a, s), fits(b, t), a.plus(b)]
        fits(a, s) && fits(b, t) && s + t + 1 <= limit ==> fits(a.plus(b), s + t + 1)
    &&& forall|a: F, s: nat, b: F, t: nat|
        #![trigger fits(a, s), fits(b, t), a.alg_plus(b)]
        fits(a, s) && fits(b, t) && s + t + 1 <= limit ==> fits(a.alg_plus(b), s + t + 1)
    &&& forall|a: F, s: nat, b: F, t: nat|
        #![trigger fits(a, s), fits(b, t), a.minus(b)]
        fits(a, s) && fits(b, t) && s + t + 1 <= limit ==> fits(a.minus(b), s + t + 1)
    &&& forall|a: F, s: nat, b: F, t: nat|
        #![trigger fits(a, s), fits(b, t), a.times(b)]
        fits(a, s) && fits(b, t) && s + t + 1 <= limit ==> fits(a.times(b), s + t + 1)
    &&& forall|a: F, s: nat, b: F, t: nat|
        #![trigger fits(a, s), fits(b, t), a.over(b)]
        fits(a, s) && fits(b, t) && s + t + 1 <= limit && v(b) != Some(0real) ==> fits(
            a.over(b),
            s + t + 1,
        )
}

/// A number that there is room for is a number, and there is more room for it.
pub(crate) proof fn room_grow<F: Scalar>(
    v: Reading<F>,
    fits: Size<F>,
    limit: nat,
    a: F,
    s: nat,
    u: nat,
)
    requires
        has_room(v, fits, limit),
        fits(a, s),
        s <= u,
    ensures
        fits(a, u),
        v(a) is Some,
{
    reveal(has_room);
    let grown = fits(a, u);
}

/// There is room for a count.
pub(crate) proof fn room_count<F: Scalar>(v: Reading<F>, fits: Size<F>, limit: nat, n: nat, u: nat)
    requires
        has_room(v, fits, limit),
        n <= u,
        n <= limit,
    ensures
        fits(F::count(n), u),
        v(F::count(n)) is Some,
{
    reveal(has_room);
    room_grow(v, fits, limit, F::count(n), n, u);
}

/// There is room for what a summation starts from.
pub(crate) proof fn room_seed<F: Scalar>(v: Reading<F>, fits: Size<F>, limit: nat)
    requires
        has_room(v, fits, limit),
    ensures
        fits(F::seed(), 0),
{
    reveal(has_room);
}

/// There is room for a sum.
pub(crate) proof fn room_plus<F: Scalar>(
    v: Reading<F>,
    fits: Size<F>,
    limit: nat,
    a: F,
    s: nat,
    b: F,
    t: nat,
    u: nat,
)
    requires
        has_room(v, fits, limit),
        fits(a, s),
        fits(b, t),
        s + t + 1 <= u <= limit,
    ensures
        fits(a.plus(b), u),
        v(a.plus(b)) is Some,
{
    reveal(has_room);
    room_grow(v, fits, limit, a.plus(b), s + t + 1, u);
}

/// There is room for a step of a summation.
pub(crate) proof fn room_alg_plus<F: Scalar>(
    v: Reading<F>,
    fits: Size<F>,
    limit: nat,
    a: F,
    s: nat,
    b: F,
    t: nat,
    u: nat,
)
    requires
        has_room(v, fits, limit),
        fits(a, s),
        fits(b, t),
        s + t + 1 <= u <= limit,
    ensures
        fits(a.alg_plus(b), u),
        v(a.alg_plus(b)) is Some,
{
    reveal(has_room);
    room_grow(v, fits, limit, a.alg_plus(b), s + t + 1, u);
}

/// There is room for a difference.
pub(crate) proof fn room_minus<F: Scalar>(
    v: Reading<F>,
    fits: Size<F>,
    limit: nat,
    a: F,
    s: nat,
    b: F,
    t: nat,
    u: nat,
)
    requires
        has_room(v, fits, limit),
        fits(a, s),
        fits(b, t),
        s + t + 1 <= u <= limit,
    ensures
        fits(a.minus(b), u),
        v(a.minus(b)) is Some,
{
    reveal(has_room);
    room_grow(v, fits, limit, a.minus(b), s + t + 1, u);
}

/// There is room for a product.
pub(crate) proof fn room_times<F: Scalar>(
    v: Reading<F>,
    fits: Size<F>,
    limit: nat,
    a: F,
    s: nat,
    b: F,
    t: nat,
    u: nat,
)
    requires
        has_room(v, fits, limit),
        fits(a, s),
        fits(b, t),
        s + t + 1 <= u <= limit,
    ensures
        fits(a.times(b), u),
        v(a.times(b)) is Some,
{
    reveal(has_room);
    room_grow(v, fits, limit, a.times(b), s + t + 1, u);
}

/// There is room for a quotient by a number other than zero.
pub(crate) proof fn room_over<F: Scalar>(
    v: Reading<F>,
    fits: Size<F>,
    limit: nat,
    a: F,
    s: nat,
    b: F,
    t: nat,
    u: nat,
)
    requires
        has_room(v, fits, limit),
        fits(a, s),
        fits(b, t),
        v(b) != Some(0real),
        s + t + 1 <= u <= limit,
    ensures
        fits(a.over(b), u),
        v(a.over(b)) is Some,
{
    reveal(has_room);
    room_grow(v, fits, limit, a.over(b), s + t + 1, u);
}

/// Whether all of `x` are no larger than `s`.
pub open spec fn all_fit<F>(fits: Size<F>, x: Seq<F>, s: nat) -> bool {
    forall|i: int| 0 <= i < x.len() ==> fits(#[trigger] x[i], s)
}

/// The size of the sum of `n` terms that are no larger than `t`.
pub open spec fn sum_size(n: nat, t: nat) -> nat {
    n * (t + 1)
}

/// The size of the sum of one term more.
pub(crate) proof fn lemma_sum_size(n: nat, t: nat)
    ensures
        n > 0 ==> sum_size(n, t) == sum_size((n - 1) as nat, t) + t + 1,
        sum_size(n, t) >= n,
        sum_size(0, t) == 0,
{
    if n > 0 {
        assert(n * (t + 1) == (n - 1) * (t + 1) + t + 1) by (nonlinear_arith);
    }
    assert(n * (t + 1) >= n) by (nonlinear_arith);
}

/// There is room for a sum of terms.
pub(crate) proof fn room_fold<F: Scalar>(
    v: Reading<F>,
    fits: Size<F>,
    limit: nat,
    init: F,
    terms: Seq<F>,
    t: nat,
)
    requires
        has_room(v, fits, limit),
        fits(init, 0),
        all_fit(fits, terms, t),
        sum_size(terms.len(), t) <= limit,
    ensures
        fits(alg_fold(init, terms), sum_size(terms.len(), t)),
        v(alg_fold(init, terms)) is Some,
    decreases terms.len(),
{
    lemma_sum_size(terms.len(), t);
    if terms.len() == 0 {
        room_grow(v, fits, limit, init, 0, 0);
    } else {
        let before = terms.drop_last();
        assert forall|i: int| 0 <= i < before.len() implies fits(#[trigger] before[i], t) by {
            assert(before[i] == terms[i]);
        }
        room_fold(v, fits, limit, init, before, t);
        assert(fits(terms[terms.len() - 1], t));
        room_alg_plus(
            v,
            fits,
            limit,
            alg_fold(init, before),
            sum_size(before.len(), t),
            terms.last(),
            t,
            sum_size(terms.len(), t),
        );
    }
}

/// The size of the anchored mean of `n` numbers that are no larger than `s`, for a weight
/// that is no larger than `w`.
pub open spec fn anchored_size(n: nat, s: nat, w: nat) -> nat {
    sum_size(n, 2 * s + 1) + w + s + 2
}

/// An anchored mean is a number wherever there is room for it and the weight is not zero.
pub proof fn law_anchored_has_room<F: Scalar>(
    v: Reading<F>,
    fits: Size<F>,
    limit: nat,
    x: Seq<F>,
    s: nat,
    weight: F,
    w: nat,
)
    requires
        has_room(v, fits, limit),
        x.len() > 0,
        all_fit(fits, x, s),
        fits(weight, w),
        v(weight) != Some(0real),
        anchored_size(x.len(), s, w) <= limit,
    ensures
        fits(anchored(x, weight), anchored_size(x.len(), s, w)),
        v(anchored(x, weight)) is Some,
{
    let d = deviations(x, x[0]);
    let t = 2 * s + 1;
    lemma_sum_size(x.len(), t);
    lemma_sum_size((x.len() - 1) as nat, t);
    assert(fits(x[0], s));
    assert forall|i: int| 0 <= i < d.len() implies fits(#[trigger] d[i], t) by {
        assert(fits(x[i], s));
        room_minus(v, fits, limit, x[i], s, x[0], s, t);
    }
    room_seed(v, fits, limit);
    room_fold(v, fits, limit, F::seed(), d, t);
    let sum = alg_fold(F::seed(), d);
    let u = sum_size(x.len(), t);
    room_over(v, fits, limit, sum, u, weight, w, u + w + 1);
    room_plus(v, fits, limit, x[0], s, sum.over(weight), u + w + 1, anchored_size(x.len(), s, w));
}

/// There is room for the sum of the products of deviations.
pub(crate) proof fn room_products<F: Scalar>(
    v: Reading<F>,
    fits: Size<F>,
    limit: nat,
    init: F,
    x: Seq<F>,
    m: F,
    y: Seq<F>,
    n: F,
    s: nat,
    c: nat,
)
    requires
        has_room(v, fits, limit),
        fits(init, 0),
        x.len() == y.len(),
        all_fit(fits, x, s),
        all_fit(fits, y, s),
        fits(m, c),
        fits(n, c),
        sum_size(x.len(), 2 * (s + c) + 3) <= limit,
        x.len() > 0,
    ensures
        v(alg_fold(init, deviation_products(x, m, y, n))) is Some,
{
    let d = deviation_products(x, m, y, n);
    let t = 2 * (s + c) + 3;
    lemma_sum_size(x.len(), t);
    lemma_sum_size((x.len() - 1) as nat, t);
    assert forall|i: int| 0 <= i < d.len() implies fits(#[trigger] d[i], t) by {
        assert(fits(x[i], s) && fits(y[i], s));
        room_minus(v, fits, limit, x[i], s, m, c, s + c + 1);
        room_minus(v, fits, limit, y[i], s, n, c, s + c + 1);
        room_times(v, fits, limit, x[i].minus(m), s + c + 1, y[i].minus(n), s + c + 1, t);
    }
    room_fold(v, fits, limit, init, d, t);
}

/// There is room for the powers of a deviation.
proof fn room_power<F: Scalar>(
    v: Reading<F>,
    fits: Size<F>,
    limit: nat,
    x: F,
    m: F,
    s: nat,
    c: nat,
)
    requires
        has_room(v, fits, limit),
        fits(x, s),
        fits(m, c),
        4 * (s + c) + 7 <= limit,
    ensures
        ({
            let d = x.minus(m);
            let t = 4 * (s + c) + 7;
            &&& fits(d.times(d), t)
            &&& fits(d.times(d.times(d)), t)
            &&& fits(d.times(d).times(d.times(d)), t)
        }),
{
    let d = x.minus(m);
    let t = 4 * (s + c) + 7;
    let k = s + c + 1;
    room_minus(v, fits, limit, x, s, m, c, k);
    room_times(v, fits, limit, d, k, d, k, 2 * k + 1);
    room_times(v, fits, limit, d, k, d.times(d), 2 * k + 1, t);
    room_times(v, fits, limit, d.times(d), 2 * k + 1, d.times(d), 2 * k + 1, t);
    room_grow(v, fits, limit, d.times(d), 2 * k + 1, t);
}

/// There is room for the sums of the powers of deviations.
pub(crate) proof fn room_powers<F: Scalar>(
    v: Reading<F>,
    fits: Size<F>,
    limit: nat,
    init: F,
    x: Seq<F>,
    m: F,
    s: nat,
    c: nat,
)
    requires
        has_room(v, fits, limit),
        fits(init, 0),
        all_fit(fits, x, s),
        fits(m, c),
        sum_size(x.len(), 4 * (s + c) + 7) <= limit,
    ensures
        v(alg_fold(init, deviation_products(x, m, x, m))) is Some,
        v(alg_fold(init, deviation_cubes(x, m))) is Some,
        v(alg_fold(init, deviation_fourths(x, m))) is Some,
{
    let (x2, x3, x4) = (
        deviation_products(x, m, x, m),
        deviation_cubes(x, m),
        deviation_fourths(x, m),
    );
    let t = 4 * (s + c) + 7;
    if x.len() > 0 {
        lemma_sum_size(x.len(), t);
        lemma_sum_size((x.len() - 1) as nat, t);
    }
    assert forall|i: int| 0 <= i < x2.len() implies fits(#[trigger] x2[i], t) by {
        assert(fits(x[i], s));
        room_power(v, fits, limit, x[i], m, s, c);
    }
    assert forall|i: int| 0 <= i < x3.len() implies fits(#[trigger] x3[i], t) by {
        assert(fits(x[i], s));
        room_power(v, fits, limit, x[i], m, s, c);
    }
    assert forall|i: int| 0 <= i < x4.len() implies fits(#[trigger] x4[i], t) by {
        assert(fits(x[i], s));
        room_power(v, fits, limit, x[i], m, s, c);
    }
    room_fold(v, fits, limit, init, x2, t);
    room_fold(v, fits, limit, init, x3, t);
    room_fold(v, fits, limit, init, x4, t);
}

} // verus!
