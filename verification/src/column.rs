//! Columns of numbers with slots that may be null.
use crate::bitmap::{bit_count, bitmap_bits, lemma_bit_count_zero};
use polars_arrow::bitmap::Bitmap;
use vstd::prelude::*;

verus! {

/// The numbers of the slots that are not null, first to last.
pub open spec fn present<F>(slots: Seq<Option<F>>) -> Seq<F>
    decreases slots.len(),
{
    if slots.len() == 0 {
        Seq::empty()
    } else {
        match slots.last() {
            Some(value) => present(slots.drop_last()).push(value),
            None => present(slots.drop_last()),
        }
    }
}

/// The pairs of numbers of the places where neither column is null, as two
/// sequences.
pub open spec fn present_pairs<F>(x: Seq<Option<F>>, y: Seq<Option<F>>) -> (Seq<F>, Seq<F>)
    decreases x.len(),
{
    if x.len() == 0 {
        (Seq::empty(), Seq::empty())
    } else {
        let (xs, ys) = present_pairs(x.drop_last(), y.drop_last());
        match (x.last(), y.last()) {
            (Some(a), Some(b)) => (xs.push(a), ys.push(b)),
            _ => (xs, ys),
        }
    }
}

/// Numbers under a mask: a slot is null where the mask's bit is not set.
pub open spec fn masked<F>(values: Seq<F>, bits: Seq<bool>) -> Seq<Option<F>> {
    Seq::new(
        values.len(),
        |i: int|
            if bits[i] {
                Some(values[i])
            } else {
                None
            },
    )
}

/// Numbers of which none is null.
pub open spec fn unmasked<F>(values: Seq<F>) -> Seq<Option<F>> {
    Seq::new(values.len(), |i: int| Some(values[i]))
}

/// A column of numbers. The view is the sequence of its slots, `None` where the
/// slot is null.
pub struct Column<F> {
    values: Vec<F>,
    validity: Option<Bitmap>,
}

impl<F> View for Column<F> {
    type V = Seq<Option<F>>;

    closed spec fn view(&self) -> Seq<Option<F>> {
        match self.validity {
            Some(bitmap) => masked(self.values@, bitmap_bits(bitmap)),
            None => unmasked(self.values@),
        }
    }
}

impl<F> Column<F> {
    /// A mask has one bit for each number.
    #[verifier::type_invariant]
    closed spec fn inv(self) -> bool {
        self.validity matches Some(bitmap) ==> bitmap_bits(bitmap).len() == self.values@.len()
    }
}

impl<F: Copy> Column<F> {
    /// Creates a column that has no nulls.
    pub fn from_slice(values: &[F]) -> (r: Self)
        ensures
            r@ == unmasked(values@),
            r@.len() == values@.len(),
            forall|i: int| 0 <= i < values@.len() ==> #[trigger] r@[i] == Some(values@[i]),
    {
        Column { values: vstd::slice::slice_to_vec(values), validity: None }
    }

    /// Creates a column that is null where `validity` has a bit that is not set.
    /// There is none where the lengths differ.
    pub fn try_new(values: Vec<F>, validity: Option<Bitmap>) -> (r: Option<Self>)
        ensures
            match validity {
                None => r matches Some(column) && column@ == unmasked(values@),
                Some(bitmap) => if bitmap_bits(bitmap).len() == values@.len() {
                    r matches Some(column) && column@ == masked(values@, bitmap_bits(bitmap))
                } else {
                    r is None
                },
            },
            r matches Some(column) ==> column@.len() == values@.len() && forall|i: int|
                0 <= i < values@.len() ==> #[trigger] column@[i] == (if validity is None
                    || bitmap_bits(validity->0)[i] {
                    Some(values@[i])
                } else {
                    None
                }),
    {
        if let Some(bitmap) = &validity {
            if bitmap.len() != values.len() {
                return None;
            }
        }
        Some(Column { values, validity })
    }

    /// The number of slots.
    pub fn len(&self) -> (n: usize)
        ensures
            n == self@.len(),
    {
        self.values.len()
    }

    /// Whether any slot is null.
    pub fn has_nulls(&self) -> (r: bool)
        ensures
            r == exists|i: int| 0 <= i < self@.len() && self@[i] is None,
    {
        proof {
            use_type_invariant(self);
        }
        match &self.validity {
            None => false,
            Some(bitmap) => {
                proof {
                    lemma_bit_count_zero(bitmap_bits(*bitmap), false);
                    if bit_count(bitmap_bits(*bitmap), false) > 0 {
                        let i = choose|i: int|
                            0 <= i < bitmap_bits(*bitmap).len() && !bitmap_bits(*bitmap)[i];
                        assert(self@[i] is None);
                    }
                }
                bitmap.unset_bits() > 0
            },
        }
    }

    /// The numbers of all slots. Those of null slots are undetermined.
    pub fn values(&self) -> (r: &[F])
        ensures
            r@.len() == self@.len(),
            forall|i: int|
                #![trigger self@[i]]
                0 <= i < self@.len() && self@[i] is Some ==> self@[i] == Some(r@[i]),
    {
        self.values.as_slice()
    }

    /// The number of slot `i`.
    pub fn get(&self, i: usize) -> (r: Option<F>)
        requires
            i < self@.len(),
        ensures
            r == self@[i as int],
    {
        proof {
            use_type_invariant(self);
        }
        match &self.validity {
            None => Some(self.values[i]),
            Some(bitmap) => if bitmap.get_bit(i) {
                Some(self.values[i])
            } else {
                None
            },
        }
    }

    /// The numbers that are not null, first to last.
    pub fn non_null_values(&self) -> (r: Vec<F>)
        ensures
            r@ == present(self@),
    {
        proof {
            use_type_invariant(self);
        }
        match &self.validity {
            None => {
                proof {
                    lemma_present_dense(self@, self.values@);
                }
                vstd::slice::slice_to_vec(self.values.as_slice())
            },
            Some(bitmap) => select(self.values.as_slice(), bitmap),
        }
    }

    /// The mask of the `length` slots from `start` on, where any of them is null.
    pub fn validity_of(&self, start: usize, length: usize) -> (r: Option<Bitmap>)
        requires
            start + length <= self@.len(),
        ensures
            match r {
                None => forall|i: int| start <= i < start + length ==> self@[i] is Some,
                Some(bitmap) => {
                    &&& bitmap_bits(bitmap).len() == length
                    &&& exists|i: int| 0 <= i < length && !bitmap_bits(bitmap)[i]
                    &&& forall|i: int|
                        0 <= i < length ==> #[trigger] bitmap_bits(bitmap)[i] == (self@[start + i]
                            is Some)
                },
            },
    {
        proof {
            use_type_invariant(self);
        }
        match &self.validity {
            None => None,
            Some(bitmap) => {
                let sliced = bitmap.clone().sliced(start, length);
                let ghost bits = bitmap_bits(sliced);
                proof {
                    lemma_bit_count_zero(bits, false);
                    assert(forall|i: int|
                        0 <= i < length ==> bits[i] == bitmap_bits(*bitmap)[start + i]);
                    assert forall|i: int| start <= i < start + length implies self@[i] == (
                    if bits[i - start] {
                        Some(self.values@[i])
                    } else {
                        None
                    }) by {
                        assert(bits[i - start] == bitmap_bits(*bitmap)[start + (i - start)]);
                    }
                }
                if sliced.unset_bits() > 0 {
                    Some(sliced)
                } else {
                    None
                }
            },
        }
    }
}

/// The numbers at which the mask's bit is set, first to last.
pub(crate) fn select<F: Copy>(values: &[F], validity: &Bitmap) -> (r: Vec<F>)
    requires
        bitmap_bits(*validity).len() == values@.len(),
    ensures
        r@ == present(masked(values@, bitmap_bits(*validity))),
{
    let ghost slots = masked(values@, bitmap_bits(*validity));
    let mut selected: Vec<F> = Vec::new();
    for i in 0..values.len()
        invariant
            bitmap_bits(*validity).len() == values@.len(),
            slots == masked(values@, bitmap_bits(*validity)),
            selected@ == present(slots.take(i as int)),
    {
        assert(slots.take(i + 1).drop_last() =~= slots.take(i as int));
        if validity.get_bit(i) {
            selected.push(values[i]);
        }
    }
    assert(slots.take(values@.len() as int) =~= slots);
    selected
}

/// The pairs of numbers of the places where neither column is null.
pub fn non_null_pairs<F: Copy>(x: &Column<F>, y: &Column<F>) -> (r: (Vec<F>, Vec<F>))
    requires
        x@.len() == y@.len(),
    ensures
        (r.0@, r.1@) == present_pairs(x@, y@),
{
    let mut left: Vec<F> = Vec::new();
    let mut right: Vec<F> = Vec::new();
    let n: usize = x.len();
    for i in 0..n
        invariant
            n == x@.len(),
            x@.len() == y@.len(),
            (left@, right@) == present_pairs(x@.take(i as int), y@.take(i as int)),
    {
        assert(x@.take(i + 1).drop_last() =~= x@.take(i as int));
        assert(y@.take(i + 1).drop_last() =~= y@.take(i as int));
        if let (Some(l), Some(r)) = (x.get(i), y.get(i)) {
            left.push(l);
            right.push(r);
        }
    }
    assert(x@.take(x@.len() as int) =~= x@);
    assert(y@.take(y@.len() as int) =~= y@);
    (left, right)
}

/// Without nulls, the numbers that are not null are all the numbers.
pub(crate) proof fn lemma_present_dense<F>(slots: Seq<Option<F>>, values: Seq<F>)
    requires
        slots.len() == values.len(),
        forall|i: int| 0 <= i < slots.len() ==> slots[i] == Some(values[i]),
    ensures
        present(slots) == values,
    decreases slots.len(),
{
    if slots.len() > 0 {
        lemma_present_dense(slots.drop_last(), values.drop_last());
        assert(values.drop_last().push(values.last()) =~= values);
        assert(slots.last() == Some(values.last()));
    } else {
        assert(values =~= Seq::empty());
    }
}

/// Without nulls, the pairs that are not null are all the pairs.
pub(crate) proof fn lemma_present_pairs_dense<F>(
    x_slots: Seq<Option<F>>,
    x: Seq<F>,
    y_slots: Seq<Option<F>>,
    y: Seq<F>,
)
    requires
        x_slots.len() == x.len(),
        y_slots.len() == y.len(),
        x.len() == y.len(),
        forall|i: int| 0 <= i < x.len() ==> x_slots[i] == Some(x[i]),
        forall|i: int| 0 <= i < y.len() ==> y_slots[i] == Some(y[i]),
    ensures
        present_pairs(x_slots, y_slots) == (x, y),
    decreases x.len(),
{
    if x.len() > 0 {
        lemma_present_pairs_dense(
            x_slots.drop_last(),
            x.drop_last(),
            y_slots.drop_last(),
            y.drop_last(),
        );
        assert(x.drop_last().push(x.last()) =~= x);
        assert(y.drop_last().push(y.last()) =~= y);
        assert(x_slots.last() == Some(x.last()));
        assert(y_slots.last() == Some(y.last()));
    } else {
        assert(x =~= Seq::empty());
        assert(y =~= Seq::empty());
    }
}

/// The pairs that are not null have as many left numbers as right ones.
pub(crate) proof fn lemma_present_pairs_len<F>(x: Seq<Option<F>>, y: Seq<Option<F>>)
    ensures
        present_pairs(x, y).0.len() == present_pairs(x, y).1.len(),
    decreases x.len(),
{
    if x.len() > 0 {
        lemma_present_pairs_len(x.drop_last(), y.drop_last());
    }
}

/// Each bit that is set is one number that is not null.
pub(crate) proof fn lemma_present_len<F>(values: Seq<F>, bits: Seq<bool>)
    requires
        values.len() == bits.len(),
    ensures
        present(masked(values, bits)).len() == bit_count(bits, true),
    decreases bits.len(),
{
    if bits.len() > 0 {
        lemma_present_len(values.drop_last(), bits.drop_last());
        assert(masked(values, bits).drop_last() =~= masked(values.drop_last(), bits.drop_last()));
    }
}

} // verus!
