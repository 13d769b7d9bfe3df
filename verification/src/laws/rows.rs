//! Which rows of columns count: those that are not null, each once and in order.
use crate::bitmap::bit_count;
use crate::column::{masked, present, present_pairs, unmasked};
use vstd::prelude::*;

verus! {

/// Whether `rows` are all the rows below `len` that are `wanted`, in order.
pub open spec fn is_rows_of(rows: Seq<int>, len: nat, wanted: spec_fn(int) -> bool) -> bool {
    &&& forall|k: int| 0 <= k < rows.len() ==> 0 <= #[trigger] rows[k] < len && wanted(rows[k])
    &&& forall|j: int, k: int| 0 <= j < k < rows.len() ==> rows[j] < rows[k]
    &&& forall|i: int|
        0 <= i < len && #[trigger] wanted(i) ==> exists|k: int|
            0 <= k < rows.len() && rows[k] == i
}

/// The rows of one row less.
proof fn lemma_rows_init(rows: Seq<int>, len: nat, wanted: spec_fn(int) -> bool)
    requires
        len > 0,
        is_rows_of(rows, len, wanted),
    ensures
        wanted(len - 1) ==> rows.len() > 0 && rows.last() == len - 1 && is_rows_of(
            rows.drop_last(),
            (len - 1) as nat,
            wanted,
        ),
        !wanted(len - 1) ==> is_rows_of(rows, (len - 1) as nat, wanted),
{
    let end = len - 1;
    if wanted(end) {
        let at = choose|k: int| 0 <= k < rows.len() && rows[k] == end;
        assert(at == rows.len() - 1) by {
            if at < rows.len() - 1 {
                assert(rows[at] < rows[rows.len() - 1]);
            }
        }
        let init = rows.drop_last();
        assert forall|k: int| 0 <= k < init.len() implies 0 <= #[trigger] init[k] < end && wanted(
            init[k],
        ) by {
            assert(rows[k] < rows[at]);
        }
        assert forall|i: int| 0 <= i < end && #[trigger] wanted(i) implies exists|k: int|
            0 <= k < init.len() && init[k] == i by {
            let k = choose|k: int| 0 <= k < rows.len() && rows[k] == i;
            assert(init[k] == i);
        }
    } else {
        assert forall|k: int| 0 <= k < rows.len() implies 0 <= #[trigger] rows[k] < end && wanted(
            rows[k],
        ) by {
            assert(rows[k] != end);
        }
    }
}

/// The numbers of a column that count are those of its rows that are not null, each once
/// and in order.
pub proof fn law_present_rows<F>(slots: Seq<Option<F>>, rows: Seq<int>)
    requires
        is_rows_of(rows, slots.len(), |i: int| slots[i] is Some),
    ensures
        present(slots).len() == rows.len(),
        forall|k: int|
            0 <= k < rows.len() ==> slots[#[trigger] rows[k]] == Some(present(slots)[k]),
    decreases slots.len(),
{
    let wanted = |i: int| slots[i] is Some;
    if slots.len() == 0 {
        if rows.len() > 0 {
            assert(wanted(rows[0]));
        }
    } else {
        let init = slots.drop_last();
        let end = slots.len() - 1;
        let init_wanted = |i: int| init[i] is Some;
        lemma_rows_init(rows, slots.len(), wanted);
        let init_rows = if wanted(end) {
            rows.drop_last()
        } else {
            rows
        };
        lemma_rows_same(init_rows, init.len(), wanted, init_wanted);
        law_present_rows(init, init_rows);
        assert forall|k: int| 0 <= k < rows.len() implies slots[#[trigger] rows[k]] == Some(
            present(slots)[k],
        ) by {
            if k < init_rows.len() {
                assert(init_rows[k] == rows[k]);
                assert(init[init_rows[k]] == Some(present(init)[k]));
            }
        }
    }
}

/// Rows below `len` are the same for what is wanted there alike.
proof fn lemma_rows_same(
    rows: Seq<int>,
    len: nat,
    wanted: spec_fn(int) -> bool,
    same: spec_fn(int) -> bool,
)
    requires
        is_rows_of(rows, len, wanted),
        forall|i: int|
            #![trigger wanted(i)]
            #![trigger same(i)]
            0 <= i < len ==> wanted(i) == same(i),
    ensures
        is_rows_of(rows, len, same),
{
    assert forall|i: int| 0 <= i < len && #[trigger] same(i) implies exists|k: int|
        0 <= k < rows.len() && rows[k] == i by {
        assert(wanted(i));
    }
    assert forall|k: int| 0 <= k < rows.len() implies 0 <= #[trigger] rows[k] < len && same(
        rows[k],
    ) by {
        assert(wanted(rows[k]));
    }
}

/// The pairs of two columns that count are those of the rows where neither is null, each
/// once and in order.
pub proof fn law_present_pairs_rows<F>(x: Seq<Option<F>>, y: Seq<Option<F>>, rows: Seq<int>)
    requires
        x.len() == y.len(),
        is_rows_of(rows, x.len(), |i: int| x[i] is Some && y[i] is Some),
    ensures
        present_pairs(x, y).0.len() == rows.len(),
        present_pairs(x, y).1.len() == rows.len(),
        forall|k: int|
            0 <= k < rows.len() ==> x[#[trigger] rows[k]] == Some(present_pairs(x, y).0[k])
                && y[rows[k]] == Some(present_pairs(x, y).1[k]),
    decreases x.len(),
{
    let wanted = |i: int| x[i] is Some && y[i] is Some;
    if x.len() == 0 {
        if rows.len() > 0 {
            assert(wanted(rows[0]));
        }
    } else {
        let (init_x, init_y) = (x.drop_last(), y.drop_last());
        let end = x.len() - 1;
        let init_wanted = |i: int| init_x[i] is Some && init_y[i] is Some;
        lemma_rows_init(rows, x.len(), wanted);
        let init_rows = if wanted(end) {
            rows.drop_last()
        } else {
            rows
        };
        lemma_rows_same(init_rows, init_x.len(), wanted, init_wanted);
        law_present_pairs_rows(init_x, init_y, init_rows);
        assert forall|k: int| 0 <= k < rows.len() implies x[#[trigger] rows[k]] == Some(
            present_pairs(x, y).0[k],
        ) && y[rows[k]] == Some(present_pairs(x, y).1[k]) by {
            if k < init_rows.len() {
                assert(init_rows[k] == rows[k]);
                assert(init_x[init_rows[k]] == Some(present_pairs(init_x, init_y).0[k]));
                assert(init_y[init_rows[k]] == Some(present_pairs(init_x, init_y).1[k]));
            }
        }
    }
}

/// The numbers of two columns, one after the other, that count are those of the one and
/// then those of the other.
pub proof fn law_present_append<F>(slots: Seq<Option<F>>, more: Seq<Option<F>>)
    ensures
        present(slots + more) == present(slots) + present(more),
    decreases more.len(),
{
    if more.len() == 0 {
        assert(slots + more =~= slots);
        assert(present(slots) + present(more) =~= present(slots));
    } else {
        law_present_append(slots, more.drop_last());
        assert((slots + more).drop_last() =~= slots + more.drop_last());
        assert(present(slots + more) =~= present(slots) + present(more));
    }
}

/// The pairs of two columns, one after the other, that count are those of the ones and
/// then those of the others.
pub proof fn law_present_pairs_append<F>(
    x: Seq<Option<F>>,
    y: Seq<Option<F>>,
    more_x: Seq<Option<F>>,
    more_y: Seq<Option<F>>,
)
    requires
        x.len() == y.len(),
        more_x.len() == more_y.len(),
    ensures
        present_pairs(x + more_x, y + more_y).0 == present_pairs(x, y).0 + present_pairs(
            more_x,
            more_y,
        ).0,
        present_pairs(x + more_x, y + more_y).1 == present_pairs(x, y).1 + present_pairs(
            more_x,
            more_y,
        ).1,
    decreases more_x.len(),
{
    let (all_x, all_y) = (x + more_x, y + more_y);
    let (left, right) = present_pairs(x, y);
    let (more_left, more_right) = present_pairs(more_x, more_y);
    if more_x.len() == 0 {
        assert(all_x =~= x);
        assert(all_y =~= y);
        assert(left + more_left =~= left);
        assert(right + more_right =~= right);
    } else {
        law_present_pairs_append(x, y, more_x.drop_last(), more_y.drop_last());
        assert(all_x.drop_last() =~= x + more_x.drop_last());
        assert(all_y.drop_last() =~= y + more_y.drop_last());
        assert(present_pairs(all_x, all_y).0 =~= left + more_left);
        assert(present_pairs(all_x, all_y).1 =~= right + more_right);
    }
}

/// A slot under a mask is null exactly where the bit is not set, and is the number of its
/// row elsewhere. Without a mask no slot is null.
pub proof fn law_masked_rows<F>(values: Seq<F>, bits: Seq<bool>, i: int)
    requires
        0 <= i < values.len(),
        bits.len() == values.len(),
    ensures
        masked(values, bits).len() == values.len(),
        masked(values, bits)[i] is Some <==> bits[i],
        masked(values, bits)[i] matches Some(value) ==> value == values[i],
        unmasked(values).len() == values.len(),
        unmasked(values)[i] == Some(values[i]),
{
}

/// Every bit is either set or not, and as many numbers count as bits are set.
pub proof fn law_bit_counts<F>(values: Seq<F>, bits: Seq<bool>)
    requires
        bits.len() == values.len(),
    ensures
        bit_count(bits, true) + bit_count(bits, false) == bits.len(),
        present(masked(values, bits)).len() == bit_count(bits, true),
    decreases bits.len(),
{
    if bits.len() > 0 {
        law_bit_counts(values.drop_last(), bits.drop_last());
        assert(masked(values, bits).drop_last() =~= masked(values.drop_last(), bits.drop_last()));
    }
}

} // verus!
