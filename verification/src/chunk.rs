//! Cutting a column into chunks.
use vstd::prelude::*;

verus! {

/// The number of numbers in every chunk but the last.
pub const CHUNK_SIZE: usize = 128;

/// The chunks of a sequence: each but the last has `CHUNK_SIZE` elements, and
/// none is empty.
pub open spec fn chunks_of<T>(s: Seq<T>) -> Seq<Seq<T>> {
    Seq::new(chunk_count(s.len()), |k: int| s.subrange(k * CHUNK_SIZE, chunk_end(s.len(), k)))
}

/// The number of chunks of `len` elements.
pub open spec fn chunk_count(len: nat) -> nat {
    ((len + CHUNK_SIZE - 1) / CHUNK_SIZE as int) as nat
}

/// The place behind the last element of chunk `k` of `len` elements.
pub open spec fn chunk_end(len: nat, k: int) -> int {
    if (k + 1) * CHUNK_SIZE <= len {
        (k + 1) * CHUNK_SIZE
    } else {
        len as int
    }
}

/// The chunks of two sequences of the same length, side by side.
pub open spec fn paired_chunks_of<T>(x: Seq<T>, y: Seq<T>) -> Seq<(Seq<T>, Seq<T>)> {
    Seq::new(chunk_count(x.len()), |k: int| (chunks_of(x)[k], chunks_of(y)[k]))
}

/// The chunks, one after the other.
pub open spec fn joined<T>(chunks: Seq<Seq<T>>) -> Seq<T>
    decreases chunks.len(),
{
    if chunks.len() == 0 {
        Seq::empty()
    } else {
        joined(chunks.drop_last()) + chunks.last()
    }
}

/// The left parts of the chunks, one after the other, and the right parts.
pub open spec fn joined_pairs<T>(chunks: Seq<(Seq<T>, Seq<T>)>) -> (Seq<T>, Seq<T>)
    decreases chunks.len(),
{
    if chunks.len() == 0 {
        (Seq::empty(), Seq::empty())
    } else {
        let (left, right) = joined_pairs(chunks.drop_last());
        (left + chunks.last().0, right + chunks.last().1)
    }
}

/// Cutting a sequence into chunks loses nothing and keeps the order: the chunks,
/// one after the other, are the sequence.
pub proof fn law_chunks_join<T>(s: Seq<T>)
    ensures
        joined(chunks_of(s)) == s,
{
    lemma_chunks_join(s, chunk_count(s.len()));
    assert(chunks_of(s).take(chunk_count(s.len()) as int) =~= chunks_of(s));
    if s.len() > 0 {
        assert(chunk_end(s.len(), chunk_count(s.len()) - 1) == s.len());
        assert(s.take(s.len() as int) =~= s);
    } else {
        assert(s =~= Seq::empty());
    }
}

/// Cutting two sequences into chunks side by side loses nothing and keeps the order.
pub proof fn law_paired_chunks_join<T>(x: Seq<T>, y: Seq<T>)
    requires
        x.len() == y.len(),
    ensures
        joined_pairs(paired_chunks_of(x, y)) == (x, y),
{
    lemma_joined_pairs(paired_chunks_of(x, y));
    let chunks = paired_chunks_of(x, y);
    assert(Seq::new(chunks.len(), |k: int| chunks[k].0) =~= chunks_of(x));
    assert(Seq::new(chunks.len(), |k: int| chunks[k].1) =~= chunks_of(y));
    law_chunks_join(x);
    law_chunks_join(y);
}

/// Every chunk but the last has 128 elements, and the last has as many at most and one at
/// least.
pub proof fn law_chunk_sizes<T>(s: Seq<T>, k: int)
    requires
        0 <= k < chunks_of(s).len(),
    ensures
        k < chunks_of(s).len() - 1 ==> chunks_of(s)[k].len() == 128,
        1 <= chunks_of(s)[k].len() <= 128,
{
}

/// The chunks of two sequences side by side are those of each, at the same places.
pub proof fn law_paired_chunks<T>(x: Seq<T>, y: Seq<T>, k: int)
    requires
        x.len() == y.len(),
        0 <= k < paired_chunks_of(x, y).len(),
    ensures
        paired_chunks_of(x, y).len() == chunks_of(x).len(),
        paired_chunks_of(x, y)[k].0 == chunks_of(x)[k],
        paired_chunks_of(x, y)[k].1 == chunks_of(y)[k],
        paired_chunks_of(x, y)[k].0.len() == paired_chunks_of(x, y)[k].1.len(),
{
}

/// The first chunks, one after the other, are the beginning of the sequence.
proof fn lemma_chunks_join<T>(s: Seq<T>, k: nat)
    requires
        k <= chunk_count(s.len()),
    ensures
        joined(chunks_of(s).take(k as int)) == (if k == 0 {
            Seq::empty()
        } else {
            s.take(chunk_end(s.len(), k - 1))
        }),
    decreases k,
{
    if k > 0 {
        lemma_chunks_join(s, (k - 1) as nat);
        let first = chunks_of(s).take(k as int);
        assert(first.drop_last() =~= chunks_of(s).take(k - 1));
        assert(joined(first) =~= s.take(chunk_end(s.len(), k - 1)));
    }
}

/// Joining pairs of chunks joins the left parts and the right parts.
proof fn lemma_joined_pairs<T>(chunks: Seq<(Seq<T>, Seq<T>)>)
    ensures
        joined_pairs(chunks) == (
            joined(Seq::new(chunks.len(), |k: int| chunks[k].0)),
            joined(Seq::new(chunks.len(), |k: int| chunks[k].1)),
        ),
    decreases chunks.len(),
{
    if chunks.len() > 0 {
        let init = chunks.drop_last();
        lemma_joined_pairs(init);
        assert(Seq::new(chunks.len(), |k: int| chunks[k].0).drop_last() =~= Seq::new(
            init.len(),
            |k: int| init[k].0,
        ));
        assert(Seq::new(chunks.len(), |k: int| chunks[k].1).drop_last() =~= Seq::new(
            init.len(),
            |k: int| init[k].1,
        ));
    }
}

/// The views of a vector of slices.
pub open spec fn slice_views<T>(chunks: Seq<&[T]>) -> Seq<Seq<T>> {
    Seq::new(chunks.len(), |k: int| chunks[k]@)
}

/// The views of a vector of pairs of slices.
pub open spec fn slice_pair_views<T>(chunks: Seq<(&[T], &[T])>) -> Seq<(Seq<T>, Seq<T>)> {
    Seq::new(chunks.len(), |k: int| (chunks[k].0@, chunks[k].1@))
}

/// Cuts `values` into chunks.
pub fn chunk_as_float<T>(values: &[T]) -> (chunks: Vec<&[T]>)
    ensures
        slice_views(chunks@) == chunks_of(values@),
{
    let mut chunks: Vec<&[T]> = Vec::new();
    let mut start: usize = 0;
    while start < values.len()
        invariant
            start <= values@.len(),
            start == values@.len() ==> chunks@.len() == chunk_count(values@.len()),
            start < values@.len() ==> start == chunks@.len() * CHUNK_SIZE,
            chunks@.len() <= chunk_count(values@.len()),
            forall|k: int|
                0 <= k < chunks@.len() ==> (#[trigger] chunks@[k])@ == chunks_of(values@)[k],
        decreases values@.len() - start,
    {
        let end: usize = if values.len() - start > CHUNK_SIZE {
            start + CHUNK_SIZE
        } else {
            values.len()
        };
        chunks.push(vstd::slice::slice_subrange(values, start, end));
        start = end;
    }
    assert(slice_views(chunks@) =~= chunks_of(values@));
    chunks
}

/// Cuts `left` and `right` into chunks at the same places.
pub fn chunk_as_float_binary<'a, T>(left: &'a [T], right: &'a [T]) -> (chunks: Vec<(&'a [T], &'a [T])>)
    requires
        left@.len() == right@.len(),
    ensures
        slice_pair_views(chunks@) == paired_chunks_of(left@, right@),
        forall|k: int|
            0 <= k < chunks@.len() ==> (#[trigger] chunks@[k]).0@.len() == chunks@[k].1@.len(),
{
    let left_chunks = chunk_as_float(left);
    let right_chunks = chunk_as_float(right);
    let mut chunks: Vec<(&'a [T], &'a [T])> = Vec::new();
    assert(slice_views(left_chunks@).len() == slice_views(right_chunks@).len());
    for k in 0..left_chunks.len()
        invariant
            left_chunks@.len() == right_chunks@.len(),
            left_chunks@.len() == chunk_count(left@.len()),
            left@.len() == right@.len(),
            slice_views(left_chunks@) == chunks_of(left@),
            slice_views(right_chunks@) == chunks_of(right@),
            chunks@.len() == k,
            slice_pair_views(chunks@) =~= paired_chunks_of(left@, right@).take(k as int),
    {
        let ghost before = chunks@;
        assert(slice_views(left_chunks@)[k as int] == chunks_of(left@)[k as int]);
        assert(slice_views(right_chunks@)[k as int] == chunks_of(right@)[k as int]);
        chunks.push((left_chunks[k], right_chunks[k]));
        assert forall|j: int| 0 <= j < k implies slice_pair_views(chunks@)[j]
            == paired_chunks_of(left@, right@)[j] by {
            assert(slice_pair_views(before)[j] == paired_chunks_of(left@, right@).take(
                k as int,
            )[j]);
        }
    }
    assert(slice_pair_views(chunks@) =~= paired_chunks_of(left@, right@));
    assert forall|k: int| 0 <= k < chunks@.len() implies (#[trigger] chunks@[k]).0@.len()
        == chunks@[k].1@.len() by {
        assert(slice_pair_views(chunks@)[k] == paired_chunks_of(left@, right@)[k]);
    }
    chunks
}

} // verus!
