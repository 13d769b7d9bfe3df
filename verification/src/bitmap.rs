//! Validity masks, held as `polars_arrow` bitmaps.
use polars_arrow::bitmap::Bitmap;
use vstd::prelude::*;

verus! {

/// The bitmap type of `polars_arrow`, an immutable sequence of bits.
#[verifier::external_type_specification]
#[verifier::external_body]
pub struct ExBitmap(Bitmap);

/// The bits of a bitmap, first to last.
pub uninterp spec fn bitmap_bits(bitmap: Bitmap) -> Seq<bool>;

/// The number of bits that are equal to `bit`.
pub open spec fn bit_count(bits: Seq<bool>, bit: bool) -> nat
    decreases bits.len(),
{
    if bits.len() == 0 {
        0
    } else {
        bit_count(bits.drop_last(), bit) + if bits.last() == bit {
            1nat
        } else {
            0nat
        }
    }
}

/// `Bitmap::len` gives the number of bits.
pub assume_specification[ Bitmap::len ](bitmap: &Bitmap) -> (n: usize)
    ensures
        n == bitmap_bits(*bitmap).len(),
;

/// `Bitmap::get_bit` gives the bit at position `i`. It panics where there is none.
pub assume_specification[ Bitmap::get_bit ](bitmap: &Bitmap, i: usize) -> (bit: bool)
    requires
        i < bitmap_bits(*bitmap).len(),
    ensures
        bit == bitmap_bits(*bitmap)[i as int],
;

/// `Bitmap::set_bits` counts the bits that are set.
pub assume_specification[ Bitmap::set_bits ](bitmap: &Bitmap) -> (n: usize)
    ensures
        n == bit_count(bitmap_bits(*bitmap), true),
;

/// `Bitmap::unset_bits` counts the bits that are not set.
pub assume_specification[ Bitmap::unset_bits ](bitmap: &Bitmap) -> (n: usize)
    ensures
        n == bit_count(bitmap_bits(*bitmap), false),
;

/// `Bitmap::sliced` keeps the `length` bits from position `offset` on. It panics
/// where there are fewer.
pub assume_specification[ Bitmap::sliced ](bitmap: Bitmap, offset: usize, length: usize) -> (r:
    Bitmap)
    requires
        offset + length <= bitmap_bits(bitmap).len(),
    ensures
        bitmap_bits(r) == bitmap_bits(bitmap).subrange(offset as int, offset + length),
;

/// `Bitmap::clone` keeps the bits.
pub assume_specification[ <Bitmap as Clone>::clone ](bitmap: &Bitmap) -> (r: Bitmap)
    ensures
        bitmap_bits(r) == bitmap_bits(*bitmap),
;

/// A count is zero if and only if no bit is equal to `bit`.
pub(crate) proof fn lemma_bit_count_zero(bits: Seq<bool>, bit: bool)
    ensures
        bit_count(bits, bit) == 0 <==> (forall|i: int| 0 <= i < bits.len() ==> bits[i] != bit),
    decreases bits.len(),
{
    if bits.len() > 0 {
        let init = bits.drop_last();
        lemma_bit_count_zero(init, bit);
        assert(forall|i: int| 0 <= i < init.len() ==> init[i] == bits[i]);
        assert(bits[bits.len() - 1] == bits.last());
        if bit_count(bits, bit) == 0 {
            assert forall|i: int| 0 <= i < bits.len() implies bits[i] != bit by {
                if i < init.len() {
                    assert(init[i] == bits[i]);
                }
            }
        }
    }
}

} // verus!
