use bitvec::order::Lsb0;
use bitvec::slice::BitSlice;
use vstd::prelude::*;

verus! {

/// The longest byte slice that can be read as bits.
pub const MAX_BITMAP_BYTES: usize = usize::MAX / 64;

/// Whether bit `i` of a bitmap is set. Bits are counted from the least
/// significant bit of the first byte: bit `i` is bit `i % 8` of byte `i / 8`.
pub open spec fn bit_at(bytes: Seq<u8>, i: int) -> bool {
    (bytes[i / 8] >> ((i % 8) as u8)) & 1u8 == 1u8
}

/// Calls `BitSlice::<u8, Lsb0>::from_slice` and `BitSlice::get` of bitvec.
///
/// Trusted: the bit at `index` of the bytes read as one run of bits, least
/// significant bit of each byte first, and nothing past their last bit.
/// `from_slice` panics on slices too long to index by bit, which `requires`
/// leaves out.
#[verifier::external_body]
pub(crate) fn bit_get(bytes: &[u8], index: usize) -> (r: Option<bool>)
    requires
        bytes@.len() <= MAX_BITMAP_BYTES,
    ensures
        r == (if index < 8 * bytes@.len() {
            Some(bit_at(bytes@, index as int))
        } else {
            None
        }),
{
    BitSlice::<u8, Lsb0>::from_slice(bytes).get(index).as_deref().copied()
}

/// Calls `BitSlice::<u8, Lsb0>::from_slice`, the range index and
/// `BitSlice::all` of bitvec.
///
/// Trusted: whether each of the first `len` bits of the bytes is set, which
/// holds of no bits at all. The range index panics past the last bit and
/// `from_slice` on slices too long to index by bit; `requires` leaves both out.
#[verifier::external_body]
pub(crate) fn bits_all(bytes: &[u8], len: usize) -> (r: bool)
    requires
        bytes@.len() <= MAX_BITMAP_BYTES,
        len <= 8 * bytes@.len(),
    ensures
        r == (forall|i: int| 0 <= i < len ==> bit_at(bytes@, i)),
{
    BitSlice::<u8, Lsb0>::from_slice(bytes)[..len].all()
}

} // verus!
