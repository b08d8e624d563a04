use crate::bits::bit_at;
use crate::datum::DatumValue;
use crate::hop::{element_extent, hop};
use crate::layout::{Layout, PassBy, Size};
use crate::nulls::bitmap_holds;
use crate::word::{word_of, ByteOrder};
use vstd::prelude::*;

verus! {

/// An array as the host hands it over, contiguous and ready to be read: the
/// element type, the number of slots, the presence bitmap if the array has
/// one, and the element stream. The stream holds the values only: a null
/// takes no bytes in it.
#[derive(Clone, Debug, PartialEq, Eq)]
pub struct RawArray {
    /// The identifier of the element type.
    pub oid: u32,
    /// The number of slots, nulls included.
    pub len: usize,
    /// One presence bit per slot, or nothing where no slot is null.
    pub nulls: Option<Vec<u8>>,
    /// The element stream.
    pub data: Vec<u8>,
    /// The byte order of the numbers in the element stream.
    pub order: ByteOrder,
}

/// What a `RawArray` holds.
pub struct RawArrayView {
    pub oid: u32,
    pub len: nat,
    pub nulls: Option<Seq<u8>>,
    pub data: Seq<u8>,
    pub order: ByteOrder,
}

impl View for RawArray {
    type V = RawArrayView;

    open spec fn view(&self) -> RawArrayView {
        RawArrayView {
            oid: self.oid,
            len: self.len as nat,
            nulls: match self.nulls {
                Some(bytes) => Some(bytes@),
                None => None,
            },
            data: self.data@,
            order: self.order,
        }
    }
}

/// Whether slot `i` is null: the array has a bitmap and the slot's bit is clear.
pub open spec fn is_null(raw: RawArrayView, i: int) -> bool {
    raw.nulls matches Some(bits) && !bit_at(bits, i)
}

/// For each slot, whether it is null.
pub open spec fn null_flags(raw: RawArrayView) -> Seq<bool> {
    Seq::new(raw.len, |i: int| is_null(raw, i))
}

/// The offset in the element stream at which slot `i` is read, after walking
/// over the slots before it; `None` where a step of the walk leaves the
/// buffer. A value moves the cursor by one hop; a null does not move it.
pub open spec fn cursor_at(raw: RawArrayView, layout: Layout, i: nat) -> Option<int>
    decreases i,
{
    if i == 0 {
        Some(0)
    } else {
        match cursor_at(raw, layout, (i - 1) as nat) {
            Some(at) => if is_null(raw, i - 1) {
                Some(at)
            } else {
                hop(raw.data, at, layout, raw.order)
            },
            None => None,
        }
    }
}

/// The byte count of a fixed-width layout, and zero for the others.
pub open spec fn fixed_width(layout: Layout) -> nat {
    match layout.spec_size() {
        Size::Fixed(n) => n as nat,
        _ => 0,
    }
}

/// The boxed scalar read at offset `at`: by value, the element's bytes as a
/// zero-extended word; by reference, the element's bytes themselves, without
/// padding.
pub open spec fn datum_at(raw: RawArrayView, layout: Layout, at: int) -> DatumValue {
    match layout.spec_pass() {
        PassBy::Value => DatumValue::Value(
            word_of(raw.data.subrange(at, at + fixed_width(layout)), raw.order) as u64,
        ),
        PassBy::Ref => DatumValue::Reference(
            raw.data.subrange(
                at,
                at + element_extent(raw.data, at, layout, raw.order).unwrap(),
            ),
        ),
    }
}

/// The boxed scalar of slot `i`, or `None` for a null.
pub open spec fn slot_datum(raw: RawArrayView, layout: Layout, i: int) -> Option<DatumValue> {
    if is_null(raw, i) {
        None
    } else {
        Some(datum_at(raw, layout, cursor_at(raw, layout, i as nat).unwrap()))
    }
}

/// The boxed scalars of all slots, in order.
pub open spec fn decoded(raw: RawArrayView, layout: Layout) -> Seq<Option<DatumValue>> {
    Seq::new(raw.len, |i: int| slot_datum(raw, layout, i))
}

/// Whether the array can be read with the layout: its bitmap, if any, covers
/// every slot, and walking over all slots never leaves the element stream.
pub open spec fn raw_wf(raw: RawArrayView, layout: Layout) -> bool {
    &&& layout.valid()
    &&& raw.nulls matches Some(bits) ==> bitmap_holds(bits, raw.len)
    &&& cursor_at(raw, layout, raw.len) is Some
}

/// A walk that reaches slot `j` has reached every slot before it.
pub proof fn lemma_cursor_prefix(raw: RawArrayView, layout: Layout, i: nat, j: nat)
    requires
        i <= j,
        cursor_at(raw, layout, j) is Some,
    ensures
        cursor_at(raw, layout, i) matches Some(at) && 0 <= at <= cursor_at(
            raw,
            layout,
            j,
        ).unwrap(),
    decreases j,
{
    if i < j {
        lemma_cursor_prefix(raw, layout, i, (j - 1) as nat);
    } else {
        lemma_cursor_in_bounds(raw, layout, i);
    }
}

/// The cursor never leaves the element stream.
pub proof fn lemma_cursor_in_bounds(raw: RawArrayView, layout: Layout, i: nat)
    requires
        cursor_at(raw, layout, i) is Some,
    ensures
        0 <= cursor_at(raw, layout, i).unwrap() <= raw.data.len(),
    decreases i,
{
    if i > 0 {
        lemma_cursor_in_bounds(raw, layout, (i - 1) as nat);
    }
}

/// Once a step of the walk fails, no later slot is reached.
pub proof fn lemma_cursor_none_stays(raw: RawArrayView, layout: Layout, i: nat, j: nat)
    requires
        i <= j,
        cursor_at(raw, layout, i) is None,
    ensures
        cursor_at(raw, layout, j) is None,
    decreases j,
{
    if i < j {
        lemma_cursor_none_stays(raw, layout, i, (j - 1) as nat);
    }
}

/// In an array that can be read, every slot that holds a value can be
/// stepped over from where it is read.
pub proof fn lemma_slot_readable(raw: RawArrayView, layout: Layout, i: nat)
    requires
        raw_wf(raw, layout),
        i < raw.len,
        !is_null(raw, i as int),
    ensures
        cursor_at(raw, layout, i) matches Some(at) && 0 <= at && hop(
            raw.data,
            at,
            layout,
            raw.order,
        ) == cursor_at(raw, layout, i + 1) && cursor_at(raw, layout, i + 1) is Some,
{
    lemma_cursor_prefix(raw, layout, i + 1, raw.len);
    lemma_cursor_prefix(raw, layout, i, raw.len);
}

} // verus!
