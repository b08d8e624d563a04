use crate::bits::{bit_at, MAX_BITMAP_BYTES};
use crate::datum::{datum_view, Datum, DatumValue, IntoDatum};
use crate::error::ArrayError;
use crate::hop::{align_up, cstr_len, lemma_align_up, strlen, varlena_len, varsize_any};
use crate::layout::{Layout, PassBy, Size};
use crate::raw::{fixed_width, RawArray, RawArrayView};
use crate::word::{lemma_pow256_values, pow256, push_word, word_bytes, ByteOrder};
use vstd::prelude::*;

verus! {

/// The largest number of slots that an encoded array can have: as many as
/// the longest presence bitmap has bits.
pub const MAX_SLOTS: usize = 8 * MAX_BITMAP_BYTES;

/// `n` zero bytes.
pub open spec fn zeros(n: nat) -> Seq<u8> {
    Seq::new(n, |i: int| 0u8)
}

/// Whether a boxed scalar can be written in the layout. A word goes with a
/// by-value layout and fits its width. Referenced bytes go with a
/// by-reference layout and are one whole element of its size class: of the
/// fixed width; with a length header that states their own length; or ended
/// by their only zero byte.
pub open spec fn datum_fits(datum: DatumValue, layout: Layout, order: ByteOrder) -> bool {
    match datum {
        DatumValue::Value(word) => layout.spec_pass() == PassBy::Value && word < pow256(
            fixed_width(layout),
        ),
        DatumValue::Reference(bytes) => layout.spec_pass() == PassBy::Ref && (
        match layout.spec_size() {
            Size::Fixed(n) => bytes.len() == n,
            Size::Varlena => varlena_len(bytes, 0, order) == Some(bytes.len()),
            Size::CStr => bytes.len() >= 1 && cstr_len(bytes, 0) == Some(
                (bytes.len() - 1) as nat,
            ),
        }),
    }
}

/// The bytes that a boxed scalar takes in the element stream: a word's
/// bytes in the buffer's order; referenced bytes as they are, followed by
/// zero bytes up to the alignment where they carry a length header, and by
/// one zero byte where they are zero-terminated.
pub open spec fn datum_image(datum: DatumValue, layout: Layout, order: ByteOrder) -> Seq<u8> {
    match datum {
        DatumValue::Value(word) => word_bytes(word as nat, fixed_width(layout), order),
        DatumValue::Reference(bytes) => match layout.spec_size() {
            Size::Fixed(_) => bytes,
            Size::Varlena => bytes + zeros(
                (align_up(bytes.len(), layout.spec_align().bytes() as nat) - bytes.len()) as nat,
            ),
            Size::CStr => bytes + zeros(1),
        },
    }
}

/// The element stream of the given slots: the images of the values in
/// order, and nothing for a null.
pub open spec fn encoded_data(
    datums: Seq<Option<DatumValue>>,
    layout: Layout,
    order: ByteOrder,
) -> Seq<u8>
    decreases datums.len(),
{
    if datums.len() == 0 {
        Seq::empty()
    } else {
        encoded_data(datums.drop_last(), layout, order) + (match datums.last() {
            Some(datum) => datum_image(datum, layout, order),
            None => Seq::empty(),
        })
    }
}

/// Whether `bytes` is the presence bitmap of the given slots: one bit per
/// slot, set where the slot holds a value, in as few bytes as hold them, the
/// bits past the last slot clear.
pub open spec fn is_bitmap_of(bytes: Seq<u8>, datums: Seq<Option<DatumValue>>) -> bool {
    &&& bytes.len() == (datums.len() + 7) / 8
    &&& forall|i: int|
        0 <= i < 8 * bytes.len() ==> bit_at(bytes, i) == (i < datums.len() && datums[i] is Some)
}

/// Whether a slot can be written in the layout: a null always can.
pub open spec fn slot_fits(slot: Option<DatumValue>, layout: Layout, order: ByteOrder) -> bool {
    match slot {
        Some(datum) => datum_fits(datum, layout, order),
        None => true,
    }
}

/// Whether the slots can be written as one array in the layout.
pub open spec fn encodable(
    datums: Seq<Option<DatumValue>>,
    layout: Layout,
    order: ByteOrder,
) -> bool {
    &&& datums.len() <= MAX_SLOTS
    &&& forall|i: int| 0 <= i < datums.len() ==> slot_fits(#[trigger] datums[i], layout, order)
}

/// Whether `raw` is the array that holds exactly the given slots: the
/// element stream of the values, and a presence bitmap only where a slot is
/// null.
pub open spec fn is_encoding_of(
    raw: RawArrayView,
    datums: Seq<Option<DatumValue>>,
    layout: Layout,
    oid: u32,
    order: ByteOrder,
) -> bool {
    &&& raw.oid == oid
    &&& raw.order == order
    &&& raw.len == datums.len()
    &&& raw.data == encoded_data(datums, layout, order)
    &&& match raw.nulls {
        Some(bits) => is_bitmap_of(bits, datums) && exists|i: int|
            0 <= i < datums.len() && datums[i] is None,
        None => forall|i: int| 0 <= i < datums.len() ==> datums[i] is Some,
    }
}

/// Whether a word is below `pow256(n)`, that is, fits `n` bytes.
fn word_fits(word: u64, n: usize) -> (r: bool)
    requires
        n <= 8,
    ensures
        r == (word < pow256(n as nat)),
{
    proof {
        lemma_pow256_values();
    }
    if n == 0 {
        word < 1
    } else if n == 1 {
        word < 0x100
    } else if n == 2 {
        word < 0x1_0000
    } else if n == 3 {
        word < 0x100_0000
    } else if n == 4 {
        word < 0x1_0000_0000
    } else if n == 5 {
        word < 0x100_0000_0000
    } else if n == 6 {
        word < 0x1_0000_0000_0000
    } else if n == 7 {
        word < 0x100_0000_0000_0000
    } else {
        true
    }
}

/// Appends `n` zero bytes.
pub(crate) fn push_zeros(data: &mut Vec<u8>, n: usize)
    ensures
        final(data)@ == old(data)@ + zeros(n as nat),
{
    let mut i: usize = 0;
    assert(data@ =~= old(data)@ + zeros(0));
    while i < n
        invariant
            i <= n,
            data@ == old(data)@ + zeros(i as nat),
        decreases n - i,
    {
        data.push(0);
        i = i + 1;
        assert(data@ =~= old(data)@ + zeros(i as nat));
    }
}

/// Appends the image of a boxed scalar to an element stream, or refuses a
/// scalar that cannot be written in the layout and leaves the stream as it is.
pub fn append_datum(data: &mut Vec<u8>, datum: Datum<'_>, layout: Layout, order: ByteOrder) -> (r:
    Result<(), ArrayError>)
    ensures
        datum_fits(datum@, layout, order) ==> (r is Ok && final(data)@ == old(data)@ + datum_image(
            datum@,
            layout,
            order,
        )),
        !datum_fits(datum@, layout, order) ==> (r matches Err(e) && e
            == ArrayError::EncodingUnsupported && final(data)@ == old(data)@),
{
    let size = layout.size();
    match datum {
        Datum::Value(word) => {
            match layout.pass() {
                PassBy::Value => {
                    let width = match size {
                        Size::Fixed(n) => n as usize,
                        _ => 0,
                    };
                    if word_fits(word, width) {
                        push_word(data, word, width, order);
                        Ok(())
                    } else {
                        Err(ArrayError::EncodingUnsupported)
                    }
                },
                PassBy::Ref => Err(ArrayError::EncodingUnsupported),
            }
        },
        Datum::Reference(bytes) => {
            let len = bytes.len();
            match layout.pass() {
                PassBy::Value => Err(ArrayError::EncodingUnsupported),
                PassBy::Ref => match size {
                    Size::Fixed(n) => {
                        if len == n as usize {
                            data.extend_from_slice(bytes);
                            Ok(())
                        } else {
                            Err(ArrayError::EncodingUnsupported)
                        }
                    },
                    Size::Varlena => {
                        match varsize_any(bytes, 0, order) {
                            Some(n) => {
                                if n == len {
                                    let align = layout.align().as_usize();
                                    proof {
                                        lemma_align_up(len as nat, align as nat);
                                    }
                                    let rest = len % align;
                                    let pad = if rest != 0 {
                                        align - rest
                                    } else {
                                        0
                                    };
                                    assert(align_up(len as nat, align as nat) - len == pad)
                                        by (nonlinear_arith)
                                        requires
                                            rest == len % align,
                                            align > 0,
                                            pad == (if rest != 0 {
                                                align - rest
                                            } else {
                                                0
                                            }),
                                            align_up(len as nat, align as nat) == (len + (align
                                                - len % align) % (align as int)) as nat,
                                    ;
                                    data.extend_from_slice(bytes);
                                    push_zeros(data, pad);
                                    assert(data@ =~= old(data)@ + (bytes@ + zeros(pad as nat)));
                                    Ok(())
                                } else {
                                    Err(ArrayError::EncodingUnsupported)
                                }
                            },
                            None => Err(ArrayError::EncodingUnsupported),
                        }
                    },
                    Size::CStr => {
                        match strlen(bytes, 0) {
                            Some(n) => {
                                if len >= 1 && n == len - 1 {
                                    data.extend_from_slice(bytes);
                                    push_zeros(data, 1);
                                    assert(data@ =~= old(data)@ + (bytes@ + zeros(1)));
                                    Ok(())
                                } else {
                                    Err(ArrayError::EncodingUnsupported)
                                }
                            },
                            None => Err(ArrayError::EncodingUnsupported),
                        }
                    },
                },
            }
        },
    }
}

/// Setting one bit of a byte sets that bit and changes no other.
proof fn lemma_set_bit(byte: u8, bit: u8, other: u8)
    by (bit_vector)
    requires
        bit < 8,
        other < 8,
    ensures
        ((byte | (1u8 << bit)) >> other) & 1u8 == 1u8 <==> (other == bit || (byte >> other) & 1u8
            == 1u8),
{
}

/// No bit of a zero byte is set.
proof fn lemma_zero_byte(bit: u8)
    by (bit_vector)
    requires
        bit < 8,
    ensures
        (0u8 >> bit) & 1u8 != 1u8,
{
}

/// The element stream of some slots and one more is that of the slots,
/// followed by the image of the last.
pub proof fn lemma_encoded_data_push(
    datums: Seq<Option<DatumValue>>,
    slot: Option<DatumValue>,
    layout: Layout,
    order: ByteOrder,
)
    ensures
        encoded_data(datums.push(slot), layout, order) == encoded_data(datums, layout, order) + (
        match slot {
            Some(datum) => datum_image(datum, layout, order),
            None => Seq::empty(),
        }),
{
    assert(datums.push(slot).drop_last() =~= datums);
}

/// Records in the presence bitmap whether slot `index` holds a value.
fn mark_slot(
    bits: &mut Vec<u8>,
    index: usize,
    present: bool,
    Ghost(done): Ghost<Seq<Option<DatumValue>>>,
    Ghost(slot): Ghost<Option<DatumValue>>,
)
    requires
        is_bitmap_of(old(bits)@, done),
        index == done.len(),
        present == (slot is Some),
    ensures
        is_bitmap_of(final(bits)@, done.push(slot)),
{
    let byte = index / 8;
    let bit = (index % 8) as u8;
    if bit == 0 {
        bits.push(0);
    }
    let ghost grown = bits@;
    assert forall|i: int| 0 <= i < 8 * grown.len() implies bit_at(grown, i) == (i < done.len()
        && done[i] is Some) by {
        if i / 8 == byte && bit == 0 {
            lemma_zero_byte((i % 8) as u8);
        } else {
            assert(bit_at(grown, i) == bit_at(old(bits)@, i));
        }
    }
    if present {
        let old_byte = bits[byte];
        bits.set(byte, old_byte | (1u8 << bit));
        assert forall|i: int| 0 <= i < 8 * bits@.len() implies bit_at(bits@, i) == (i
            < done.push(slot).len() && done.push(slot)[i] is Some) by {
            if i / 8 == byte {
                lemma_set_bit(old_byte, bit, (i % 8) as u8);
                assert(bit_at(grown, i) == (i < done.len() && done[i] is Some));
            } else {
                assert(bit_at(bits@, i) == bit_at(grown, i));
            }
        }
    } else {
        assert forall|i: int| 0 <= i < 8 * bits@.len() implies bit_at(bits@, i) == (i
            < done.push(slot).len() && done.push(slot)[i] is Some) by {
            assert(bit_at(grown, i) == (i < done.len() && done[i] is Some));
        }
    }
}

/// Adds one slot to an array under construction: the image of its value to
/// the element stream, and its bit to the presence bitmap.
fn accumulate(
    data: &mut Vec<u8>,
    bits: &mut Vec<u8>,
    index: usize,
    slot: Option<Datum<'_>>,
    layout: Layout,
    order: ByteOrder,
    Ghost(done): Ghost<Seq<Option<DatumValue>>>,
) -> (r: Result<(), ArrayError>)
    requires
        old(data)@ == encoded_data(done, layout, order),
        is_bitmap_of(old(bits)@, done),
        index == done.len(),
    ensures
        slot_fits(datum_view(slot), layout, order) ==> (r is Ok && final(data)@ == encoded_data(
            done.push(datum_view(slot)),
            layout,
            order,
        ) && is_bitmap_of(final(bits)@, done.push(datum_view(slot)))),
        !slot_fits(datum_view(slot), layout, order) ==> (r matches Err(e) && e
            == ArrayError::EncodingUnsupported),
{
    proof {
        lemma_encoded_data_push(done, datum_view(slot), layout, order);
    }
    match slot {
        Some(datum) => {
            match append_datum(data, datum, layout, order) {
                Ok(()) => {},
                Err(e) => {
                    return Err(e);
                },
            }
            mark_slot(bits, index, true, Ghost(done), Ghost(datum_view(slot)));
        },
        None => {
            assert(data@ + Seq::<u8>::empty() =~= data@);
            mark_slot(bits, index, false, Ghost(done), Ghost(datum_view(slot)));
        },
    }
    Ok(())
}

/// What a run of optional boxed scalars holds.
pub open spec fn datum_views(datums: Seq<Option<Datum<'_>>>) -> Seq<Option<DatumValue>> {
    Seq::new(datums.len(), |i: int| datum_view(datums[i]))
}

/// The boxed scalars that stand for a run of values.
pub open spec fn encoded_values<T: IntoDatum>(values: Seq<T>) -> Seq<Option<DatumValue>> {
    Seq::new(values.len(), |i: int| values[i].encoded())
}

/// Puts the finished element stream and presence bitmap together.
fn make_array(
    oid: u32,
    len: usize,
    any_null: bool,
    bits: Vec<u8>,
    data: Vec<u8>,
    order: ByteOrder,
    Ghost(datums): Ghost<Seq<Option<DatumValue>>>,
    Ghost(layout): Ghost<Layout>,
) -> (raw: RawArray)
    requires
        len == datums.len(),
        data@ == encoded_data(datums, layout, order),
        is_bitmap_of(bits@, datums),
        any_null == (exists|i: int| 0 <= i < datums.len() && datums[i] is None),
    ensures
        is_encoding_of(raw@, datums, layout, oid, order),
{
    RawArray {
        oid,
        len,
        nulls: if any_null {
            Some(bits)
        } else {
            None
        },
        data,
        order,
    }
}

/// Writes boxed scalars, a null as `None`, as one array in the layout.
/// Refused where a scalar cannot be written in the layout, or the slots are
/// more than an array can have.
pub fn encode_datums(
    datums: &[Option<Datum<'_>>],
    layout: Layout,
    oid: u32,
    order: ByteOrder,
) -> (r: Result<RawArray, ArrayError>)
    ensures
        encodable(datum_views(datums@), layout, order) ==> (r matches Ok(raw) && is_encoding_of(
            raw@,
            datum_views(datums@),
            layout,
            oid,
            order,
        )),
        !encodable(datum_views(datums@), layout, order) ==> (r matches Err(e) && e
            == ArrayError::EncodingUnsupported),
{
    let n = datums.len();
    if n > MAX_SLOTS {
        return Err(ArrayError::EncodingUnsupported);
    }
    let ghost all = datum_views(datums@);
    let mut data: Vec<u8> = Vec::new();
    let mut bits: Vec<u8> = Vec::new();
    let mut any_null = false;
    let mut i: usize = 0;
    assert(all.take(0) =~= Seq::empty());
    while i < n
        invariant
            i <= n,
            n == datums@.len(),
            all == datum_views(datums@),
            data@ == encoded_data(all.take(i as int), layout, order),
            is_bitmap_of(bits@, all.take(i as int)),
            any_null == (exists|j: int| 0 <= j < i && all[j] is None),
            forall|j: int| 0 <= j < i ==> slot_fits(#[trigger] all[j], layout, order),
        decreases n - i,
    {
        let slot = datums[i];
        assert(all.take(i as int).push(all[i as int]) =~= all.take(i + 1));
        match accumulate(&mut data, &mut bits, i, slot, layout, order, Ghost(all.take(i as int))) {
            Ok(()) => {},
            Err(e) => {
                assert(!slot_fits(all[i as int], layout, order));
                return Err(e);
            },
        }
        if slot.is_none() {
            any_null = true;
        }
        i = i + 1;
    }
    assert(all.take(n as int) =~= all);
    Ok(make_array(oid, n, any_null, bits, data, order, Ghost(all), Ghost(layout)))
}

/// Writes values as one array of their type in the layout; a value that
/// gives no boxed scalar becomes a null. Refused where a value cannot be
/// written in the layout, or the values are more than an array can have.
pub fn encode<T: IntoDatum>(values: &[T], layout: Layout, order: ByteOrder) -> (r: Result<
    RawArray,
    ArrayError,
>)
    ensures
        encodable(encoded_values(values@), layout, order) ==> (r matches Ok(raw) && is_encoding_of(
            raw@,
            encoded_values(values@),
            layout,
            T::spec_type_oid(),
            order,
        )),
        !encodable(encoded_values(values@), layout, order) ==> (r matches Err(e) && e
            == ArrayError::EncodingUnsupported),
{
    let n = values.len();
    if n > MAX_SLOTS {
        return Err(ArrayError::EncodingUnsupported);
    }
    let ghost all = encoded_values(values@);
    let mut data: Vec<u8> = Vec::new();
    let mut bits: Vec<u8> = Vec::new();
    let mut any_null = false;
    let mut i: usize = 0;
    assert(all.take(0) =~= Seq::empty());
    while i < n
        invariant
            i <= n,
            n == values@.len(),
            all == encoded_values(values@),
            data@ == encoded_data(all.take(i as int), layout, order),
            is_bitmap_of(bits@, all.take(i as int)),
            any_null == (exists|j: int| 0 <= j < i && all[j] is None),
            forall|j: int| 0 <= j < i ==> slot_fits(#[trigger] all[j], layout, order),
        decreases n - i,
    {
        let slot = values[i].into_datum();
        assert(all.take(i as int).push(all[i as int]) =~= all.take(i + 1));
        match accumulate(&mut data, &mut bits, i, slot, layout, order, Ghost(all.take(i as int))) {
            Ok(()) => {},
            Err(e) => {
                assert(!slot_fits(all[i as int], layout, order));
                return Err(e);
            },
        }
        if slot.is_none() {
            any_null = true;
        }
        i = i + 1;
    }
    assert(all.take(n as int) =~= all);
    Ok(make_array(T::type_oid(), n, any_null, bits, data, order, Ghost(all), Ghost(layout)))
}

} // verus!
