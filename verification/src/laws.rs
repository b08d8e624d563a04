use crate::array::Array;
use crate::datum::{DatumValue, FromDatum, IntoDatum};
use crate::encode::{
    datum_fits, datum_image, encodable, encoded_data, encoded_values, is_encoding_of,
    lemma_encoded_data_push, slot_fits,
};
use crate::hop::{hop, is_cstr_len, lemma_align_up, lemma_cstr_len_unique, varlena_len};
use crate::layout::{Layout, Size};
use crate::raw::{cursor_at, datum_at, decoded, fixed_width, is_null, raw_wf, RawArrayView};
use crate::word::{lemma_word_bytes_len, lemma_word_round_trip, ByteOrder};
use vstd::prelude::*;

verus! {

/// An element type whose two conversions undo each other: reading the boxed
/// scalar that a value was written as gives the value back.
pub trait ArrayElement: FromDatum + IntoDatum {
    proof fn lemma_codec(value: Self)
        ensures
            value.encoded() matches Some(datum) && Self::decoded(datum, Self::spec_type_oid())
                == Some(value),
    ;
}

impl ArrayElement for bool {
    proof fn lemma_codec(value: bool) {
    }
}

impl ArrayElement for i8 {
    proof fn lemma_codec(value: i8) {
        assert((value as u8 as u64) as i8 == value) by (bit_vector);
    }
}

impl ArrayElement for i16 {
    proof fn lemma_codec(value: i16) {
        assert((value as u16 as u64) as i16 == value) by (bit_vector);
    }
}

impl ArrayElement for i32 {
    proof fn lemma_codec(value: i32) {
        assert((value as u32 as u64) as i32 == value) by (bit_vector);
    }
}

impl ArrayElement for i64 {
    proof fn lemma_codec(value: i64) {
        assert((value as u64) as i64 == value) by (bit_vector);
    }
}

/// A null takes no bytes of the element stream: where a slot of a view is
/// null, its element is `None`, and the slot after it is read at the same
/// offset.
pub proof fn lemma_null_takes_no_bytes<T: FromDatum>(array: Array<T>, i: nat)
    requires
        array.wf(),
        i < array@.len(),
        array.spec_null(i as int),
    ensures
        array@[i as int] is None,
        cursor_at(array.spec_raw(), array.spec_layout(), i + 1) == cursor_at(
            array.spec_raw(),
            array.spec_layout(),
            i,
        ),
{
}

/// Where the image of a boxed scalar lies in an element stream, one hop
/// leads over exactly the image, and the scalar is read back from it.
pub proof fn lemma_hop_over_image(
    raw: RawArrayView,
    at: int,
    datum: DatumValue,
    layout: Layout,
)
    requires
        layout.valid(),
        datum_fits(datum, layout, raw.order),
        0 <= at,
        at + datum_image(datum, layout, raw.order).len() <= raw.data.len(),
        raw.data.subrange(at, at + datum_image(datum, layout, raw.order).len()) == datum_image(
            datum,
            layout,
            raw.order,
        ),
    ensures
        hop(raw.data, at, layout, raw.order) == Some(
            at + datum_image(datum, layout, raw.order).len(),
        ),
        datum_at(raw, layout, at) == datum,
{
    let data = raw.data;
    let order = raw.order;
    let image = datum_image(datum, layout, order);
    let there = data.subrange(at, at + image.len());
    match datum {
        DatumValue::Value(word) => {
            let n = fixed_width(layout);
            lemma_word_bytes_len(word as nat, n, order);
            lemma_word_round_trip(word as nat, n, order);
        },
        DatumValue::Reference(bytes) => {
            match layout.spec_size() {
                Size::Fixed(n) => {},
                Size::Varlena => {
                    let align = layout.spec_align().bytes() as nat;
                    lemma_align_up(bytes.len(), align);
                    assert(bytes.len() >= 1);
                    assert(data[at] == there[0]);
                    assert(there[0] == bytes[0]);
                    if bytes.len() >= 4 {
                        assert(data.subrange(at, at + 4) =~= there.subrange(0, 4));
                        assert(there.subrange(0, 4) =~= bytes.subrange(0, 4));
                    }
                    assert(varlena_len(data, at, order) == Some(bytes.len()));
                    assert(data.subrange(at, at + bytes.len()) =~= there.subrange(
                        0,
                        bytes.len() as int,
                    ));
                    assert(there.subrange(0, bytes.len() as int) =~= bytes);
                },
                Size::CStr => {
                    let n = (bytes.len() - 1) as nat;
                    assert(is_cstr_len(bytes, 0, n));
                    assert forall|j: int| at <= j <= at + n implies data[j] == bytes[j - at] by {
                        assert(data[j] == there[j - at]);
                    }
                    assert(is_cstr_len(data, at, n));
                    lemma_cstr_len_unique(data, at, n);
                    assert(data.subrange(at, at + bytes.len()) =~= there.subrange(
                        0,
                        bytes.len() as int,
                    ));
                    assert(there.subrange(0, bytes.len() as int) =~= bytes);
                },
            }
        },
    }
}

/// The element stream of the first slots is the start of the element stream
/// of all of them.
pub proof fn lemma_encoded_data_prefix(
    datums: Seq<Option<DatumValue>>,
    layout: Layout,
    order: ByteOrder,
    i: nat,
)
    requires
        i <= datums.len(),
    ensures
        encoded_data(datums.take(i as int), layout, order).len() <= encoded_data(
            datums,
            layout,
            order,
        ).len(),
        encoded_data(datums, layout, order).subrange(
            0,
            encoded_data(datums.take(i as int), layout, order).len() as int,
        ) == encoded_data(datums.take(i as int), layout, order),
    decreases datums.len() - i,
{
    let all = encoded_data(datums, layout, order);
    if i == datums.len() {
        assert(datums.take(i as int) =~= datums);
        assert(all.subrange(0, all.len() as int) =~= all);
    } else {
        lemma_encoded_data_prefix(datums, layout, order, i + 1);
        assert(datums.take(i as int).push(datums[i as int]) =~= datums.take(i as int + 1));
        lemma_encoded_data_push(datums.take(i as int), datums[i as int], layout, order);
        let shorter = encoded_data(datums.take(i as int), layout, order);
        let longer = encoded_data(datums.take(i as int + 1), layout, order);
        assert(all.subrange(0, shorter.len() as int) =~= longer.subrange(0, shorter.len() as int));
        assert(longer.subrange(0, shorter.len() as int) =~= shorter);
    }
}

/// Whether the slots of `raw` are null exactly where `datums` holds no value.
pub open spec fn nulls_agree(raw: RawArrayView, datums: Seq<Option<DatumValue>>) -> bool {
    forall|j: int| 0 <= j < datums.len() ==> is_null(raw, j) == (#[trigger] datums[j] is None)
}

/// In an encoded array, the walk reaches each slot where the images of the
/// slots before it end.
pub proof fn lemma_cursor_of_encoding(
    raw: RawArrayView,
    datums: Seq<Option<DatumValue>>,
    layout: Layout,
    i: nat,
)
    requires
        layout.valid(),
        encodable(datums, layout, raw.order),
        raw.data == encoded_data(datums, layout, raw.order),
        nulls_agree(raw, datums),
        i <= datums.len(),
    ensures
        cursor_at(raw, layout, i) == Some(
            encoded_data(datums.take(i as int), layout, raw.order).len() as int,
        ),
        i < datums.len() ==> slot_read(raw, datums, layout, i as int),
    decreases i,
{
    let order = raw.order;
    if i > 0 {
        lemma_cursor_of_encoding(raw, datums, layout, (i - 1) as nat);
    } else {
        assert(datums.take(0) =~= Seq::empty());
    }
    if i < datums.len() {
        let before = encoded_data(datums.take(i as int), layout, order);
        let after = encoded_data(datums.take(i as int + 1), layout, order);
        assert(datums.take(i as int).push(datums[i as int]) =~= datums.take(i as int + 1));
        lemma_encoded_data_push(datums.take(i as int), datums[i as int], layout, order);
        lemma_encoded_data_prefix(datums, layout, order, i + 1);
        assert(slot_fits(datums[i as int], layout, order));
        match datums[i as int] {
            Some(datum) => {
                let image = datum_image(datum, layout, order);
                assert(raw.data.subrange(before.len() as int, before.len() as int + image.len() as int)
                    =~= after.subrange(before.len() as int, after.len() as int));
                assert(after.subrange(before.len() as int, after.len() as int) =~= image);
                lemma_hop_over_image(raw, before.len() as int, datum, layout);
            },
            None => {
                assert(after =~= before);
            },
        }
    }
}

/// Whether slot `i` of `raw` is read as `datums[i]`, and the walk goes on
/// behind its image.
pub open spec fn slot_read(
    raw: RawArrayView,
    datums: Seq<Option<DatumValue>>,
    layout: Layout,
    i: int,
) -> bool {
    &&& cursor_at(raw, layout, (i + 1) as nat) == Some(
        encoded_data(datums.take(i as int + 1), layout, raw.order).len() as int,
    )
    &&& datums[i] matches Some(datum) ==> datum_at(
        raw,
        layout,
        cursor_at(raw, layout, i as nat).unwrap(),
    ) == datum
}

/// Decoding undoes encoding, slot by slot: an array that holds exactly the
/// given boxed scalars can be read with the layout it was written in, and
/// reading it gives the same scalars back, in order, nulls in their places.
pub proof fn lemma_encode_decode(
    raw: RawArrayView,
    datums: Seq<Option<DatumValue>>,
    layout: Layout,
    oid: u32,
    order: ByteOrder,
)
    requires
        layout.valid(),
        encodable(datums, layout, order),
        is_encoding_of(raw, datums, layout, oid, order),
    ensures
        raw_wf(raw, layout),
        decoded(raw, layout) == datums,
{
    assert(nulls_agree(raw, datums)) by {
        assert forall|j: int| 0 <= j < datums.len() implies is_null(raw, j) == (
        #[trigger] datums[j] is None) by {
            match raw.nulls {
                Some(bits) => {
                    assert(j < 8 * bits.len());
                },
                None => {},
            }
        }
    }
    lemma_cursor_of_encoding(raw, datums, layout, datums.len());
    assert forall|i: int| 0 <= i < datums.len() implies #[trigger] decoded(raw, layout)[i]
        == datums[i] by {
        lemma_cursor_of_encoding(raw, datums, layout, i as nat);
    }
    assert(decoded(raw, layout) =~= datums);
}

/// Decoding undoes encoding, element by element: a view of the array that
/// was written from a sequence of optional elements holds that sequence.
pub proof fn lemma_round_trip<E: ArrayElement>(
    values: Seq<Option<E>>,
    array: Array<E>,
    order: ByteOrder,
)
    requires
        array.spec_layout().valid(),
        encodable(encoded_values(values), array.spec_layout(), order),
        is_encoding_of(
            array.spec_raw(),
            encoded_values(values),
            array.spec_layout(),
            E::spec_type_oid(),
            order,
        ),
    ensures
        array.wf(),
        array@ == values,
{
    let datums = encoded_values(values);
    lemma_encode_decode(array.spec_raw(), datums, array.spec_layout(), E::spec_type_oid(), order);
    assert forall|i: int| 0 <= i < values.len() implies #[trigger] array@[i] == values[i] by {
        match values[i] {
            Some(value) => {
                E::lemma_codec(value);
            },
            None => {},
        }
    }
    assert(array@ =~= values);
}

} // verus!
