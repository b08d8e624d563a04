use pgrx_array::array::Array;
use pgrx_array::datum::Datum;
use pgrx_array::error::ArrayError;
use pgrx_array::layout::{Align, Layout, PassBy, Size};
use pgrx_array::raw::RawArray;
use pgrx_array::registry::LayoutRegistry;
use pgrx_array::variadic::VariadicArray;
use pgrx_array::word::ByteOrder;

fn int4() -> Layout {
    Layout::new(Align::Int, Size::Fixed(4), PassBy::Value).unwrap()
}

fn two_ints() -> RawArray {
    RawArray {
        oid: 23,
        len: 2,
        nulls: None,
        data: vec![0x01, 0, 0, 0, 0x02, 0, 0, 0],
        order: ByteOrder::Little,
    }
}

fn ints_with_a_null_in_the_middle() -> RawArray {
    RawArray {
        oid: 23,
        len: 3,
        nulls: Some(vec![0b0000_0101]),
        data: vec![0x01, 0, 0, 0, 0x02, 0, 0, 0],
        order: ByteOrder::Little,
    }
}

fn drain(array: &Array<i32>) -> Vec<Option<i32>> {
    let mut it = array.iter();
    let mut out = Vec::new();
    while let Some(element) = it.next() {
        out.push(element);
    }
    out
}

#[test]
fn two_present_elements() {
    let array = Array::<i32>::deconstruct_from(two_ints(), int4()).unwrap();
    assert_eq!(array.len(), 2);
    assert!(!array.is_empty());
    assert!(!array.has_any_null());
    assert_eq!(drain(&array), vec![Some(1), Some(2)]);
    assert_eq!(array.iter().collect(), vec![Some(1), Some(2)]);
    assert_eq!(array.get(0), Some(Some(1)));
    assert_eq!(array.get(1), Some(Some(2)));
}

#[test]
fn null_in_the_middle_takes_no_bytes() {
    let array = Array::<i32>::deconstruct_from(ints_with_a_null_in_the_middle(), int4()).unwrap();
    assert_eq!(array.len(), 3);
    assert!(array.has_any_null());
    assert_eq!(drain(&array), vec![Some(1), None, Some(2)]);
    assert_eq!(array.get(0), Some(Some(1)));
    assert_eq!(array.get(1), Some(None));
    assert_eq!(array.get(2), Some(Some(2)));
    // the cursor stands at the same byte before and after the null
    assert_eq!(array.cursor(0), Some(0));
    assert_eq!(array.cursor(1), Some(4));
    assert_eq!(array.cursor(2), Some(4));
    assert_eq!(array.cursor(3), Some(8));
    assert_eq!(array.cursor(4), None);
}

#[test]
fn leading_and_trailing_nulls() {
    let raw = RawArray {
        oid: 23,
        len: 5,
        nulls: Some(vec![0b0000_1010]),
        data: vec![7, 0, 0, 0, 9, 0, 0, 0],
        order: ByteOrder::Little,
    };
    let array = Array::<i32>::deconstruct_from(raw, int4()).unwrap();
    assert_eq!(drain(&array), vec![None, Some(7), None, Some(9), None]);
    assert_eq!(array.get(0), Some(None));
    assert_eq!(array.get(1), Some(Some(7)));
    assert_eq!(array.get(3), Some(Some(9)));
    assert_eq!(array.get(4), Some(None));
    assert_eq!(array.cursor(0), Some(0));
    assert_eq!(array.cursor(1), Some(0));
    assert_eq!(array.cursor(2), Some(4));
    assert_eq!(array.cursor(3), Some(4));
    assert_eq!(array.cursor(5), Some(8));
}

#[test]
fn deny_null_refuses_an_array_with_a_null() {
    let array = Array::<i32>::deconstruct_from(ints_with_a_null_in_the_middle(), int4()).unwrap();
    match array.iter_deny_null() {
        Err(e) => assert_eq!(e, ArrayError::NullEncountered),
        Ok(_) => panic!("an array with a null was accepted"),
    }
}

#[test]
fn deny_null_goes_over_an_array_without_nulls() {
    let array = Array::<i32>::deconstruct_from(two_ints(), int4()).unwrap();
    let mut it = array.iter_deny_null().unwrap();
    assert_eq!(it.next(), Some(1));
    assert_eq!(it.next(), Some(2));
    assert_eq!(it.next(), None);
    assert_eq!(it.next(), None);
    assert_eq!(array.iter_deny_null().unwrap().collect(), vec![1, 2]);
}

#[test]
fn deny_null_accepts_a_bitmap_without_nulls() {
    let raw = RawArray { nulls: Some(vec![0b0000_0011]), ..two_ints() };
    let array = Array::<i32>::deconstruct_from(raw, int4()).unwrap();
    assert!(!array.has_any_null());
    assert_eq!(array.iter_deny_null().unwrap().collect(), vec![1, 2]);
}

#[test]
fn get_past_the_end_is_none() {
    let array = Array::<i32>::deconstruct_from(two_ints(), int4()).unwrap();
    assert_eq!(array.get(2), None);
    assert_eq!(array.get(3), None);
    assert_eq!(array.get(usize::MAX), None);
    assert!(array.get_datum(2).is_none());
    let with_null =
        Array::<i32>::deconstruct_from(ints_with_a_null_in_the_middle(), int4()).unwrap();
    assert_eq!(with_null.get(3), None);
    assert_eq!(with_null.get(8), None);
}

#[test]
fn empty_array_has_nothing() {
    let raw = RawArray { oid: 23, len: 0, nulls: None, data: vec![], order: ByteOrder::Little };
    let array = Array::<i32>::deconstruct_from(raw, int4()).unwrap();
    assert_eq!(array.len(), 0);
    assert!(array.is_empty());
    assert!(!array.has_any_null());
    assert_eq!(array.get(0), None);
    assert_eq!(array.get(1), None);
    assert_eq!(drain(&array), vec![]);
    assert_eq!(array.cursor(0), Some(0));
    let mut it = array.iter();
    assert_eq!(it.next(), None);
    assert!(array.iter_deny_null().unwrap().collect().is_empty());
}

#[test]
fn len_is_the_number_of_items_of_iter() {
    for raw in [two_ints(), ints_with_a_null_in_the_middle()] {
        let array = Array::<i32>::deconstruct_from(raw, int4()).unwrap();
        assert_eq!(drain(&array).len(), array.len());
        assert_eq!(array.iter().collect().len(), array.len());
        // a second iterator starts over
        assert_eq!(drain(&array), drain(&array));
    }
}

#[test]
fn iter_agrees_with_get() {
    let array = Array::<i32>::deconstruct_from(ints_with_a_null_in_the_middle(), int4()).unwrap();
    let mut it = array.iter();
    for i in 0..array.len() {
        assert_eq!(it.next(), array.get(i));
    }
    assert_eq!(it.next(), None);
    assert_eq!(it.next(), None);
}

#[test]
fn to_vec_drains_the_array() {
    let array = Array::<i32>::deconstruct_from(ints_with_a_null_in_the_middle(), int4()).unwrap();
    assert_eq!(array.to_vec(), vec![Some(1), None, Some(2)]);
    assert_eq!(array.to_vec().len(), array.len());
    assert_eq!(array.to_vec_deny_null(), Err(ArrayError::NullEncountered));
    let plain = Array::<i32>::deconstruct_from(two_ints(), int4()).unwrap();
    assert_eq!(plain.to_vec(), vec![Some(1), Some(2)]);
    assert_eq!(plain.to_vec_deny_null(), Ok(vec![1, 2]));
}

#[test]
fn typed_iteration_ends_where_nothing_is_read() {
    let layout = Layout::new(Align::Int, Size::Fixed(4), PassBy::Ref).unwrap();
    let array = Array::<i32>::deconstruct_from(two_ints(), layout).unwrap();
    assert_eq!(array.to_vec(), vec![None, None]);
    assert_eq!(array.to_vec_deny_null(), Ok(vec![]));
    let mut it = array.iter_deny_null().unwrap();
    assert_eq!(it.next(), None);
}

#[test]
fn collect_gives_what_is_left() {
    let array = Array::<i32>::deconstruct_from(ints_with_a_null_in_the_middle(), int4()).unwrap();
    let mut it = array.iter();
    assert_eq!(it.next(), Some(Some(1)));
    assert_eq!(it.collect(), vec![None, Some(2)]);
}

#[test]
fn stream_shorter_than_the_slots_is_out_of_bounds() {
    let raw = RawArray { len: 3, ..two_ints() };
    assert!(matches!(
        Array::<i32>::deconstruct_from(raw, int4()),
        Err(ArrayError::OutOfBounds)
    ));
    let cut = RawArray { data: vec![1, 0, 0, 0, 2, 0, 0], ..two_ints() };
    assert!(matches!(
        Array::<i32>::deconstruct_from(cut, int4()),
        Err(ArrayError::OutOfBounds)
    ));
}

#[test]
fn bitmap_shorter_than_the_slots_is_out_of_bounds() {
    let raw = RawArray {
        oid: 23,
        len: 9,
        nulls: Some(vec![0]),
        data: vec![],
        order: ByteOrder::Little,
    };
    assert!(matches!(
        Array::<i32>::deconstruct_from(raw, int4()),
        Err(ArrayError::OutOfBounds)
    ));
}

#[test]
fn bytes_behind_the_last_element_are_left_alone() {
    let raw = RawArray { len: 1, ..two_ints() };
    let array = Array::<i32>::deconstruct_from(raw, int4()).unwrap();
    assert_eq!(drain(&array), vec![Some(1)]);
    assert_eq!(array.cursor(1), Some(4));
}

#[test]
fn big_endian_buffer() {
    let raw = RawArray {
        oid: 23,
        len: 2,
        nulls: None,
        data: vec![0, 0, 0, 1, 0xff, 0xff, 0xff, 0xfe],
        order: ByteOrder::Big,
    };
    let array = Array::<i32>::deconstruct_from(raw, int4()).unwrap();
    assert_eq!(drain(&array), vec![Some(1), Some(-2)]);
}

#[test]
fn other_widths_by_value() {
    let int2 = Layout::new(Align::Short, Size::Fixed(2), PassBy::Value).unwrap();
    let raw = RawArray {
        oid: 21,
        len: 3,
        nulls: None,
        data: vec![1, 0, 0xff, 0xff, 0, 0x80],
        order: ByteOrder::Little,
    };
    let array = Array::<i16>::deconstruct_from(raw, int2).unwrap();
    assert_eq!(array.iter().collect(), vec![Some(1), Some(-1), Some(i16::MIN)]);
    let int8 = Layout::new(Align::Double, Size::Fixed(8), PassBy::Value).unwrap();
    let raw = RawArray {
        oid: 20,
        len: 1,
        nulls: None,
        data: vec![0xfe, 0xff, 0xff, 0xff, 0xff, 0xff, 0xff, 0xff],
        order: ByteOrder::Little,
    };
    let array = Array::<i64>::deconstruct_from(raw, int8).unwrap();
    assert_eq!(array.get(0), Some(Some(-2)));
    let byte = Layout::new(Align::Byte, Size::Fixed(1), PassBy::Value).unwrap();
    let raw = RawArray {
        oid: 16,
        len: 3,
        nulls: None,
        data: vec![1, 0, 2],
        order: ByteOrder::Little,
    };
    let array = Array::<bool>::deconstruct_from(raw, byte).unwrap();
    assert_eq!(array.iter().collect(), vec![Some(true), Some(false), Some(true)]);
}

#[test]
fn datum_by_value_is_the_zero_extended_word() {
    let raw = RawArray { data: vec![0xff, 0xff, 0xff, 0xff, 2, 0, 0, 0], ..two_ints() };
    let array = Array::<i32>::deconstruct_from(raw, int4()).unwrap();
    match array.get_datum(0) {
        Some(Some(Datum::Value(word))) => assert_eq!(word, 0xffff_ffff),
        _ => panic!("no word"),
    }
    assert_eq!(array.get(0), Some(Some(-1)));
}

#[test]
fn datum_by_reference_is_the_element_without_padding() {
    let layout = Layout::new(Align::Int, Size::Varlena, PassBy::Ref).unwrap();
    let raw = RawArray {
        oid: 25,
        len: 3,
        nulls: Some(vec![0b0000_0101]),
        data: vec![0x07, b'a', b'b', 0, 24, 0, 0, 0, b'x', b'y', 0, 0],
        order: ByteOrder::Little,
    };
    let array = Array::<i32>::deconstruct_from(raw, layout).unwrap();
    match array.get_datum(0) {
        Some(Some(Datum::Reference(bytes))) => assert_eq!(bytes, &[0x07, b'a', b'b']),
        _ => panic!("no bytes"),
    }
    assert!(matches!(array.get_datum(1), Some(None)));
    match array.get_datum(2) {
        Some(Some(Datum::Reference(bytes))) => assert_eq!(bytes, &[24, 0, 0, 0, b'x', b'y']),
        _ => panic!("no bytes"),
    }
    assert_eq!(array.cursor(1), Some(4));
    assert_eq!(array.cursor(2), Some(4));
    assert_eq!(array.cursor(3), Some(12));
    // the integer type reads nothing from referenced bytes
    assert_eq!(array.get(0), Some(None));
}

#[test]
fn zero_terminated_elements() {
    let layout = Layout::new(Align::Byte, Size::CStr, PassBy::Ref).unwrap();
    let raw = RawArray {
        oid: 2275,
        len: 2,
        nulls: None,
        data: b"ab\0\0cde\0\0".to_vec(),
        order: ByteOrder::Little,
    };
    let array = Array::<i32>::deconstruct_from(raw, layout).unwrap();
    match array.get_datum(0) {
        Some(Some(Datum::Reference(bytes))) => assert_eq!(bytes, b"ab\0"),
        _ => panic!("no bytes"),
    }
    match array.get_datum(1) {
        Some(Some(Datum::Reference(bytes))) => assert_eq!(bytes, b"cde\0"),
        _ => panic!("no bytes"),
    }
    assert_eq!(array.cursor(1), Some(4));
    assert_eq!(array.cursor(2), Some(9));
    let short = RawArray {
        oid: 2275,
        len: 2,
        nulls: None,
        data: b"ab\0\0cde\0".to_vec(),
        order: ByteOrder::Little,
    };
    assert!(matches!(
        Array::<i32>::deconstruct_from(short, layout),
        Err(ArrayError::OutOfBounds)
    ));
}

#[test]
fn fixed_width_by_reference() {
    let layout = Layout::new(Align::Int, Size::Fixed(12), PassBy::Ref).unwrap();
    let raw = RawArray {
        oid: 600,
        len: 2,
        nulls: None,
        data: (0u8..24).collect(),
        order: ByteOrder::Little,
    };
    let array = Array::<i32>::deconstruct_from(raw, layout).unwrap();
    match array.get_datum(1) {
        Some(Some(Datum::Reference(bytes))) => {
            assert_eq!(bytes, (12u8..24).collect::<Vec<u8>>().as_slice())
        }
        _ => panic!("no bytes"),
    }
}

#[test]
fn into_array_type_hands_the_buffer_back() {
    let array = Array::<i32>::deconstruct_from(ints_with_a_null_in_the_middle(), int4()).unwrap();
    assert_eq!(array.raw(), &ints_with_a_null_in_the_middle());
    assert_eq!(array.layout(), int4());
    assert_eq!(array.into_array_type(), ints_with_a_null_in_the_middle());
}

#[test]
fn owning_iterator() {
    let array = Array::<i32>::deconstruct_from(ints_with_a_null_in_the_middle(), int4()).unwrap();
    let mut it = array.into_iter();
    assert_eq!(it.size_hint(), (0, Some(3)));
    assert_eq!(it.next(), Some(Some(1)));
    assert_eq!(it.size_hint(), (0, Some(2)));
    assert_eq!(it.next(), Some(None));
    assert_eq!(it.next(), Some(Some(2)));
    assert_eq!(it.size_hint(), (0, Some(0)));
    assert_eq!(it.next(), None);
    assert_eq!(it.count(), 0);
}

#[test]
fn owning_iterator_without_bitmap_knows_its_size() {
    let array = Array::<i32>::deconstruct_from(two_ints(), int4()).unwrap();
    let mut it = array.into_iter();
    assert_eq!(it.size_hint(), (2, Some(2)));
    assert_eq!(it.next(), Some(Some(1)));
    assert_eq!(it.size_hint(), (1, Some(1)));
    assert_eq!(it.count(), 1);
}

#[test]
fn registry_resolves_the_element_type() {
    let mut registry = LayoutRegistry::new();
    assert_eq!(registry.resolve(23), Err(ArrayError::UnknownType));
    registry.register(23, int4());
    registry.register(21, Layout::new(Align::Short, Size::Fixed(2), PassBy::Value).unwrap());
    assert_eq!(registry.resolve(23), Ok(int4()));
    assert_eq!(registry.resolve(25), Err(ArrayError::UnknownType));
    let array = Array::<i32>::from_handle(two_ints(), &registry).unwrap();
    assert_eq!(array.get(1), Some(Some(2)));
    let unknown = RawArray { oid: 25, ..two_ints() };
    assert!(matches!(
        Array::<i32>::from_handle(unknown, &registry),
        Err(ArrayError::UnknownType)
    ));
    let short = RawArray { len: 3, ..two_ints() };
    assert!(matches!(
        Array::<i32>::from_handle(short, &registry),
        Err(ArrayError::OutOfBounds)
    ));
    // a later layout replaces an earlier one
    registry.register(23, Layout::new(Align::Short, Size::Fixed(2), PassBy::Value).unwrap());
    let array = Array::<i32>::from_handle(two_ints(), &registry).unwrap();
    assert_eq!(array.get(1), Some(Some(0)));
}

#[test]
fn variadic_array_reads_as_its_array() {
    let array = Array::<i32>::deconstruct_from(ints_with_a_null_in_the_middle(), int4()).unwrap();
    let variadic = VariadicArray(array);
    assert_eq!(variadic.len(), 3);
    assert!(!variadic.is_empty());
    assert_eq!(variadic.get(0), Some(Some(1)));
    assert_eq!(variadic.get(1), Some(None));
    assert_eq!(variadic.get(3), None);
    assert_eq!(variadic.iter().collect(), vec![Some(1), None, Some(2)]);
    assert!(matches!(variadic.iter_deny_null(), Err(ArrayError::NullEncountered)));
    assert!(VariadicArray::<i32>::variadic());
    let mut it = variadic.into_iter();
    assert_eq!(it.next(), Some(Some(1)));
    assert_eq!(it.count(), 2);
    let plain = VariadicArray(Array::<i32>::deconstruct_from(two_ints(), int4()).unwrap());
    assert_eq!(plain.iter_deny_null().unwrap().collect(), vec![1, 2]);
    assert_eq!(plain.into_array_type(), two_ints());
}
