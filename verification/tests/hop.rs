use pgrx_array::error::ArrayError;
use pgrx_array::hop::{extent, one_hop_this_time, strlen, varsize_any};
use pgrx_array::layout::{Align, Layout, PassBy, Size};
use pgrx_array::word::{bytes_to_datum, push_word, ByteOrder};

#[test]
fn word_in_little_endian() {
    assert_eq!(bytes_to_datum(&[0x01, 0x02], ByteOrder::Little), 0x0201);
    assert_eq!(bytes_to_datum(&[0x01, 0, 0, 0], ByteOrder::Little), 1);
    assert_eq!(bytes_to_datum(&[0xff], ByteOrder::Little), 255);
    assert_eq!(bytes_to_datum(&[], ByteOrder::Little), 0);
    assert_eq!(
        bytes_to_datum(&[1, 2, 3, 4, 5, 6, 7, 8], ByteOrder::Little),
        0x0807_0605_0403_0201
    );
    assert_eq!(bytes_to_datum(&[0xff; 8], ByteOrder::Little), u64::MAX);
}

#[test]
fn word_in_big_endian() {
    assert_eq!(bytes_to_datum(&[0x01, 0x02], ByteOrder::Big), 0x0102);
    assert_eq!(bytes_to_datum(&[0, 0, 0, 0x01], ByteOrder::Big), 1);
    assert_eq!(
        bytes_to_datum(&[1, 2, 3, 4, 5, 6, 7, 8], ByteOrder::Big),
        0x0102_0304_0506_0708
    );
    assert_eq!(bytes_to_datum(&[0xff; 8], ByteOrder::Big), u64::MAX);
}

#[test]
fn push_word_writes_the_low_bytes() {
    let mut data = vec![9u8];
    push_word(&mut data, 0x0102_0304, 4, ByteOrder::Little);
    assert_eq!(data, vec![9, 4, 3, 2, 1]);
    push_word(&mut data, 0x0102_0304, 4, ByteOrder::Big);
    assert_eq!(data, vec![9, 4, 3, 2, 1, 1, 2, 3, 4]);
    push_word(&mut data, 0x0102_0304, 2, ByteOrder::Big);
    assert_eq!(data, vec![9, 4, 3, 2, 1, 1, 2, 3, 4, 3, 4]);
    push_word(&mut data, 7, 0, ByteOrder::Little);
    assert_eq!(data.len(), 11);
    let mut wide = Vec::new();
    push_word(&mut wide, u64::MAX - 1, 8, ByteOrder::Little);
    assert_eq!(wide, vec![0xfe, 0xff, 0xff, 0xff, 0xff, 0xff, 0xff, 0xff]);
}

#[test]
fn push_word_then_read_gives_the_word() {
    for order in [ByteOrder::Little, ByteOrder::Big] {
        let mut data = Vec::new();
        push_word(&mut data, 0x00ab_cdef, 3, order);
        assert_eq!(bytes_to_datum(&data, order), 0x00ab_cdef);
    }
}

#[test]
fn varsize_of_a_compact_header() {
    // seven bits of length beside the flag bit
    assert_eq!(varsize_any(&[0x07, b'a', b'b'], 0, ByteOrder::Little), Some(3));
    assert_eq!(varsize_any(&[0xff], 0, ByteOrder::Little), Some(127));
    assert_eq!(varsize_any(&[0x83, b'a', b'b'], 0, ByteOrder::Big), Some(3));
    assert_eq!(varsize_any(&[0xff], 0, ByteOrder::Big), Some(127));
    assert_eq!(varsize_any(&[0, 0x03], 1, ByteOrder::Little), Some(1));
}

#[test]
fn varsize_of_a_full_header() {
    assert_eq!(varsize_any(&[24, 0, 0, 0, b'x', b'y'], 0, ByteOrder::Little), Some(6));
    assert_eq!(varsize_any(&[0, 0, 0, 6, b'x', b'y'], 0, ByteOrder::Big), Some(6));
    assert_eq!(varsize_any(&[0, 4, 0, 0], 0, ByteOrder::Little), Some(256));
    assert_eq!(varsize_any(&[0x40, 0, 1, 0], 0, ByteOrder::Big), Some(256));
    assert_eq!(varsize_any(&[9, 9, 24, 0, 0, 0], 2, ByteOrder::Little), Some(6));
}

#[test]
fn varsize_refuses_what_is_no_header() {
    assert_eq!(varsize_any(&[], 0, ByteOrder::Little), None);
    assert_eq!(varsize_any(&[7], 1, ByteOrder::Little), None);
    // a compact header that states no length
    assert_eq!(varsize_any(&[0x01], 0, ByteOrder::Little), None);
    assert_eq!(varsize_any(&[0x80], 0, ByteOrder::Big), None);
    // a full header cut short
    assert_eq!(varsize_any(&[24, 0, 0], 0, ByteOrder::Little), None);
    // a full header that states less than its own four bytes
    assert_eq!(varsize_any(&[12, 0, 0, 0], 0, ByteOrder::Little), None);
    assert_eq!(varsize_any(&[0, 0, 0, 3], 0, ByteOrder::Big), None);
}

#[test]
fn strlen_stops_at_the_first_zero() {
    assert_eq!(strlen(b"ab\0cd\0", 0), Some(2));
    assert_eq!(strlen(b"ab\0cd\0", 2), Some(0));
    assert_eq!(strlen(b"ab\0cd\0", 3), Some(2));
    assert_eq!(strlen(b"ab", 0), None);
    assert_eq!(strlen(b"ab\0", 3), None);
    assert_eq!(strlen(b"ab\0", 9), None);
    assert_eq!(strlen(b"", 0), None);
}

#[test]
fn hop_over_fixed_width() {
    let layout = Layout::new(Align::Int, Size::Fixed(4), PassBy::Value).unwrap();
    let data = [1u8, 0, 0, 0, 2, 0, 0, 0];
    assert_eq!(one_hop_this_time(&data, 0, layout, ByteOrder::Little), Ok(4));
    assert_eq!(one_hop_this_time(&data, 4, layout, ByteOrder::Little), Ok(8));
    assert_eq!(
        one_hop_this_time(&data, 8, layout, ByteOrder::Little),
        Err(ArrayError::OutOfBounds)
    );
    assert_eq!(
        one_hop_this_time(&data, 5, layout, ByteOrder::Little),
        Err(ArrayError::OutOfBounds)
    );
    assert_eq!(
        one_hop_this_time(&data, usize::MAX, layout, ByteOrder::Little),
        Err(ArrayError::OutOfBounds)
    );
}

#[test]
fn hop_over_varlena_pads_to_the_alignment() {
    let layout = Layout::new(Align::Int, Size::Varlena, PassBy::Ref).unwrap();
    // total length 3, padded to 4; then total length 6, padded to 8
    let data = [0x07u8, b'a', b'b', 0, 24, 0, 0, 0, b'x', b'y', 0, 0];
    assert_eq!(one_hop_this_time(&data, 0, layout, ByteOrder::Little), Ok(4));
    assert_eq!(one_hop_this_time(&data, 4, layout, ByteOrder::Little), Ok(12));
    assert_eq!(extent(&data, 0, layout, ByteOrder::Little), Some(3));
    assert_eq!(extent(&data, 4, layout, ByteOrder::Little), Some(6));
    // the padding must be there
    assert_eq!(
        one_hop_this_time(&data[..11], 4, layout, ByteOrder::Little),
        Err(ArrayError::OutOfBounds)
    );
    let bytewise = Layout::new(Align::Byte, Size::Varlena, PassBy::Ref).unwrap();
    assert_eq!(one_hop_this_time(&data, 0, bytewise, ByteOrder::Little), Ok(3));
    let double = Layout::new(Align::Double, Size::Varlena, PassBy::Ref).unwrap();
    assert_eq!(one_hop_this_time(&data, 0, double, ByteOrder::Little), Ok(8));
    // a length that is a multiple of the alignment already gets no padding
    let exact = [0x09u8, b'a', b'b', b'c'];
    assert_eq!(one_hop_this_time(&exact, 0, layout, ByteOrder::Little), Ok(4));
}

#[test]
fn hop_over_a_zero_terminated_element() {
    let layout = Layout::new(Align::Byte, Size::CStr, PassBy::Ref).unwrap();
    let data = *b"ab\0\0cde\0\0";
    assert_eq!(one_hop_this_time(&data, 0, layout, ByteOrder::Little), Ok(4));
    assert_eq!(one_hop_this_time(&data, 4, layout, ByteOrder::Little), Ok(9));
    assert_eq!(extent(&data, 0, layout, ByteOrder::Little), Some(3));
    assert_eq!(extent(&data, 4, layout, ByteOrder::Little), Some(4));
    // the byte behind the terminator must be inside the buffer
    assert_eq!(
        one_hop_this_time(&data[..8], 4, layout, ByteOrder::Little),
        Err(ArrayError::OutOfBounds)
    );
    // no terminator at all
    assert_eq!(
        one_hop_this_time(b"abc", 0, layout, ByteOrder::Little),
        Err(ArrayError::OutOfBounds)
    );
    assert_eq!(extent(b"abc", 0, layout, ByteOrder::Little), None);
}
