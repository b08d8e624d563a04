use pgrx_array::nulls::{Bitmap, NullKind};

#[test]
fn bitmap_reads_bits_from_the_least_significant() {
    let bytes = [0b0000_0101u8, 0b0000_0010u8];
    let bitmap = Bitmap::new(&bytes, 10).unwrap();
    assert_eq!(bitmap.len(), 10);
    assert_eq!(bitmap.get(0), Some(true));
    assert_eq!(bitmap.get(1), Some(false));
    assert_eq!(bitmap.get(2), Some(true));
    assert_eq!(bitmap.get(3), Some(false));
    assert_eq!(bitmap.get(7), Some(false));
    assert_eq!(bitmap.get(8), Some(false));
    assert_eq!(bitmap.get(9), Some(true));
    assert_eq!(bitmap.get(10), None);
    assert_eq!(bitmap.get(15), None);
    assert_eq!(bitmap.get(16), None);
}

#[test]
fn bitmap_needs_a_bit_for_every_slot() {
    let bytes = [0xffu8];
    assert!(Bitmap::new(&bytes, 8).is_some());
    assert!(Bitmap::new(&bytes, 9).is_none());
    assert!(Bitmap::new(&[], 0).is_some());
    assert!(Bitmap::new(&[], 1).is_none());
}

#[test]
fn bitmap_all_looks_at_the_slots_only() {
    let bytes = [0b0000_0111u8];
    assert!(Bitmap::new(&bytes, 3).unwrap().all());
    assert!(!Bitmap::new(&bytes, 4).unwrap().all());
    assert!(Bitmap::new(&bytes, 0).unwrap().all());
    let two = [0xffu8, 0x01u8];
    assert!(Bitmap::new(&two, 9).unwrap().all());
    assert!(!Bitmap::new(&two, 10).unwrap().all());
}

#[test]
fn null_kind_bits_flips_presence() {
    let bytes = [0b0000_0101u8];
    let nulls = NullKind::Bits(Bitmap::new(&bytes, 3).unwrap());
    assert_eq!(nulls.len(), 3);
    assert_eq!(nulls.get(0), Some(false));
    assert_eq!(nulls.get(1), Some(true));
    assert_eq!(nulls.get(2), Some(false));
    assert_eq!(nulls.get(3), None);
    assert!(nulls.any());
}

#[test]
fn null_kind_bits_without_a_null() {
    let bytes = [0b0000_0111u8];
    let nulls = NullKind::Bits(Bitmap::new(&bytes, 3).unwrap());
    assert!(!nulls.any());
    assert_eq!(nulls.get(1), Some(false));
}

#[test]
fn null_kind_strict_has_no_null() {
    let nulls = NullKind::Strict(2);
    assert_eq!(nulls.len(), 2);
    assert_eq!(nulls.get(0), Some(false));
    assert_eq!(nulls.get(1), Some(false));
    assert_eq!(nulls.get(2), None);
    assert!(!nulls.any());
    assert!(!NullKind::Strict(0).any());
    assert_eq!(NullKind::Strict(0).get(0), None);
}

#[test]
fn bitmap_agrees_with_the_bit_slice() {
    let bytes = [0x00u8, 0xff, 0xa5, 0x5a, 0x01, 0x80];
    let bits = bitvec::slice::BitSlice::<u8, bitvec::order::Lsb0>::from_slice(&bytes);
    for len in 0..=48usize {
        let bitmap = Bitmap::new(&bytes, len).unwrap();
        for i in 0..50usize {
            let by_hand = (bytes[(i / 8).min(5)] >> (i % 8)) & 1 == 1;
            let expected = if i < len { Some(by_hand) } else { None };
            assert_eq!(bitmap.get(i), expected);
            if i < len {
                assert_eq!(bitmap.get(i), Some(bits[i]));
            }
        }
        assert_eq!(bitmap.all(), bits[..len].all());
        assert_eq!(bitmap.all(), (0..len).all(|i| (bytes[i / 8] >> (i % 8)) & 1 == 1));
        let nulls = NullKind::Bits(bitmap);
        assert_eq!(nulls.any(), (0..len).any(|i| (bytes[i / 8] >> (i % 8)) & 1 == 0));
    }
    assert!(Bitmap::new(&bytes, 49).is_none());
}
