use pgrx_array::error::ArrayError;
use pgrx_array::layout::{Align, Layout, PassBy, Size};

#[test]
fn align_is_a_power_of_two() {
    assert_eq!(Align::Byte.as_usize(), 1);
    assert_eq!(Align::Short.as_usize(), 2);
    assert_eq!(Align::Int.as_usize(), 4);
    assert_eq!(Align::Double.as_usize(), 8);
}

#[test]
fn align_from_catalog_code() {
    assert_eq!(Align::from_typalign(b'c'), Ok(Align::Byte));
    assert_eq!(Align::from_typalign(b's'), Ok(Align::Short));
    assert_eq!(Align::from_typalign(b'i'), Ok(Align::Int));
    assert_eq!(Align::from_typalign(b'd'), Ok(Align::Double));
    assert_eq!(Align::from_typalign(b'x'), Err(ArrayError::MalformedLayout));
    assert_eq!(Align::from_typalign(0), Err(ArrayError::MalformedLayout));
}

#[test]
fn size_from_catalog_length() {
    assert_eq!(Size::from_typlen(-2), Ok(Size::CStr));
    assert_eq!(Size::from_typlen(-1), Ok(Size::Varlena));
    assert_eq!(Size::from_typlen(0), Ok(Size::Fixed(0)));
    assert_eq!(Size::from_typlen(4), Ok(Size::Fixed(4)));
    assert_eq!(Size::from_typlen(i16::MAX), Ok(Size::Fixed(32767)));
    assert_eq!(Size::from_typlen(-3), Err(ArrayError::MalformedLayout));
    assert_eq!(Size::from_typlen(i16::MIN), Err(ArrayError::MalformedLayout));
}

#[test]
fn fixed_width_must_be_a_multiple_of_the_alignment() {
    assert_eq!(
        Layout::new(Align::Int, Size::Fixed(6), PassBy::Ref),
        Err(ArrayError::MalformedLayout)
    );
    assert_eq!(
        Layout::new(Align::Double, Size::Fixed(4), PassBy::Value),
        Err(ArrayError::MalformedLayout)
    );
    assert_eq!(
        Layout::new(Align::Short, Size::Fixed(3), PassBy::Value),
        Err(ArrayError::MalformedLayout)
    );
    let layout = Layout::new(Align::Int, Size::Fixed(4), PassBy::Value).unwrap();
    assert_eq!(layout.align(), Align::Int);
    assert_eq!(layout.size(), Size::Fixed(4));
    assert_eq!(layout.pass(), PassBy::Value);
    assert!(Layout::new(Align::Int, Size::Fixed(12), PassBy::Ref).is_ok());
    assert!(Layout::new(Align::Byte, Size::Fixed(0), PassBy::Ref).is_ok());
}

#[test]
fn only_small_fixed_widths_are_passed_by_value() {
    assert_eq!(
        Layout::new(Align::Int, Size::Varlena, PassBy::Value),
        Err(ArrayError::MalformedLayout)
    );
    assert_eq!(
        Layout::new(Align::Byte, Size::CStr, PassBy::Value),
        Err(ArrayError::MalformedLayout)
    );
    assert_eq!(
        Layout::new(Align::Byte, Size::Fixed(0), PassBy::Value),
        Err(ArrayError::MalformedLayout)
    );
    assert_eq!(
        Layout::new(Align::Byte, Size::Fixed(9), PassBy::Value),
        Err(ArrayError::MalformedLayout)
    );
    assert_eq!(
        Layout::new(Align::Double, Size::Fixed(16), PassBy::Value),
        Err(ArrayError::MalformedLayout)
    );
    assert!(Layout::new(Align::Byte, Size::Fixed(1), PassBy::Value).is_ok());
    assert!(Layout::new(Align::Double, Size::Fixed(8), PassBy::Value).is_ok());
    assert!(Layout::new(Align::Int, Size::Varlena, PassBy::Ref).is_ok());
    assert!(Layout::new(Align::Byte, Size::CStr, PassBy::Ref).is_ok());
}

#[test]
fn layout_from_catalog_columns() {
    let int4 = Layout::from_catalog(4, true, b'i').unwrap();
    assert_eq!(int4.size(), Size::Fixed(4));
    assert_eq!(int4.align(), Align::Int);
    assert_eq!(int4.pass(), PassBy::Value);
    let text = Layout::from_catalog(-1, false, b'i').unwrap();
    assert_eq!(text.size(), Size::Varlena);
    assert_eq!(text.pass(), PassBy::Ref);
    let cstring = Layout::from_catalog(-2, false, b'c').unwrap();
    assert_eq!(cstring.size(), Size::CStr);
    assert_eq!(cstring.align(), Align::Byte);
    assert_eq!(Layout::from_catalog(4, true, b'?'), Err(ArrayError::MalformedLayout));
    assert_eq!(Layout::from_catalog(-7, false, b'i'), Err(ArrayError::MalformedLayout));
    assert_eq!(Layout::from_catalog(-1, true, b'i'), Err(ArrayError::MalformedLayout));
    assert_eq!(Layout::from_catalog(6, false, b'i'), Err(ArrayError::MalformedLayout));
}
