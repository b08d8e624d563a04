use vstd::prelude::*;

verus! {

/// A boxed scalar as the array format hands it over: a machine word, or a
/// reference to the bytes of the value.
#[derive(Clone, Copy, Debug)]
pub enum Datum<'a> {
    Value(u64),
    Reference(&'a [u8]),
}

/// What a `Datum` holds.
pub enum DatumValue {
    Value(u64),
    Reference(Seq<u8>),
}

impl<'a> View for Datum<'a> {
    type V = DatumValue;

    open spec fn view(&self) -> DatumValue {
        match *self {
            Datum::Value(word) => DatumValue::Value(word),
            Datum::Reference(bytes) => DatumValue::Reference(bytes@),
        }
    }
}

/// What an optional `Datum` holds.
pub open spec fn datum_view(datum: Option<Datum<'_>>) -> Option<DatumValue> {
    match datum {
        Some(d) => Some(d@),
        None => None,
    }
}

/// A type whose values can be read from a boxed scalar.
pub trait FromDatum: Sized {
    /// The value that a boxed scalar of the type `oid` stands for, if any.
    spec fn decoded(datum: DatumValue, oid: u32) -> Option<Self>;

    /// Reads a value from a boxed scalar; a null gives none.
    fn from_polymorphic_datum(datum: Datum<'_>, is_null: bool, oid: u32) -> (r: Option<Self>)
        ensures
            r == (if is_null {
                None
            } else {
                Self::decoded(datum@, oid)
            }),
    ;
}

/// A type whose values can be written as a boxed scalar.
pub trait IntoDatum {
    /// The boxed scalar that stands for the value; none for a null.
    spec fn encoded(&self) -> Option<DatumValue>;

    /// The identifier of the type in the host's catalog.
    spec fn spec_type_oid() -> u32;

    /// Writes the value as a boxed scalar; a null gives none.
    fn into_datum(&self) -> (r: Option<Datum<'_>>)
        ensures
            datum_view(r) == self.encoded(),
    ;

    /// The identifier of the type in the host's catalog.
    fn type_oid() -> (oid: u32)
        ensures
            oid == Self::spec_type_oid(),
    ;
}

/// The catalog identifiers of the scalar types below.
pub const BOOLOID: u32 = 16;

pub const CHAROID: u32 = 18;

pub const INT8OID: u32 = 20;

pub const INT2OID: u32 = 21;

pub const INT4OID: u32 = 23;

impl FromDatum for bool {
    open spec fn decoded(datum: DatumValue, oid: u32) -> Option<bool> {
        match datum {
            DatumValue::Value(word) => Some(word != 0),
            DatumValue::Reference(_) => None,
        }
    }

    fn from_polymorphic_datum(datum: Datum<'_>, is_null: bool, oid: u32) -> (r: Option<bool>) {
        if is_null {
            None
        } else {
            match datum {
                Datum::Value(word) => Some(word != 0),
                Datum::Reference(_) => None,
            }
        }
    }
}

impl IntoDatum for bool {
    open spec fn encoded(&self) -> Option<DatumValue> {
        Some(
            DatumValue::Value(
                if *self {
                    1
                } else {
                    0
                },
            ),
        )
    }

    open spec fn spec_type_oid() -> u32 {
        BOOLOID
    }

    fn into_datum(&self) -> (r: Option<Datum<'_>>) {
        Some(
            Datum::Value(
                if *self {
                    1
                } else {
                    0
                },
            ),
        )
    }

    fn type_oid() -> (oid: u32) {
        BOOLOID
    }
}

impl FromDatum for i8 {
    open spec fn decoded(datum: DatumValue, oid: u32) -> Option<i8> {
        match datum {
            DatumValue::Value(word) => Some(word as i8),
            DatumValue::Reference(_) => None,
        }
    }

    fn from_polymorphic_datum(datum: Datum<'_>, is_null: bool, oid: u32) -> (r: Option<i8>) {
        if is_null {
            None
        } else {
            match datum {
                Datum::Value(word) => Some(#[verifier::truncate] (word as i8)),
                Datum::Reference(_) => None,
            }
        }
    }
}

impl IntoDatum for i8 {
    open spec fn encoded(&self) -> Option<DatumValue> {
        Some(DatumValue::Value(*self as u8 as u64))
    }

    open spec fn spec_type_oid() -> u32 {
        CHAROID
    }

    fn into_datum(&self) -> (r: Option<Datum<'_>>) {
        Some(Datum::Value(#[verifier::truncate] (*self as u8) as u64))
    }

    fn type_oid() -> (oid: u32) {
        CHAROID
    }
}

impl FromDatum for i16 {
    open spec fn decoded(datum: DatumValue, oid: u32) -> Option<i16> {
        match datum {
            DatumValue::Value(word) => Some(word as i16),
            DatumValue::Reference(_) => None,
        }
    }

    fn from_polymorphic_datum(datum: Datum<'_>, is_null: bool, oid: u32) -> (r: Option<i16>) {
        if is_null {
            None
        } else {
            match datum {
                Datum::Value(word) => Some(#[verifier::truncate] (word as i16)),
                Datum::Reference(_) => None,
            }
        }
    }
}

impl IntoDatum for i16 {
    open spec fn encoded(&self) -> Option<DatumValue> {
        Some(DatumValue::Value(*self as u16 as u64))
    }

    open spec fn spec_type_oid() -> u32 {
        INT2OID
    }

    fn into_datum(&self) -> (r: Option<Datum<'_>>) {
        Some(Datum::Value(#[verifier::truncate] (*self as u16) as u64))
    }

    fn type_oid() -> (oid: u32) {
        INT2OID
    }
}

impl FromDatum for i32 {
    open spec fn decoded(datum: DatumValue, oid: u32) -> Option<i32> {
        match datum {
            DatumValue::Value(word) => Some(word as i32),
            DatumValue::Reference(_) => None,
        }
    }

    fn from_polymorphic_datum(datum: Datum<'_>, is_null: bool, oid: u32) -> (r: Option<i32>) {
        if is_null {
            None
        } else {
            match datum {
                Datum::Value(word) => Some(#[verifier::truncate] (word as i32)),
                Datum::Reference(_) => None,
            }
        }
    }
}

impl IntoDatum for i32 {
    open spec fn encoded(&self) -> Option<DatumValue> {
        Some(DatumValue::Value(*self as u32 as u64))
    }

    open spec fn spec_type_oid() -> u32 {
        INT4OID
    }

    fn into_datum(&self) -> (r: Option<Datum<'_>>) {
        Some(Datum::Value(#[verifier::truncate] (*self as u32) as u64))
    }

    fn type_oid() -> (oid: u32) {
        INT4OID
    }
}

impl FromDatum for i64 {
    open spec fn decoded(datum: DatumValue, oid: u32) -> Option<i64> {
        match datum {
            DatumValue::Value(word) => Some(word as i64),
            DatumValue::Reference(_) => None,
        }
    }

    fn from_polymorphic_datum(datum: Datum<'_>, is_null: bool, oid: u32) -> (r: Option<i64>) {
        if is_null {
            None
        } else {
            match datum {
                Datum::Value(word) => Some(#[verifier::truncate] (word as i64)),
                Datum::Reference(_) => None,
            }
        }
    }
}

impl IntoDatum for i64 {
    open spec fn encoded(&self) -> Option<DatumValue> {
        Some(DatumValue::Value(*self as u64))
    }

    open spec fn spec_type_oid() -> u32 {
        INT8OID
    }

    fn into_datum(&self) -> (r: Option<Datum<'_>>) {
        Some(Datum::Value(#[verifier::truncate] (*self as u64)))
    }

    fn type_oid() -> (oid: u32) {
        INT8OID
    }
}

impl<T: IntoDatum> IntoDatum for Option<T> {
    open spec fn encoded(&self) -> Option<DatumValue> {
        match self {
            Some(value) => value.encoded(),
            None => None,
        }
    }

    open spec fn spec_type_oid() -> u32 {
        T::spec_type_oid()
    }

    fn into_datum(&self) -> (r: Option<Datum<'_>>) {
        match self {
            Some(value) => value.into_datum(),
            None => None,
        }
    }

    fn type_oid() -> (oid: u32) {
        T::type_oid()
    }
}

} // verus!
