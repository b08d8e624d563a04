use crate::array::Array;
use crate::datum::FromDatum;
use crate::error::ArrayError;
use crate::iter::{ArrayIntoIterator, ArrayIterator, ArrayTypedIterator};
use crate::raw::RawArray;
use vstd::prelude::*;

verus! {

/// An array that stands for the trailing arguments of a call that takes any
/// number of them. It reads as the array it holds.
pub struct VariadicArray<T: FromDatum>(pub Array<T>);

impl<T: FromDatum> View for VariadicArray<T> {
    type V = Seq<Option<T>>;

    open spec fn view(&self) -> Seq<Option<T>> {
        self.0@
    }
}

impl<T: FromDatum> VariadicArray<T> {
    /// Gives up the view and hands the buffer back.
    pub fn into_array_type(self) -> (raw: RawArray)
        ensures
            raw@ == self.0.spec_raw(),
    {
        self.0.into_array_type()
    }

    /// An iterator over the elements from the first slot on.
    pub fn iter(&self) -> (it: ArrayIterator<'_, T>)
        ensures
            it.source() == &self.0,
            it.position() == 0,
            it.offset() == 0,
    {
        self.0.iter()
    }

    /// An iterator over the elements of an array without nulls. An array
    /// with a null is refused before anything is given out.
    pub fn iter_deny_null(&self) -> (r: Result<ArrayTypedIterator<'_, T>, ArrayError>)
        ensures
            match r {
                Ok(it) => it.source() == &self.0 && it.position() == 0 && forall|i: int|
                    0 <= i < self@.len() ==> !self.0.spec_null(i),
                Err(e) => e == ArrayError::NullEncountered && exists|i: int|
                    0 <= i < self@.len() && self.0.spec_null(i),
            },
    {
        self.0.iter_deny_null()
    }

    /// An iterator that owns the array, over the elements from the first slot on.
    pub fn into_iter(self) -> (it: ArrayIntoIterator<T>)
        ensures
            it.source() == self.0,
            it.position() == 0,
    {
        self.0.into_iter()
    }

    /// The number of slots, nulls included.
    pub fn len(&self) -> (n: usize)
        ensures
            n == self@.len(),
    {
        self.0.len()
    }

    /// Whether the array has no slots.
    pub fn is_empty(&self) -> (b: bool)
        ensures
            b == (self@.len() == 0),
    {
        self.0.is_empty()
    }

    /// The element of slot `i`: `None` past the last slot, `Some(None)` for
    /// a null.
    pub fn get(&self, i: usize) -> (r: Option<Option<T>>)
        ensures
            r == (if i < self@.len() {
                Some(self@[i as int])
            } else {
                None
            }),
    {
        self.0.get(i)
    }
}

} // verus!
