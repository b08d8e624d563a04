use crate::array::{null_slice, Array};
use crate::datum::FromDatum;
use crate::error::ArrayError;
use crate::hop::one_hop_this_time;
use crate::nulls::NullKind;
use crate::raw::{cursor_at, lemma_slot_readable};
use vstd::pervasive::unreached;
use vstd::prelude::*;

verus! {

/// A place in the walk over an array: the slot that comes next, and the
/// offset in the element stream at which it is read.
#[derive(Clone, Copy, Debug, PartialEq, Eq, Structural)]
pub struct Cursor {
    pub curr: usize,
    pub ptr: usize,
}

/// Whether the cursor is a place in the walk over the array.
pub open spec fn cursor_stands<T: FromDatum>(array: &Array<T>, cursor: Cursor) -> bool {
    &&& array.wf()
    &&& cursor.curr <= array@.len()
    &&& cursor_at(array.spec_raw(), array.spec_layout(), cursor.curr as nat) == Some(
        cursor.ptr as int,
    )
}

/// Reads the slot under the cursor and says where the cursor stands next;
/// `None` where the cursor is past the last slot. A null is given out
/// without moving in the element stream.
pub(crate) fn advance<T: FromDatum>(array: &Array<T>, cursor: Cursor) -> (r: Option<(Option<T>, Cursor)>)
    requires
        cursor_stands(array, cursor),
    ensures
        cursor.curr < array@.len() ==> (r matches Some((element, next)) && element
            == array@[cursor.curr as int] && cursor_stands(array, next) && next.curr == cursor.curr
            + 1 && (array.spec_null(cursor.curr as int) ==> next.ptr == cursor.ptr)),
        cursor.curr >= array@.len() ==> r is None,
{
    let raw = array.raw();
    let is_null = match null_slice(raw).get(cursor.curr) {
        Some(is_null) => is_null,
        None => return None,
    };
    let element = array.bring_it_back_now(cursor.ptr, cursor.curr, is_null);
    let ptr = if is_null {
        cursor.ptr
    } else {
        proof {
            lemma_slot_readable(array.spec_raw(), array.spec_layout(), cursor.curr as nat);
        }
        match one_hop_this_time(raw.data.as_slice(), cursor.ptr, array.layout(), raw.order) {
            Ok(next) => next,
            Err(_) => unreached(),
        }
    };
    Some((element, Cursor { curr: cursor.curr + 1, ptr }))
}

/// Goes over the slots of a borrowed array and gives out each element, a
/// null as `None`.
pub struct ArrayIterator<'a, T: FromDatum> {
    array: &'a Array<T>,
    cursor: Cursor,
}

/// Goes over the slots of a borrowed array that has no null and gives out
/// each element.
pub struct ArrayTypedIterator<'a, T: FromDatum> {
    array: &'a Array<T>,
    cursor: Cursor,
}

/// Goes over the slots of an array that it owns and gives out each element,
/// a null as `None`.
pub struct ArrayIntoIterator<T: FromDatum> {
    array: Array<T>,
    cursor: Cursor,
}

impl<T: FromDatum> Array<T> {
    /// An iterator over the elements from the first slot on.
    pub fn iter(&self) -> (it: ArrayIterator<'_, T>)
        ensures
            it.source() == self,
            it.position() == 0,
            it.offset() == 0,
    {
        proof {
            use_type_invariant(self);
        }
        ArrayIterator { array: self, cursor: Cursor { curr: 0, ptr: 0 } }
    }

    /// An iterator over the elements of an array without nulls. An array
    /// with a null is refused before anything is given out.
    pub fn iter_deny_null(&self) -> (r: Result<ArrayTypedIterator<'_, T>, ArrayError>)
        ensures
            match r {
                Ok(it) => it.source() == self && it.position() == 0 && forall|i: int|
                    0 <= i < self@.len() ==> !self.spec_null(i),
                Err(e) => e == ArrayError::NullEncountered && exists|i: int|
                    0 <= i < self@.len() && self.spec_null(i),
            },
    {
        proof {
            use_type_invariant(self);
        }
        if self.has_any_null() {
            return Err(ArrayError::NullEncountered);
        }
        Ok(ArrayTypedIterator { array: self, cursor: Cursor { curr: 0, ptr: 0 } })
    }

    /// An iterator that owns the array, over the elements from the first slot on.
    pub fn into_iter(self) -> (it: ArrayIntoIterator<T>)
        ensures
            it.source() == self,
            it.position() == 0,
    {
        proof {
            use_type_invariant(&self);
        }
        ArrayIntoIterator { array: self, cursor: Cursor { curr: 0, ptr: 0 } }
    }

    /// All elements, a null as `None`: what `iter` gives out when it is
    /// drained, which is one item for each slot.
    pub fn to_vec(&self) -> (v: Vec<Option<T>>)
        ensures
            v@ == self@,
            v@.len() == self@.len(),
    {
        let v = self.iter().collect();
        assert(self@.subrange(0, self@.len() as int) =~= self@);
        v
    }

    /// All elements of an array without nulls, up to the first slot from
    /// which the element type reads nothing. An array with a null is refused.
    pub fn to_vec_deny_null(&self) -> (r: Result<Vec<T>, ArrayError>)
        ensures
            match r {
                Ok(v) => no_nulls(self) && v@.len() == run_of_values(self@, 0) && forall|j: int|
                    0 <= j < v@.len() ==> self@[j] == Some(v@[j]),
                Err(e) => e == ArrayError::NullEncountered && !no_nulls(self),
            },
    {
        match self.iter_deny_null() {
            Ok(it) => Ok(it.collect()),
            Err(e) => Err(e),
        }
    }
}

impl<'a, T: FromDatum> ArrayIterator<'a, T> {
    #[verifier::type_invariant]
    pub closed spec fn inv(self) -> bool {
        cursor_stands(self.array, self.cursor)
    }

    /// The array that is gone over.
    pub closed spec fn source(&self) -> &Array<T> {
        self.array
    }

    /// The slot that comes next.
    pub closed spec fn position(&self) -> nat {
        self.cursor.curr as nat
    }

    /// The offset in the element stream at which the next slot is read.
    pub closed spec fn offset(&self) -> nat {
        self.cursor.ptr as nat
    }

    /// The element of the next slot, or `None` after the last one.
    pub fn next(&mut self) -> (r: Option<Option<T>>)
        ensures
            final(self).source() == old(self).source(),
            old(self).position() < old(self).source()@.len() ==> (r == Some(
                old(self).source()@[old(self).position() as int],
            ) && final(self).position() == old(self).position() + 1),
            old(self).position() >= old(self).source()@.len() ==> (r is None
                && final(self).position() == old(self).position()),
            old(self).source().spec_null(old(self).position() as int)
                ==> final(self).offset() == old(self).offset(),
    {
        proof {
            use_type_invariant(&*self);
        }
        match advance(self.array, self.cursor) {
            Some((element, next)) => {
                self.cursor = next;
                Some(element)
            },
            None => None,
        }
    }

    /// All elements that are left, in order.
    pub fn collect(self) -> (v: Vec<Option<T>>)
        ensures
            v@ == self.source()@.subrange(
                self.position() as int,
                self.source()@.len() as int,
            ),
    {
        proof {
            use_type_invariant(&self);
        }
        let mut it = self;
        let mut v: Vec<Option<T>> = Vec::new();
        loop
            invariant_except_break
                it.source() == self.source(),
                self.position() <= it.position() <= self.source()@.len(),
                v@ == self.source()@.subrange(self.position() as int, it.position() as int),
            ensures
                v@ == self.source()@.subrange(
                    self.position() as int,
                    self.source()@.len() as int,
                ),
            decreases self.source()@.len() - it.position(),
        {
            let ghost before = v@;
            let ghost pos = it.position();
            proof {
                use_type_invariant(&it);
            }
            match it.next() {
                Some(element) => {
                    v.push(element);
                    assert(v@ =~= self.source()@.subrange(
                        self.position() as int,
                        it.position() as int,
                    ));
                },
                None => {
                    break ;
                },
            }
        }
        v
    }
}

/// Whether no slot of the array is null.
pub open spec fn no_nulls<T: FromDatum>(array: &Array<T>) -> bool {
    forall|i: int| 0 <= i < array@.len() ==> !array.spec_null(i)
}

/// The number of slots from `from` on that come before the first one whose
/// element is `None`, or before the end.
pub open spec fn run_of_values<T>(elements: Seq<Option<T>>, from: int) -> nat
    decreases elements.len() - from,
{
    if 0 <= from < elements.len() && elements[from] is Some {
        1 + run_of_values(elements, from + 1)
    } else {
        0
    }
}

impl<'a, T: FromDatum> ArrayTypedIterator<'a, T> {
    #[verifier::type_invariant]
    pub closed spec fn inv(self) -> bool {
        cursor_stands(self.array, self.cursor) && no_nulls(self.array)
    }

    /// The array that is gone over.
    pub closed spec fn source(&self) -> &Array<T> {
        self.array
    }

    /// The slot that comes next.
    pub closed spec fn position(&self) -> nat {
        self.cursor.curr as nat
    }

    /// The element of the next slot. `None` after the last slot, and also
    /// where the element type reads nothing from the slot: `position` tells
    /// the two apart.
    pub fn next(&mut self) -> (r: Option<T>)
        ensures
            final(self).source() == old(self).source(),
            old(self).position() < old(self).source()@.len() ==> (r == old(self).source()@[old(
                self,
            ).position() as int] && final(self).position() == old(self).position() + 1),
            old(self).position() >= old(self).source()@.len() ==> (r is None
                && final(self).position() == old(self).position()),
    {
        proof {
            use_type_invariant(&*self);
        }
        match advance(self.array, self.cursor) {
            Some((element, next)) => {
                self.cursor = next;
                element
            },
            None => None,
        }
    }

    /// The elements that are left, in order, up to the first slot from which
    /// the element type reads nothing.
    pub fn collect(self) -> (v: Vec<T>)
        ensures
            v@.len() == run_of_values(self.source()@, self.position() as int),
            forall|j: int|
                self.position() <= j < self.position() + v@.len() ==> self.source()@[j] == Some(
                    v@[j - self.position()],
                ),
    {
        proof {
            use_type_invariant(&self);
        }
        let mut it = self;
        let mut v: Vec<T> = Vec::new();
        loop
            invariant_except_break
                it.source() == self.source(),
                self.position() <= it.position() <= self.source()@.len(),
                v@.len() == it.position() - self.position(),
                forall|j: int|
                    self.position() <= j < it.position() ==> self.source()@[j] == Some(
                        v@[j - self.position()],
                    ),
                run_of_values(self.source()@, self.position() as int) == v@.len() + run_of_values(
                    self.source()@,
                    it.position() as int,
                ),
            ensures
                v@.len() == run_of_values(self.source()@, self.position() as int),
                forall|j: int|
                    self.position() <= j < self.position() + v@.len() ==> self.source()@[j]
                        == Some(v@[j - self.position()]),
            decreases self.source()@.len() - it.position(),
        {
            let ghost pos = it.position();
            proof {
                use_type_invariant(&it);
                lemma_run_of_values_step(self.source()@, self.position() as int, pos as int);
            }
            match it.next() {
                Some(element) => {
                    v.push(element);
                },
                None => {
                    break ;
                },
            }
        }
        v
    }
}

/// A run of values that reaches slot `at` goes on from there.
pub proof fn lemma_run_of_values_step<T>(elements: Seq<Option<T>>, from: int, at: int)
    requires
        0 <= from <= at,
        forall|i: int| from <= i < at ==> 0 <= i < elements.len() && elements[i] is Some,
    ensures
        run_of_values(elements, from) == (at - from) + run_of_values(elements, at),
    decreases at - from,
{
    if from < at {
        lemma_run_of_values_step(elements, from + 1, at);
    }
}

impl<T: FromDatum> ArrayIntoIterator<T> {
    #[verifier::type_invariant]
    pub closed spec fn inv(self) -> bool {
        cursor_stands(&self.array, self.cursor)
    }

    /// The array that is gone over.
    pub closed spec fn source(&self) -> Array<T> {
        self.array
    }

    /// The slot that comes next.
    pub closed spec fn position(&self) -> nat {
        self.cursor.curr as nat
    }

    /// The element of the next slot, or `None` after the last one.
    pub fn next(&mut self) -> (r: Option<Option<T>>)
        ensures
            final(self).source() == old(self).source(),
            old(self).position() < old(self).source()@.len() ==> (r == Some(
                old(self).source()@[old(self).position() as int],
            ) && final(self).position() == old(self).position() + 1),
            old(self).position() >= old(self).source()@.len() ==> (r is None
                && final(self).position() == old(self).position()),
    {
        proof {
            use_type_invariant(&*self);
        }
        match advance(&self.array, self.cursor) {
            Some((element, next)) => {
                self.cursor = next;
                Some(element)
            },
            None => None,
        }
    }

    /// Bounds on the number of elements that are left. With a presence
    /// bitmap the lower bound is zero.
    pub fn size_hint(&self) -> (r: (usize, Option<usize>))
        ensures
            r.1 == Some((self.source()@.len() - self.position()) as usize),
            r.0 == (if self.source().spec_raw().nulls is None {
                self.source()@.len() - self.position()
            } else {
                0
            }),
    {
        proof {
            use_type_invariant(self);
        }
        let left = self.array.len() - self.cursor.curr;
        match null_slice(self.array.raw()) {
            NullKind::Strict(_) => (left, Some(left)),
            NullKind::Bits(_) => (0, Some(left)),
        }
    }

    /// The number of slots that are left.
    pub fn count(self) -> (n: usize)
        ensures
            n == self.source()@.len() - self.position(),
    {
        proof {
            use_type_invariant(&self);
        }
        self.array.len() - self.cursor.curr
    }
}

} // verus!
