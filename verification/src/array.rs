use crate::datum::{datum_view, Datum, DatumValue, FromDatum};
use crate::error::ArrayError;
use crate::hop::{extent, hop, lemma_extent_within_stride, one_hop_this_time};
use crate::layout::{Layout, PassBy, Size};
use crate::nulls::{bitmap_holds, Bitmap, NullKind};
use crate::raw::{
    cursor_at, datum_at, decoded, is_null, lemma_cursor_in_bounds, lemma_cursor_none_stays,
    lemma_cursor_prefix, lemma_slot_readable, null_flags, raw_wf, RawArray, RawArrayView,
};
use crate::word::bytes_to_datum;
use core::marker::PhantomData;
use vstd::pervasive::unreached;
use vstd::prelude::*;
use vstd::slice::slice_subrange;

verus! {

/// The presence model of an array whose bitmap, if it has one, covers its slots.
pub(crate) fn null_slice(raw: &RawArray) -> (nulls: NullKind<'_>)
    requires
        raw@.nulls matches Some(bits) ==> bitmap_holds(bits, raw@.len),
    ensures
        nulls@ == null_flags(raw@),
        nulls is Strict <==> raw@.nulls is None,
{
    let nulls = match &raw.nulls {
        Some(bits) => NullKind::Bits(Bitmap::from_parts(bits.as_slice(), raw.len)),
        None => NullKind::Strict(raw.len),
    };
    assert(nulls@ =~= null_flags(raw@));
    nulls
}

/// Walks over the first `upto` slots and says where slot `upto` is read.
pub(crate) fn walk(raw: &RawArray, layout: Layout, upto: usize) -> (r: Result<usize, ArrayError>)
    requires
        raw@.nulls matches Some(bits) ==> bitmap_holds(bits, raw@.len),
        upto <= raw@.len,
    ensures
        cursor_at(raw@, layout, upto as nat) matches Some(at) ==> (r matches Ok(n) && n == at),
        cursor_at(raw@, layout, upto as nat) is None ==> r == Err::<usize, ArrayError>(
            ArrayError::OutOfBounds,
        ),
{
    let nulls = null_slice(raw);
    let mut at: usize = 0;
    let mut i: usize = 0;
    while i < upto
        invariant
            i <= upto <= raw@.len,
            nulls@ == null_flags(raw@),
            cursor_at(raw@, layout, i as nat) == Some(at as int),
        decreases upto - i,
    {
        match nulls.get(i) {
            // A null has no bytes in the element stream to step over.
            Some(true) => {},
            Some(false) => {
                match one_hop_this_time(raw.data.as_slice(), at, layout, raw.order) {
                    Ok(next) => {
                        at = next;
                    },
                    Err(e) => {
                        proof {
                            lemma_cursor_none_stays(raw@, layout, (i + 1) as nat, upto as nat);
                        }
                        return Err(e);
                    },
                }
            },
            None => unreached(),
        }
        i = i + 1;
    }
    Ok(at)
}

/// Reads the boxed scalar of the element at offset `at`.
pub(crate) fn read_datum<'a>(raw: &'a RawArray, layout: Layout, at: usize) -> (datum: Datum<'a>)
    requires
        layout.valid(),
        hop(raw@.data, at as int, layout, raw@.order) is Some,
    ensures
        datum@ == datum_at(raw@, layout, at as int),
{
    proof {
        lemma_extent_within_stride(raw@.data, at as int, layout, raw@.order);
    }
    let data = raw.data.as_slice();
    let len = data.len();
    match layout.pass() {
        PassBy::Value => {
            let width = match layout.size() {
                Size::Fixed(n) => n as usize,
                _ => unreached(),
            };
            let bytes = slice_subrange(data, at, at + width);
            Datum::Value(bytes_to_datum(bytes, raw.order))
        },
        PassBy::Ref => {
            let width = match extent(data, at, layout, raw.order) {
                Some(n) => n,
                None => unreached(),
            };
            Datum::Reference(slice_subrange(data, at, at + width))
        },
    }
}

/// A lazy view of an array of one element type: indexable and iterable,
/// decoding an element only when it is asked for.
pub struct Array<T: FromDatum> {
    pub(crate) elem_layout: Layout,
    pub(crate) raw: RawArray,
    pub(crate) _marker: PhantomData<T>,
}

impl<T: FromDatum> View for Array<T> {
    type V = Seq<Option<T>>;

    /// The elements, a null standing as `None`.
    open spec fn view(&self) -> Seq<Option<T>> {
        Seq::new(self.spec_raw().len, |i: int| self.element(i))
    }
}

impl<T: FromDatum> Array<T> {
    /// The buffer that the view reads.
    pub closed spec fn spec_raw(&self) -> RawArrayView {
        self.raw@
    }

    /// The layout of the element type.
    pub closed spec fn spec_layout(&self) -> Layout {
        self.elem_layout
    }

    /// Whether the buffer can be read with the layout: the invariant of the view.
    #[verifier::type_invariant]
    pub open spec fn wf(&self) -> bool {
        raw_wf(self.spec_raw(), self.spec_layout())
    }

    /// Whether slot `i` is null.
    pub open spec fn spec_null(&self, i: int) -> bool {
        is_null(self.spec_raw(), i)
    }

    /// The boxed scalars of all slots.
    pub open spec fn datums(&self) -> Seq<Option<DatumValue>> {
        decoded(self.spec_raw(), self.spec_layout())
    }

    /// The element of slot `i`: what the element type reads from the slot's
    /// boxed scalar, and `None` for a null.
    pub open spec fn element(&self, i: int) -> Option<T> {
        match self.datums()[i] {
            Some(datum) => T::decoded(datum, self.spec_raw().oid),
            None => None,
        }
    }

    /// Wraps a buffer in a view, after walking it once from end to end.
    /// A buffer that cannot be read with the layout is refused.
    pub fn deconstruct_from(raw: RawArray, layout: Layout) -> (r: Result<Array<T>, ArrayError>)
        ensures
            raw_wf(raw@, layout) ==> (r matches Ok(array) && array.spec_raw() == raw@
                && array.spec_layout() == layout && array.wf()),
            !raw_wf(raw@, layout) ==> (r matches Err(e) && e == ArrayError::OutOfBounds),
    {
        proof {
            use_type_invariant(&layout);
        }
        let covered = match &raw.nulls {
            Some(bits) => Bitmap::new(bits.as_slice(), raw.len).is_some(),
            None => true,
        };
        if !covered {
            return Err(ArrayError::OutOfBounds);
        }
        match walk(&raw, layout, raw.len) {
            Ok(_) => Ok(Array { elem_layout: layout, raw, _marker: PhantomData }),
            Err(e) => Err(e),
        }
    }

    /// Gives up the view and hands the buffer back.
    pub fn into_array_type(self) -> (raw: RawArray)
        ensures
            raw@ == self.spec_raw(),
    {
        self.raw
    }

    /// The number of slots, nulls included.
    pub fn len(&self) -> (n: usize)
        ensures
            n == self@.len(),
    {
        self.raw.len
    }

    /// Whether the array has no slots.
    pub fn is_empty(&self) -> (b: bool)
        ensures
            b == (self@.len() == 0),
    {
        self.raw.len == 0
    }

    /// The layout of the element type.
    pub fn layout(&self) -> (layout: Layout)
        ensures
            layout == self.spec_layout(),
            self.wf(),
    {
        proof {
            use_type_invariant(self);
        }
        self.elem_layout
    }

    /// The buffer that the view reads.
    pub fn raw(&self) -> (raw: &RawArray)
        ensures
            raw@ == self.spec_raw(),
            self.wf(),
    {
        proof {
            use_type_invariant(self);
        }
        &self.raw
    }

    /// Whether any slot is null.
    pub fn has_any_null(&self) -> (b: bool)
        ensures
            b == (exists|i: int| 0 <= i < self@.len() && self.spec_null(i)),
    {
        proof {
            use_type_invariant(self);
        }
        let nulls = null_slice(&self.raw);
        let b = nulls.any();
        proof {
            if b {
                let i = choose|i: int| 0 <= i < nulls@.len() && nulls@[i];
                assert(0 <= i < self@.len() && self.spec_null(i));
            } else if exists|i: int| 0 <= i < self@.len() && self.spec_null(i) {
                let i = choose|i: int| 0 <= i < self@.len() && self.spec_null(i);
                assert(nulls@[i]);
            }
        }
        b
    }

    /// The offset in the element stream at which slot `index` is read, and
    /// for `index == len()` the offset at which the walk ends.
    pub fn cursor(&self, index: usize) -> (r: Option<usize>)
        ensures
            index <= self@.len() ==> (r matches Some(at) && Some(at as int) == cursor_at(
                self.spec_raw(),
                self.spec_layout(),
                index as nat,
            ) && at <= self.spec_raw().data.len()),
            index > self@.len() ==> r is None,
    {
        proof {
            use_type_invariant(self);
        }
        if index > self.raw.len {
            return None;
        }
        proof {
            lemma_cursor_prefix(self.raw@, self.elem_layout, index as nat, self.raw@.len);
            lemma_cursor_in_bounds(self.raw@, self.elem_layout, index as nat);
        }
        match walk(&self.raw, self.elem_layout, index) {
            Ok(at) => Some(at),
            Err(_) => unreached(),
        }
    }

    /// The boxed scalar of slot `index`: `None` past the last slot,
    /// `Some(None)` for a null.
    pub fn get_datum(&self, index: usize) -> (r: Option<Option<Datum<'_>>>)
        ensures
            index < self@.len() ==> (r matches Some(slot) && datum_view(slot)
                == self.datums()[index as int]),
            index >= self@.len() ==> r is None,
    {
        proof {
            use_type_invariant(self);
        }
        let is_null = match null_slice(&self.raw).get(index) {
            Some(is_null) => is_null,
            None => return None,
        };
        if is_null {
            return Some(None);
        }
        proof {
            lemma_slot_readable(self.raw@, self.elem_layout, index as nat);
        }
        let at = match walk(&self.raw, self.elem_layout, index) {
            Ok(at) => at,
            Err(_) => unreached(),
        };
        Some(Some(read_datum(&self.raw, self.elem_layout, at)))
    }

    /// The element of slot `index`: `None` past the last slot, `Some(None)`
    /// for a null. Walks the element stream from its start.
    pub fn get(&self, index: usize) -> (r: Option<Option<T>>)
        ensures
            r == (if index < self@.len() {
                Some(self@[index as int])
            } else {
                None
            }),
            self@.len() == 0 ==> r is None,
    {
        proof {
            use_type_invariant(self);
        }
        let is_null = match null_slice(&self.raw).get(index) {
            Some(is_null) => is_null,
            None => return None,
        };
        if is_null {
            return Some(None);
        }
        proof {
            lemma_slot_readable(self.raw@, self.elem_layout, index as nat);
        }
        let at = match walk(&self.raw, self.elem_layout, index) {
            Ok(at) => at,
            Err(_) => unreached(),
        };
        Some(self.bring_it_back_now(at, index, is_null))
    }

    /// Decodes the element of slot `index`, read at offset `at`.
    pub(crate) fn bring_it_back_now(&self, at: usize, index: usize, is_null: bool) -> (r: Option<T>)
        requires
            index < self@.len(),
            is_null == self.spec_null(index as int),
            cursor_at(self.spec_raw(), self.spec_layout(), index as nat) == Some(at as int),
        ensures
            r == self@[index as int],
    {
        proof {
            use_type_invariant(self);
        }
        if is_null {
            return None;
        }
        proof {
            lemma_slot_readable(self.raw@, self.elem_layout, index as nat);
        }
        let datum = read_datum(&self.raw, self.elem_layout, at);
        T::from_polymorphic_datum(datum, false, self.raw.oid)
    }
}

} // verus!
