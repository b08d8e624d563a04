use crate::bits::{bit_at, bit_get, bits_all, MAX_BITMAP_BYTES};
use vstd::prelude::*;

verus! {

/// A run of presence bits over borrowed bytes: bit `i` is set where slot `i`
/// holds a value.
#[derive(Clone, Copy)]
pub struct Bitmap<'a> {
    bytes: &'a [u8],
    len: usize,
}

impl<'a> View for Bitmap<'a> {
    type V = Seq<bool>;

    /// The bits, one per slot.
    open spec fn view(&self) -> Seq<bool> {
        Seq::new(self.spec_len(), |i: int| bit_at(self.spec_bytes(), i))
    }
}

impl<'a> Bitmap<'a> {
    /// Whether the bytes hold a bit for every slot: the invariant of the type.
    #[verifier::type_invariant]
    pub open spec fn wf(&self) -> bool {
        bitmap_holds(self.spec_bytes(), self.spec_len())
    }

    pub closed spec fn spec_bytes(&self) -> Seq<u8> {
        self.bytes@
    }

    pub closed spec fn spec_len(&self) -> nat {
        self.len as nat
    }

    /// Reads the first `len` bits of `bytes` as a bitmap, if they are there.
    pub fn new(bytes: &'a [u8], len: usize) -> (r: Option<Bitmap<'a>>)
        ensures
            bitmap_holds(bytes@, len as nat) ==> (r matches Some(b) && b.spec_bytes() == bytes@
                && b.spec_len() == len),
            !bitmap_holds(bytes@, len as nat) ==> r is None,
    {
        if bytes.len() <= MAX_BITMAP_BYTES && len <= 8 * bytes.len() {
            Some(Bitmap { bytes, len })
        } else {
            None
        }
    }

    /// Reads the first `len` bits of `bytes` as a bitmap.
    pub(crate) fn from_parts(bytes: &'a [u8], len: usize) -> (b: Bitmap<'a>)
        requires
            bitmap_holds(bytes@, len as nat),
        ensures
            b.spec_bytes() == bytes@,
            b.spec_len() == len,
    {
        Bitmap { bytes, len }
    }

    /// The number of slots.
    pub fn len(&self) -> (n: usize)
        ensures
            n == self@.len(),
    {
        self.len
    }

    /// The bit of slot `index`, or `None` past the last slot.
    pub fn get(&self, index: usize) -> (r: Option<bool>)
        ensures
            r == (if index < self@.len() {
                Some(self@[index as int])
            } else {
                None
            }),
    {
        proof {
            use_type_invariant(self);
        }
        if index < self.len {
            bit_get(self.bytes, index)
        } else {
            None
        }
    }

    /// Whether every slot's bit is set.
    pub fn all(&self) -> (r: bool)
        ensures
            r == (forall|i: int| 0 <= i < self@.len() ==> self@[i]),
    {
        proof {
            use_type_invariant(self);
        }
        let all = bits_all(self.bytes, self.len);
        proof {
            if all {
                assert forall|i: int| 0 <= i < self@.len() implies self@[i] by {
                    assert(bit_at(self.bytes@, i));
                }
            } else {
                let i = choose|i: int| 0 <= i < self.len && !bit_at(self.bytes@, i);
                assert(!self@[i]);
            }
        }
        all
    }
}

/// Whether `bytes` can be read as a bitmap of `len` slots: they hold at least
/// `len` bits and are not too long to index by bit.
pub open spec fn bitmap_holds(bytes: Seq<u8>, len: nat) -> bool {
    bytes.len() <= MAX_BITMAP_BYTES && len <= 8 * bytes.len()
}

/// Which slots of an array are null.
#[derive(Clone, Copy)]
pub enum NullKind<'a> {
    /// One presence bit per slot: set for a value, clear for a null.
    Bits(Bitmap<'a>),
    /// This many slots, none of them null.
    Strict(usize),
}

impl<'a> View for NullKind<'a> {
    type V = Seq<bool>;

    /// For each slot, whether it is null.
    open spec fn view(&self) -> Seq<bool> {
        match *self {
            NullKind::Bits(b) => Seq::new(b@.len(), |i: int| !b@[i]),
            NullKind::Strict(n) => Seq::new(n as nat, |i: int| false),
        }
    }
}

impl<'a> NullKind<'a> {
    /// Whether slot `index` is null, or `None` where there is no such slot.
    pub fn get(&self, index: usize) -> (r: Option<bool>)
        ensures
            r == (if index < self@.len() {
                Some(self@[index as int])
            } else {
                None
            }),
    {
        match self {
            NullKind::Bits(b) => match b.get(index) {
                Some(present) => Some(!present),
                None => None,
            },
            NullKind::Strict(len) => if index < *len {
                Some(false)
            } else {
                None
            },
        }
    }

    /// Whether any slot is null.
    pub fn any(&self) -> (r: bool)
        ensures
            r == (exists|i: int| 0 <= i < self@.len() && self@[i]),
    {
        match self {
            NullKind::Bits(b) => {
                let all = b.all();
                proof {
                    if !all {
                        let i = choose|i: int| 0 <= i < b@.len() && !b@[i];
                        assert(0 <= i < self@.len() && self@[i]);
                    }
                }
                !all
            },
            NullKind::Strict(_) => false,
        }
    }

    /// The number of slots.
    pub fn len(&self) -> (n: usize)
        ensures
            n == self@.len(),
    {
        match self {
            NullKind::Bits(b) => b.len(),
            NullKind::Strict(len) => *len,
        }
    }
}

} // verus!
