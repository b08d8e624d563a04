use crate::error::ArrayError;
use vstd::prelude::*;

verus! {

/// How a value of the element type is handed over.
#[derive(Clone, Copy, Debug, PartialEq, Eq, Structural)]
pub enum PassBy {
    /// By reference to the bytes that hold it.
    Ref,
    /// As a machine word.
    Value,
}

/// The alignment an element type asks for; always a power of two.
#[derive(Clone, Copy, Debug, PartialEq, Eq, Structural)]
pub enum Align {
    Byte,
    Short,
    Int,
    Double,
}

/// The size class of an element type.
#[derive(Clone, Copy, Debug, PartialEq, Eq, Structural)]
pub enum Size {
    /// Bytes up to and including a terminating zero byte.
    CStr,
    /// A length header followed by the payload.
    Varlena,
    /// Always this many bytes, padding included.
    Fixed(u16),
}

/// The widest value that is passed as a machine word, in bytes.
pub const WORD_BYTES: u16 = 8;

impl Align {
    /// The alignment in bytes.
    pub open spec fn bytes(self) -> usize {
        match self {
            Align::Byte => 1,
            Align::Short => 2,
            Align::Int => 4,
            Align::Double => 8,
        }
    }

    /// The alignment in bytes.
    #[verifier::when_used_as_spec(bytes)]
    pub fn as_usize(self) -> (n: usize)
        ensures
            n == self.bytes(),
    {
        match self {
            Align::Byte => 1,
            Align::Short => 2,
            Align::Int => 4,
            Align::Double => 8,
        }
    }

    /// Reads the one-letter alignment code of a type catalog:
    /// `c`, `s`, `i` or `d`, for 1, 2, 4 or 8 bytes.
    pub fn from_typalign(code: u8) -> (r: Result<Align, ArrayError>)
        ensures
            r == Self::spec_from_typalign(code),
    {
        if code == 99 {
            Ok(Align::Byte)
        } else if code == 115 {
            Ok(Align::Short)
        } else if code == 105 {
            Ok(Align::Int)
        } else if code == 100 {
            Ok(Align::Double)
        } else {
            Err(ArrayError::MalformedLayout)
        }
    }

    pub open spec fn spec_from_typalign(code: u8) -> Result<Align, ArrayError> {
        if code == 'c' as u8 {
            Ok(Align::Byte)
        } else if code == 's' as u8 {
            Ok(Align::Short)
        } else if code == 'i' as u8 {
            Ok(Align::Int)
        } else if code == 'd' as u8 {
            Ok(Align::Double)
        } else {
            Err(ArrayError::MalformedLayout)
        }
    }
}

impl Size {
    /// Reads the length column of a type catalog: `-2` for zero-terminated
    /// strings, `-1` for values with a length header, and a byte count otherwise.
    pub fn from_typlen(typlen: i16) -> (r: Result<Size, ArrayError>)
        ensures
            r == Self::spec_from_typlen(typlen),
    {
        if typlen == -2 {
            Ok(Size::CStr)
        } else if typlen == -1 {
            Ok(Size::Varlena)
        } else if typlen >= 0 {
            Ok(Size::Fixed(typlen as u16))
        } else {
            Err(ArrayError::MalformedLayout)
        }
    }

    pub open spec fn spec_from_typlen(typlen: i16) -> Result<Size, ArrayError> {
        if typlen == -2 {
            Ok(Size::CStr)
        } else if typlen == -1 {
            Ok(Size::Varlena)
        } else if typlen >= 0 {
            Ok(Size::Fixed(typlen as u16))
        } else {
            Err(ArrayError::MalformedLayout)
        }
    }
}

/// Whether size, alignment and passing mode go together.
///
/// A fixed width is a multiple of the alignment, since the element stream
/// never pads fixed-width elements. Only fixed widths of one to eight bytes
/// fit a machine word.
pub open spec fn layout_rules(align: Align, size: Size, pass: PassBy) -> bool {
    &&& size matches Size::Fixed(n) ==> n as int % align.bytes() as int == 0
    &&& pass == PassBy::Value ==> (size matches Size::Fixed(n) && 1 <= n <= WORD_BYTES)
}

/// The passing mode that a catalog's by-value flag stands for.
pub open spec fn pass_of(typbyval: bool) -> PassBy {
    if typbyval {
        PassBy::Value
    } else {
        PassBy::Ref
    }
}

/// Whether three columns of a type catalog describe a layout: each can be
/// read, and together they keep `layout_rules`.
pub open spec fn catalog_rules(typlen: i16, typbyval: bool, typalign: u8) -> bool {
    &&& Align::spec_from_typalign(typalign) matches Ok(align)
    &&& Size::spec_from_typlen(typlen) matches Ok(size)
    &&& layout_rules(align, size, pass_of(typbyval))
}

/// How one element type is packed into an array's element stream.
#[derive(Clone, Copy, Debug, PartialEq, Eq)]
pub struct Layout {
    pub(crate) align: Align,
    pub(crate) size: Size,
    pub(crate) pass: PassBy,
}

impl Layout {
    /// Whether the descriptor keeps `layout_rules`: the invariant of the type.
    #[verifier::type_invariant]
    pub open spec fn valid(self) -> bool {
        layout_rules(self.spec_align(), self.spec_size(), self.spec_pass())
    }

    pub closed spec fn spec_align(self) -> Align {
        self.align
    }

    pub closed spec fn spec_size(self) -> Size {
        self.size
    }

    pub closed spec fn spec_pass(self) -> PassBy {
        self.pass
    }

    /// Makes a descriptor, or refuses the combination.
    pub fn new(align: Align, size: Size, pass: PassBy) -> (r: Result<Layout, ArrayError>)
        ensures
            layout_rules(align, size, pass) ==> (r matches Ok(l) && l.spec_align() == align
                && l.spec_size() == size && l.spec_pass() == pass && l.valid()),
            !layout_rules(align, size, pass) ==> r == Err::<Layout, ArrayError>(
                ArrayError::MalformedLayout,
            ),
    {
        let fits = match size {
            Size::Fixed(n) => n as usize % align.as_usize() == 0 && (match pass {
                PassBy::Value => 1 <= n && n <= WORD_BYTES,
                PassBy::Ref => true,
            }),
            _ => match pass {
                PassBy::Value => false,
                PassBy::Ref => true,
            },
        };
        if fits {
            Ok(Layout { align, size, pass })
        } else {
            Err(ArrayError::MalformedLayout)
        }
    }

    /// Makes a descriptor from the three columns of a type catalog: it is
    /// refused where a column cannot be read or the three do not go together.
    pub fn from_catalog(typlen: i16, typbyval: bool, typalign: u8) -> (r: Result<Layout, ArrayError>)
        ensures
            catalog_rules(typlen, typbyval, typalign) ==> (r matches Ok(l) && l.valid()
                && Ok::<Align, ArrayError>(l.spec_align()) == Align::spec_from_typalign(typalign)
                && Ok::<Size, ArrayError>(l.spec_size()) == Size::spec_from_typlen(typlen)
                && l.spec_pass() == pass_of(typbyval)),
            !catalog_rules(typlen, typbyval, typalign) ==> r == Err::<Layout, ArrayError>(
                ArrayError::MalformedLayout,
            ),
    {
        let align = match Align::from_typalign(typalign) {
            Ok(a) => a,
            Err(e) => return Err(e),
        };
        let size = match Size::from_typlen(typlen) {
            Ok(s) => s,
            Err(e) => return Err(e),
        };
        Layout::new(
            align,
            size,
            if typbyval {
                PassBy::Value
            } else {
                PassBy::Ref
            },
        )
    }

    pub fn align(&self) -> (a: Align)
        ensures
            a == self.spec_align(),
            self.valid(),
    {
        proof {
            use_type_invariant(self);
        }
        self.align
    }

    pub fn size(&self) -> (s: Size)
        ensures
            s == self.spec_size(),
            self.valid(),
    {
        proof {
            use_type_invariant(self);
        }
        self.size
    }

    pub fn pass(&self) -> (p: PassBy)
        ensures
            p == self.spec_pass(),
            self.valid(),
    {
        proof {
            use_type_invariant(self);
        }
        self.pass
    }
}

} // verus!
