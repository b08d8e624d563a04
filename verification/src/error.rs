use vstd::prelude::*;

verus! {

/// The faults of decoding and encoding arrays.
#[derive(Clone, Copy, Debug, PartialEq, Eq, Structural)]
pub enum ArrayError {
    /// No layout is registered for the element type.
    UnknownType,
    /// A layout breaks the rules that tie size, alignment and passing mode together.
    MalformedLayout,
    /// Walking the element stream would leave the buffer.
    OutOfBounds,
    /// A null was found where none is allowed.
    NullEncountered,
    /// A value cannot be written in the array's layout.
    EncodingUnsupported,
}

} // verus!
