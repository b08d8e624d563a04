//! A lazy, verified view over the array binary format of a host database
//! engine: one contiguous element stream, an optional presence bitmap, and a
//! per-type layout that says how to walk from one element to the next.
//!
//! * `layout`: how one element type is packed, and the rules that a layout keeps.
//! * `nulls`, `bits`: which slots are null, read from the presence bitmap.
//! * `word`, `hop`: numbers in either byte order, and the step from one
//!   element to the next.
//! * `raw`, `image`: an array as plain values, and the bytes of a whole array.
//! * `datum`: boxed scalars, and the element types that read and write them.
//! * `array`, `iter`, `variadic`: the view, its iterators, and the view of
//!   trailing arguments.
//! * `encode`: values written as an array.
//! * `laws`: what holds across these, such as that reading undoes writing.
//! * `registry`, `sql`, `error`: known layouts, SQL names of array types,
//!   and the faults.

pub mod array;
pub mod bits;
pub mod datum;
pub mod encode;
pub mod error;
pub mod hop;
pub mod image;
pub mod iter;
pub mod laws;
pub mod layout;
pub mod nulls;
pub mod raw;
pub mod registry;
pub mod sql;
pub mod variadic;
pub mod word;
