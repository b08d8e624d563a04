use crate::array::Array;
use crate::datum::FromDatum;
use crate::error::ArrayError;
use crate::layout::Layout;
use crate::raw::{raw_wf, RawArray};
use std::collections::HashMap;
use vstd::prelude::*;
use vstd::std_specs::hash::group_hash_axioms;

verus! {

broadcast use group_hash_axioms;

/// The layouts of the element types that are known, by type identifier.
pub struct LayoutRegistry {
    layouts: HashMap<u32, Layout>,
}

impl View for LayoutRegistry {
    type V = Map<u32, Layout>;

    closed spec fn view(&self) -> Map<u32, Layout> {
        self.layouts@
    }
}

impl LayoutRegistry {
    /// A registry that knows no type.
    pub fn new() -> (registry: LayoutRegistry)
        ensures
            registry@ == Map::<u32, Layout>::empty(),
    {
        LayoutRegistry { layouts: HashMap::new() }
    }

    /// Makes the layout of a type known; an earlier layout of that type is
    /// replaced.
    pub fn register(&mut self, oid: u32, layout: Layout)
        ensures
            final(self)@ == old(self)@.insert(oid, layout),
    {
        self.layouts.insert(oid, layout);
    }

    /// The layout of a type, if it is known.
    pub fn resolve(&self, oid: u32) -> (r: Result<Layout, ArrayError>)
        ensures
            self@.contains_key(oid) ==> r == Ok::<Layout, ArrayError>(self@[oid]),
            !self@.contains_key(oid) ==> r == Err::<Layout, ArrayError>(ArrayError::UnknownType),
    {
        match self.layouts.get(&oid) {
            Some(layout) => Ok(*layout),
            None => Err(ArrayError::UnknownType),
        }
    }
}

impl<T: FromDatum> Array<T> {
    /// Wraps a buffer in a view, with the layout that the registry knows
    /// for the buffer's element type.
    pub fn from_handle(raw: RawArray, registry: &LayoutRegistry) -> (r: Result<
        Array<T>,
        ArrayError,
    >)
        ensures
            !registry@.contains_key(raw.oid) ==> (r matches Err(e) && e == ArrayError::UnknownType),
            registry@.contains_key(raw.oid) && !raw_wf(raw@, registry@[raw.oid]) ==> (
            r matches Err(e) && e == ArrayError::OutOfBounds),
            registry@.contains_key(raw.oid) && raw_wf(raw@, registry@[raw.oid]) ==> (
            r matches Ok(array) && array.spec_raw() == raw@ && array.spec_layout()
                == registry@[raw.oid] && array.wf()),
    {
        let layout = match registry.resolve(raw.oid) {
            Ok(layout) => layout,
            Err(e) => return Err(e),
        };
        Array::deconstruct_from(raw, layout)
    }
}

} // verus!
