//! What goes into the arena and what comes back out of it.
use crate::layout::ElemLayout;
use vstd::prelude::*;

verus! {

/// A value ready to be stored: its bytes, its layout and the metadata that
/// lets a reader interpret it again. The bytes always fill the layout's size,
/// so pushing an `Element` needs no promise from the caller.
pub struct Element<M> {
    bytes: Vec<u8>,
    layout: ElemLayout,
    meta: M,
}

impl<M> Element<M> {
    #[verifier::type_invariant]
    spec fn fits(self) -> bool {
        self.bytes@.len() == self.layout.size_spec()
    }

    /// The stored representation, layout and metadata.
    pub closed spec fn view(self) -> (Seq<u8>, ElemLayout, M) {
        (self.bytes@, self.layout, self.meta)
    }

    /// Bundles a value; `None` unless `bytes` is exactly `layout`'s size long.
    pub fn new(bytes: Vec<u8>, layout: ElemLayout, meta: M) -> (r: Option<Element<M>>)
        ensures
            r.is_some() <==> bytes@.len() == layout.size_spec(),
            r matches Some(e) ==> e.view() == (bytes@, layout, meta),
    {
        if bytes.len() == layout.size() {
            Some(Element { bytes, layout, meta })
        } else {
            None
        }
    }

    /// Splits the element into its parts; the bytes fill the layout.
    pub fn into_parts(self) -> (r: (Vec<u8>, ElemLayout, M))
        ensures
            (r.0@, r.1, r.2) == self.view(),
            r.0@.len() == r.1.size_spec(),
    {
        proof {
            use_type_invariant(&self);
        }
        (self.bytes, self.layout, self.meta)
    }
}

/// A shared reference to a stored element: where it starts in the arena, its
/// layout and metadata, and its bytes.
pub struct DynRef<'a, M> {
    pub offset: usize,
    pub layout: ElemLayout,
    pub meta: &'a M,
    pub data: &'a [u8],
}

/// An exclusive reference to a stored element: its bytes may be rewritten in
/// place, their number cannot change.
pub struct DynMut<'a, M> {
    pub offset: usize,
    pub layout: ElemLayout,
    pub meta: &'a M,
    pub data: &'a mut [u8],
}

} // verus!
