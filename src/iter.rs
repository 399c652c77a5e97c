//! Cursors that walk a container's elements in the order they were pushed.
use crate::element::{DynMut, DynRef};
use crate::fuse::{FuseBox, Item};
use vstd::prelude::*;

verus! {

/// Walks the elements of a container by shared reference.
pub struct Iter<'f, M> {
    fused: &'f FuseBox<M>,
    n: usize,
}

impl<'f, M> Iter<'f, M> {
    /// The container walked.
    pub closed spec fn container(&self) -> FuseBox<M> {
        *self.fused
    }

    /// The index of the next element to be yielded.
    pub closed spec fn pos(&self) -> int {
        self.n as int
    }

    /// The elements not yet yielded.
    pub open spec fn remaining(&self) -> Seq<Item<M>> {
        self.container()@.subrange(self.pos(), self.container()@.len() as int)
    }

    /// The cursor's invariant.
    pub open spec fn wf(&self) -> bool {
        &&& self.container().wf()
        &&& 0 <= self.pos() <= self.container()@.len()
    }

    /// Starts at the first element of `fused`.
    pub(crate) fn new(fused: &'f FuseBox<M>) -> (r: Self)
        requires
            fused.wf(),
        ensures
            r.wf(),
            r.container() == *fused,
            r.pos() == 0,
    {
        Iter { fused, n: 0 }
    }

    /// Yields the next element and moves past it; `None` once all were yielded.
    pub fn next(&mut self) -> (r: Option<DynRef<'f, M>>)
        requires
            old(self).wf(),
        ensures
            final(self).wf(),
            final(self).container() == old(self).container(),
            r.is_some() <==> old(self).pos() < old(self).container()@.len(),
            r is None ==> final(self).pos() == old(self).pos(),
            r matches Some(d) ==> {
                let i = old(self).pos();
                &&& final(self).pos() == i + 1
                &&& d.data@ == old(self).container()@[i].0
                &&& d.layout == old(self).container()@[i].1
                &&& *d.meta == old(self).container()@[i].2
                &&& d.offset == old(self).container().offset_of(i)
            },
    {
        if self.n == self.fused.len() {
            return None;
        }
        let fused: &'f FuseBox<M> = self.fused;
        let r = fused.index(self.n);
        self.n += 1;
        Some(r)
    }

    /// The number of elements not yet yielded.
    pub fn len(&self) -> (r: usize)
        requires
            self.wf(),
        ensures
            r == self.remaining().len(),
    {
        self.fused.len() - self.n
    }

    /// The last element, unless all were yielded already.
    pub fn last(self) -> (r: Option<DynRef<'f, M>>)
        requires
            self.wf(),
        ensures
            r.is_some() <==> self.pos() < self.container()@.len(),
            r matches Some(d) ==> {
                let i = self.container()@.len() - 1;
                &&& d.data@ == self.container()@[i].0
                &&& d.layout == self.container()@[i].1
                &&& *d.meta == self.container()@[i].2
                &&& d.offset == self.container().offset_of(i)
            },
    {
        let len = self.fused.len();
        if self.n == len {
            return None;
        }
        let fused: &'f FuseBox<M> = self.fused;
        Some(fused.index(len - 1))
    }

    /// Skips `k` elements and yields the one after them; `None`, with every
    /// element used up, when fewer than `k + 1` remain.
    pub fn nth(&mut self, k: usize) -> (r: Option<DynRef<'f, M>>)
        requires
            old(self).wf(),
        ensures
            final(self).wf(),
            final(self).container() == old(self).container(),
            r.is_some() <==> old(self).pos() + k < old(self).container()@.len(),
            r is None ==> final(self).pos() == old(self).container()@.len(),
            r matches Some(d) ==> {
                let i = old(self).pos() + k;
                &&& final(self).pos() == i + 1
                &&& d.data@ == old(self).container()@[i].0
                &&& d.layout == old(self).container()@[i].1
                &&& *d.meta == old(self).container()@[i].2
                &&& d.offset == old(self).container().offset_of(i)
            },
    {
        let len = self.fused.len();
        if len - self.n <= k {
            self.n = len;
            return None;
        }
        self.n = self.n + k;
        self.next()
    }
}

/// Walks the elements of a container by exclusive reference; each element
/// yielded may be rewritten in place before the next one is asked for.
///
/// The fields are public so that contracts can follow the container through
/// the cursor to the moment it is dropped; `wf` keeps `n` within range.
pub struct IterMut<'f, M> {
    pub fused: &'f mut FuseBox<M>,
    pub n: usize,
}

impl<'f, M> IterMut<'f, M> {
    /// The container walked, as it stands now.
    pub open spec fn container(&self) -> FuseBox<M> {
        *self.fused
    }

    /// The index of the next element to be yielded.
    pub open spec fn pos(&self) -> int {
        self.n as int
    }

    /// The cursor's invariant.
    pub open spec fn wf(&self) -> bool {
        &&& self.container().wf()
        &&& 0 <= self.pos() <= self.container()@.len()
    }

    /// Starts at the first element of `fused`.
    pub(crate) fn new(fused: &'f mut FuseBox<M>) -> (r: Self)
        requires
            old(fused).wf(),
        ensures
            r.wf(),
            r.container() == *old(fused),
            *final(r.fused) == *final(fused),
            r.pos() == 0,
    {
        IterMut { fused, n: 0 }
    }

    /// Yields the next element and moves past it; `None` once all were
    /// yielded. Bytes written through the element land in that element.
    pub fn next(&mut self) -> (r: Option<DynMut<'_, M>>)
        requires
            old(self).wf(),
        ensures
            *final(final(self).fused) == *final(old(self).fused),
            r.is_some() <==> old(self).pos() < old(self).container()@.len(),
            r is None ==> *final(self) == *old(self),
            r matches Some(d) ==> {
                let i = old(self).pos();
                let before = old(self).container();
                &&& final(self).pos() == i + 1
                &&& d.data@ == before@[i].0
                &&& d.layout == before@[i].1
                &&& *d.meta == before@[i].2
                &&& d.offset == before.offset_of(i)
                &&& final(d.data)@.len() == d.data@.len() ==> {
                    &&& final(self).wf()
                    &&& final(self).container()@ == before@.update(i, (final(d.data)@, d.layout, *d.meta))
                    &&& forall|j: int|
                        0 <= j < before@.len() ==> final(self).container().offset_of(j)
                            == before.offset_of(j)
                }
            },
    {
        if self.n == self.fused.len() {
            return None;
        }
        let i = self.n;
        self.n += 1;
        Some(self.fused.index_mut(i))
    }

    /// The number of elements not yet yielded.
    pub fn len(&self) -> (r: usize)
        requires
            self.wf(),
        ensures
            r == self.container()@.len() - self.pos(),
    {
        self.fused.len() - self.n
    }
}

} // verus!
