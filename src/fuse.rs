//! The container: one byte arena, and a table with one descriptor per element.
use crate::element::{DynMut, DynRef, Element};
use crate::iter::{Iter, IterMut};
use crate::layout::{is_pow2, lemma_round_up, round_up, round_up_spec, ElemLayout, MAX_BYTES};
use vstd::arithmetic::div_mod::lemma_small_mod;
use vstd::prelude::*;
use vstd::slice::slice_subrange;

verus! {

/// What a reader sees of one stored element: its bytes, layout and metadata.
pub type Item<M> = (Seq<u8>, ElemLayout, M);

/// Capacity after one growth step of an arena of `cap` bytes that must take
/// `additional` more, with every allocation rounded up to `align`.
pub open spec fn grow_step(cap: int, align: int, additional: int) -> int {
    if cap == 0 {
        round_up_spec(additional, align)
    } else {
        round_up_spec(cap * 2 + additional, align)
    }
}

/// Capacity after growing step by step until `need` bytes fit.
pub open spec fn grown_capacity(cap: int, align: int, additional: int, need: int) -> int
    decreases (if need > cap { need - cap } else { 0 }),
{
    if need <= cap {
        cap
    } else if grow_step(cap, align, additional) <= cap {
        cap
    } else {
        grown_capacity(grow_step(cap, align, additional), align, additional, need)
    }
}

/// Where an element starts in the arena, and how it is read back.
struct Header<M> {
    offset: usize,
    layout: ElemLayout,
    meta: M,
}

/// An append-only sequence of values of different sizes and alignments,
/// stored back to back in one growable byte arena. Each value is read back
/// through its descriptor: its offset, its layout and its metadata `M`, which
/// the container keeps but never interprets.
///
/// Positions are offsets from the start of the arena, and alignment is kept
/// relative to that start: every offset is a multiple of its element's
/// alignment, which divides the largest alignment seen. A rise of that largest
/// alignment therefore needs no new allocation by itself; the arena grows only
/// when an element does not fit.
pub struct FuseBox<M> {
    headers: Vec<Header<M>>,
    inner: Vec<u8>,
    last_size: usize,
    max_align: usize,
    len_bytes: usize,
}

impl<M> FuseBox<M> {
    /// The stored elements, in the order in which they were pushed.
    pub closed spec fn view(&self) -> Seq<Item<M>> {
        Seq::new(
            self.headers@.len(),
            |i: int|
                (
                    self.inner@.subrange(
                        self.headers@[i].offset as int,
                        self.headers@[i].offset + self.headers@[i].layout.size_spec(),
                    ),
                    self.headers@[i].layout,
                    self.headers@[i].meta,
                ),
        )
    }

    /// The arena offset of element `i`.
    pub closed spec fn offset_of(&self, i: int) -> int {
        self.headers@[i].offset as int
    }

    /// The arena's capacity in bytes; zero while nothing is allocated.
    pub closed spec fn cap_bytes(&self) -> int {
        self.inner@.len() as int
    }

    /// Bytes in use: the end of the last element.
    pub closed spec fn used_bytes(&self) -> int {
        self.len_bytes as int
    }

    /// The largest alignment of any element pushed so far; zero at first.
    pub closed spec fn max_align(&self) -> int {
        self.max_align as int
    }

    /// The arena's invariant.
    pub closed spec fn wf(&self) -> bool {
        let h = self.headers@;
        &&& self.len_bytes <= self.inner@.len() <= MAX_BYTES
        &&& self.inner@.len() == 0 ==> self.len_bytes == 0
        &&& self.max_align <= MAX_BYTES
        &&& self.max_align == 0 || is_pow2(self.max_align as int)
        &&& h.len() == 0 ==> self.len_bytes == 0 && self.last_size == 0
        &&& h.len() > 0 ==> {
            &&& h.last().offset + h.last().layout.size_spec() == self.len_bytes
            &&& self.last_size == h.last().layout.size_spec()
        }
        &&& forall|i: int|
            0 <= i < h.len() ==> {
                &&& #[trigger] h[i].offset as int % h[i].layout.align_spec() as int == 0
                &&& is_pow2(h[i].layout.align_spec() as int)
                &&& h[i].layout.align_spec() <= self.max_align
                &&& h[i].offset + h[i].layout.size_spec() <= self.len_bytes
            }
        &&& forall|i: int, j: int|
            0 <= i < j < h.len() ==> #[trigger] h[i].offset + h[i].layout.size_spec()
                <= #[trigger] h[j].offset
    }

    /// Where the next element of `layout` goes: the end of the last element,
    /// rounded up to the new element's alignment.
    pub open spec fn next_offset(&self, layout: ElemLayout) -> int {
        round_up_spec(self.used_bytes(), layout.align_spec() as int)
    }

    /// The tracked maximum alignment once an element of `layout` is pushed.
    pub open spec fn max_align_after(&self, layout: ElemLayout) -> int {
        if self.max_align() < layout.align_spec() {
            layout.align_spec() as int
        } else {
            self.max_align()
        }
    }

    /// The capacity once an element of `layout` is pushed.
    pub open spec fn capacity_after(&self, layout: ElemLayout) -> int {
        grown_capacity(
            self.cap_bytes(),
            self.max_align_after(layout),
            layout.size_spec() as int,
            self.next_offset(layout) + layout.size_spec(),
        )
    }

    /// Pushing an element of `layout` keeps the arena within `MAX_BYTES`.
    pub open spec fn push_fits(&self, layout: ElemLayout) -> bool {
        &&& self.next_offset(layout) + layout.size_spec() <= MAX_BYTES
        &&& self.capacity_after(layout) <= MAX_BYTES
    }

    /// Creates an empty container; nothing is allocated.
    pub fn new() -> (r: Self)
        ensures
            r.wf(),
            r@ == Seq::<Item<M>>::empty(),
            r.cap_bytes() == 0,
            r.used_bytes() == 0,
            r.max_align() == 0,
    {
        let r = FuseBox { headers: Vec::new(), inner: Vec::new(), last_size: 0, max_align: 0, len_bytes: 0 };
        assert(r@ =~= Seq::<Item<M>>::empty());
        r
    }

    /// The number of elements.
    pub fn len(&self) -> (r: usize)
        ensures
            r == self@.len(),
    {
        self.headers.len()
    }

    /// The arena's capacity in bytes; zero while nothing is allocated.
    pub fn capacity(&self) -> (r: usize)
        ensures
            r == self.cap_bytes(),
    {
        self.inner.len()
    }

    /// Whether no element was pushed.
    pub fn is_empty(&self) -> (r: bool)
        ensures
            r == (self@.len() == 0),
    {
        self.len() == 0
    }
}


/// Growing step by step never lowers the capacity.
pub proof fn lemma_grown_at_least(cap: int, align: int, additional: int, need: int)
    ensures
        grown_capacity(cap, align, additional, need) >= cap,
    decreases (if need > cap { need - cap } else { 0 }),
{
    if need > cap && grow_step(cap, align, additional) > cap {
        lemma_grown_at_least(grow_step(cap, align, additional), align, additional, need);
    }
}

impl<M> FuseBox<M> {
    /// Rewriting the bytes of element `n` in place changes that element and
    /// nothing else.
    proof fn lemma_write_back(before: Self, after: Self, n: int, data: Seq<u8>)
        requires
            before.wf(),
            0 <= n < before@.len(),
            after.headers == before.headers,
            after.last_size == before.last_size,
            after.max_align == before.max_align,
            after.len_bytes == before.len_bytes,
            after.inner@ == before.inner@.subrange(0, before.offset_of(n)) + data
                + before.inner@.subrange(
                before.offset_of(n) + before@[n].1.size_spec(),
                before.inner@.len() as int,
            ),
        ensures
            data.len() == before@[n].0.len() ==> {
                &&& after.wf()
                &&& after@ == before@.update(n, (data, before@[n].1, before@[n].2))
            },
    {
        if data.len() == before@[n].0.len() {
            let h = before.headers@;
            let lo = h[n].offset as int;
            let hi = lo + h[n].layout.size_spec();
            assert(hi <= before.len_bytes);
            assert(after.inner@.len() == before.inner@.len());
            assert forall|i: int| 0 <= i < before@.len() && i != n implies after@[i] == before@[i] by {
                let o = h[i].offset as int;
                let e = o + h[i].layout.size_spec();
                if i < n {
                    assert(e <= lo);
                } else {
                    assert(hi <= o);
                }
                assert(after@[i].0 =~= before@[i].0);
            }
            assert(after@[n].0 =~= data);
            assert(after@ =~= before@.update(n, (data, before@[n].1, before@[n].2)));
        }
    }

    /// The end of the last element, rounded up to `align`.
    fn calc_offset(&self, align: usize) -> (r: usize)
        requires
            self.wf(),
            align >= 1,
            round_up_spec(self.len_bytes as int, align as int) <= usize::MAX,
        ensures
            r == round_up_spec(self.len_bytes as int, align as int),
    {
        if self.headers.len() == 0 {
            proof {
                lemma_small_mod(0, align as nat);
            }
            0
        } else {
            let last = self.headers[self.headers.len() - 1].offset;
            round_up(last + self.last_size, align)
        }
    }

    /// The descriptor of the next element of `layout`: it starts where
    /// `calc_offset` puts it.
    fn make_header(&self, layout: ElemLayout, meta: M) -> (h: Header<M>)
        requires
            self.wf(),
            self.next_offset(layout) <= MAX_BYTES,
        ensures
            h.offset == self.next_offset(layout),
            h.offset as int % layout.align_spec() as int == 0,
            h.offset >= self.len_bytes,
            h.layout == layout,
            h.meta == meta,
    {
        let align = layout.align();
        proof {
            lemma_round_up(self.len_bytes as int, align as int);
        }
        let offset = self.calc_offset(align);
        Header { offset, layout, meta }
    }

    /// Replaces the arena by a larger one holding the same used bytes.
    fn realloc(&mut self, min_size: usize)
        requires
            old(self).len_bytes <= old(self).inner@.len(),
            old(self).inner@.len() == 0 ==> old(self).len_bytes == 0,
            old(self).max_align >= 1,
            grow_step(old(self).inner@.len() as int, old(self).max_align as int, min_size as int)
                <= MAX_BYTES,
        ensures
            final(self).inner@.len() == grow_step(
                old(self).inner@.len() as int,
                old(self).max_align as int,
                min_size as int,
            ),
            forall|k: int|
                0 <= k < old(self).len_bytes ==> final(self).inner@[k] == old(self).inner@[k],
            final(self).headers@ == old(self).headers@,
            final(self).len_bytes == old(self).len_bytes,
            final(self).last_size == old(self).last_size,
            final(self).max_align == old(self).max_align,
    {
        let cap = self.inner.len();
        if cap == 0 {
            proof {
                lemma_round_up(min_size as int, self.max_align as int);
            }
            let new_cap = round_up(min_size, self.max_align);
            self.inner = vec![0u8; new_cap];
            return;
        }
        proof {
            lemma_round_up(cap * 2 + min_size, self.max_align as int);
        }
        let new_cap = round_up(cap * 2 + min_size, self.max_align);
        let mut grown: Vec<u8> = vec![0u8; new_cap];
        let mut i: usize = 0;
        while i < self.len_bytes
            invariant
                i <= self.len_bytes <= cap <= new_cap,
                cap == self.inner@.len(),
                grown@.len() == new_cap,
                forall|k: int| 0 <= k < i ==> grown@[k] == self.inner@[k],
            decreases self.len_bytes - i,
        {
            grown[i] = self.inner[i];
            i += 1;
        }
        self.inner = grown;
    }

    /// Appends a value given as its bytes, its layout and its metadata.
    ///
    /// The value starts at the end of the last element rounded up to its
    /// alignment. While it does not fit, the arena grows: the first allocation
    /// is the value's size, each later one twice the old capacity plus the
    /// value's size, rounded up to the largest alignment seen so far; the bytes
    /// in use are copied over. The caller vouches that `meta` describes these
    /// bytes: the container stores it as given and hands it back with them.
    pub fn push_with_metadata(&mut self, bytes: Vec<u8>, layout: ElemLayout, meta: M)
        requires
            old(self).wf(),
            bytes@.len() == layout.size_spec(),
            old(self).push_fits(layout),
        ensures
            final(self).wf(),
            final(self)@ == old(self)@.push((bytes@, layout, meta)),
            final(self).offset_of(old(self)@.len() as int) == old(self).next_offset(layout),
            forall|i: int|
                0 <= i < old(self)@.len() ==> final(self).offset_of(i) == old(self).offset_of(i),
            final(self).used_bytes() == old(self).next_offset(layout) + layout.size_spec(),
            final(self).max_align() == old(self).max_align_after(layout),
            final(self).cap_bytes() == old(self).capacity_after(layout),
    {
        let size = layout.size();
        let align = layout.align();
        proof {
            lemma_small_mod(0, align as nat);
        }
        let header = self.make_header(layout, meta);
        let offset = header.offset;
        if self.max_align < align {
            self.max_align = align;
        }
        let need = offset + size;
        let ghost target = old(self).capacity_after(layout);
        proof {
            lemma_grown_at_least(
                self.inner@.len() as int,
                self.max_align as int,
                size as int,
                need as int,
            );
        }
        while self.inner.len() < need
            invariant
                self.headers@ == old(self).headers@,
                self.len_bytes == old(self).len_bytes,
                self.last_size == old(self).last_size,
                self.max_align == old(self).max_align_after(layout),
                self.max_align >= 1,
                offset == old(self).next_offset(layout),
                offset as int % (align as int) == 0,
                offset >= self.len_bytes,
                need == offset + size,
                self.len_bytes <= self.inner@.len() <= target <= MAX_BYTES,
                self.inner@.len() == 0 ==> self.len_bytes == 0 && offset == 0,
                grown_capacity(self.inner@.len() as int, self.max_align as int, size as int, need as int)
                    == target,
                forall|k: int| 0 <= k < self.len_bytes ==> self.inner@[k] == old(self).inner@[k],
            decreases target - self.inner@.len(),
        {
            proof {
                let cap = self.inner@.len() as int;
                let step = grow_step(cap, self.max_align as int, size as int);
                if cap == 0 {
                    lemma_round_up(size as int, self.max_align as int);
                } else {
                    lemma_round_up(cap * 2 + size, self.max_align as int);
                }
                assert(step > cap);
                lemma_grown_at_least(step, self.max_align as int, size as int, need as int);
            }
            self.realloc(size);
        }
        let ghost grown = *self;
        let mut i: usize = 0;
        while i < size
            invariant
                i <= size == bytes@.len(),
                offset + size <= MAX_BYTES,
                offset + size <= self.inner@.len() == grown.inner@.len(),
                self.headers@ == grown.headers@,
                self.len_bytes == grown.len_bytes,
                self.last_size == grown.last_size,
                self.max_align == grown.max_align,
                forall|k: int|
                    0 <= k < self.inner@.len() ==> self.inner@[k] == if offset <= k < offset + i {
                        bytes@[k - offset]
                    } else {
                        grown.inner@[k]
                    },
            decreases size - i,
        {
            self.inner[offset + i] = bytes[i];
            i += 1;
        }
        self.headers.push(header);
        self.last_size = size;
        self.len_bytes = offset + size;
        proof {
            let h = self.headers@;
            let n = old(self).headers@.len() as int;
            assert(h[n].offset as int % h[n].layout.align_spec() as int == 0);
            assert forall|i: int| 0 <= i < n implies #[trigger] h[i] == old(self).headers@[i] by {}
            assert forall|i: int, j: int|
                0 <= i < j < h.len() implies #[trigger] h[i].offset + h[i].layout.size_spec()
                <= #[trigger] h[j].offset by {
                if j == n {
                    assert(h[i].offset + h[i].layout.size_spec() <= old(self).len_bytes);
                }
            }
            assert(self.wf());
            assert forall|i: int| 0 <= i < n implies self@[i] == old(self)@[i] by {
                let hi = h[i];
                assert(hi.offset + hi.layout.size_spec() <= old(self).len_bytes);
                assert(self@[i].0 =~= old(self)@[i].0);
            }
            assert(self@[n].0 =~= bytes@);
            assert(self@ =~= old(self)@.push((bytes@, layout, meta)));
        }
    }

    /// Appends an element, as `push_with_metadata` does with its parts.
    pub fn push(&mut self, v: Element<M>)
        requires
            old(self).wf(),
            old(self).push_fits(v@.1),
        ensures
            final(self).wf(),
            final(self)@ == old(self)@.push(v@),
            final(self).offset_of(old(self)@.len() as int) == old(self).next_offset(v@.1),
            forall|i: int|
                0 <= i < old(self)@.len() ==> final(self).offset_of(i) == old(self).offset_of(i),
            final(self).used_bytes() == old(self).next_offset(v@.1) + v@.1.size_spec(),
            final(self).max_align() == old(self).max_align_after(v@.1),
            final(self).cap_bytes() == old(self).capacity_after(v@.1),
    {
        let (bytes, layout, meta) = v.into_parts();
        self.push_with_metadata(bytes, layout, meta);
    }
}

impl<M> FuseBox<M> {
    /// A shared reference to element `n`; `None` when `n` is out of range.
    pub fn get(&self, n: usize) -> (r: Option<DynRef<'_, M>>)
        requires
            self.wf(),
        ensures
            r.is_some() <==> n < self@.len(),
            r matches Some(d) ==> {
                &&& d.data@ == self@[n as int].0
                &&& d.layout == self@[n as int].1
                &&& *d.meta == self@[n as int].2
                &&& d.offset == self.offset_of(n as int)
            },
    {
        if self.len() <= n {
            return None;
        }
        Some(self.index(n))
    }

    /// A shared reference to element `n`, which must exist.
    pub fn index(&self, n: usize) -> (d: DynRef<'_, M>)
        requires
            self.wf(),
            n < self@.len(),
        ensures
            d.data@ == self@[n as int].0,
            d.layout == self@[n as int].1,
            *d.meta == self@[n as int].2,
            d.offset == self.offset_of(n as int),
    {
        let h = &self.headers[n];
        proof {
            assert(h.offset + h.layout.size_spec() <= self.len_bytes);
        }
        let data = slice_subrange(self.inner.as_slice(), h.offset, h.offset + h.layout.size());
        DynRef { offset: h.offset, layout: h.layout, meta: &h.meta, data }
    }

    /// An exclusive reference to element `n`; `None` when `n` is out of range.
    /// What is written through it lands in element `n` and nowhere else.
    pub fn get_mut(&mut self, n: usize) -> (r: Option<DynMut<'_, M>>)
        requires
            old(self).wf(),
        ensures
            r.is_some() <==> n < old(self)@.len(),
            r is None ==> *final(self) == *old(self),
            r matches Some(d) ==> {
                &&& d.data@ == old(self)@[n as int].0
                &&& d.layout == old(self)@[n as int].1
                &&& *d.meta == old(self)@[n as int].2
                &&& d.offset == old(self).offset_of(n as int)
                &&& final(d.data)@.len() == d.data@.len() ==> {
                    &&& final(self).wf()
                    &&& final(self)@ == old(self)@.update(
                        n as int,
                        (final(d.data)@, d.layout, *d.meta),
                    )
                    &&& forall|i: int|
                        0 <= i < old(self)@.len() ==> final(self).offset_of(i) == old(
                            self,
                        ).offset_of(i)
                    &&& final(self).cap_bytes() == old(self).cap_bytes()
                    &&& final(self).used_bytes() == old(self).used_bytes()
                    &&& final(self).max_align() == old(self).max_align()
                }
            },
    {
        if self.len() <= n {
            return None;
        }
        Some(self.index_mut(n))
    }

    /// An exclusive reference to element `n`, which must exist.
    pub fn index_mut(&mut self, n: usize) -> (d: DynMut<'_, M>)
        requires
            old(self).wf(),
            n < old(self)@.len(),
        ensures
            d.data@ == old(self)@[n as int].0,
            d.layout == old(self)@[n as int].1,
            *d.meta == old(self)@[n as int].2,
            d.offset == old(self).offset_of(n as int),
            final(d.data)@.len() == d.data@.len() ==> {
                &&& final(self).wf()
                &&& final(self)@ == old(self)@.update(n as int, (final(d.data)@, d.layout, *d.meta))
                &&& forall|i: int|
                    0 <= i < old(self)@.len() ==> final(self).offset_of(i) == old(self).offset_of(i)
                &&& final(self).cap_bytes() == old(self).cap_bytes()
                &&& final(self).used_bytes() == old(self).used_bytes()
                &&& final(self).max_align() == old(self).max_align()
            },
    {
        let ghost fin = *final(self);
        let h = &self.headers[n];
        let offset = h.offset;
        let size = h.layout.size();
        proof {
            assert(h.offset + h.layout.size_spec() <= self.len_bytes);
        }
        let (front, rest) = self.inner.as_mut_slice().split_at_mut(offset);
        let (data, back) = rest.split_at_mut(size);
        proof {
            assert(final(front)@ == front@);
            assert(final(back)@ == back@);
            assert(front@ =~= old(self).inner@.subrange(0, offset as int));
            assert(back@ =~= old(self).inner@.subrange(offset + size, old(self).inner@.len() as int));
            assert(fin.headers == old(self).headers);
            assert(fin.inner@ == final(front)@ + final(data)@ + final(back)@);
            Self::lemma_write_back(*old(self), fin, n as int, final(data)@);
        }
        DynMut { offset, layout: h.layout, meta: &h.meta, data }
    }
}

impl<M> FuseBox<M> {
    /// A cursor over the elements by shared reference, from the first.
    pub fn iter(&self) -> (r: Iter<'_, M>)
        requires
            self.wf(),
        ensures
            r.wf(),
            r.container() == *self,
            r.pos() == 0,
    {
        Iter::new(self)
    }

    /// A cursor over the elements by exclusive reference, from the first.
    pub fn iter_mut(&mut self) -> (r: IterMut<'_, M>)
        requires
            old(self).wf(),
        ensures
            r.wf(),
            r.container() == *old(self),
            *final(r.fused) == *final(self),
            r.pos() == 0,
    {
        IterMut::new(self)
    }
}

impl<M> Default for FuseBox<M> {
    /// An empty container, as `new` makes it.
    fn default() -> (r: Self)
        ensures
            r.wf(),
            r@ == Seq::<Item<M>>::empty(),
            r.cap_bytes() == 0,
    {
        Self::new()
    }
}

/// The containers seen after each push of a run that starts empty: `states[k + 1]`
/// is `states[k]` with `items[k]` pushed, as `push` and `push_with_metadata` state it.
pub open spec fn is_push_run<M>(states: Seq<FuseBox<M>>, items: Seq<Item<M>>) -> bool {
    &&& states.len() == items.len() + 1
    &&& states[0]@ == Seq::<Item<M>>::empty()
    &&& forall|k: int| 0 <= k < items.len() ==> #[trigger] states[k + 1]@ == states[k]@.push(items[k])
}

/// After `k` pushes of a run the container holds the first `k` items, in order.
proof fn lemma_run_prefix<M>(states: Seq<FuseBox<M>>, items: Seq<Item<M>>, k: int)
    requires
        is_push_run(states, items),
        0 <= k <= items.len(),
    ensures
        states[k]@ == items.subrange(0, k),
    decreases k,
{
    if k == 0 {
        assert(items.subrange(0, 0) =~= Seq::<Item<M>>::empty());
    } else {
        lemma_run_prefix(states, items, k - 1);
        assert(states[k]@ == states[k - 1]@.push(items[k - 1]));
        assert(items.subrange(0, k) =~= items.subrange(0, k - 1).push(items[k - 1]));
    }
}

/// Round trip: the value pushed at index `i` is read back at index `i`, with the
/// same bytes, layout and metadata, after the push and after every later push.
pub proof fn law_round_trip<M>(states: Seq<FuseBox<M>>, items: Seq<Item<M>>, i: int, k: int)
    requires
        is_push_run(states, items),
        0 <= i < k <= items.len(),
    ensures
        states[k]@[i] == items[i],
{
    lemma_run_prefix(states, items, k);
}

/// Order: after a run of pushes the container holds exactly the values pushed,
/// in push order, which is the order in which its cursors yield them.
pub proof fn law_order<M>(states: Seq<FuseBox<M>>, items: Seq<Item<M>>)
    requires
        is_push_run(states, items),
    ensures
        states.last()@ == items,
{
    lemma_run_prefix(states, items, items.len() as int);
    assert(items.subrange(0, items.len() as int) =~= items);
}

/// Length: the length is the number of pushes so far, and never decreases.
pub proof fn law_length<M>(states: Seq<FuseBox<M>>, items: Seq<Item<M>>, j: int, k: int)
    requires
        is_push_run(states, items),
        0 <= j <= k <= items.len(),
    ensures
        states[k]@.len() == k,
        states[j]@.len() <= states[k]@.len(),
{
    lemma_run_prefix(states, items, j);
    lemma_run_prefix(states, items, k);
}

/// Growth transparency: whatever the arena had to grow by in between, a later
/// state still holds every earlier element, unchanged and in the same order.
pub proof fn law_growth_keeps_prefix<M>(states: Seq<FuseBox<M>>, items: Seq<Item<M>>, j: int, k: int)
    requires
        is_push_run(states, items),
        0 <= j <= k <= items.len(),
    ensures
        states[k]@.subrange(0, j) == states[j]@,
{
    lemma_run_prefix(states, items, j);
    lemma_run_prefix(states, items, k);
    assert(states[k]@.subrange(0, j) =~= states[j]@);
}

/// Heterogeneity: elements of any sizes and alignments occupy disjoint byte
/// ranges, each inside the used part of the arena, so no element's bytes are
/// another's or padding.
pub proof fn law_disjoint<M>(b: FuseBox<M>, i: int, j: int)
    requires
        b.wf(),
        0 <= i < j < b@.len(),
    ensures
        0 <= b.offset_of(i),
        b.offset_of(i) + b@[i].1.size_spec() <= b.offset_of(j),
        b.offset_of(j) + b@[j].1.size_spec() <= b.used_bytes() <= b.cap_bytes(),
{
    assert(b.headers@[i].offset + b.headers@[i].layout.size_spec() <= b.headers@[j].offset);
    assert(b.headers@[j].offset + b.headers@[j].layout.size_spec() <= b.len_bytes);
}

/// Alignment: every element's offset is a multiple of its alignment, and that
/// alignment divides the tracked maximum alignment, so an arena based at an
/// address aligned to the maximum places every element at an aligned address.
pub proof fn law_aligned<M>(b: FuseBox<M>, i: int)
    requires
        b.wf(),
        0 <= i < b@.len(),
    ensures
        b.offset_of(i) % (b@[i].1.align_spec() as int) == 0,
        b.max_align() % (b@[i].1.align_spec() as int) == 0,
{
    let h = b.headers@[i];
    assert(h.offset as int % h.layout.align_spec() as int == 0);
    crate::layout::lemma_pow2_divides(h.layout.align_spec() as int, b.max_align as int);
}

} // verus!
