use vstd::prelude::*;

verus! {

/// An append-only vector of entities addressed by dense `u32` handles.
///
/// Handles are stable for the arena's lifetime: allocation only ever appends.
pub struct Arena<T> {
    pub items: Vec<T>,
}

impl<T> Arena<T> {
    pub open spec fn view(&self) -> Seq<T> {
        self.items@
    }

    pub fn new() -> (r: Arena<T>)
        ensures
            r@ =~= Seq::<T>::empty(),
    {
        Arena { items: Vec::new() }
    }

    pub fn len(&self) -> (r: usize)
        ensures
            r == self@.len(),
    {
        self.items.len()
    }

    /// Appends an entity and returns its handle.
    pub fn push(&mut self, item: T) -> (r: u32)
        requires
            old(self)@.len() < u32::MAX,
        ensures
            final(self)@ == old(self)@.push(item),
            r == old(self)@.len(),
    {
        let r = self.items.len();
        self.items.push(item);
        r as u32
    }

    pub fn get(&self, id: u32) -> (r: &T)
        requires
            id < self@.len(),
        ensures
            *r == self@[id as int],
    {
        &self.items[id as usize]
    }

    /// The handle the next allocation will receive.
    pub fn next_id(&self) -> (r: u32)
        requires
            self@.len() <= u32::MAX,
        ensures
            r == self@.len(),
    {
        self.items.len() as u32
    }
}

/// A range of densely allocated arena handles, half-open: `[start, end)`.
///
/// The type tag records which entity arena the handles point into.
pub struct IdRange<T> {
    pub start: u32,
    pub end: u32,
    pub phantom: core::marker::PhantomData<T>,
}

impl<T> IdRange<T> {
    pub open spec fn wf(self) -> bool {
        self.start <= self.end
    }

    /// The set of handles the range denotes, as a sequence in increasing order.
    pub open spec fn ids(self) -> Seq<u32> {
        Seq::new((self.end - self.start) as nat, |i: int| (self.start + i) as u32)
    }

    pub fn new(start: u32, end: u32) -> (r: IdRange<T>)
        ensures
            r.start == start,
            r.end == end,
    {
        IdRange { start, end, phantom: core::marker::PhantomData }
    }

    pub fn empty() -> (r: IdRange<T>)
        ensures
            r.start == 0,
            r.end == 0,
    {
        IdRange { start: 0, end: 0, phantom: core::marker::PhantomData }
    }

    pub fn is_empty(&self) -> (r: bool)
        requires
            self.wf(),
        ensures
            r == (self.ids().len() == 0),
    {
        self.start >= self.end
    }

    pub fn len(&self) -> (r: usize)
        requires
            self.wf(),
        ensures
            r == self.ids().len(),
    {
        (self.end - self.start) as usize
    }

    /// The `i`-th handle of the range, counting from `start`.
    pub fn nth(&self, i: usize) -> (r: u32)
        requires
            self.wf(),
            i < self.ids().len(),
        ensures
            r == self.ids()[i as int],
    {
        self.start + i as u32
    }

    /// Concatenates two ranges that were allocated back to back
    /// into the same arena: `self` must end exactly where `other` starts.
    pub fn extend(&self, other: &IdRange<T>) -> (r: IdRange<T>)
        requires
            self.wf(),
            other.wf(),
            self.end == other.start,
        ensures
            r.start == self.start,
            r.end == other.end,
            r.ids() == self.ids() + other.ids(),
    {
        let r = IdRange { start: self.start, end: other.end, phantom: core::marker::PhantomData };
        proof {
            assert(r.ids() =~= self.ids() + other.ids());
        }
        r
    }
}

impl<T> Clone for IdRange<T> {
    fn clone(&self) -> (r: Self)
        ensures
            r == *self,
    {
        IdRange { start: self.start, end: self.end, phantom: core::marker::PhantomData }
    }
}

} // verus!
