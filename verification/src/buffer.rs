//! Fixed-size block of element slots.
//!
//! A slot is either dead (it holds nothing) or live (it holds one element).
//! The block never decides by itself which slots are live: it records what
//! its owner wrote, moved out, or destroyed.

use vstd::prelude::*;

verus! {

/// The slots after an element has been stored at `index`.
pub open spec fn stored<T>(slots: Seq<Option<T>>, index: int, value: T) -> Seq<Option<T>> {
    slots.update(index, Some(value))
}

/// The slots after the one at `index` has been emptied.
pub open spec fn vacated<T>(slots: Seq<Option<T>>, index: int) -> Seq<Option<T>> {
    slots.update(index, None)
}

/// Whether the slot at `index` holds an element.
pub open spec fn live<T>(slots: Seq<Option<T>>, index: int) -> bool {
    0 <= index < slots.len() && slots[index] is Some
}

/// The element held by the live slot at `index`.
pub open spec fn element<T>(slots: Seq<Option<T>>, index: int) -> T
    recommends
        live(slots, index),
{
    slots[index]->Some_0
}

/// Storing an element and then moving it out of the same slot gives the
/// element back and leaves the slot dead, whatever the block held before;
/// every other slot is untouched.
pub proof fn lemma_write_read_round_trip<T>(slots: Seq<Option<T>>, index: int, value: T)
    requires
        0 <= index < slots.len(),
    ensures
        live(stored(slots, index, value), index),
        element(stored(slots, index, value), index) == value,
        !live(vacated(stored(slots, index, value), index), index),
        vacated(stored(slots, index, value), index) == vacated(slots, index),
        forall|other: int|
            0 <= other < slots.len() && other != index ==> #[trigger] stored(
                slots,
                index,
                value,
            )[other] == slots[other],
{
    assert(vacated(stored(slots, index, value), index) =~= vacated(slots, index));
}

/// A block of `size` slots.
pub struct Buffer<T> {
    /// The slots in index order: `None` for a dead slot, `Some` for a live one.
    pub slots: Vec<Option<T>>,
    /// Number of slots; fixed at construction.
    pub size: usize,
}

impl<T> View for Buffer<T> {
    type V = Seq<Option<T>>;

    open spec fn view(&self) -> Seq<Option<T>> {
        self.slots@
    }
}

impl<T> Buffer<T> {
    /// The block's invariant: it has exactly `size` slots.
    pub open spec fn wf(&self) -> bool {
        self.slots@.len() == self.size
    }

    /// A block of `size` dead slots.
    pub fn new(size: usize) -> (buffer: Self)
        ensures
            buffer.wf(),
            buffer.size == size,
            buffer@ == Seq::new(size as nat, |i: int| None::<T>),
    {
        let mut slots: Vec<Option<T>> = Vec::with_capacity(size);
        let mut filled: usize = 0;
        while filled < size
            invariant
                filled <= size,
                slots@ =~= Seq::new(filled as nat, |i: int| None::<T>),
            decreases size - filled,
        {
            slots.push(None);
            filled = filled + 1;
        }
        Buffer { slots, size }
    }

    /// Moves `value` into the dead slot at `index`, making it live.
    pub fn write(&mut self, index: usize, value: T)
        requires
            old(self).wf(),
            index < old(self).size,
            !live(old(self)@, index as int),
        ensures
            final(self).wf(),
            final(self).size == old(self).size,
            final(self)@ == stored(old(self)@, index as int, value),
    {
        self.slots[index] = Some(value);
    }

    /// Moves the element out of the live slot at `index`, leaving it dead.
    pub fn read(&mut self, index: usize) -> (value: T)
        requires
            old(self).wf(),
            index < old(self).size,
            live(old(self)@, index as int),
        ensures
            final(self).wf(),
            final(self).size == old(self).size,
            value == element(old(self)@, index as int),
            final(self)@ == vacated(old(self)@, index as int),
    {
        let taken = self.slots[index].take();
        taken.unwrap()
    }

    /// The element in the live slot at `index`, left in place.
    pub fn at(&self, index: usize) -> (value: &T)
        requires
            self.wf(),
            index < self.size,
            live(self@, index as int),
        ensures
            *value == element(self@, index as int),
    {
        self.slots[index].as_ref().unwrap()
    }

    /// Exclusive access to the element in the live slot at `index`; the slot
    /// stays live and ends up holding whatever the caller leaves there.
    pub fn at_mut(&mut self, index: usize) -> (value: &mut T)
        requires
            old(self).wf(),
            index < old(self).size,
            live(old(self)@, index as int),
        ensures
            *value == element(old(self)@, index as int),
            final(self).wf(),
            final(self).size == old(self).size,
            final(self)@ == stored(old(self)@, index as int, *final(value)),
    {
        self.slots[index].as_mut().unwrap()
    }

    /// Destroys whatever the slot at `index` holds and leaves it dead.
    pub fn drop_at(&mut self, index: usize)
        requires
            old(self).wf(),
            index < old(self).size,
        ensures
            final(self).wf(),
            final(self).size == old(self).size,
            final(self)@ == vacated(old(self)@, index as int),
    {
        self.slots[index] = None;
    }
}

} // verus!
