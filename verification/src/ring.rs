//! The queue engine: two position trackers over one block of slots.
//!
//! The producer side claims and publishes positions on its tracker, the
//! consumer side on the other one. One slot always stays unused, so that a
//! full ring (`next(producer.head) == consumer.tail`) can be told from an
//! empty one (`producer.tail == consumer.head`).
//!
//! Seen from outside, a ring is the sequence of elements it holds, oldest
//! first. Both algorithm pairs, the single-owner one and the shared-owner one,
//! are specified by the same four functions on that sequence.

use crate::buffer::{element, live, stored, vacated, Buffer};
use crate::cursor::{lemma_successor_wraps, successor, Cursor};
use crate::model::{after_dequeue, after_enqueue, handed_out, is_full, turned_away};
use vstd::arithmetic::power::pow;
use vstd::arithmetic::power2::{is_pow2, is_pow2_equiv, lemma2_to64, lemma_pow2_strictly_increases, pow2};
use vstd::bits::{lemma_u32_pow2_no_overflow, lemma_u32_shl_is_mul};
use vstd::layout::size_of;
use vstd::prelude::*;

verus! {

/// Whether a call made while `handles` handles share the ring takes the
/// shared-owner path.
pub open spec fn takes_shared_path(handles: usize) -> bool {
    handles > 2
}

/// Whether `handles` sharing handles call for the shared-owner path: more
/// than the two that a fresh channel starts with.
pub fn shared_path(handles: usize) -> (shared: bool)
    ensures
        shared == takes_shared_path(handles),
{
    handles > 2
}

/// Number of steps from `from` forward to `to` on a circle of `capacity`.
spec fn distance(from: int, to: int, capacity: int) -> int {
    if to >= from {
        to - from
    } else {
        to - from + capacity
    }
}

/// The position `offset` steps after `start` on a circle of `capacity`.
spec fn position(start: int, offset: int, capacity: int) -> int {
    if start + offset < capacity {
        start + offset
    } else {
        start + offset - capacity
    }
}

/// A circular queue of capacity `2^log2`, of which `2^log2 - 1` slots can be
/// in use at once.
pub struct Ring<T> {
    prod: Cursor,
    cons: Cursor,
    inner: Buffer<T>,
}

impl<T> View for Ring<T> {
    type V = Seq<T>;

    /// The elements held, oldest first.
    closed spec fn view(&self) -> Seq<T> {
        Seq::new(
            distance(self.cons.head as int, self.prod.head as int, self.inner.size as int) as nat,
            |k: int|
                element(
                    self.inner@,
                    position(self.cons.head as int, k, self.inner.size as int),
                ),
        )
    }
}

impl<T> Ring<T> {
    /// Number of slots, one of which always stays unused.
    pub closed spec fn capacity(&self) -> nat {
        self.inner.size as nat
    }

    /// The ring's invariant between calls: both trackers lie on the same
    /// circle as the block, neither side has unpublished work, and the live
    /// slots are exactly those from the consumer's position up to, and not
    /// including, the producer's.
    pub closed spec fn wf(&self) -> bool {
        &&& self.prod.wf()
        &&& self.cons.wf()
        &&& self.inner.wf()
        &&& self.prod.size == self.cons.size
        &&& self.prod.size as int == self.inner.size as int
        &&& self.prod.size >= 4
        &&& self.prod.head == self.prod.tail
        &&& self.cons.head == self.cons.tail
        &&& forall|i: int|
            0 <= i < self.inner.size ==> (#[trigger] live(self.inner@, i) <==> distance(
                self.cons.head as int,
                i,
                self.inner.size as int,
            ) < distance(self.cons.head as int, self.prod.head as int, self.inner.size as int))
    }

    /// A ring never holds more than `capacity - 1` elements, and its
    /// capacity is a power of two no smaller than four.
    pub proof fn lemma_capacity_bound(&self)
        requires
            self.wf(),
        ensures
            self@.len() <= self.capacity() - 1,
            self.capacity() >= 4,
            is_pow2(self.capacity() as int),
    {
    }

    /// An empty ring of `2^log2` slots.
    pub fn new(log2: usize) -> (ring: Self)
        requires
            1 < log2 < 32,
            size_of::<T>() > 0,
        ensures
            ring.wf(),
            ring.capacity() == pow2(log2 as nat),
            ring@ == Seq::<T>::empty(),
    {
        let shift: u32 = log2 as u32;
        proof {
            lemma_u32_pow2_no_overflow(log2 as nat);
            lemma_u32_shl_is_mul(1u32, shift);
            lemma2_to64();
            if log2 > 2 {
                lemma_pow2_strictly_increases(2, log2 as nat);
            }
            is_pow2_equiv(pow2(log2 as nat) as int);
            vstd::arithmetic::power::lemma_pow_positive(2, log2 as nat);
            assert(pow(2, log2 as nat) == pow2(log2 as nat) as int);
        }
        let size: u32 = 1u32 << shift;
        let ring = Ring {
            prod: Cursor::new(size),
            cons: Cursor::new(size),
            inner: Buffer::new(size as usize),
        };
        proof {
            assert(ring@ =~= Seq::<T>::empty());
        }
        ring
    }

    /// Enqueues `value` on the single-owner path. A full ring is left as it
    /// was and hands `value` back.
    pub fn single_enqueue(&mut self, value: T) -> (leftover: Option<T>)
        requires
            old(self).wf(),
        ensures
            final(self).wf(),
            final(self).capacity() == old(self).capacity(),
            final(self)@ == after_enqueue(old(self)@, old(self).capacity(), value),
            leftover == turned_away(old(self)@, old(self).capacity(), value),
    {
        let head = self.prod.front();
        let next = self.prod.next(head);
        proof {
            lemma_successor_wraps(head as int, self.prod.size as int);
        }

        if self.cons.reached(next) {
            return Some(value);
        }
        self.prod.head = next;

        self.inner.write(head as usize, value);

        self.prod.tail = next;

        proof {
            self.lemma_enqueued(*old(self), value);
        }
        None
    }

    /// Dequeues on the single-owner path. An empty ring is left as it was
    /// and returns nothing.
    pub fn single_dequeue(&mut self) -> (value: Option<T>)
        requires
            old(self).wf(),
        ensures
            final(self).wf(),
            final(self).capacity() == old(self).capacity(),
            final(self)@ == after_dequeue(old(self)@),
            value == handed_out(old(self)@),
    {
        let head = self.cons.front();
        let next = self.cons.next(head);
        proof {
            lemma_successor_wraps(head as int, self.cons.size as int);
        }

        if self.prod.reached(head) {
            return None;
        }
        self.cons.head = next;

        let value = self.inner.read(head as usize);

        self.cons.tail = next;

        proof {
            self.lemma_dequeued(*old(self));
        }
        Some(value)
    }

    /// Enqueues `value` on the shared-owner path: claim a slot by moving the
    /// producer's claimed position, fill it, then publish by moving the
    /// published position. A full ring is left as it was and hands `value`
    /// back.
    pub fn multi_enqueue(&mut self, value: T) -> (leftover: Option<T>)
        requires
            old(self).wf(),
        ensures
            final(self).wf(),
            final(self).capacity() == old(self).capacity(),
            final(self)@ == after_enqueue(old(self)@, old(self).capacity(), value),
            leftover == turned_away(old(self)@, old(self).capacity(), value),
    {
        let mut head: u32;
        let mut next: u32;
        let mut tail: u32;

        // Whoever holds the ring exclusively cannot lose a claim: each loop
        // below is left on its first pass.
        loop
            invariant_except_break
                *self == *old(self),
            invariant
                old(self).wf(),
            ensures
                head == old(self).prod.head,
                next == successor(head as int, old(self).prod.size as int),
                next != old(self).cons.tail,
                self.prod == (Cursor { head: next, ..old(self).prod }),
                self.cons == old(self).cons,
                self.inner == old(self).inner,
            decreases 0int,
        {
            head = self.prod.front();
            tail = self.cons.back();

            next = self.prod.next(head);
            proof {
                lemma_successor_wraps(head as int, self.prod.size as int);
            }

            if next == tail {
                return Some(value);
            }
            if self.prod.exchange_front(head, next) {
                break ;
            }
        }

        self.inner.write(head as usize, value);

        let ghost filled = self.inner;
        loop
            invariant_except_break
                self.prod == (Cursor { head: next, ..old(self).prod }),
            invariant
                old(self).wf(),
                head == old(self).prod.head,
                head < old(self).prod.size,
                next < old(self).prod.size,
                self.cons == old(self).cons,
                self.inner == filled,
            ensures
                self.prod == (Cursor { head: next, tail: next, ..old(self).prod }),
            decreases 0int,
        {
            if self.prod.exchange_back(head, next) {
                break ;
            }
        }

        proof {
            self.lemma_enqueued(*old(self), value);
        }
        None
    }

    /// Dequeues on the shared-owner path: claim the oldest slot by moving
    /// the consumer's claimed position, empty it, then publish by moving the
    /// published position. An empty ring is left as it was and returns
    /// nothing.
    pub fn multi_dequeue(&mut self) -> (value: Option<T>)
        requires
            old(self).wf(),
        ensures
            final(self).wf(),
            final(self).capacity() == old(self).capacity(),
            final(self)@ == after_dequeue(old(self)@),
            value == handed_out(old(self)@),
    {
        let mut head: u32;
        let mut next: u32;
        let mut tail: u32;

        loop
            invariant_except_break
                *self == *old(self),
            invariant
                old(self).wf(),
            ensures
                head == old(self).cons.head,
                next == successor(head as int, old(self).cons.size as int),
                head != old(self).prod.tail,
                self.cons == (Cursor { head: next, ..old(self).cons }),
                self.prod == old(self).prod,
                self.inner == old(self).inner,
            decreases 0int,
        {
            head = self.cons.front();
            tail = self.prod.back();

            next = self.cons.next(head);
            proof {
                lemma_successor_wraps(head as int, self.cons.size as int);
            }

            if head == tail {
                return None;
            }
            if self.cons.exchange_front(head, next) {
                break ;
            }
        }

        proof {
            old(self).lemma_oldest_is_live();
        }
        let value = self.inner.read(head as usize);

        let ghost emptied = self.inner;
        loop
            invariant_except_break
                self.cons == (Cursor { head: next, ..old(self).cons }),
            invariant
                old(self).wf(),
                head == old(self).cons.head,
                head < old(self).cons.size,
                next < old(self).cons.size,
                self.prod == old(self).prod,
                self.inner == emptied,
            ensures
                self.cons == (Cursor { head: next, tail: next, ..old(self).cons }),
            decreases 0int,
        {
            if self.cons.exchange_back(head, next) {
                break ;
            }
        }

        proof {
            self.lemma_dequeued(*old(self));
        }
        Some(value)
    }

    /// Enqueues `value` on the path that `handles` sharing handles call
    /// for. The outcome does not depend on the path taken.
    pub fn enqueue(&mut self, handles: usize, value: T) -> (leftover: Option<T>)
        requires
            old(self).wf(),
        ensures
            final(self).wf(),
            final(self).capacity() == old(self).capacity(),
            final(self)@ == after_enqueue(old(self)@, old(self).capacity(), value),
            leftover == turned_away(old(self)@, old(self).capacity(), value),
    {
        if shared_path(handles) {
            self.multi_enqueue(value)
        } else {
            self.single_enqueue(value)
        }
    }

    /// Dequeues on the path that `handles` sharing handles call for. The
    /// outcome does not depend on the path taken.
    pub fn dequeue(&mut self, handles: usize) -> (value: Option<T>)
        requires
            old(self).wf(),
        ensures
            final(self).wf(),
            final(self).capacity() == old(self).capacity(),
            final(self)@ == after_dequeue(old(self)@),
            value == handed_out(old(self)@),
    {
        if shared_path(handles) {
            self.multi_dequeue()
        } else {
            self.single_dequeue()
        }
    }

    /// In a ring that is not empty, the slot at the consumer's position is
    /// live.
    proof fn lemma_oldest_is_live(&self)
        requires
            self.wf(),
            self.prod.tail != self.cons.head,
        ensures
            live(self.inner@, self.cons.head as int),
    {
    }

    /// What one accepted enqueue does to the ring: `before` had room, and
    /// `self` is `before` with `value` stored at the producer's position and
    /// that position advanced.
    proof fn lemma_enqueued(&self, before: Self, value: T)
        requires
            before.wf(),
            successor(before.prod.head as int, before.prod.size as int) != before.cons.tail,
            self.cons == before.cons,
            self.prod == (Cursor {
                head: successor(before.prod.head as int, before.prod.size as int) as u32,
                tail: successor(before.prod.head as int, before.prod.size as int) as u32,
                ..before.prod
            }),
            self.inner.wf(),
            self.inner.size == before.inner.size,
            self.inner@ == stored(before.inner@, before.prod.head as int, value),
        ensures
            self.wf(),
            self.capacity() == before.capacity(),
            !is_full(before@, before.capacity()),
            self@ == before@.push(value),
    {
        let cap = before.inner.size as int;
        let start = before.cons.head as int;
        let head = before.prod.head as int;
        lemma_successor_wraps(head, cap);
        assert forall|i: int| 0 <= i < cap implies (#[trigger] live(self.inner@, i) <==> distance(
            start,
            i,
            cap,
        ) < distance(start, self.prod.head as int, cap)) by {
            assert(live(before.inner@, i) <==> distance(start, i, cap) < distance(
                start,
                head,
                cap,
            ));
        }
        assert(self@ =~= before@.push(value));
    }

    /// What one successful dequeue does to the ring: `before` was not empty,
    /// and `self` is `before` with the slot at the consumer's position
    /// emptied and that position advanced.
    proof fn lemma_dequeued(&self, before: Self)
        requires
            before.wf(),
            before.prod.tail != before.cons.head,
            self.prod == before.prod,
            self.cons == (Cursor {
                head: successor(before.cons.head as int, before.cons.size as int) as u32,
                tail: successor(before.cons.head as int, before.cons.size as int) as u32,
                ..before.cons
            }),
            self.inner.wf(),
            self.inner.size == before.inner.size,
            self.inner@ == vacated(before.inner@, before.cons.head as int),
        ensures
            self.wf(),
            self.capacity() == before.capacity(),
            before@.len() > 0,
            live(before.inner@, before.cons.head as int),
            before@[0] == element(before.inner@, before.cons.head as int),
            self@ == before@.drop_first(),
    {
        let cap = before.inner.size as int;
        let start = before.cons.head as int;
        let end = before.prod.head as int;
        lemma_successor_wraps(start, cap);
        assert(live(before.inner@, start));
        assert forall|i: int| 0 <= i < cap implies (#[trigger] live(self.inner@, i) <==> distance(
            self.cons.head as int,
            i,
            cap,
        ) < distance(self.cons.head as int, end, cap)) by {
            assert(live(before.inner@, i) <==> distance(start, i, cap) < distance(start, end, cap));
        }
        assert(self@ =~= before@.drop_first());
    }
}

} // verus!
