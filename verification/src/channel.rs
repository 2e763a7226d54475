//! Clonable handles that share one ring.
//!
//! Every handle may enqueue and dequeue; none is a sender or a receiver by
//! type. Each call looks at how many handles exist at that moment and takes
//! the ring's shared-owner path if there are more than two, else the
//! single-owner path. A call is one attempt: it never waits. An attempt that
//! finds another handle at work on the ring fails like one that finds the
//! ring full or empty, and the caller tries again.

use crate::model::{after_dequeue, after_enqueue, handed_out, turned_away};
use crate::ring::Ring;
use std::sync::Arc;
use std::sync::Mutex;
use std::sync::MutexGuard;
use vstd::layout::size_of;
use vstd::prelude::*;

verus! {

/// `std::sync::Mutex`, carried through as an opaque value.
#[verifier::external_type_specification]
#[verifier::external_body]
#[verifier::reject_recursive_types(T)]
pub struct ExMutex<T: ?Sized>(Mutex<T>);

/// `std::sync::MutexGuard`, carried through as an opaque value.
#[verifier::external_type_specification]
#[verifier::external_body]
#[verifier::reject_recursive_types(T)]
pub struct ExMutexGuard<'a, T: ?Sized + 'a>(MutexGuard<'a, T>);

/// `Mutex::new` wraps a value and never fails. Nothing is claimed of the
/// mutex it returns.
pub assume_specification<T>[ Mutex::<T>::new ](t: T) -> Mutex<T>;

/// `Mutex::try_lock`, which never waits: the guard if the mutex was free,
/// nothing if it was held or poisoned. Nothing is claimed of which of the
/// two comes back.
#[verifier::external_body]
fn try_acquire<'a, T>(lock: &'a Mutex<Seat<T>>) -> Option<MutexGuard<'a, Seat<T>>> {
    lock.try_lock().ok()
}

/// `DerefMut::deref_mut` of a `MutexGuard`: exclusive access to what the
/// mutex protects. Nothing is claimed of the value found there.
#[verifier::external_body]
fn contents<'a, 'b, T>(guard: &'b mut MutexGuard<'a, Seat<T>>) -> &'b mut Seat<T> {
    &mut **guard
}

/// `Arc::strong_count`: how many handles share the allocation right now.
/// Other threads may clone or drop handles at any time, so nothing is
/// claimed of the number.
#[verifier::external_body]
fn handle_count<T>(shared: &Arc<Mutex<Seat<T>>>) -> usize {
    Arc::strong_count(shared)
}

/// The place where the shared ring sits. It is empty only while a call has
/// taken the ring out to work on it.
struct Seat<T> {
    ring: Option<Ring<T>>,
}

impl<T> Seat<T> {
    /// Whatever ring sits here is well formed.
    #[verifier::type_invariant]
    spec fn inv(&self) -> bool {
        self.ring matches Some(ring) ==> ring.wf()
    }

    /// One attempt to enqueue on the path that `handles` calls for. A
    /// seated ring takes the attempt as the ring itself does, whatever the
    /// path; an empty seat stays empty and hands `value` back.
    fn enqueue(&mut self, handles: usize, value: T) -> (leftover: Option<T>)
        ensures
            final(self).occupied() == old(self).occupied(),
            old(self).occupied() ==> final(self).capacity() == old(self).capacity(),
            old(self).occupied() ==> final(self).queue() == after_enqueue(
                old(self).queue(),
                old(self).capacity(),
                value,
            ),
            old(self).occupied() ==> leftover == turned_away(
                old(self).queue(),
                old(self).capacity(),
                value,
            ),
            !old(self).occupied() ==> leftover == Some(value),
    {
        proof {
            use_type_invariant(&*self);
        }
        let mut seated: Option<Ring<T>> = None;
        core::mem::swap(&mut seated, &mut self.ring);
        match seated {
            Some(mut ring) => {
                let leftover = ring.enqueue(handles, value);
                self.ring = Some(ring);
                leftover
            },
            None => Some(value),
        }
    }

    /// One attempt to dequeue on the path that `handles` calls for. A
    /// seated ring takes the attempt as the ring itself does, whatever the
    /// path; an empty seat stays empty and returns nothing.
    fn dequeue(&mut self, handles: usize) -> (value: Option<T>)
        ensures
            final(self).occupied() == old(self).occupied(),
            old(self).occupied() ==> final(self).capacity() == old(self).capacity(),
            old(self).occupied() ==> final(self).queue() == after_dequeue(old(self).queue()),
            old(self).occupied() ==> value == handed_out(old(self).queue()),
            !old(self).occupied() ==> value is None,
    {
        proof {
            use_type_invariant(&*self);
        }
        let mut seated: Option<Ring<T>> = None;
        core::mem::swap(&mut seated, &mut self.ring);
        match seated {
            Some(mut ring) => {
                let value = ring.dequeue(handles);
                self.ring = Some(ring);
                value
            },
            None => None,
        }
    }

    /// Whether a ring sits here.
    spec fn occupied(&self) -> bool {
        self.ring is Some
    }

    /// The elements of the seated ring, oldest first.
    spec fn queue(&self) -> Seq<T>
        recommends
            self.occupied(),
    {
        self.ring->Some_0@
    }

    /// The number of slots of the seated ring.
    spec fn capacity(&self) -> nat
        recommends
            self.occupied(),
    {
        self.ring->Some_0.capacity()
    }
}

/// A handle to a ring shared with every clone of the handle.
#[verifier::reject_recursive_types(T)]
pub struct Channel<T> {
    ring: Arc<Mutex<Seat<T>>>,
}

impl<T> Channel<T> {
    /// A handle to a fresh, empty ring of `2^log2` slots.
    pub fn new(log2: usize) -> (handle: Self)
        requires
            1 < log2 < 32,
            size_of::<T>() > 0,
    {
        let ring = Ring::new(log2);
        Channel { ring: Arc::new(Mutex::new(Seat { ring: Some(ring) })) }
    }

    /// One more handle to the same ring.
    pub fn clone(&self) -> (handle: Self)
        ensures
            handle == *self,
    {
        Channel { ring: Arc::clone(&self.ring) }
    }

    /// One attempt to enqueue `value`. Hands `value` back if the ring was
    /// full or another handle was at work on it; returns nothing once the
    /// value is in the ring.
    pub fn enqueue(&self, value: T) -> (leftover: Option<T>)
        ensures
            leftover is None || leftover == Some(value),
    {
        let handles = handle_count(&self.ring);
        match try_acquire(&self.ring) {
            Some(mut guard) => contents(&mut guard).enqueue(handles, value),
            None => Some(value),
        }
    }

    /// One attempt to dequeue. Returns nothing if the ring was empty or
    /// another handle was at work on it, else the oldest element.
    pub fn dequeue(&self) -> Option<T> {
        let handles = handle_count(&self.ring);
        match try_acquire(&self.ring) {
            Some(mut guard) => contents(&mut guard).dequeue(handles),
            None => None,
        }
    }
}

/// Two handles to one fresh, empty ring of `2^log2` slots.
pub fn channel<T>(log2: usize) -> (handles: (Channel<T>, Channel<T>))
    requires
        1 < log2 < 32,
        size_of::<T>() > 0,
    ensures
        handles.0 == handles.1,
{
    let chan = Channel::new(log2);
    (chan.clone(), chan)
}

} // verus!
