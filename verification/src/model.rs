//! The queue as a sequence of elements, oldest first.
//!
//! Four functions say what one attempt to enqueue or dequeue does to that
//! sequence and what it returns. The ring's operations are specified by
//! them, on either algorithm. A history of attempts is a sequence of
//! [`Step`]s; the laws below hold of every history.

use vstd::prelude::*;
use vstd::seq_lib::lemma_multiset_commutative;

verus! {

/// Whether a queue holding `queue` has no room left among `capacity` slots,
/// one of which always stays unused.
pub open spec fn is_full<T>(queue: Seq<T>, capacity: nat) -> bool {
    queue.len() + 1 >= capacity
}

/// The queue after an attempt to enqueue `value`.
pub open spec fn after_enqueue<T>(queue: Seq<T>, capacity: nat, value: T) -> Seq<T> {
    if is_full(queue, capacity) {
        queue
    } else {
        queue.push(value)
    }
}

/// What an attempt to enqueue `value` hands back: the value itself when the
/// queue is full, nothing when it was accepted.
pub open spec fn turned_away<T>(queue: Seq<T>, capacity: nat, value: T) -> Option<T> {
    if is_full(queue, capacity) {
        Some(value)
    } else {
        None
    }
}

/// The queue after an attempt to dequeue.
pub open spec fn after_dequeue<T>(queue: Seq<T>) -> Seq<T> {
    if queue.len() == 0 {
        queue
    } else {
        queue.drop_first()
    }
}

/// What an attempt to dequeue returns: the oldest element, or nothing when
/// the queue is empty.
pub open spec fn handed_out<T>(queue: Seq<T>) -> Option<T> {
    if queue.len() == 0 {
        None
    } else {
        Some(queue[0])
    }
}

/// One attempt on the queue, by whichever handle and on whichever path.
pub enum Step<T> {
    /// An attempt to enqueue the value.
    Enqueue(T),
    /// An attempt to dequeue.
    Dequeue,
}

/// The queue after one step.
pub open spec fn after_step<T>(queue: Seq<T>, capacity: nat, step: Step<T>) -> Seq<T> {
    match step {
        Step::Enqueue(value) => after_enqueue(queue, capacity, value),
        Step::Dequeue => after_dequeue(queue),
    }
}

/// The queue after all of `steps`, starting from `queue`.
pub open spec fn after_steps<T>(queue: Seq<T>, capacity: nat, steps: Seq<Step<T>>) -> Seq<T>
    decreases steps.len(),
{
    if steps.len() == 0 {
        queue
    } else {
        after_step(after_steps(queue, capacity, steps.drop_last()), capacity, steps.last())
    }
}

/// The values that the enqueue attempts among `steps` got accepted, in the
/// order of the attempts.
pub open spec fn accepted<T>(queue: Seq<T>, capacity: nat, steps: Seq<Step<T>>) -> Seq<T>
    decreases steps.len(),
{
    if steps.len() == 0 {
        Seq::empty()
    } else {
        let earlier = accepted(queue, capacity, steps.drop_last());
        let current = after_steps(queue, capacity, steps.drop_last());
        match steps.last() {
            Step::Enqueue(value) => if turned_away(current, capacity, value) is None {
                earlier.push(value)
            } else {
                earlier
            },
            Step::Dequeue => earlier,
        }
    }
}

/// The values that the dequeue attempts among `steps` returned, in the
/// order of the attempts.
pub open spec fn received<T>(queue: Seq<T>, capacity: nat, steps: Seq<Step<T>>) -> Seq<T>
    decreases steps.len(),
{
    if steps.len() == 0 {
        Seq::empty()
    } else {
        let earlier = received(queue, capacity, steps.drop_last());
        let current = after_steps(queue, capacity, steps.drop_last());
        match steps.last() {
            Step::Enqueue(value) => earlier,
            Step::Dequeue => match handed_out(current) {
                Some(value) => earlier.push(value),
                None => earlier,
            },
        }
    }
}

/// One enqueue attempt per value, in order.
pub open spec fn enqueue_each<T>(values: Seq<T>) -> Seq<Step<T>> {
    Seq::new(values.len(), |i: int| Step::Enqueue(values[i]))
}

/// A queue that holds at most `capacity - 1` elements still does so after
/// any history: no more than `capacity - 1` elements are ever held at once.
pub proof fn lemma_occupancy_bounded<T>(queue: Seq<T>, capacity: nat, steps: Seq<Step<T>>)
    requires
        queue.len() + 1 <= capacity,
    ensures
        after_steps(queue, capacity, steps).len() + 1 <= capacity,
    decreases steps.len(),
{
    if steps.len() > 0 {
        lemma_occupancy_bounded(queue, capacity, steps.drop_last());
    }
}

/// Enqueue attempts with no dequeue in between, on an empty queue: the
/// first `capacity - 1` values are accepted and every later one is turned
/// away.
pub proof fn lemma_room_for_all_but_one<T>(capacity: nat, values: Seq<T>)
    requires
        capacity >= 1,
    ensures
        values.len() <= capacity - 1 ==> accepted(
            Seq::empty(),
            capacity,
            enqueue_each(values),
        ) == values,
        values.len() > capacity - 1 ==> accepted(Seq::empty(), capacity, enqueue_each(values))
            == values.take(capacity - 1),
        after_steps(Seq::empty(), capacity, enqueue_each(values)) == accepted(
            Seq::empty(),
            capacity,
            enqueue_each(values),
        ),
        forall|extra: T|
            values.len() >= capacity - 1 ==> #[trigger] turned_away(
                after_steps(Seq::empty(), capacity, enqueue_each(values)),
                capacity,
                extra,
            ) == Some(extra),
    decreases values.len(),
{
    let steps = enqueue_each(values);
    if values.len() > 0 {
        let shorter = values.drop_last();
        lemma_room_for_all_but_one(capacity, shorter);
        assert(steps.drop_last() =~= enqueue_each(shorter));
        assert(steps.last() == Step::Enqueue(values.last()));
        if shorter.len() < capacity - 1 {
            assert(shorter.push(values.last()) =~= values);
        } else if shorter.len() == capacity - 1 {
            assert(shorter =~= values.take(capacity - 1));
        } else {
            assert(shorter.take(capacity - 1) =~= values.take(capacity - 1));
        }
    }
}

/// First in, first out: after any history, what the queue held at the start
/// followed by what was accepted is what was received followed by what the
/// queue still holds. So values come out in the order in which they went
/// in, none of them twice and none of them lost.
pub proof fn lemma_fifo<T>(queue: Seq<T>, capacity: nat, steps: Seq<Step<T>>)
    ensures
        queue + accepted(queue, capacity, steps) == received(queue, capacity, steps) + after_steps(
            queue,
            capacity,
            steps,
        ),
    decreases steps.len(),
{
    let went_in = accepted(queue, capacity, steps);
    let came_out = received(queue, capacity, steps);
    let held = after_steps(queue, capacity, steps);
    if steps.len() == 0 {
        assert(queue + went_in =~= came_out + held);
    } else {
        let before = steps.drop_last();
        lemma_fifo(queue, capacity, before);
        let went_in_before = accepted(queue, capacity, before);
        let came_out_before = received(queue, capacity, before);
        let held_before = after_steps(queue, capacity, before);
        assert(queue + went_in_before == came_out_before + held_before);
        match steps.last() {
            Step::Enqueue(value) => {
                if turned_away(held_before, capacity, value) is None {
                    assert(queue + went_in =~= (queue + went_in_before).push(value));
                    assert(came_out + held =~= (came_out_before + held_before).push(value));
                }
            },
            Step::Dequeue => {
                if held_before.len() > 0 {
                    assert(came_out + held =~= came_out_before + held_before);
                }
            },
        }
    }
}

/// A history that starts and ends with an empty queue has received exactly
/// the accepted values, in the order of their acceptance.
pub proof fn lemma_drained_in_order<T>(capacity: nat, steps: Seq<Step<T>>)
    requires
        after_steps(Seq::<T>::empty(), capacity, steps).len() == 0,
    ensures
        received(Seq::<T>::empty(), capacity, steps) == accepted(
            Seq::<T>::empty(),
            capacity,
            steps,
        ),
{
    let start = Seq::<T>::empty();
    lemma_fifo(start, capacity, steps);
    assert(start + accepted(start, capacity, steps) =~= accepted(start, capacity, steps));
    assert(received(start, capacity, steps) + after_steps(start, capacity, steps) =~= received(
        start,
        capacity,
        steps,
    ));
}

/// Conservation: counted with multiplicity, the values held at the start
/// together with the accepted ones are the received ones together with
/// those still held. Nothing is duplicated and nothing is lost, whatever
/// the interleaving of attempts.
pub proof fn lemma_conservation<T>(queue: Seq<T>, capacity: nat, steps: Seq<Step<T>>)
    ensures
        queue.to_multiset().add(accepted(queue, capacity, steps).to_multiset()) == received(
            queue,
            capacity,
            steps,
        ).to_multiset().add(after_steps(queue, capacity, steps).to_multiset()),
{
    lemma_fifo(queue, capacity, steps);
    lemma_multiset_commutative(queue, accepted(queue, capacity, steps));
    lemma_multiset_commutative(
        received(queue, capacity, steps),
        after_steps(queue, capacity, steps),
    );
}

} // verus!
