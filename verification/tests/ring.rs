use ring::ring::shared_path;
use ring::ring::Ring;
use std::cell::Cell;
use std::collections::VecDeque;
use std::rc::Rc;

struct Counted {
    id: usize,
    alive: Rc<Cell<usize>>,
    drops: Rc<Cell<usize>>,
}

impl Counted {
    fn new(id: usize, alive: &Rc<Cell<usize>>, drops: &Rc<Cell<usize>>) -> Self {
        alive.set(alive.get() + 1);
        Counted { id, alive: Rc::clone(alive), drops: Rc::clone(drops) }
    }
}

impl Drop for Counted {
    fn drop(&mut self) {
        self.alive.set(self.alive.get() - 1);
        self.drops.set(self.drops.get() + 1);
    }
}

fn sum(n: usize) -> usize {
    (0..n).fold(0, |a, b| a + b)
}

/// Runs `producers` producers, each enqueueing `0..n`, against `consumers`
/// consumers, each draining its share, one attempt per turn in rotation, and
/// compares the sum of everything dequeued with what went in.
fn ring_test(producers: usize, consumers: usize, n: usize, bitsize: usize, multi: bool) {
    let cn: usize = n * producers / consumers;
    assert_eq!(n * producers, cn * consumers);

    let mut ring: Ring<usize> = Ring::new(bitsize);
    let mut result: usize = 0;
    let mut pending: Vec<usize> = vec![0; producers];
    let mut taken: Vec<usize> = vec![0; consumers];

    while pending.iter().any(|&j| j < n) || taken.iter().any(|&c| c < cn) {
        for j in pending.iter_mut() {
            if *j < n {
                let leftover =
                    if multi { ring.multi_enqueue(*j) } else { ring.single_enqueue(*j) };
                match leftover {
                    Some(v) => assert_eq!(v, *j),
                    None => *j += 1,
                }
            }
        }
        for c in taken.iter_mut() {
            if *c < cn {
                let value = if multi { ring.multi_dequeue() } else { ring.single_dequeue() };
                if let Some(v) = value {
                    result += v;
                    *c += 1;
                }
            }
        }
    }

    assert_eq!(result, producers * sum(n));
    assert_eq!(ring.single_dequeue(), None);
}

#[test]
fn ring_test_constructor() {
    let mut ring: Ring<u8> = Ring::new(8);
    assert_eq!(ring.single_dequeue(), None);
    assert_eq!(ring.multi_dequeue(), None);
}

#[test]
fn test_single() {
    let mut ring: Ring<u8> = Ring::new(2);

    assert_eq!(ring.single_enqueue(0), None);
    assert_eq!(ring.single_enqueue(1), None);
    assert_eq!(ring.single_enqueue(2), None);
    assert_eq!(ring.single_enqueue(3), Some(3));

    assert_eq!(ring.single_dequeue(), Some(0));
    assert_eq!(ring.single_dequeue(), Some(1));
    assert_eq!(ring.single_dequeue(), Some(2));
    assert_eq!(ring.single_dequeue(), None);
}

#[test]
fn test_multi() {
    let mut ring: Ring<u8> = Ring::new(2);

    assert_eq!(ring.multi_enqueue(0), None);
    assert_eq!(ring.multi_enqueue(1), None);
    assert_eq!(ring.multi_enqueue(2), None);
    assert_eq!(ring.multi_enqueue(3), Some(3));

    assert_eq!(ring.multi_dequeue(), Some(0));
    assert_eq!(ring.multi_dequeue(), Some(1));
    assert_eq!(ring.multi_dequeue(), Some(2));
    assert_eq!(ring.multi_dequeue(), None);
}

#[test]
fn test_single_producer_single_consumer() {
    ring_test(1, 1, 1_000_000, 2, false);
}

#[test]
fn test_single_producer_multi_consumer() {
    ring_test(1, 2, 1_000, 8, true);
    ring_test(2, 4, 1_000, 8, true);
}

#[test]
fn test_multi_producer_single_consumer() {
    ring_test(2, 1, 1_000, 8, true);
    ring_test(4, 2, 1_000, 8, true);
}

#[test]
fn test_multi_producer_multi_consumer() {
    ring_test(2, 2, 1_000, 8, true);
    ring_test(4, 4, 1_000, 8, true);
    ring_test(8, 8, 1_000, 8, true);
}

#[test]
fn two_producers_one_consumer_deliver_999000() {
    let n = 1000usize;
    let mut ring: Ring<usize> = Ring::new(8);
    let mut next = [0usize; 2];
    let mut total = 0usize;
    let mut received = 0usize;
    let mut seen = vec![0usize; n];
    while received < 2 * n {
        for j in next.iter_mut() {
            if *j < n && ring.multi_enqueue(*j).is_none() {
                *j += 1;
            }
        }
        if let Some(v) = ring.multi_dequeue() {
            total += v;
            seen[v] += 1;
            received += 1;
        }
    }
    assert_eq!(total, 999000);
    assert!(seen.iter().all(|&times| times == 2));
    assert_eq!(ring.multi_dequeue(), None);
}

#[test]
fn holds_capacity_minus_one_for_each_size() {
    for log2 in 2..11usize {
        let capacity = 1usize << log2;
        let mut single: Ring<usize> = Ring::new(log2);
        let mut multi: Ring<usize> = Ring::new(log2);
        for v in 0..capacity - 1 {
            assert_eq!(single.single_enqueue(v), None);
            assert_eq!(multi.multi_enqueue(v), None);
        }
        assert_eq!(single.single_enqueue(capacity), Some(capacity));
        assert_eq!(single.multi_enqueue(capacity + 1), Some(capacity + 1));
        assert_eq!(multi.multi_enqueue(capacity), Some(capacity));
        assert_eq!(multi.single_enqueue(capacity + 1), Some(capacity + 1));
        for v in 0..capacity - 1 {
            assert_eq!(single.single_dequeue(), Some(v));
            assert_eq!(multi.multi_dequeue(), Some(v));
        }
        assert_eq!(single.single_dequeue(), None);
        assert_eq!(multi.multi_dequeue(), None);
    }
}

#[test]
fn full_ring_hands_the_value_back_and_keeps_its_contents() {
    let mut ring: Ring<String> = Ring::new(2);
    for v in ["a", "b", "c"] {
        assert_eq!(ring.single_enqueue(v.to_string()), None);
    }
    assert_eq!(ring.single_enqueue("d".to_string()), Some("d".to_string()));
    assert_eq!(ring.multi_enqueue("e".to_string()), Some("e".to_string()));
    assert_eq!(ring.single_dequeue(), Some("a".to_string()));
    assert_eq!(ring.single_enqueue("f".to_string()), None);
    assert_eq!(ring.multi_dequeue(), Some("b".to_string()));
    assert_eq!(ring.multi_dequeue(), Some("c".to_string()));
    assert_eq!(ring.multi_dequeue(), Some("f".to_string()));
    assert_eq!(ring.multi_dequeue(), None);
    assert_eq!(ring.single_dequeue(), None);
}

#[test]
fn fifo_across_many_wraparounds() {
    let mut ring: Ring<u32> = Ring::new(3);
    let mut expected: VecDeque<u32> = VecDeque::new();
    let mut next: u32 = 0;
    let mut state: u32 = 12345;
    for _ in 0..20_000 {
        state = state.wrapping_mul(1664525).wrapping_add(1013904223);
        let choice = (state >> 16) % 4;
        if choice < 2 {
            let leftover =
                if choice == 0 { ring.single_enqueue(next) } else { ring.multi_enqueue(next) };
            if expected.len() == 7 {
                assert_eq!(leftover, Some(next));
            } else {
                assert_eq!(leftover, None);
                expected.push_back(next);
            }
            next += 1;
        } else {
            let value = if choice == 2 { ring.single_dequeue() } else { ring.multi_dequeue() };
            assert_eq!(value, expected.pop_front());
        }
        assert!(expected.len() <= 7);
    }
}

#[test]
fn paths_agree_whatever_the_handle_count() {
    let counts = [0usize, 1, 2, 3, 4, 17, usize::MAX];
    let mut ring: Ring<usize> = Ring::new(2);
    let mut expected: VecDeque<usize> = VecDeque::new();
    let mut value = 0usize;
    for round in 0..200usize {
        let handles = counts[round % counts.len()];
        if round % 3 != 2 {
            let leftover = ring.enqueue(handles, value);
            if expected.len() == 3 {
                assert_eq!(leftover, Some(value));
            } else {
                assert_eq!(leftover, None);
                expected.push_back(value);
            }
            value += 1;
        } else {
            let other = counts[(round / 3) % counts.len()];
            assert_eq!(ring.dequeue(other), expected.pop_front());
        }
    }
}

#[test]
fn shared_path_is_for_more_than_two_handles() {
    assert!(!shared_path(0));
    assert!(!shared_path(1));
    assert!(!shared_path(2));
    assert!(shared_path(3));
    assert!(shared_path(usize::MAX));
}

#[test]
fn teardown_destroys_each_live_element_once() {
    let alive = Rc::new(Cell::new(0usize));
    let drops = Rc::new(Cell::new(0usize));
    {
        let mut ring: Ring<Counted> = Ring::new(3);
        for id in 0..5 {
            assert!(ring.single_enqueue(Counted::new(id, &alive, &drops)).is_none());
        }
        let first = ring.single_dequeue();
        assert_eq!(first.map(|c| c.id), Some(0));
        assert_eq!(drops.get(), 1);
        let second = ring.multi_dequeue();
        assert_eq!(second.as_ref().map(|c| c.id), Some(1));
        assert_eq!(alive.get(), 4);
        drop(second);
        assert_eq!(alive.get(), 3);
        assert_eq!(drops.get(), 2);
    }
    assert_eq!(alive.get(), 0);
    assert_eq!(drops.get(), 5);
}

#[test]
fn teardown_of_an_untouched_ring_destroys_nothing() {
    let alive = Rc::new(Cell::new(0usize));
    let drops = Rc::new(Cell::new(0usize));
    {
        let _ring: Ring<Counted> = Ring::new(4);
    }
    assert_eq!(alive.get(), 0);
    assert_eq!(drops.get(), 0);
}

#[test]
fn teardown_after_wraparound() {
    let alive = Rc::new(Cell::new(0usize));
    let drops = Rc::new(Cell::new(0usize));
    {
        let mut ring: Ring<Counted> = Ring::new(2);
        for id in 0..10 {
            assert!(ring.multi_enqueue(Counted::new(id, &alive, &drops)).is_none());
            if id >= 2 {
                assert_eq!(ring.multi_dequeue().map(|c| c.id), Some(id - 2));
            }
        }
        assert_eq!(alive.get(), 2);
        assert_eq!(drops.get(), 8);
    }
    assert_eq!(alive.get(), 0);
    assert_eq!(drops.get(), 10);
}

#[test]
fn refused_element_is_not_destroyed() {
    let alive = Rc::new(Cell::new(0usize));
    let drops = Rc::new(Cell::new(0usize));
    let mut ring: Ring<Counted> = Ring::new(2);
    for id in 0..3 {
        assert!(ring.single_enqueue(Counted::new(id, &alive, &drops)).is_none());
    }
    let back = ring.single_enqueue(Counted::new(3, &alive, &drops));
    assert_eq!(back.as_ref().map(|c| c.id), Some(3));
    assert_eq!(drops.get(), 0);
    assert_eq!(alive.get(), 4);
}
