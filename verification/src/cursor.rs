//! Position tracker for one side of a circular queue.
//!
//! A tracker holds two positions, `head` (the position currently claimed by
//! this side) and `tail` (the position up to which this side's work has been
//! published to the other side), together with a power-of-two capacity and the
//! matching wraparound mask.
//!
//! Every operation takes the tracker by exclusive reference, so a load sees
//! the one current value and an exchange is decided by it alone: it moves a
//! position only if the position still is where the caller last saw it.

use vstd::arithmetic::div_mod::{lemma_mod_multiples_basic, lemma_mod_self_0, lemma_small_mod};
use vstd::arithmetic::power::{lemma_pow_positive, pow};
use vstd::arithmetic::power2::{
    is_pow2, is_pow2_equiv, lemma2_to64, lemma_pow2_adds, lemma_pow2_strictly_increases, pow2,
};
use vstd::bits::lemma_u32_low_bits_mask_is_mod;
use vstd::prelude::*;

verus! {

/// The position that follows `pos` on a circle of `capacity` positions.
pub open spec fn successor(pos: int, capacity: int) -> int {
    (pos + 1) % capacity
}

/// Wraparound: the successor of the last position is zero, and that of any
/// other position on the circle is the next index.
pub proof fn lemma_successor_wraps(pos: int, capacity: int)
    requires
        0 <= pos < capacity,
    ensures
        successor(pos, capacity) == if pos + 1 == capacity {
            0
        } else {
            pos + 1
        },
        0 <= successor(pos, capacity) < capacity,
{
    if pos + 1 < capacity {
        lemma_small_mod((pos + 1) as nat, capacity as nat);
    } else {
        lemma_mod_self_0(capacity);
    }
}

/// For a power-of-two `size`, masking with `size - 1` is reduction modulo `size`,
/// and `size` divides `2^32`.
pub proof fn lemma_mask_is_modulo(size: u32, value: u32)
    requires
        is_pow2(size as int),
    ensures
        size >= 1,
        value & ((size - 1) as u32) == value % size,
        0x1_0000_0000int % (size as int) == 0,
{
    is_pow2_equiv(size as int);
    let k: nat = choose|k: nat| pow(2, k) == size as int;
    lemma_pow_positive(2, k);
    assert(pow2(k) == size as int);
    lemma2_to64();
    if k >= 32 {
        if k > 32 {
            lemma_pow2_strictly_increases(32, k);
        }
        assert(false);
    }
    lemma_u32_low_bits_mask_is_mod(value, k);
    lemma_pow2_adds(k, (32 - k) as nat);
    let cofactor = pow2((32 - k) as nat) as int;
    assert(0x1_0000_0000int == cofactor * (size as int)) by (nonlinear_arith)
        requires
            pow2(32) == 0x1_0000_0000int,
            pow2(k) * pow2((32 - k) as nat) == pow2(32),
            pow2(k) == size as int,
            cofactor == pow2((32 - k) as nat),
    ;
    lemma_mod_multiples_basic(cofactor, size as int);
}

/// One side's pair of positions on a circle of `size` slots.
#[derive(Debug)]
pub struct Cursor {
    /// Position currently claimed by this side.
    pub head: u32,
    /// Position up to which this side's work is visible to the other side.
    pub tail: u32,
    /// Number of positions on the circle; a power of two.
    pub size: u32,
    /// `size - 1`: masking with it wraps a position back onto the circle.
    pub mask: u32,
}

impl Cursor {
    /// The tracker's invariant: the capacity is a power of two, the mask
    /// matches it, and both positions lie on the circle.
    pub open spec fn wf(&self) -> bool {
        &&& is_pow2(self.size as int)
        &&& self.mask == self.size - 1
        &&& self.head < self.size
        &&& self.tail < self.size
    }

    /// A tracker over `size` positions with both positions at zero.
    pub fn new(size: u32) -> (cursor: Self)
        requires
            is_pow2(size as int),
        ensures
            cursor.wf(),
            cursor.head == 0,
            cursor.tail == 0,
            cursor.size == size,
            cursor.mask == size - 1,
    {
        proof {
            lemma_mask_is_modulo(size, 0);
        }
        Cursor { head: 0, tail: 0, size, mask: size - 1 }
    }

    /// The position after `head`, wrapping to zero at the end of the circle.
    pub fn next(&mut self, head: u32) -> (next: u32)
        requires
            old(self).wf(),
        ensures
            *final(self) == *old(self),
            next == successor(head as int, old(self).size as int),
            next < old(self).size,
    {
        let bumped: u32 = head.wrapping_add(1);
        proof {
            lemma_mask_is_modulo(self.size, bumped);
            assert(self.mask == (self.size - 1) as u32);
            assert(bumped & self.mask == bumped % self.size);
            let size = self.size as int;
            if head == u32::MAX {
                assert(bumped == 0);
                assert(head + 1 == 0x1_0000_0000int);
                assert((head + 1) % size == 0);
                assert(0int % size == 0) by (nonlinear_arith)
                    requires
                        size > 0,
                ;
            } else {
                assert(bumped == head + 1);
            }
            assert((bumped % self.size) as int == (bumped as int) % size);
        }
        bumped & self.mask
    }

    /// The claimed position.
    pub fn front(&mut self) -> (head: u32)
        ensures
            *final(self) == *old(self),
            head == old(self).head,
    {
        self.head
    }

    /// The published position.
    pub fn back(&mut self) -> (tail: u32)
        ensures
            *final(self) == *old(self),
            tail == old(self).tail,
    {
        self.tail
    }

    /// Whether this side has published everything up to `head`.
    pub fn reached(&mut self, head: u32) -> (hit: bool)
        requires
            head < old(self).size,
        ensures
            *final(self) == *old(self),
            hit == (old(self).tail == head),
    {
        self.tail == head
    }

    /// Moves the claimed position from `head` to `next` if it is still at
    /// `head`; otherwise leaves the tracker as it was.
    pub fn exchange_front(&mut self, head: u32, next: u32) -> (swapped: bool)
        requires
            head < old(self).size,
            next < old(self).size,
        ensures
            swapped == (old(self).head == head),
            swapped ==> *final(self) == (Cursor { head: next, ..*old(self) }),
            !swapped ==> *final(self) == *old(self),
    {
        if self.head == head {
            self.head = next;
            true
        } else {
            false
        }
    }

    /// Moves the published position from `tail` to `next` if it is still at
    /// `tail`; otherwise leaves the tracker as it was.
    pub fn exchange_back(&mut self, tail: u32, next: u32) -> (swapped: bool)
        requires
            tail < old(self).size,
            next < old(self).size,
        ensures
            swapped == (old(self).tail == tail),
            swapped ==> *final(self) == (Cursor { tail: next, ..*old(self) }),
            !swapped ==> *final(self) == *old(self),
    {
        if self.tail == tail {
            self.tail = next;
            true
        } else {
            false
        }
    }
}

} // verus!
