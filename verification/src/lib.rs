//! A fixed-capacity circular queue and the handles that share it.
//!
//! The queue is built in layers: a [`buffer::Buffer`] of slots, two
//! [`cursor::Cursor`] position trackers (one for the producer side, one for
//! the consumer side), the [`ring::Ring`] engine that composes them, and the
//! [`channel::Channel`] handles through which several owners reach one ring.
//! [`model`] says what a queue is, as a sequence of elements, and states the
//! laws that every history of enqueue and dequeue attempts obeys.

pub mod buffer;
pub mod channel;
pub mod cursor;
pub mod model;
pub mod ring;
