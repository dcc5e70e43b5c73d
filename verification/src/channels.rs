//! The channel fabric primitives: unbounded queues from the `crossbeam-channel`
//! crate, used for inbound packets, controller commands and node events.
//!
//! Queue contents race with other threads, so the contracts state only
//! what holds of every outcome.

use vstd::prelude::*;

verus! {

/// Relies on crossbeam_channel::Sender, the sending half of a queue; its
/// values are opaque handles here.
#[verifier::external_type_specification]
#[verifier::external_body]
#[verifier::reject_recursive_types(T)]
pub struct ExSender<T>(crossbeam_channel::Sender<T>);

/// Relies on crossbeam_channel::Receiver, the receiving half of a queue;
/// its values are opaque handles here.
#[verifier::external_type_specification]
#[verifier::external_body]
#[verifier::reject_recursive_types(T)]
pub struct ExReceiver<T>(crossbeam_channel::Receiver<T>);

/// Relies on crossbeam_channel::unbounded: a fresh queue of unlimited
/// capacity, returned as its send and receive halves.
pub assume_specification<T>[ crossbeam_channel::unbounded::<T> ]() -> (r: (
    crossbeam_channel::Sender<T>,
    crossbeam_channel::Receiver<T>,
));

/// Relies on crossbeam_channel::Sender::clone: another handle sending into
/// the same queue.
#[verifier::external_body]
pub fn clone_sender<T>(s: &crossbeam_channel::Sender<T>) -> crossbeam_channel::Sender<T> {
    s.clone()
}

/// Relies on crossbeam_channel::Sender::send: on an unbounded queue the send
/// fails only when every receiver is gone.  Returns whether the message was
/// queued.
#[verifier::external_body]
pub fn channel_send<T>(s: &crossbeam_channel::Sender<T>, msg: T) -> bool {
    s.send(msg).is_ok()
}

/// Relies on crossbeam_channel::Receiver::try_recv: pops one queued message
/// without blocking, or returns nothing when the queue is empty or closed.
#[verifier::external_body]
pub fn channel_try_recv<T>(r: &crossbeam_channel::Receiver<T>) -> Option<T> {
    r.try_recv().ok()
}

/// Relies on rand::random: a pseudorandom 64-bit value; nothing is promised
/// of its distribution.
#[verifier::external_body]
pub fn random_u64() -> u64 {
    rand::random()
}

} // verus!
