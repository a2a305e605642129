//! The broadcast channels of pub/sub, from `tokio::sync::broadcast`, and
//! the record of a message handed to one.

use vstd::prelude::*;
use tokio::sync::broadcast::{Receiver, Sender};

verus! {

#[verifier::external_type_specification]
#[verifier::external_body]
#[verifier::reject_recursive_types(T)]
pub struct ExSender<T>(Sender<T>);

#[verifier::external_type_specification]
#[verifier::external_body]
#[verifier::reject_recursive_types(T)]
pub struct ExReceiver<T>(Receiver<T>);

/// A receiver of a broadcast channel, with the channel it receives from:
/// the sender it was made from. Only `broadcast_channel` and
/// `subscribe_receiver` make one.
pub struct Subscription {
    /// The receiving half.
    rx: Receiver<Vec<u8>>,
    /// The channel's sender.
    channel: Ghost<Sender<Vec<u8>>>,
}

impl Subscription {
    /// The channel the receiver receives from, by its sender.
    pub closed spec fn channel(&self) -> Sender<Vec<u8>> {
        self.channel@
    }

    /// The receiving half.
    pub fn into_receiver(self) -> Receiver<Vec<u8>> {
        self.rx
    }
}

/// `tokio::sync::broadcast::channel`: a new channel that keeps up to
/// `capacity` messages (rounded up to a power of two), as its sender and a
/// receiver of it. It panics on a capacity of zero or above
/// `usize::MAX / 2`, which `requires` excludes.
#[verifier::external_body]
pub(crate) fn broadcast_channel(capacity: usize) -> (res: (Sender<Vec<u8>>, Subscription))
    requires
        0 < capacity <= usize::MAX / 2,
    ensures
        res.1.channel() == res.0,
{
    let (tx, rx) = tokio::sync::broadcast::channel(capacity);
    let channel = Ghost(tx);
    (tx, Subscription { rx, channel })
}

/// `tokio::sync::broadcast::Sender::subscribe`: a new receiver of the
/// channel of `tx`, which gets the messages sent after this call. (It
/// panics when the channel already has `usize::MAX >> 2` receivers, a count
/// that no contract here can see.)
#[verifier::external_body]
pub(crate) fn subscribe_receiver(tx: &Sender<Vec<u8>>) -> (sub: Subscription)
    ensures
        sub.channel() == *tx,
{
    let channel = Ghost(*tx);
    Subscription { rx: tx.subscribe(), channel }
}

/// What a publish did: the message handed to a channel's sender, and what
/// the send reported. Only `send_message` makes one.
pub struct Sent {
    /// The number of receivers the send reported; `None` when it found
    /// none left.
    reported: Option<usize>,
    /// The sender the message was handed to.
    sender: Ghost<Sender<Vec<u8>>>,
    /// The message.
    message: Ghost<Seq<u8>>,
}

impl Sent {
    /// The sender the message was handed to.
    pub closed spec fn sender(&self) -> Sender<Vec<u8>> {
        self.sender@
    }

    /// The message handed on.
    pub closed spec fn message(&self) -> Seq<u8> {
        self.message@
    }

    /// What the send reported: the number of receivers, or `None` when
    /// no receiver was left.
    pub closed spec fn reported(&self) -> Option<usize> {
        self.reported
    }

    /// The number of subscribers the message reached: what the send
    /// reported, and zero when no receiver was left.
    pub fn count(&self) -> (n: usize)
        ensures
            n == reached(self.reported()),
    {
        match self.reported {
            Some(n) => n,
            None => 0,
        }
    }
}

/// The number of subscribers a send reached, from what it reported.
pub open spec fn reached(reported: Option<usize>) -> usize {
    match reported {
        Some(n) => n,
        None => 0,
    }
}

/// `tokio::sync::broadcast::Sender::send`: hands `value` to the channel of
/// `tx`. On success the send reports the number of receivers subscribed at
/// that moment, which is at least one; it fails when no receiver is left.
/// How many receivers there are depends on the other tasks, so nothing more
/// is stated of the count. The record holds the sender and the message that
/// were handed to the call.
#[verifier::external_body]
pub(crate) fn send_message(tx: &Sender<Vec<u8>>, value: Vec<u8>) -> (sent: Sent)
    ensures
        sent.sender() == *tx,
        sent.message() == value@,
        sent.reported() matches Some(n) ==> n >= 1,
{
    let sender = Ghost(*tx);
    let message = Ghost(value@);
    Sent { reported: tx.send(value).ok(), sender, message }
}

} // verus!
