//! The bounded channels between the callers, the collection window and the dispatcher, and the
//! reply channel of one load.
use crate::gate::most_slots;
use tokio::sync::{mpsc, oneshot};
use vstd::prelude::*;

verus! {

/// The sending half of a bounded channel, opaque to the proofs.
#[verifier::external_type_specification]
#[verifier::external_body]
#[verifier::reject_recursive_types(T)]
pub struct ExMpscSender<T>(mpsc::Sender<T>);

/// The receiving half of a bounded channel, opaque to the proofs.
#[verifier::external_type_specification]
#[verifier::external_body]
#[verifier::reject_recursive_types(T)]
pub struct ExMpscReceiver<T>(mpsc::Receiver<T>);

/// The receiving half of a reply channel, opaque to the proofs.
#[verifier::external_type_specification]
#[verifier::external_body]
#[verifier::reject_recursive_types(T)]
pub struct ExOneshotReceiver<T>(oneshot::Receiver<T>);

/// What a reply channel says whose sending half went without a reply, opaque to the proofs.
#[verifier::external_type_specification]
#[verifier::external_body]
pub struct ExRecvError(oneshot::error::RecvError);

/// Where a bounded channel is filled. Only [`bounded`] and cloning make one.
#[verifier::reject_recursive_types(T)]
pub struct Inlet<T> {
    sender: mpsc::Sender<T>,
    capacity: Ghost<nat>,
}

/// Where a bounded channel is drained. Only [`bounded`] makes one.
#[verifier::reject_recursive_types(T)]
pub struct Outlet<T> {
    receiver: mpsc::Receiver<T>,
    inlet: Ghost<Inlet<T>>,
}

/// Where the answer to one load arrives. Only [`reply_channel`] makes one.
#[verifier::reject_recursive_types(T)]
pub struct Answer<T> {
    receiver: oneshot::Receiver<T>,
    respond: Ghost<oneshot::Sender<T>>,
}

impl<T> Inlet<T> {
    /// How many items the channel buffers.
    pub closed spec fn capacity(&self) -> nat {
        self.capacity@
    }

    /// The sender underneath.
    pub closed spec fn sender_value(&self) -> mpsc::Sender<T> {
        self.sender
    }

    /// The sender underneath, for whoever awaits room in the channel.
    pub fn sender(&self) -> (sender: &mpsc::Sender<T>)
        ensures
            *sender == self.sender_value(),
    {
        &self.sender
    }

    /// The sender underneath, where this handle is not needed any more.
    pub fn into_sender(self) -> (sender: mpsc::Sender<T>)
        ensures
            sender == self.sender_value(),
    {
        self.sender
    }
}

impl<T> Clone for Inlet<T> {
    /// Another handle on the same channel.
    fn clone(&self) -> (copy: Self)
        ensures
            copy == *self,
    {
        Inlet { sender: same_sender(&self.sender), capacity: self.capacity }
    }
}

impl<T> Outlet<T> {
    /// The inlet of the channel this drains.
    pub closed spec fn inlet(&self) -> Inlet<T> {
        self.inlet@
    }

    /// The receiver underneath.
    pub closed spec fn receiver_value(&self) -> mpsc::Receiver<T> {
        self.receiver
    }

    /// The receiver underneath, for whoever awaits the next item.
    pub fn into_receiver(self) -> (receiver: mpsc::Receiver<T>)
        ensures
            receiver == self.receiver_value(),
    {
        self.receiver
    }
}

impl<T> Answer<T> {
    /// The channel whose reply arrives here.
    pub closed spec fn respond(&self) -> oneshot::Sender<T> {
        self.respond@
    }

    /// The receiver underneath.
    pub closed spec fn receiver_value(&self) -> oneshot::Receiver<T> {
        self.receiver
    }

    /// The receiver underneath, for whoever awaits the reply.
    pub fn into_receiver(self) -> (receiver: oneshot::Receiver<T>)
        ensures
            receiver == self.receiver_value(),
    {
        self.receiver
    }
}

/// Calls `tokio::sync::mpsc::channel`: a channel that buffers `capacity` items, filled at the
/// inlet and drained at the outlet. It panics for no capacity, and above the permits that a
/// semaphore can have.
#[verifier::external_body]
pub(crate) fn bounded<T>(capacity: usize) -> (channel: (Inlet<T>, Outlet<T>))
    requires
        0 < capacity <= most_slots(),
    ensures
        channel.0.capacity() == capacity,
        channel.1.inlet() == channel.0,
{
    let (sender, receiver) = mpsc::channel(capacity);
    let inlet = Inlet { sender, capacity: Ghost(capacity as nat) };
    let drains = Ghost(inlet);
    (inlet, Outlet { receiver, inlet: drains })
}

/// Calls `tokio::sync::mpsc::Sender::clone`: another handle on the same channel, which the
/// proofs do not tell from the first.
#[verifier::external_body]
fn same_sender<T>(sender: &mpsc::Sender<T>) -> (copy: mpsc::Sender<T>)
    ensures
        copy == *sender,
{
    sender.clone()
}

/// Calls `tokio::sync::oneshot::channel`: what is sent on the first half arrives at the second.
#[verifier::external_body]
pub(crate) fn reply_channel<T>() -> (channel: (oneshot::Sender<T>, Answer<T>))
    ensures
        channel.1.respond() == channel.0,
{
    let (respond, receiver) = oneshot::channel();
    let answers = Ghost(respond);
    (respond, Answer { receiver, respond: answers })
}

} // verus!
