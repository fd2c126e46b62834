//! Evidence of what was handed to reply channels.
use tokio::sync::oneshot;
use vstd::prelude::*;

verus! {

/// Evidence that a value was handed to a reply channel. Only [`send`] makes one.
#[verifier::reject_recursive_types(O)]
pub struct Receipt<O> {
    delivered: bool,
    respond: Ghost<oneshot::Sender<O>>,
    value: Ghost<O>,
}

impl<O> Receipt<O> {
    /// The channel the value was handed to.
    pub closed spec fn respond(&self) -> oneshot::Sender<O> {
        self.respond@
    }

    /// The value that was handed over.
    pub closed spec fn value(&self) -> O {
        self.value@
    }

    /// Whether the receiver was there to take it.
    pub closed spec fn is_delivered(&self) -> bool {
        self.delivered
    }

    /// Whether the receiver was there to take it.
    pub fn delivered(&self) -> (delivered: bool)
        ensures
            delivered == self.is_delivered(),
    {
        self.delivered
    }
}

/// Calls `tokio::sync::oneshot::Sender::send`, which hands the value to the waiting receiver.
/// The receipt says which value went to which channel. Whether the receiver is still there
/// is up to another task, so nothing is promised of that.
#[verifier::external_body]
pub(crate) fn send<O>(respond: oneshot::Sender<O>, value: O) -> (receipt: Receipt<O>)
    ensures
        receipt.respond() == respond,
        receipt.value() == value,
{
    let (to, what) = (Ghost(respond), Ghost(value));
    Receipt { delivered: respond.send(value).is_ok(), respond: to, value: what }
}

} // verus!
