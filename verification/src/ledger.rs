//! The record of what was read of reply channels.
use tokio::sync::oneshot;
use vstd::prelude::*;

verus! {

/// The sending half of a reply channel, opaque to the proofs.
#[verifier::external_type_specification]
#[verifier::external_body]
#[verifier::reject_recursive_types(T)]
pub struct ExOneshotSender<T>(oneshot::Sender<T>);

/// One look at a reply channel: which one was asked, and whether its caller was gone.
#[verifier::reject_recursive_types(O)]
pub ghost struct Look<O> {
    pub respond: oneshot::Sender<O>,
    pub closed: bool,
}

/// What was read of reply channels, in order. It holds nothing at run time, and only
/// [`Ledger::is_closed`] adds to it.
#[verifier::reject_recursive_types(O)]
pub struct Ledger<O> {
    looks: Ghost<Seq<Look<O>>>,
}

impl<O> View for Ledger<O> {
    type V = Seq<Look<O>>;

    closed spec fn view(&self) -> Seq<Look<O>> {
        self.looks@
    }
}

impl<O> Default for Ledger<O> {
    /// The record of nothing.
    fn default() -> (ledger: Self)
        ensures
            ledger@ == Seq::<Look<O>>::empty(),
    {
        Ledger { looks: Ghost(Seq::empty()) }
    }
}

impl<O> Ledger<O> {
    /// Calls `tokio::sync::oneshot::Sender::is_closed`: whether the receiver is gone at this
    /// moment. The receiver lives with another task and may go at any time, so nothing is promised
    /// of the answer but that it goes on record, with the channel that was asked.
    #[verifier::external_body]
    pub(crate) fn is_closed(&mut self, respond: &oneshot::Sender<O>) -> (closed: bool)
        ensures
            final(self)@ == old(self)@.push(Look { respond: *respond, closed }),
    {
        respond.is_closed()
    }
}

} // verus!
