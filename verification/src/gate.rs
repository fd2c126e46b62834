//! The semaphore underneath the slots.
use std::sync::Arc;
use tokio::sync::Semaphore;
use vstd::prelude::*;

verus! {

/// A counting semaphore, opaque to the proofs.
#[verifier::external_type_specification]
#[verifier::external_body]
pub struct ExSemaphore(Semaphore);

/// The slots of a gate. Only [`gate`] makes one.
pub struct Gate {
    permits: Arc<Semaphore>,
    slots: Ghost<nat>,
}

/// The most slots a gate can have.
pub open spec fn most_slots() -> nat {
    (usize::MAX / 8) as nat
}

/// Reads `tokio::sync::Semaphore::MAX_PERMITS`, which is `usize::MAX` shifted right by three.
#[verifier::external_body]
pub(crate) fn max_permits() -> (most: usize)
    ensures
        most == most_slots(),
{
    Semaphore::MAX_PERMITS
}

/// Calls `tokio::sync::Semaphore::new`, which makes a semaphore with this many permits and
/// panics above `MAX_PERMITS`.
#[verifier::external_body]
pub(crate) fn gate(permits: usize) -> (gate: Gate)
    requires
        permits <= most_slots(),
    ensures
        gate.slots() == permits,
{
    Gate { permits: Arc::new(Semaphore::new(permits)), slots: Ghost(permits as nat) }
}

impl Gate {
    /// How many batches may hold a slot at once.
    pub closed spec fn slots(&self) -> nat {
        self.slots@
    }

    /// The semaphore whose permits are the slots.
    pub closed spec fn semaphore(&self) -> Semaphore {
        *self.permits
    }

    /// The semaphore whose permits are the slots, for whoever awaits one.
    pub fn permits(&self) -> (permits: &Arc<Semaphore>)
        ensures
            **permits == self.semaphore(),
    {
        &self.permits
    }
}

impl Clone for Gate {
    /// Another handle on the same slots.
    fn clone(&self) -> (copy: Self)
        ensures
            copy == *self,
    {
        Gate { permits: Arc::clone(&self.permits), slots: self.slots }
    }
}

} // verus!
