//! The downstream side of batching.
use std::collections::{HashMap, HashSet};
use std::future::Future;
use std::hash::Hash;
use vstd::prelude::*;
use vstd::std_specs::hash::obeys_key_model;

verus! {

/// Loads a whole batch of distinct inputs with one downstream call.
///
/// Strict contract: every requested input gets a value.
/// A missing input yields [`crate::error::Error::MissingOutput`] to its waiters;
/// an unknown input yields [`crate::error::Error::ContractViolation`] for the whole batch
/// (it wins if both occur). Absence semantics belong in the `Output` type.
pub trait BatchCollector: Clone + Send + Sync + 'static {
    type Input: Hash + Eq + Clone + Send + 'static;

    type Output: Send + Clone + 'static;

    type Error: Send + Sync + Clone + 'static;

    /// The downstream call in progress.
    type Loading: Future<Output = Result<HashMap<Self::Input, Self::Output>, Self::Error>> + Send;

    fn load(&self, batch: HashSet<Self::Input>) -> Self::Loading;
}

/// What the identity of an input rests on: equal inputs hash alike, `==` means the same value,
/// and a clone is the value it was made from.
pub open spec fn is_identity<I: Clone>() -> bool {
    &&& obeys_key_model::<I>()
    &&& forall|a: I, b: I| #[trigger] cloned(a, b) ==> a == b
}

} // verus!
