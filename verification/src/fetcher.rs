//! The source a [`crate::deduplicator::Deduplicator`] fetches from.
use std::future::Future;
use std::hash::Hash;
use vstd::prelude::*;

verus! {

/// Fetches one value for one input.
pub trait Fetcher: Clone + Send + Sync + 'static {
    type Input: Hash + Eq + Clone + Send + 'static;

    type Output: Clone + Send + Sync + 'static;

    type Error: Clone + Send + Sync + 'static;

    /// The fetch in progress.
    type Loading: Future<Output = Result<Self::Output, Self::Error>> + Send;

    fn load(&self, input: Self::Input) -> Self::Loading;
}

} // verus!
